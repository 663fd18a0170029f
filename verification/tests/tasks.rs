use std::time::{Duration, Instant};

use lspmux::clock::{elapsed_seconds, to_signed};
use lspmux::lsp::{Message, Notification, Payload};
use lspmux::tasks::{
    stderr_task, stdin_task, stdout_task, trim_line, Progress, ReadOutcome, WriteOutcome,
};

#[test]
fn writing_ends_with_the_first_failure() {
    assert_eq!(stdin_task(WriteOutcome::Written), Progress::Next);
    assert_eq!(stdin_task(WriteOutcome::BrokenPipe), Progress::Stop);
    assert_eq!(stdin_task(WriteOutcome::Failed), Progress::ReportAndStop);
}

#[test]
fn complaints_are_read_to_their_end() {
    assert_eq!(stderr_task(Some(7), "panic!\n"), (Progress::Next, Some("panic!")));
    assert_eq!(stderr_task(Some(1), "\n"), (Progress::Next, Some("")));
    assert_eq!(stderr_task(None, "half a li"), (Progress::ReportAndNext, None));
    assert_eq!(stderr_task(Some(0), ""), (Progress::Stop, None));
}

#[test]
fn white_space_comes_off_the_end_of_a_line_only() {
    for line in ["", "a", "a\r\n", "  a b \t", " \n ", "é\u{2003}\u{a0}", "a\u{200b}", "x\u{feff}\n"] {
        assert_eq!(trim_line(line), line.trim_end(), "{line:?}");
    }
    assert_eq!(trim_line("  a b \t\r\n"), "  a b");
}

#[test]
fn messages_are_read_until_the_server_closes_its_end() {
    let message = || {
        Message::Notification(Notification { method: "m".to_owned(), params: Payload::Null })
    };
    assert_eq!(stdout_task(ReadOutcome::Read(message())), (Progress::Next, Some(message())));
    assert_eq!(stdout_task(ReadOutcome::Failed), (Progress::ReportAndNext, None));
    assert_eq!(stdout_task(ReadOutcome::Closed), (Progress::Stop, None));
}

#[test]
fn seconds_are_counted_from_the_start() {
    let now = Instant::now();
    assert_eq!(elapsed_seconds(&now), 0);
    if let Some(earlier) = now.checked_sub(Duration::from_secs(5)) {
        let seconds = elapsed_seconds(&earlier);
        assert!((5..20).contains(&seconds));
    }
}

#[test]
fn seconds_never_fall() {
    let start = Instant::now();
    let mut last = elapsed_seconds(&start);
    assert!(last >= 0);
    for _ in 0..1000 {
        let seconds = elapsed_seconds(&start);
        assert!(seconds >= last);
        last = seconds;
    }
}

#[test]
fn large_numbers_of_seconds_turn_negative() {
    assert_eq!(to_signed(0), 0);
    assert_eq!(to_signed(i64::MAX as u64), i64::MAX);
    assert_eq!(to_signed(i64::MAX as u64 + 1), i64::MIN);
    assert_eq!(to_signed(u64::MAX), -1);
}

#[test]
fn queue_is_written_up_to_the_first_failure() {
    let outcomes = [
        WriteOutcome::Written,
        WriteOutcome::Written,
        WriteOutcome::Failed,
        WriteOutcome::Written,
    ];
    let mut tried = 0;
    for outcome in outcomes {
        tried += 1;
        if stdin_task(outcome) != Progress::Next {
            break;
        }
    }
    assert_eq!(tried, 3);
}

#[test]
fn failed_reads_are_passed_over() {
    let message = |method: &str| {
        Message::Notification(Notification { method: method.to_owned(), params: Payload::Null })
    };
    let reads = vec![
        ReadOutcome::Failed,
        ReadOutcome::Read(message("a")),
        ReadOutcome::Failed,
        ReadOutcome::Read(message("b")),
        ReadOutcome::Closed,
        ReadOutcome::Read(message("c")),
    ];
    let mut handled = Vec::new();
    for read in reads {
        let (progress, message) = stdout_task(read);
        handled.extend(message);
        if progress == Progress::Stop {
            break;
        }
    }
    assert_eq!(handled, vec![message("a"), message("b")]);
}
