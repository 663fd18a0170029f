//! When the tasks that serve the streams of a language server go on, and when
//! they stop.
use vstd::prelude::*;
use vstd::string::StrSliceExecFns;

use crate::lsp::{Message, MessageView};

verus! {

/// Whether `char::is_whitespace` finds that a character is white space, which is
/// a property of Unicode.
pub uninterp spec fn is_white_space(c: char) -> bool;

/// `char::is_whitespace`. Its result is named [`is_white_space`]; a space and a
/// line feed are white space.
pub assume_specification[ char::is_whitespace ](c: char) -> (white: bool)
    ensures
        white == is_white_space(c),
        c == ' ' || c == '\n' ==> white,
;

/// A line without the white space at its end, a line break for example.
pub open spec fn trimmed(line: Seq<char>) -> Seq<char>
    decreases line.len(),
{
    if line.len() > 0 && is_white_space(line.last()) {
        trimmed(line.drop_last())
    } else {
        line
    }
}

/// Takes the white space off the end of a line, and the line break with it.
pub fn trim_line(line: &str) -> (rest: &str)
    ensures
        rest@ == trimmed(line@),
        rest@.len() > 0 ==> rest@.last() != '\n',
{
    let mut end: usize = line.unicode_len();
    assert(line@.take(end as int) =~= line@);
    while end > 0
        invariant_except_break
            end <= line@.len(),
            trimmed(line@.take(end as int)) == trimmed(line@),
        ensures
            end <= line@.len(),
            line@.take(end as int) == trimmed(line@),
            end > 0 ==> line@[end - 1] != '\n',
        decreases end,
    {
        assert(line@.take(end as int).last() == line@[end - 1]);
        assert(line@.take(end as int).drop_last() =~= line@.take(end - 1));
        if !line.get_char(end - 1).is_whitespace() {
            break;
        }
        end -= 1;
    }
    line.substring_char(0, end)
}

/// How a task goes on.
#[derive(Clone, Copy, Debug, PartialEq, Eq, Structural)]
pub enum Progress {
    /// Go on.
    Next,
    /// Report the failure, and go on.
    ReportAndNext,
    /// Stop.
    Stop,
    /// Report the failure, and stop.
    ReportAndStop,
}

/// The task goes on.
pub open spec fn goes_on(progress: Progress) -> bool {
    progress == Progress::Next || progress == Progress::ReportAndNext
}

/// What came of writing a message to the server.
#[derive(Clone, Copy, Debug, PartialEq, Eq, Structural)]
pub enum WriteOutcome {
    Written,
    /// The server has closed its end.
    BrokenPipe,
    Failed,
}

/// How writing goes on after a message was written, or could not be.
pub open spec fn after_write(outcome: WriteOutcome) -> Progress {
    match outcome {
        WriteOutcome::Written => Progress::Next,
        WriteOutcome::BrokenPipe => Progress::Stop,
        WriteOutcome::Failed => Progress::ReportAndStop,
    }
}

/// Writing ends with the first failure. That the server has closed its end is
/// nothing to report.
pub fn stdin_task(outcome: WriteOutcome) -> (progress: Progress)
    ensures
        progress == after_write(outcome),
{
    match outcome {
        WriteOutcome::Written => Progress::Next,
        WriteOutcome::BrokenPipe => Progress::Stop,
        WriteOutcome::Failed => Progress::ReportAndStop,
    }
}

/// What came of a queue of messages to the server.
pub ghost struct Writing {
    /// Whether the next message is to be written
    pub running: bool,
    /// The messages whose writing was tried
    pub tried: Seq<MessageView>,
    /// The messages that were written
    pub written: Seq<MessageView>,
}

/// What comes of a queue of messages, each with what comes of writing it if
/// that is tried.
pub open spec fn writing_of(queue: Seq<(MessageView, WriteOutcome)>) -> Writing
    decreases queue.len(),
{
    if queue.len() == 0 {
        Writing { running: true, tried: Seq::empty(), written: Seq::empty() }
    } else {
        let before = writing_of(queue.drop_last());
        let (message, outcome) = queue.last();
        if !before.running {
            before
        } else {
            Writing {
                running: goes_on(after_write(outcome)),
                tried: before.tried.push(message),
                written: if outcome == WriteOutcome::Written {
                    before.written.push(message)
                } else {
                    before.written
                },
            }
        }
    }
}

/// The messages of a queue.
pub open spec fn messages_of(queue: Seq<(MessageView, WriteOutcome)>) -> Seq<MessageView> {
    queue.map_values(|entry: (MessageView, WriteOutcome)| entry.0)
}

/// As long as no write fails, all messages are written, in order.
pub proof fn all_messages_are_written(queue: Seq<(MessageView, WriteOutcome)>)
    requires
        forall|i: int|
            0 <= i < queue.len() ==> (#[trigger] queue[i]).1 == WriteOutcome::Written,
    ensures
        writing_of(queue) == (Writing {
            running: true,
            tried: messages_of(queue),
            written: messages_of(queue),
        }),
    decreases queue.len(),
{
    if queue.len() == 0 {
        assert(messages_of(queue) =~= Seq::empty());
    } else {
        let rest = queue.drop_last();
        assert forall|i: int| 0 <= i < rest.len() implies (#[trigger] rest[i]).1
            == WriteOutcome::Written by {
            assert(queue[i] == rest[i]);
        }
        all_messages_are_written(rest);
        assert(queue[queue.len() - 1].1 == WriteOutcome::Written);
        assert(messages_of(queue) =~= messages_of(rest).push(queue.last().0));
    }
}

/// Where the write at position `k` is the first to fail, exactly the messages
/// before it are written, and no message after it is tried.
pub proof fn writing_ends_with_the_first_failure(queue: Seq<(MessageView, WriteOutcome)>, k: int)
    requires
        0 <= k < queue.len(),
        queue[k].1 != WriteOutcome::Written,
        forall|i: int| 0 <= i < k ==> (#[trigger] queue[i]).1 == WriteOutcome::Written,
    ensures
        writing_of(queue) == (Writing {
            running: false,
            tried: messages_of(queue).take(k + 1),
            written: messages_of(queue).take(k),
        }),
    decreases queue.len(),
{
    let rest = queue.drop_last();
    if k == queue.len() - 1 {
        assert forall|i: int| 0 <= i < rest.len() implies (#[trigger] rest[i]).1
            == WriteOutcome::Written by {
            assert(queue[i] == rest[i]);
        }
        all_messages_are_written(rest);
        assert(messages_of(queue).take(k) =~= messages_of(rest));
        assert(messages_of(queue).take(k + 1) =~= messages_of(rest).push(queue.last().0));
    } else {
        assert forall|i: int| 0 <= i < k implies (#[trigger] rest[i]).1
            == WriteOutcome::Written by {
            assert(queue[i] == rest[i]);
        }
        assert(rest[k] == queue[k]);
        writing_ends_with_the_first_failure(rest, k);
        assert(messages_of(queue).take(k) =~= messages_of(rest).take(k));
        assert(messages_of(queue).take(k + 1) =~= messages_of(rest).take(k + 1));
    }
}

/// How reading what the server complains about goes on after so many bytes were
/// read, or nothing could be.
pub open spec fn after_line(read: Option<usize>) -> Progress {
    match read {
        Some(0) => Progress::Stop,
        Some(_) => Progress::Next,
        None => Progress::ReportAndNext,
    }
}

/// Reading what the server complains about ends only once the server has closed
/// its end, and nothing is read any more. Of a line that was read, what is
/// returned is to be logged.
pub fn stderr_task(read: Option<usize>, line: &str) -> (decision: (Progress, Option<&str>))
    ensures
        decision.0 == after_line(read),
        decision.1 is Some <==> after_line(read) == Progress::Next,
        decision.1 matches Some(logged) ==> logged@ == trimmed(line@) && (logged@.len() > 0
            ==> logged@.last() != '\n'),
{
    match read {
        Some(length) => if length == 0 {
            (Progress::Stop, None)
        } else {
            (Progress::Next, Some(trim_line(line)))
        },
        None => (Progress::ReportAndNext, None),
    }
}

/// What is logged while the complaints of a server are read.
pub ghost enum LogEntry {
    Line(Seq<char>),
    Failure,
}

/// Whether reading goes on after reads, each with its line, and what was logged
/// by then.
pub open spec fn log_of(reads: Seq<(Option<usize>, Seq<char>)>) -> (bool, Seq<LogEntry>)
    decreases reads.len(),
{
    if reads.len() == 0 {
        (true, Seq::empty())
    } else {
        let (running, log) = log_of(reads.drop_last());
        let (read, line) = reads.last();
        if !running {
            (false, log)
        } else {
            match after_line(read) {
                Progress::Next => (true, log.push(LogEntry::Line(trimmed(line)))),
                Progress::ReportAndNext => (true, log.push(LogEntry::Failure)),
                Progress::Stop => (false, log),
                Progress::ReportAndStop => (false, log.push(LogEntry::Failure)),
            }
        }
    }
}

/// Up to the end of the stream every line is logged once, in order and without
/// the white space at its end, and so is every failure to read one; and reading
/// ends there and not before.
pub proof fn every_line_is_logged_once(
    reads: Seq<(Option<usize>, Seq<char>)>,
    at_end: Seq<char>,
)
    requires
        forall|i: int| 0 <= i < reads.len() ==> (#[trigger] reads[i]).0 != Some(0usize),
    ensures
        log_of(reads).0,
        log_of(reads).1 == reads.map_values(
            |read: (Option<usize>, Seq<char>)|
                match read.0 {
                    Some(_) => LogEntry::Line(trimmed(read.1)),
                    None => LogEntry::Failure,
                },
        ),
        log_of(reads.push((Some(0usize), at_end))) == (false, log_of(reads).1),
    decreases reads.len(),
{
    let entry = |read: (Option<usize>, Seq<char>)|
        match read.0 {
            Some(_) => LogEntry::Line(trimmed(read.1)),
            None => LogEntry::Failure,
        };
    if reads.len() > 0 {
        let rest = reads.drop_last();
        assert forall|i: int| 0 <= i < rest.len() implies (#[trigger] rest[i]).0 != Some(
            0usize,
        ) by {
            assert(reads[i] == rest[i]);
        }
        every_line_is_logged_once(rest, at_end);
        assert(reads[reads.len() - 1].0 != Some(0usize));
        assert(reads.map_values(entry) =~= rest.map_values(entry).push(entry(reads.last())));
    }
    assert(log_of(reads).1 =~= reads.map_values(entry));
    assert(reads.push((Some(0usize), at_end)).drop_last() =~= reads);
}

/// What came of reading a message of the server.
#[derive(Debug, PartialEq, Eq)]
pub enum ReadOutcome {
    Read(Message),
    /// The server has closed its end.
    Closed,
    Failed,
}

/// How reading goes on, and the message that is to be handled, if any.
pub open spec fn after_read(outcome: ReadOutcome) -> (Progress, Option<Message>) {
    match outcome {
        ReadOutcome::Read(message) => (Progress::Next, Some(message)),
        ReadOutcome::Closed => (Progress::Stop, None),
        ReadOutcome::Failed => (Progress::ReportAndNext, None),
    }
}

/// Reading ends only once the server has closed its end: a message that could
/// not be read is passed over. A message that could be read is to be handled
/// before the next one.
pub fn stdout_task(outcome: ReadOutcome) -> (decision: (Progress, Option<Message>))
    ensures
        decision == after_read(outcome),
{
    match outcome {
        ReadOutcome::Read(message) => (Progress::Next, Some(message)),
        ReadOutcome::Closed => (Progress::Stop, None),
        ReadOutcome::Failed => (Progress::ReportAndNext, None),
    }
}

/// Whether reading goes on after reads, and the messages that were handled by
/// then, in order.
pub open spec fn handled_of(reads: Seq<ReadOutcome>) -> (bool, Seq<Message>)
    decreases reads.len(),
{
    if reads.len() == 0 {
        (true, Seq::empty())
    } else {
        let (running, handled) = handled_of(reads.drop_last());
        if !running {
            (false, handled)
        } else {
            let (progress, message) = after_read(reads.last());
            (
                goes_on(progress),
                match message {
                    Some(message) => handled.push(message),
                    None => handled,
                },
            )
        }
    }
}

/// The reads that did not fail.
pub open spec fn readable(reads: Seq<ReadOutcome>) -> Seq<ReadOutcome> {
    reads.filter(|read: ReadOutcome| read !is Failed)
}

/// Reads that fail change nothing: the same messages are handled in the same
/// order as without them, and reading goes on as without them.
pub proof fn failed_reads_change_nothing(reads: Seq<ReadOutcome>)
    ensures
        handled_of(reads) == handled_of(readable(reads)),
    decreases reads.len(),
{
    reveal(Seq::filter);
    if reads.len() > 0 {
        failed_reads_change_nothing(reads.drop_last());
        if reads.last() !is Failed {
            assert(readable(reads) =~= readable(reads.drop_last()).push(reads.last()));
            assert(readable(reads).drop_last() =~= readable(reads.drop_last()));
        } else {
            assert(readable(reads) =~= readable(reads.drop_last()));
        }
    } else {
        assert(readable(reads) =~= Seq::empty());
    }
}

/// Reading ends at the first read that finds the stream closed, and not before;
/// nothing is handled after it. Before it every message that is read is handled.
pub proof fn reading_ends_where_the_stream_is_closed(reads: Seq<ReadOutcome>)
    ensures
        handled_of(reads).0 <==> !reads.contains(ReadOutcome::Closed),
        forall|k: int|
            0 <= k < reads.len() && reads[k] == ReadOutcome::Closed ==> handled_of(reads)
                == handled_of(#[trigger] reads.take(k + 1)) && handled_of(reads).1 == handled_of(
                reads.take(k),
            ).1,
        !reads.contains(ReadOutcome::Closed) && reads.len() > 0 && reads.last() is Read
            ==> handled_of(reads).1 == handled_of(reads.drop_last()).1.push(reads.last()->Read_0),
    decreases reads.len(),
{
    if reads.len() > 0 {
        let rest = reads.drop_last();
        reading_ends_where_the_stream_is_closed(rest);
        if rest.contains(ReadOutcome::Closed) {
            let i = choose|i: int| 0 <= i < rest.len() && rest[i] == ReadOutcome::Closed;
            assert(reads[i] == ReadOutcome::Closed);
        }
        if reads.contains(ReadOutcome::Closed) && reads.last() != ReadOutcome::Closed {
            let i = choose|i: int| 0 <= i < reads.len() && reads[i] == ReadOutcome::Closed;
            assert(rest[i] == ReadOutcome::Closed);
        }
        if reads.last() == ReadOutcome::Closed {
            assert(reads[reads.len() - 1] == ReadOutcome::Closed);
        }
        assert forall|k: int| 0 <= k < reads.len() && reads[k] == ReadOutcome::Closed implies
            handled_of(reads) == handled_of(#[trigger] reads.take(k + 1)) && handled_of(reads).1
            == handled_of(reads.take(k)).1 by {
            if k == reads.len() - 1 {
                assert(reads.take(k + 1) =~= reads);
                assert(reads.take(k) =~= rest);
            } else {
                assert(rest[k] == ReadOutcome::Closed);
                assert(reads.take(k + 1) =~= rest.take(k + 1));
                assert(reads.take(k) =~= rest.take(k));
                assert(rest.contains(ReadOutcome::Closed));
            }
        }
    }
}

/// Of a line everything is logged up to the last character that is no white
/// space, and what is left out is white space alone.
pub proof fn trimming_takes_white_space_off_the_end(line: Seq<char>)
    ensures
        trimmed(line).len() <= line.len(),
        trimmed(line) == line.take(trimmed(line).len() as int),
        forall|i: int|
            trimmed(line).len() <= i < line.len() ==> is_white_space(#[trigger] line[i]),
        trimmed(line).len() > 0 ==> !is_white_space(trimmed(line).last()),
    decreases line.len(),
{
    if line.len() > 0 && is_white_space(line.last()) {
        let rest = line.drop_last();
        trimming_takes_white_space_off_the_end(rest);
        let n = trimmed(rest).len() as int;
        assert(rest.take(n) =~= line.take(n));
        assert forall|i: int| n <= i < line.len() implies is_white_space(#[trigger] line[i]) by {
            if i < rest.len() {
                assert(rest[i] == line[i]);
            }
        }
    } else {
        assert(line.take(line.len() as int) =~= line);
    }
}

/// What is reported, and what ends a task: only a write that fails for another
/// reason than that the server has closed its end is reported, and both end the
/// writing; only reads that fail are reported, and none of them ends the
/// reading, while the end of a stream does, silently.
pub proof fn failures_are_reported_and_ends_are_not(
    write: WriteOutcome,
    read: ReadOutcome,
    line: Option<usize>,
)
    ensures
        after_write(write) == Progress::Next <==> write == WriteOutcome::Written,
        after_write(write) == Progress::Stop <==> write == WriteOutcome::BrokenPipe,
        after_write(write) == Progress::ReportAndStop <==> write == WriteOutcome::Failed,
        after_read(read).0 == Progress::Next <==> read is Read,
        after_read(read).0 == Progress::Stop <==> read is Closed,
        after_read(read).0 == Progress::ReportAndNext <==> read is Failed,
        after_read(read).1 is Some <==> read is Read,
        read matches ReadOutcome::Read(message) ==> after_read(read).1 == Some(message),
        after_line(line) == Progress::Next <==> (line matches Some(n) && n > 0),
        after_line(line) == Progress::Stop <==> line == Some(0usize),
        after_line(line) == Progress::ReportAndNext <==> line is None,
        goes_on(Progress::Next) && goes_on(Progress::ReportAndNext),
        !goes_on(Progress::Stop) && !goes_on(Progress::ReportAndStop),
{
}

} // verus!
