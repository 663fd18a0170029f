use lspmux::socketwrapper::{
    activation_variables, parse_number, ActivationError, ActivationStep, CallOutcome, Listener,
    Platform, Removal, START_FD,
};

const PLATFORM: Platform =
    Platform { inet: 2, inet6: 10, unix: 1, close_on_exec: 1, nonblocking: 0o4000 };

/// Where the outcomes of calls lead.
fn follow(outcomes: &[CallOutcome]) -> ActivationStep {
    let mut step = Listener::from_activation(Some("7"), Some("1"), 7);
    for outcome in outcomes {
        step = step.advance(*outcome, &PLATFORM);
    }
    step
}

fn name(family: i32) -> CallOutcome {
    CallOutcome::Name { ret: 0, family }
}

fn control(ret: i32) -> CallOutcome {
    CallOutcome::Control { ret }
}

#[test]
fn numbers_are_read_in_decimal() {
    assert_eq!(parse_number("0"), Some(0));
    assert_eq!(parse_number("12"), Some(12));
    assert_eq!(parse_number("+12"), Some(12));
    assert_eq!(parse_number("0012"), Some(12));
    assert_eq!(parse_number("4294967295"), Some(u32::MAX));
}

#[test]
fn other_texts_are_no_numbers() {
    for text in ["", "+", "-1", "++1", "1 ", " 1", "1x", "0x10", "4294967296", "99999999999999", "١"]
    {
        assert_eq!(parse_number(text), None, "{text:?}");
        assert_eq!(parse_number(text), text.parse::<u32>().ok());
    }
}

#[test]
fn activation_is_for_the_named_process_only() {
    assert_eq!(Listener::from_activation(None, Some("1"), 7), ActivationStep::Inactive);
    assert_eq!(Listener::from_activation(Some("8"), Some("1"), 7), ActivationStep::Inactive);
    assert_eq!(Listener::from_activation(Some("x"), Some("1"), 7), ActivationStep::Inactive);
    assert_eq!(Listener::from_activation(Some("7"), Some("1"), 7), ActivationStep::ReadName);
}

#[test]
fn activation_brings_exactly_one_socket() {
    assert_eq!(Listener::from_activation(Some("7"), None, 7), ActivationStep::Inactive);
    assert_eq!(Listener::from_activation(Some("7"), Some("no"), 7), ActivationStep::Inactive);
    assert_eq!(Listener::from_activation(Some("7"), Some("0"), 7), ActivationStep::Inactive);
    assert_eq!(
        Listener::from_activation(Some("7"), Some("2"), 7),
        ActivationStep::Failed(ActivationError::SocketCount(2))
    );
}

#[test]
fn descriptor_is_prepared_before_it_is_taken_over() {
    assert_eq!(follow(&[name(2)]), ActivationStep::ReadDescriptorFlags { family: 2 });
    assert_eq!(
        follow(&[name(2), control(4)]),
        ActivationStep::WriteDescriptorFlags { family: 2, flags: 5 }
    );
    assert_eq!(
        follow(&[name(2), control(4), control(0)]),
        ActivationStep::ReadStatusFlags { family: 2 }
    );
    assert_eq!(
        follow(&[name(2), control(4), control(0), control(2)]),
        ActivationStep::WriteStatusFlags { family: 2, flags: 0o4002 }
    );
    let prepared = |family: i32| {
        follow(&[name(family), control(4), control(0), control(2), control(0)])
    };
    assert_eq!(prepared(2), ActivationStep::Listen(Listener::Tcp));
    assert_eq!(prepared(10), ActivationStep::Listen(Listener::Tcp));
    assert_eq!(prepared(1), ActivationStep::Listen(Listener::Unix));
    assert_eq!(prepared(16), ActivationStep::Failed(ActivationError::Family(16)));
    assert_eq!(START_FD, 3);
}

#[test]
fn failing_calls_are_told_apart() {
    assert_eq!(
        follow(&[CallOutcome::Name { ret: -1, family: 0 }]),
        ActivationStep::Failed(ActivationError::Name)
    );
    assert_eq!(
        follow(&[name(2), control(-1)]),
        ActivationStep::Failed(ActivationError::CloseOnExec)
    );
    assert_eq!(
        follow(&[name(2), control(0), control(-1)]),
        ActivationStep::Failed(ActivationError::CloseOnExec)
    );
    assert_eq!(
        follow(&[name(2), control(0), control(0), control(-1)]),
        ActivationStep::Failed(ActivationError::Nonblocking)
    );
    assert_eq!(
        follow(&[name(2), control(0), control(0), control(0), control(-1)]),
        ActivationStep::Failed(ActivationError::Nonblocking)
    );
}

#[test]
fn activation_variables_are_the_four_of_systemd() {
    assert_eq!(
        activation_variables(),
        vec!["LISTEN_PID", "LISTEN_FDS", "LISTEN_FDNAMES", "LISTEN_PIDFDID"]
    );
}

#[test]
fn old_socket_need_not_have_been_there() {
    assert!(Listener::Unix.may_bind(Removal::Removed));
    assert!(Listener::Unix.may_bind(Removal::NotFound));
    assert!(!Listener::Unix.may_bind(Removal::Failed));
    assert!(Listener::Tcp.may_bind(Removal::Failed));
}
