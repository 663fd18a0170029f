//! How a listening socket is come by.
use vstd::prelude::*;
use vstd::string::StrSliceExecFns;

use crate::text::texts;

verus! {

/// The first descriptor that a process gets by socket activation.
pub const START_FD: i32 = 3;

/// The number that a string of decimal digits stands for.
pub open spec fn decimal(digits: Seq<char>) -> nat
    decreases digits.len(),
{
    if digits.len() == 0 {
        0
    } else {
        (decimal(digits.drop_last()) * 10 + (digits.last() as nat - '0' as nat)) as nat
    }
}

/// The string consists of decimal digits, and is not empty.
pub open spec fn is_decimal(text: Seq<char>) -> bool {
    text.len() > 0 && forall|i: int| 0 <= i < text.len() ==> '0' <= #[trigger] text[i] <= '9'
}

/// The unsigned number that a text stands for: decimal digits, with or without
/// a plus sign in front of them.
pub open spec fn number_of(text: Seq<char>) -> Option<u32> {
    let digits = if text.len() > 0 && text[0] == '+' {
        text.skip(1)
    } else {
        text
    };
    if is_decimal(digits) && decimal(digits) <= u32::MAX {
        Some(decimal(digits) as u32)
    } else {
        None
    }
}

proof fn lemma_decimal_grows(digits: Seq<char>, n: int)
    requires
        is_decimal(digits),
        0 <= n <= digits.len(),
    ensures
        decimal(digits.take(n)) <= decimal(digits),
    decreases digits.len() - n,
{
    if n == digits.len() {
        assert(digits.take(n) =~= digits);
    } else {
        lemma_decimal_grows(digits, n + 1);
        let longer = digits.take(n + 1);
        assert(longer.drop_last() =~= digits.take(n));
        assert('0' <= digits[n] <= '9');
    }
}

/// Reads an unsigned number.
pub fn parse_number(text: &str) -> (number: Option<u32>)
    ensures
        number == number_of(text@),
{
    let length = text.unicode_len();
    let start: usize = if length > 0 && text.get_char(0) == '+' {
        1
    } else {
        0
    };
    let ghost digits = text@.skip(start as int);
    assert(start == 0 ==> digits =~= text@);
    if start == length {
        return None;
    }
    let mut value: u32 = 0;
    let mut i: usize = start;
    assert(digits.take(0) =~= Seq::<char>::empty());
    while i < length
        invariant
            start <= i <= length,
            start < length,
            length == text@.len(),
            digits == text@.skip(start as int),
            number_of(text@) == (if is_decimal(digits) && decimal(digits) <= u32::MAX {
                Some(decimal(digits) as u32)
            } else {
                None
            }),
            forall|j: int| 0 <= j < i - start ==> '0' <= #[trigger] digits[j] <= '9',
            value == decimal(digits.take(i - start)),
        decreases length - i,
    {
        let c = text.get_char(i);
        assert(c == digits[i - start]);
        if c < '0' || c > '9' {
            return None;
        }
        let digit: u32 = c as u32 - 48;
        let next: u64 = value as u64 * 10 + digit as u64;
        proof {
            let longer = digits.take(i + 1 - start);
            assert(longer.drop_last() =~= digits.take(i - start));
            assert(longer.last() == c);
            assert(next == decimal(longer));
        }
        if next > u32::MAX as u64 {
            proof {
                if is_decimal(digits) {
                    lemma_decimal_grows(digits, i + 1 - start);
                }
            }
            return None;
        }
        value = next as u32;
        i += 1;
    }
    assert(digits.take(i - start) =~= digits);
    Some(value)
}

/// The variables by which a process learns of its activated sockets. They are
/// for that process alone, so it takes them out of its environment, whatever
/// it found in them.
pub fn activation_variables() -> (names: Vec<String>)
    ensures
        texts(names@) == seq![
            "LISTEN_PID"@,
            "LISTEN_FDS"@,
            "LISTEN_FDNAMES"@,
            "LISTEN_PIDFDID"@,
        ],
{
    let mut names: Vec<String> = Vec::new();
    names.push("LISTEN_PID".to_owned());
    names.push("LISTEN_FDS".to_owned());
    names.push("LISTEN_FDNAMES".to_owned());
    names.push("LISTEN_PIDFDID".to_owned());
    assert(texts(names@) =~= seq![
        "LISTEN_PID"@,
        "LISTEN_FDS"@,
        "LISTEN_FDNAMES"@,
        "LISTEN_PIDFDID"@,
    ]);
    names
}

/// What the system calls the things that matter about a socket.
#[derive(Clone, Copy, Debug, PartialEq, Eq, Structural)]
pub struct Platform {
    /// Address families of internet sockets
    pub inet: i32,
    pub inet6: i32,
    /// Address family of local sockets
    pub unix: i32,
    /// Descriptor flag of descriptors that are closed in child processes
    pub close_on_exec: i32,
    /// Status flag of descriptors that do not block
    pub nonblocking: i32,
}

/// What a listening socket listens on.
#[derive(Clone, Copy, Debug, PartialEq, Eq, Structural)]
pub enum Listener {
    Tcp,
    Unix,
}

/// Why an activated socket cannot be used.
#[derive(Clone, Copy, Debug, PartialEq, Eq, Structural)]
pub enum ActivationError {
    /// There is not exactly one socket, but that many.
    SocketCount(u32),
    /// The name of the socket could not be read.
    Name,
    /// The descriptor could not be set to be closed in child processes.
    CloseOnExec,
    /// The descriptor could not be set not to block.
    Nonblocking,
    /// The socket is of a family that is not supported.
    Family(i32),
}

/// What to do next about an activated socket.
#[derive(Clone, Copy, Debug, PartialEq, Eq, Structural)]
pub enum ActivationStep {
    /// Nothing: there is no socket for this process.
    Inactive,
    /// Read the name of the socket.
    ReadName,
    /// Read the flags of the descriptor.
    ReadDescriptorFlags { family: i32 },
    /// Set the flags of the descriptor.
    WriteDescriptorFlags { family: i32, flags: i32 },
    /// Read the status flags.
    ReadStatusFlags { family: i32 },
    /// Set the status flags.
    WriteStatusFlags { family: i32, flags: i32 },
    /// Take the descriptor over as a listener.
    Listen(Listener),
    Failed(ActivationError),
}

/// What a system call returned.
#[derive(Clone, Copy, Debug, PartialEq, Eq, Structural)]
pub enum CallOutcome {
    /// The call for the name of a socket, and the family that it filled in
    Name { ret: i32, family: i32 },
    /// A call that reads or sets flags
    Control { ret: i32 },
}

/// The first step: activation is trusted only where it names this process, and
/// serves where it brings exactly one socket.
pub open spec fn activation_of(
    listen_pid: Option<Seq<char>>,
    listen_fds: Option<Seq<char>>,
    own_pid: u32,
) -> ActivationStep {
    let pid = match listen_pid {
        Some(text) => number_of(text),
        None => None,
    };
    let fds = match listen_fds {
        Some(text) => number_of(text),
        None => None,
    };
    if pid != Some(own_pid) {
        ActivationStep::Inactive
    } else {
        match fds {
            None => ActivationStep::Inactive,
            Some(0) => ActivationStep::Inactive,
            Some(1) => ActivationStep::ReadName,
            Some(n) => ActivationStep::Failed(ActivationError::SocketCount(n)),
        }
    }
}

impl ActivationStep {
    /// The step asks for a call, and the outcome is one of such a call.
    pub open spec fn expects(self, outcome: CallOutcome) -> bool {
        match self {
            ActivationStep::ReadName => outcome is Name,
            ActivationStep::ReadDescriptorFlags { .. } => outcome is Control,
            ActivationStep::WriteDescriptorFlags { .. } => outcome is Control,
            ActivationStep::ReadStatusFlags { .. } => outcome is Control,
            ActivationStep::WriteStatusFlags { .. } => outcome is Control,
            _ => false,
        }
    }

    /// The step after this one. Naming fails with any result but 0, the flag
    /// calls fail with -1.
    pub open spec fn after(self, outcome: CallOutcome, platform: Platform) -> ActivationStep {
        match (self, outcome) {
            (ActivationStep::ReadName, CallOutcome::Name { ret, family }) => if ret != 0 {
                ActivationStep::Failed(ActivationError::Name)
            } else {
                ActivationStep::ReadDescriptorFlags { family }
            },
            (
                ActivationStep::ReadDescriptorFlags { family },
                CallOutcome::Control { ret },
            ) => if ret == -1 {
                ActivationStep::Failed(ActivationError::CloseOnExec)
            } else {
                ActivationStep::WriteDescriptorFlags { family, flags: ret | platform.close_on_exec }
            },
            (
                ActivationStep::WriteDescriptorFlags { family, flags },
                CallOutcome::Control { ret },
            ) => if ret == -1 {
                ActivationStep::Failed(ActivationError::CloseOnExec)
            } else {
                ActivationStep::ReadStatusFlags { family }
            },
            (ActivationStep::ReadStatusFlags { family }, CallOutcome::Control { ret }) => if ret
                == -1 {
                ActivationStep::Failed(ActivationError::Nonblocking)
            } else {
                ActivationStep::WriteStatusFlags { family, flags: ret | platform.nonblocking }
            },
            (
                ActivationStep::WriteStatusFlags { family, flags },
                CallOutcome::Control { ret },
            ) => if ret == -1 {
                ActivationStep::Failed(ActivationError::Nonblocking)
            } else {
                listener_of(family, platform)
            },
            _ => self,
        }
    }
}

/// The listener that a socket of a family makes.
pub open spec fn listener_of(family: i32, platform: Platform) -> ActivationStep {
    if family == platform.inet || family == platform.inet6 {
        ActivationStep::Listen(Listener::Tcp)
    } else if family == platform.unix {
        ActivationStep::Listen(Listener::Unix)
    } else {
        ActivationStep::Failed(ActivationError::Family(family))
    }
}

impl Listener {
    /// Decides what to do about activation, from the values of `LISTEN_PID` and
    /// `LISTEN_FDS` and the id of the process.
    pub fn from_activation(
        listen_pid: Option<&str>,
        listen_fds: Option<&str>,
        own_pid: u32,
    ) -> (step: ActivationStep)
        ensures
            step == activation_of(listen_pid.deep_view(), listen_fds.deep_view(), own_pid),
    {
        let pid = match listen_pid {
            Some(text) => parse_number(text),
            None => None,
        };
        let fds = match listen_fds {
            Some(text) => parse_number(text),
            None => None,
        };
        match pid {
            Some(pid) => {
                if pid != own_pid {
                    return ActivationStep::Inactive;
                }
            },
            None => {
                return ActivationStep::Inactive;
            },
        }
        match fds {
            None => ActivationStep::Inactive,
            Some(n) => {
                if n == 0 {
                    ActivationStep::Inactive
                } else if n != 1 {
                    ActivationStep::Failed(ActivationError::SocketCount(n))
                } else {
                    ActivationStep::ReadName
                }
            },
        }
    }

    /// Whether a socket can be bound. There must be no old socket in the place
    /// of a local one, but there need not have been one.
    pub fn may_bind(self, removal: Removal) -> (bind: bool)
        ensures
            bind == (self == Listener::Tcp || removal != Removal::Failed),
    {
        match self {
            Listener::Tcp => true,
            Listener::Unix => match removal {
                Removal::Removed => true,
                Removal::NotFound => true,
                Removal::Failed => false,
            },
        }
    }
}

impl ActivationStep {
    /// Decides how to go on after the call that the step asks for.
    pub fn advance(self, outcome: CallOutcome, platform: &Platform) -> (next: ActivationStep)
        requires
            self.expects(outcome),
        ensures
            next == self.after(outcome, *platform),
    {
        match (self, outcome) {
            (ActivationStep::ReadName, CallOutcome::Name { ret, family }) => {
                if ret != 0 {
                    ActivationStep::Failed(ActivationError::Name)
                } else {
                    ActivationStep::ReadDescriptorFlags { family }
                }
            },
            (ActivationStep::ReadDescriptorFlags { family }, CallOutcome::Control { ret }) => {
                if ret == -1 {
                    ActivationStep::Failed(ActivationError::CloseOnExec)
                } else {
                    ActivationStep::WriteDescriptorFlags {
                        family,
                        flags: ret | platform.close_on_exec,
                    }
                }
            },
            (
                ActivationStep::WriteDescriptorFlags { family, flags: _ },
                CallOutcome::Control { ret },
            ) => {
                if ret == -1 {
                    ActivationStep::Failed(ActivationError::CloseOnExec)
                } else {
                    ActivationStep::ReadStatusFlags { family }
                }
            },
            (ActivationStep::ReadStatusFlags { family }, CallOutcome::Control { ret }) => {
                if ret == -1 {
                    ActivationStep::Failed(ActivationError::Nonblocking)
                } else {
                    ActivationStep::WriteStatusFlags { family, flags: ret | platform.nonblocking }
                }
            },
            (
                ActivationStep::WriteStatusFlags { family, flags: _ },
                CallOutcome::Control { ret },
            ) => {
                if ret == -1 {
                    ActivationStep::Failed(ActivationError::Nonblocking)
                } else if family == platform.inet || family == platform.inet6 {
                    ActivationStep::Listen(Listener::Tcp)
                } else if family == platform.unix {
                    ActivationStep::Listen(Listener::Unix)
                } else {
                    ActivationStep::Failed(ActivationError::Family(family))
                }
            },
            _ => self,
        }
    }
}

/// What came of removing the file of an old socket.
#[derive(Clone, Copy, Debug, PartialEq, Eq, Structural)]
pub enum Removal {
    Removed,
    NotFound,
    Failed,
}

/// The step that outcomes of calls lead to.
pub open spec fn steps_to(
    step: ActivationStep,
    outcomes: Seq<CallOutcome>,
    platform: Platform,
) -> ActivationStep
    decreases outcomes.len(),
{
    if outcomes.len() == 0 {
        step
    } else {
        steps_to(step, outcomes.drop_last(), platform).after(outcomes.last(), platform)
    }
}

proof fn lemma_one_more_step(
    step: ActivationStep,
    outcomes: Seq<CallOutcome>,
    n: int,
    platform: Platform,
)
    requires
        0 <= n < outcomes.len(),
    ensures
        steps_to(step, outcomes.take(n + 1), platform) == steps_to(
            step,
            outcomes.take(n),
            platform,
        ).after(outcomes[n], platform),
{
    assert(outcomes.take(n + 1).drop_last() =~= outcomes.take(n));
}

/// A socket is taken over only after its name was read, and its descriptor was
/// set to be closed in child processes and not to block; and the family that
/// the name shows decides what it is taken over as.
pub proof fn listener_is_prepared(outcomes: Seq<CallOutcome>, platform: Platform)
    requires
        outcomes.len() == 5,
        outcomes[0] is Name,
        forall|i: int| 1 <= i < 5 ==> #[trigger] outcomes[i] is Control,
    ensures
        steps_to(ActivationStep::ReadName, outcomes, platform) is Listen <==> {
            &&& outcomes[0]->Name_ret == 0
            &&& forall|i: int| 1 <= i < 5 ==> (#[trigger] outcomes[i])->Control_ret != -1
            &&& listener_of(outcomes[0]->family, platform) is Listen
        },
        steps_to(ActivationStep::ReadName, outcomes, platform) is Listen ==> {
            &&& steps_to(ActivationStep::ReadName, outcomes, platform) == listener_of(
                outcomes[0]->family,
                platform,
            )
            &&& steps_to(ActivationStep::ReadName, outcomes.take(2), platform) == (
            ActivationStep::WriteDescriptorFlags {
                family: outcomes[0]->family,
                flags: outcomes[1]->Control_ret | platform.close_on_exec,
            })
            &&& steps_to(ActivationStep::ReadName, outcomes.take(4), platform) == (
            ActivationStep::WriteStatusFlags {
                family: outcomes[0]->family,
                flags: outcomes[3]->Control_ret | platform.nonblocking,
            })
        },
{
    let first = ActivationStep::ReadName;
    assert(outcomes.take(0).len() == 0);
    lemma_one_more_step(first, outcomes, 0, platform);
    lemma_one_more_step(first, outcomes, 1, platform);
    lemma_one_more_step(first, outcomes, 2, platform);
    lemma_one_more_step(first, outcomes, 3, platform);
    lemma_one_more_step(first, outcomes, 4, platform);
    assert(outcomes.take(5) =~= outcomes);
    assert(outcomes[1] is Control && outcomes[2] is Control && outcomes[3] is Control && outcomes[4]
        is Control);
}

/// Activation is left alone unless it names this very process, whatever else
/// the environment holds.
pub proof fn foreign_activation_is_ignored(
    listen_pid: Option<Seq<char>>,
    listen_fds: Option<Seq<char>>,
    own_pid: u32,
)
    requires
        listen_pid matches Some(text) ==> number_of(text) != Some(own_pid),
    ensures
        activation_of(listen_pid, listen_fds, own_pid) == ActivationStep::Inactive,
{
}

/// A number is read digit by digit: one more digit makes ten times the number
/// and that digit, and a number that would be too large is none.
pub proof fn number_is_read_digit_by_digit(digits: Seq<char>, next: char)
    requires
        digits.len() > 0 ==> digits[0] != '+',
        '0' <= next <= '9',
        digits.len() == 0 || number_of(digits) is Some,
    ensures
        digits.len() == 0 ==> number_of(digits.push(next))
            == Some((next as u32 - '0' as u32) as u32),
        digits.len() > 0 && number_of(digits)->0 * 10 + (next as u32 - '0' as u32) <= u32::MAX
            ==> number_of(digits.push(next)) == Some(
            (number_of(digits)->0 * 10 + (next as u32 - '0' as u32)) as u32,
        ),
        digits.len() > 0 && number_of(digits)->0 * 10 + (next as u32 - '0' as u32) > u32::MAX
            ==> number_of(digits.push(next)) is None,
{
    let longer = digits.push(next);
    assert(longer.drop_last() =~= digits);
    assert(longer.last() == next);
    assert(longer[0] != '+') by {
        if digits.len() > 0 {
            assert(longer[0] == digits[0]);
        }
    }
    assert(decimal(longer) == decimal(digits) * 10 + (next as nat - '0' as nat));
    assert forall|i: int| 0 <= i < longer.len() implies '0' <= #[trigger] longer[i] <= '9' by {
        if i < digits.len() {
            assert(is_decimal(digits));
            assert(longer[i] == digits[i]);
        }
    }
}

/// What is no number: nothing at all, a sign alone, and whatever holds anything
/// but digits behind the sign that it may begin with. The sign changes nothing.
pub proof fn other_texts_are_no_numbers(text: Seq<char>, i: int)
    ensures
        text.len() == 0 ==> number_of(text) is None,
        0 <= i < text.len() && !('0' <= text[i] <= '9') && !(i == 0 && text[i] == '+')
            ==> number_of(text) is None,
        text.len() > 0 && text[0] != '+' ==> number_of(seq!['+'] + text) == number_of(text),
        number_of(seq!['+']) is None,
{
    if 0 <= i < text.len() && !('0' <= text[i] <= '9') && !(i == 0 && text[i] == '+') {
        if text[0] == '+' {
            assert(text.skip(1)[i - 1] == text[i]);
        }
    }
    let signed = seq!['+'] + text;
    assert(signed[0] == '+');
    assert(signed.skip(1) =~= text);
    assert(seq!['+'].skip(1).len() == 0);
}

/// A process has an activated socket exactly if the environment names it and
/// brings one; it fails exactly if the environment names it and brings more; and
/// in all other cases there is none for it.
pub proof fn activation_needs_one_socket_for_this_process(
    listen_pid: Option<Seq<char>>,
    listen_fds: Option<Seq<char>>,
    own_pid: u32,
    n: u32,
)
    ensures
        activation_of(listen_pid, listen_fds, own_pid) == ActivationStep::ReadName <==> (
        listen_pid matches Some(pid) && number_of(pid) == Some(own_pid)) && (
        listen_fds matches Some(fds) && number_of(fds) == Some(1u32)),
        activation_of(listen_pid, listen_fds, own_pid) == ActivationStep::Failed(
            ActivationError::SocketCount(n),
        ) <==> n > 1 && (listen_pid matches Some(pid) && number_of(pid) == Some(own_pid)) && (
        listen_fds matches Some(fds) && number_of(fds) == Some(n)),
        activation_of(listen_pid, listen_fds, own_pid) == ActivationStep::ReadName || activation_of(
            listen_pid,
            listen_fds,
            own_pid,
        ) == ActivationStep::Inactive || (activation_of(
            listen_pid,
            listen_fds,
            own_pid,
        ) matches ActivationStep::Failed(error) && error is SocketCount),
{
}

/// A call that fails ends the activation with the error of that call, and no
/// call that succeeds does, but for the last where the family is unknown.
pub proof fn activation_fails_with_the_call_that_failed(
    step: ActivationStep,
    outcome: CallOutcome,
    platform: Platform,
)
    requires
        step.expects(outcome),
    ensures
        step.after(outcome, platform) == ActivationStep::Failed(ActivationError::Name) <==> step
            is ReadName && outcome->Name_ret != 0,
        step.after(outcome, platform) == ActivationStep::Failed(ActivationError::CloseOnExec) <==> (
        step is ReadDescriptorFlags || step is WriteDescriptorFlags) && outcome->Control_ret == -1,
        step.after(outcome, platform) == ActivationStep::Failed(ActivationError::Nonblocking) <==> (
        step is ReadStatusFlags || step is WriteStatusFlags) && outcome->Control_ret == -1,
{
}

/// A call that succeeds leads to the next: flags are written as they were read,
/// with the wanted flag added to them, and the family that the name shows is
/// kept until the socket is taken over as what the family says.
pub proof fn activation_goes_on_with_the_next_call(
    step: ActivationStep,
    outcome: CallOutcome,
    platform: Platform,
)
    requires
        step.expects(outcome),
    ensures
        step is ReadName && outcome->Name_ret == 0 ==> step.after(outcome, platform) == (
        ActivationStep::ReadDescriptorFlags { family: outcome->family }),
        step is ReadDescriptorFlags && outcome->Control_ret != -1 ==> step.after(outcome, platform)
            == (ActivationStep::WriteDescriptorFlags {
            family: step->ReadDescriptorFlags_family,
            flags: outcome->Control_ret | platform.close_on_exec,
        }),
        step is WriteDescriptorFlags && outcome->Control_ret != -1 ==> step.after(outcome, platform)
            == (ActivationStep::ReadStatusFlags { family: step->WriteDescriptorFlags_family }),
        step is ReadStatusFlags && outcome->Control_ret != -1 ==> step.after(outcome, platform) == (
        ActivationStep::WriteStatusFlags {
            family: step->ReadStatusFlags_family,
            flags: outcome->Control_ret | platform.nonblocking,
        }),
        step is WriteStatusFlags && outcome->Control_ret != -1 ==> {
            let family = step->WriteStatusFlags_family;
            step.after(outcome, platform) == if family == platform.inet || family
                == platform.inet6 {
                ActivationStep::Listen(Listener::Tcp)
            } else if family == platform.unix {
                ActivationStep::Listen(Listener::Unix)
            } else {
                ActivationStep::Failed(ActivationError::Family(family))
            }
        },
{
}

/// A step that asks for the name of the socket expects what such a call returns,
/// one that asks for flags expects what that returns, and the others ask for
/// nothing.
pub proof fn every_outcome_of_a_call_is_expected(step: ActivationStep, outcome: CallOutcome)
    ensures
        step is ReadName ==> (step.expects(outcome) <==> outcome is Name),
        step is ReadDescriptorFlags || step is WriteDescriptorFlags || step is ReadStatusFlags
            || step is WriteStatusFlags ==> (step.expects(outcome) <==> outcome is Control),
        step is Inactive || step is Listen || step is Failed ==> !step.expects(outcome),
{
}

/// A number that is too large stays so with more digits.
pub proof fn number_that_is_too_large_stays_so(digits: Seq<char>, next: char)
    requires
        digits.len() > 0,
        forall|i: int| 0 <= i < digits.len() ==> '0' <= #[trigger] digits[i] <= '9',
        number_of(digits) is None,
    ensures
        number_of(digits.push(next)) is None,
{
    let longer = digits.push(next);
    assert(digits[0] != '+');
    assert(longer[0] == digits[0]);
    assert(longer.drop_last() =~= digits);
    assert(longer.last() == next);
    if is_decimal(longer) {
        assert('0' <= longer[digits.len() as int] <= '9');
        assert(decimal(longer) >= decimal(digits));
    }
}

} // verus!
