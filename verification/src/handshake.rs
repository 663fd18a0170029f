//! Initializing a language server that was just started.
use vstd::prelude::*;

use crate::lsp::{
    IdView, InitializeParams, InitializeResult, Message, MessageView, Notification, Payload,
    PayloadView, Request, RequestId, ResponseSuccess,
};
use crate::text::same_text;

verus! {

/// Why a server could not be initialized.
#[derive(Clone, Copy, Debug, PartialEq, Eq, Structural)]
pub enum HandshakeError {
    SendRequest,
    ReceiveResponse,
    StreamEnded,
    ParseResult,
    SendInitialized,
}

/// What to do next about the handshake.
#[derive(Debug, PartialEq, Eq)]
pub enum HandshakePhase {
    /// Write the request to the server.
    SendRequest(Request),
    /// Read a message of the server.
    AwaitResponse,
    /// Read the result of the response as an [`InitializeResult`].
    ParseResult(Payload),
    /// Write the notification to the server.
    SendInitialized(Notification, InitializeResult),
    /// Nothing: the server is initialized.
    Done(InitializeResult),
    Failed(HandshakeError),
}

/// What came of it.
#[derive(Debug, PartialEq, Eq)]
pub enum HandshakeEvent {
    Written,
    WriteFailed,
    Received(Message),
    StreamEnded,
    ReadFailed,
    Parsed(InitializeResult),
    ParseFailed,
}

/// The mathematical content of a [`HandshakePhase`].
pub ghost enum PhaseView {
    SendRequest(MessageView),
    AwaitResponse,
    ParseResult(PayloadView),
    SendInitialized(MessageView, InitializeResult),
    Done(InitializeResult),
    Failed(HandshakeError),
}

/// The mathematical content of a [`HandshakeEvent`].
pub ghost enum EventView {
    Written,
    WriteFailed,
    Received(MessageView),
    StreamEnded,
    ReadFailed,
    Parsed(InitializeResult),
    ParseFailed,
}

impl View for HandshakePhase {
    type V = PhaseView;

    open spec fn view(&self) -> PhaseView {
        match self {
            HandshakePhase::SendRequest(request) => PhaseView::SendRequest(request@),
            HandshakePhase::AwaitResponse => PhaseView::AwaitResponse,
            HandshakePhase::ParseResult(payload) => PhaseView::ParseResult(payload@),
            HandshakePhase::SendInitialized(notification, result) => PhaseView::SendInitialized(
                notification@,
                *result,
            ),
            HandshakePhase::Done(result) => PhaseView::Done(*result),
            HandshakePhase::Failed(error) => PhaseView::Failed(*error),
        }
    }
}

impl View for HandshakeEvent {
    type V = EventView;

    open spec fn view(&self) -> EventView {
        match self {
            HandshakeEvent::Written => EventView::Written,
            HandshakeEvent::WriteFailed => EventView::WriteFailed,
            HandshakeEvent::Received(message) => EventView::Received(message@),
            HandshakeEvent::StreamEnded => EventView::StreamEnded,
            HandshakeEvent::ReadFailed => EventView::ReadFailed,
            HandshakeEvent::Parsed(result) => EventView::Parsed(*result),
            HandshakeEvent::ParseFailed => EventView::ParseFailed,
        }
    }
}

/// The id of the `initialize` request.
pub open spec fn initialize_id() -> IdView {
    IdView::Text("lspmux:initialize_request"@)
}

/// The `initialize` request of the first client, as it goes to the server.
/// Servers may exit once the process of their client does, so the id of the
/// client's process is replaced.
pub open spec fn initialize_message(rest: serde_json::Value, own_pid: u32) -> MessageView {
    MessageView::Request {
        id: initialize_id(),
        method: "initialize"@,
        params: PayloadView::Initialize { process_id: Some(own_pid as u64), rest },
    }
}

/// The notification that completes the initialization.
pub open spec fn initialized_message() -> MessageView {
    MessageView::Notification { method: "initialized"@, params: PayloadView::Empty }
}

/// The message is the successful answer to the `initialize` request.
pub open spec fn answers_initialize(message: MessageView) -> bool {
    message matches MessageView::ResponseSuccess { id, .. } && id == initialize_id()
}

impl PhaseView {
    /// The phase asks for something, and the event is one that can come of it.
    pub open spec fn expects(self, event: EventView) -> bool {
        match self {
            PhaseView::SendRequest(_) => event is Written || event is WriteFailed,
            PhaseView::AwaitResponse => event is Received || event is StreamEnded || event
                is ReadFailed,
            PhaseView::ParseResult(_) => event is Parsed || event is ParseFailed,
            PhaseView::SendInitialized(_, _) => event is Written || event is WriteFailed,
            _ => false,
        }
    }

    /// The phase after this one. Messages that do not answer the request are
    /// passed over.
    pub open spec fn after(self, event: EventView) -> PhaseView {
        match (self, event) {
            (PhaseView::SendRequest(_), EventView::Written) => PhaseView::AwaitResponse,
            (PhaseView::SendRequest(_), EventView::WriteFailed) => PhaseView::Failed(
                HandshakeError::SendRequest,
            ),
            (PhaseView::AwaitResponse, EventView::Received(message)) => if answers_initialize(
                message,
            ) {
                PhaseView::ParseResult(message->result)
            } else {
                PhaseView::AwaitResponse
            },
            (PhaseView::AwaitResponse, EventView::StreamEnded) => PhaseView::Failed(
                HandshakeError::StreamEnded,
            ),
            (PhaseView::AwaitResponse, EventView::ReadFailed) => PhaseView::Failed(
                HandshakeError::ReceiveResponse,
            ),
            (PhaseView::ParseResult(_), EventView::Parsed(result)) => PhaseView::SendInitialized(
                initialized_message(),
                result,
            ),
            (PhaseView::ParseResult(_), EventView::ParseFailed) => PhaseView::Failed(
                HandshakeError::ParseResult,
            ),
            (PhaseView::SendInitialized(_, result), EventView::Written) => PhaseView::Done(result),
            (PhaseView::SendInitialized(_, _), EventView::WriteFailed) => PhaseView::Failed(
                HandshakeError::SendInitialized,
            ),
            _ => self,
        }
    }
}

impl HandshakePhase {
    /// The first phase, for the parameters of the first client and the id of
    /// this process.
    pub fn start(params: InitializeParams, own_pid: u32) -> (phase: HandshakePhase)
        ensures
            phase@ == PhaseView::SendRequest(initialize_message(params.rest, own_pid)),
    {
        HandshakePhase::SendRequest(
            Request {
                id: RequestId::String("lspmux:initialize_request".to_owned()),
                method: "initialize".to_owned(),
                params: Payload::Initialize(
                    InitializeParams { process_id: Some(own_pid as u64), rest: params.rest },
                ),
            },
        )
    }

    /// Decides how to go on after what the phase asked for.
    pub fn advance(self, event: HandshakeEvent) -> (next: HandshakePhase)
        requires
            self@.expects(event@),
        ensures
            next@ == self@.after(event@),
    {
        match (self, event) {
            (HandshakePhase::SendRequest(_), HandshakeEvent::Written) => {
                HandshakePhase::AwaitResponse
            },
            (HandshakePhase::SendRequest(_), HandshakeEvent::WriteFailed) => {
                HandshakePhase::Failed(HandshakeError::SendRequest)
            },
            (HandshakePhase::AwaitResponse, HandshakeEvent::Received(message)) => {
                match message {
                    Message::ResponseSuccess(response) => {
                        let ResponseSuccess { id, result } = response;
                        let expected = match id {
                            RequestId::String(id) => same_text(
                                id.as_str(),
                                "lspmux:initialize_request",
                            ),
                            _ => false,
                        };
                        if expected {
                            HandshakePhase::ParseResult(result)
                        } else {
                            HandshakePhase::AwaitResponse
                        }
                    },
                    _ => HandshakePhase::AwaitResponse,
                }
            },
            (HandshakePhase::AwaitResponse, HandshakeEvent::StreamEnded) => {
                HandshakePhase::Failed(HandshakeError::StreamEnded)
            },
            (HandshakePhase::AwaitResponse, HandshakeEvent::ReadFailed) => {
                HandshakePhase::Failed(HandshakeError::ReceiveResponse)
            },
            (HandshakePhase::ParseResult(_), HandshakeEvent::Parsed(result)) => {
                let notification = Notification {
                    method: "initialized".to_owned(),
                    params: Payload::Empty,
                };
                HandshakePhase::SendInitialized(notification, result)
            },
            (HandshakePhase::ParseResult(_), HandshakeEvent::ParseFailed) => {
                HandshakePhase::Failed(HandshakeError::ParseResult)
            },
            (HandshakePhase::SendInitialized(_, result), HandshakeEvent::Written) => {
                HandshakePhase::Done(result)
            },
            (HandshakePhase::SendInitialized(_, _), HandshakeEvent::WriteFailed) => {
                HandshakePhase::Failed(HandshakeError::SendInitialized)
            },
            (phase, _) => phase,
        }
    }
}

/// The phase that events lead to.
pub open spec fn phase_after(phase: PhaseView, events: Seq<EventView>) -> PhaseView
    decreases events.len(),
{
    if events.len() == 0 {
        phase
    } else {
        phase_after(phase, events.drop_last()).after(events.last())
    }
}

/// However many other messages the server sends before it answers, the
/// handshake ends with the answer to the request, and after the server was
/// notified.
pub proof fn other_messages_are_passed_over(
    request: MessageView,
    others: Seq<EventView>,
    answer: MessageView,
    result: InitializeResult,
)
    requires
        forall|i: int|
            0 <= i < others.len() ==> (#[trigger] others[i] matches EventView::Received(message)
                && !answers_initialize(message)),
        answers_initialize(answer),
    ensures
        phase_after(
            PhaseView::SendRequest(request),
            seq![EventView::Written] + others,
        ) == PhaseView::AwaitResponse,
        phase_after(
            PhaseView::SendRequest(request),
            (seq![EventView::Written] + others).push(EventView::Received(answer)).push(
                EventView::Parsed(result),
            ),
        ) == PhaseView::SendInitialized(initialized_message(), result),
        phase_after(
            PhaseView::SendRequest(request),
            (seq![EventView::Written] + others).push(EventView::Received(answer)).push(
                EventView::Parsed(result),
            ).push(EventView::Written),
        ) == PhaseView::Done(result),
    decreases others.len(),
{
    let events = seq![EventView::Written] + others;
    if others.len() == 0 {
        assert(events.drop_last() =~= Seq::<EventView>::empty());
        assert(events.last() == EventView::Written);
        assert(phase_after(PhaseView::SendRequest(request), events.drop_last())
            == PhaseView::SendRequest(request));
    } else {
        other_messages_are_passed_over(request, others.drop_last(), answer, result);
        assert(events.drop_last() =~= seq![EventView::Written] + others.drop_last());
        assert(events.last() == others[others.len() - 1]);
    }
    let received = events.push(EventView::Received(answer));
    let parsed = received.push(EventView::Parsed(result));
    let first = PhaseView::SendRequest(request);
    assert(received.drop_last() =~= events);
    assert(phase_after(first, received) == PhaseView::ParseResult(answer->result));
    assert(parsed.drop_last() =~= received);
    assert(phase_after(first, parsed) == PhaseView::SendInitialized(
        initialized_message(),
        result,
    ));
    assert(parsed.push(EventView::Written).drop_last() =~= parsed);
}

/// The first phase asks to send the `initialize` request of the first client
/// with everything that the client gave, but for the process id.
pub proof fn initialize_request_is_the_clients_own(
    params: InitializeParams,
    own_pid: u32,
    phase: HandshakePhase,
)
    requires
        phase@ == PhaseView::SendRequest(initialize_message(params.rest, own_pid)),
    ensures
        phase matches HandshakePhase::SendRequest(request) && {
            &&& request.method@ == "initialize"@
            &&& request.id matches RequestId::String(id)
            &&& id@ == "lspmux:initialize_request"@
            &&& request.params matches Payload::Initialize(sent)
            &&& sent.process_id == Some(own_pid as u64)
            &&& sent.rest == params.rest
        },
{
}

/// While the answer is awaited, a message ends the wait exactly if it is a
/// successful answer with the id of the `initialize` request, and then its
/// result, whatever it is, is what is read next.
pub proof fn answer_is_told_by_its_id(message: Message, next: HandshakePhase)
    requires
        next@ == PhaseView::AwaitResponse.after(HandshakeEvent::Received(message)@),
    ensures
        if message matches Message::ResponseSuccess(response) && (
        response.id matches RequestId::String(id) && id@ == "lspmux:initialize_request"@) {
            next matches HandshakePhase::ParseResult(result) && result@
                == message->ResponseSuccess_0.result@
        } else {
            next == HandshakePhase::AwaitResponse
        },
{
    if message is ResponseSuccess {
        reveal_with_fuel(RequestId::content, 2);
    }
}

/// A step that fails ends the handshake with the error of that step.
pub proof fn handshake_fails_with_the_step_that_failed(
    phase: HandshakePhase,
    event: HandshakeEvent,
    next: HandshakePhase,
)
    requires
        phase@.expects(event@),
        next@ == phase@.after(event@),
    ensures
        phase is SendRequest && event is WriteFailed <==> next == HandshakePhase::Failed(
            HandshakeError::SendRequest,
        ),
        phase is AwaitResponse && event is StreamEnded <==> next == HandshakePhase::Failed(
            HandshakeError::StreamEnded,
        ),
        phase is AwaitResponse && event is ReadFailed <==> next == HandshakePhase::Failed(
            HandshakeError::ReceiveResponse,
        ),
        phase is ParseResult && event is ParseFailed <==> next == HandshakePhase::Failed(
            HandshakeError::ParseResult,
        ),
        phase is SendInitialized && event is WriteFailed <==> next == HandshakePhase::Failed(
            HandshakeError::SendInitialized,
        ),
{
}

/// A step that succeeds leads to the next one: after the request was sent an
/// answer is awaited; once its result was read the server is notified, with
/// nothing but the fact; and once it is, the handshake is done with that result.
pub proof fn handshake_goes_on_with_the_next_step(
    phase: HandshakePhase,
    event: HandshakeEvent,
    next: HandshakePhase,
)
    requires
        phase@.expects(event@),
        next@ == phase@.after(event@),
    ensures
        phase is SendRequest && event is Written ==> next == HandshakePhase::AwaitResponse,
        phase is ParseResult ==> (event matches HandshakeEvent::Parsed(result) ==> (
        next matches HandshakePhase::SendInitialized(notification, kept) && kept == result
            && notification.method@ == "initialized"@ && notification.params == Payload::Empty)),
        phase matches HandshakePhase::SendInitialized(_, result) ==> (event is Written ==> next
            == HandshakePhase::Done(result)),
        next is Done ==> phase is SendInitialized && event is Written,
{
}

/// What can come of a phase: of sending that it was written or not, of waiting a
/// message, the end of the stream or a failure, and of reading the result that
/// it could be read or not. Of a handshake that is over nothing comes.
pub proof fn every_outcome_of_a_phase_is_expected(phase: HandshakePhase, event: HandshakeEvent)
    ensures
        phase is SendRequest || phase is SendInitialized ==> (phase@.expects(event@) <==> event
            is Written || event is WriteFailed),
        phase is AwaitResponse ==> (phase@.expects(event@) <==> event is Received || event
            is StreamEnded || event is ReadFailed),
        phase is ParseResult ==> (phase@.expects(event@) <==> event is Parsed || event
            is ParseFailed),
        phase is Done || phase is Failed ==> !phase@.expects(event@),
{
}

} // verus!
