use std::collections::BTreeMap;

use lspmux::handshake::{HandshakeError, HandshakeEvent, HandshakePhase};
use lspmux::instance_key::InstanceKey;
use lspmux::lsp::{
    InitializeParams, InitializeResult, Message, Notification, Payload, Request, RequestId,
    ResponseError, ResponseSuccess,
};
use lspmux::spawn::{Spawn, SpawnError, SpawnEvent};
use lspmux::workspace::{FileIdentity, WorkspaceRoot};
use serde_json::Value;

fn params() -> InitializeParams {
    InitializeParams { process_id: Some(1), rest: Value::from("rest") }
}

fn initialize(own_pid: u64) -> Request {
    Request {
        id: RequestId::String("lspmux:initialize_request".to_owned()),
        method: "initialize".to_owned(),
        params: Payload::Initialize(InitializeParams {
            process_id: Some(own_pid),
            rest: Value::from("rest"),
        }),
    }
}

fn answer(id: &str) -> Message {
    Message::ResponseSuccess(ResponseSuccess {
        id: RequestId::String(id.to_owned()),
        result: Payload::Json(Value::from("result")),
    })
}

fn result() -> InitializeResult {
    InitializeResult { content: Value::from("result") }
}

fn initialized() -> Notification {
    Notification { method: "initialized".to_owned(), params: Payload::Empty }
}

fn spawn() -> Spawn {
    let workspace_root = WorkspaceRoot::from_path(
        "/work".to_owned(),
        |_: &str| true,
        |_: &str| Ok::<FileIdentity, ()>(FileIdentity { device_id: 1, file_id: 2 }),
    )
    .unwrap();
    let key = InstanceKey {
        server: "clangd".to_owned(),
        args: Vec::new(),
        env: BTreeMap::new(),
        workspace_root,
    };
    Spawn::begin(key, params(), 6)
}

fn failure(spawn: Spawn) -> SpawnError {
    match spawn {
        Spawn::Failed(error) => error,
        other => panic!("unexpected state {other:?}"),
    }
}

#[test]
fn client_process_id_is_replaced() {
    assert_eq!(
        HandshakePhase::start(params(), 4242),
        HandshakePhase::SendRequest(initialize(4242))
    );
}

#[test]
fn handshake_waits_for_the_answer_and_notifies() {
    let phase = HandshakePhase::start(params(), 4242).advance(HandshakeEvent::Written);
    assert_eq!(phase, HandshakePhase::AwaitResponse);
    let others = [
        Message::Notification(Notification { method: "m".to_owned(), params: Payload::Null }),
        Message::Request(initialize(1)),
        answer("other"),
        Message::ResponseSuccess(ResponseSuccess {
            id: RequestId::Number(1),
            result: Payload::Null,
        }),
        Message::ResponseError(ResponseError {
            id: RequestId::String("lspmux:initialize_request".to_owned()),
            error: Value::Null,
        }),
    ];
    let mut phase = phase;
    for message in others {
        phase = phase.advance(HandshakeEvent::Received(message));
        assert_eq!(phase, HandshakePhase::AwaitResponse);
    }
    let phase = phase.advance(HandshakeEvent::Received(answer("lspmux:initialize_request")));
    assert_eq!(phase, HandshakePhase::ParseResult(Payload::Json(Value::from("result"))));
    let phase = phase.advance(HandshakeEvent::Parsed(result()));
    assert_eq!(phase, HandshakePhase::SendInitialized(initialized(), result()));
    assert_eq!(phase.advance(HandshakeEvent::Written), HandshakePhase::Done(result()));
}

#[test]
fn handshake_fails_where_a_step_fails() {
    let start = || HandshakePhase::start(params(), 4242);
    let failed = HandshakePhase::Failed;
    assert_eq!(
        start().advance(HandshakeEvent::WriteFailed),
        failed(HandshakeError::SendRequest)
    );
    assert_eq!(
        HandshakePhase::AwaitResponse.advance(HandshakeEvent::StreamEnded),
        failed(HandshakeError::StreamEnded)
    );
    assert_eq!(
        HandshakePhase::AwaitResponse.advance(HandshakeEvent::ReadFailed),
        failed(HandshakeError::ReceiveResponse)
    );
    assert_eq!(
        HandshakePhase::ParseResult(Payload::Null).advance(HandshakeEvent::ParseFailed),
        failed(HandshakeError::ParseResult)
    );
    assert_eq!(
        HandshakePhase::SendInitialized(initialized(), result())
            .advance(HandshakeEvent::WriteFailed),
        failed(HandshakeError::SendInitialized)
    );
}

#[test]
fn started_instance_has_its_first_client() {
    let mut spawn = spawn().advance(SpawnEvent::Launched { pid: Some(99) }, 4242, 10);
    match &spawn {
        Spawn::Initializing { phase, .. } => {
            assert_eq!(*phase, HandshakePhase::SendRequest(initialize(4242)));
        }
        other => panic!("unexpected state {other:?}"),
    }
    for event in [
        HandshakeEvent::Written,
        HandshakeEvent::Received(answer("lspmux:initialize_request")),
        HandshakeEvent::Parsed(result()),
        HandshakeEvent::Written,
    ] {
        spawn = spawn.advance(SpawnEvent::Handshake(event), 4242, 20);
    }
    match spawn {
        Spawn::Ready(instance) => {
            assert_eq!(instance.pid(), 99);
            assert_eq!(instance.clients(), vec![6]);
            assert_eq!(instance.unique_files(), Vec::<String>::new());
            assert_eq!(instance.initialize_result(), result());
            assert_eq!(instance.idle(25), 5);
            assert_eq!(instance.key().server, "clangd");
        }
        other => panic!("unexpected state {other:?}"),
    }
}

#[test]
fn starting_fails_where_the_process_or_the_handshake_fails() {
    assert_eq!(failure(spawn().advance(SpawnEvent::LaunchFailed, 1, 0)), SpawnError::Launch);
    assert_eq!(
        failure(spawn().advance(SpawnEvent::Launched { pid: None }, 1, 0)),
        SpawnError::ExitedEarly
    );
    let launched = spawn().advance(SpawnEvent::Launched { pid: Some(9) }, 1, 0);
    assert_eq!(
        failure(launched.advance(SpawnEvent::Handshake(HandshakeEvent::WriteFailed), 1, 0)),
        SpawnError::Handshake(HandshakeError::SendRequest)
    );
}
