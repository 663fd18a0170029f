use std::collections::BTreeMap;

use lspmux::instance::Instance;
use lspmux::instance_key::InstanceKey;
use lspmux::lsp::{
    InitializeResult, Message, Notification, Payload, Registration, RegistrationParams, Request,
    RequestId, ResponseError, ResponseSuccess, Tag, Unregistration, UnregistrationParams,
};
use lspmux::router::{Outgoing, Reaction};
use lspmux::workspace::{FileIdentity, WorkspaceRoot};
use serde_json::Value;

fn instance(clients: &[usize]) -> Instance {
    let workspace_root = WorkspaceRoot::from_path(
        "/work".to_owned(),
        |_: &str| true,
        |_: &str| Ok::<FileIdentity, ()>(FileIdentity { device_id: 1, file_id: 2 }),
    )
    .unwrap();
    let key = InstanceKey {
        server: "clangd".to_owned(),
        args: Vec::new(),
        env: BTreeMap::new(),
        workspace_root,
    };
    let mut instance = Instance::new(key, 5, InitializeResult { content: Value::Null }, 0, 0);
    instance.disconnect_all();
    for id in clients {
        instance.add_client(*id);
    }
    instance
}

fn answer(id: RequestId) -> Message {
    Message::ResponseSuccess(ResponseSuccess { id, result: Payload::Json(Value::from(1)) })
}

fn failure(id: RequestId) -> Message {
    Message::ResponseError(ResponseError { id, error: Value::from("no") })
}

fn request(id: RequestId, method: &str) -> Request {
    Request { id, method: method.to_owned(), params: Payload::Json(Value::from("p")) }
}

/// The messages to clients by the ids of these, and those to the server, in the
/// order in which they are sent.
fn split(outgoing: Vec<Outgoing>) -> (Vec<(usize, Message)>, Vec<Message>) {
    let mut to_clients = Vec::new();
    let mut to_server = Vec::new();
    for item in outgoing {
        match item {
            Outgoing::Client(id, message) => {
                assert!(to_server.is_empty(), "the server is answered last");
                to_clients.push((id, message));
            }
            Outgoing::Server(message) => to_server.push(message),
        }
    }
    to_clients.sort_by_key(|(id, _)| *id);
    (to_clients, to_server)
}

fn sent(reaction: Reaction) -> Vec<Outgoing> {
    match reaction {
        Reaction::Send(outgoing) => outgoing,
        other => panic!("unexpected reaction {other:?}"),
    }
}

#[test]
fn answer_goes_to_the_client_that_asked() {
    let instance = instance(&[3, 4]);
    let tagged = RequestId::Number(9).tag(Tag::ClientId(4));
    assert_eq!(
        instance.handle_server_message(answer(tagged.clone())),
        Reaction::Send(vec![Outgoing::Client(4, answer(RequestId::Number(9)))])
    );
    assert_eq!(
        instance.handle_server_message(failure(tagged)),
        Reaction::Send(vec![Outgoing::Client(4, failure(RequestId::Number(9)))])
    );
}

#[test]
fn answer_for_a_client_that_is_gone_goes_nowhere() {
    let instance = instance(&[3]);
    let tagged = RequestId::Number(9).tag(Tag::ClientId(4));
    assert_eq!(instance.handle_server_message(answer(tagged.clone())), Reaction::Send(Vec::new()));
    assert_eq!(instance.handle_server_message(failure(tagged)), Reaction::Send(Vec::new()));
}

#[test]
fn answer_without_a_client_tag_goes_nowhere() {
    let instance = instance(&[3]);
    for id in [
        RequestId::Number(3),
        RequestId::String("3".to_owned()),
        RequestId::Number(3).tag(Tag::Drop),
        RequestId::Number(3).tag(Tag::Forward),
    ] {
        assert_eq!(instance.handle_server_message(answer(id.clone())), Reaction::Send(Vec::new()));
        assert_eq!(instance.handle_server_message(failure(id)), Reaction::Send(Vec::new()));
    }
}

#[test]
fn requests_that_concern_all_clients_are_announced_and_answered() {
    for method in [
        "window/workDoneProgress/create",
        "workspace/codeLens/refresh",
        "workspace/semanticTokens/refresh",
        "workspace/inlayHint/refresh",
        "workspace/inlineValue/refresh",
        "workspace/diagnostic/refresh",
    ] {
        let instance = instance(&[3, 4]);
        let message = Message::Request(request(RequestId::Number(9), method));
        let (to_clients, to_server) = split(sent(instance.handle_server_message(message)));
        let tagged = Message::Request(request(RequestId::Number(9).tag(Tag::Drop), method));
        let again = Message::Request(request(RequestId::Number(9).tag(Tag::Drop), method));
        assert_eq!(to_clients, vec![(3, tagged), (4, again)]);
        assert_eq!(
            to_server,
            vec![Message::ResponseSuccess(ResponseSuccess {
                id: RequestId::Number(9),
                result: Payload::Null,
            })]
        );
    }
}

#[test]
fn server_is_answered_though_no_client_is_connected() {
    let instance = instance(&[]);
    let message = Message::Request(request(RequestId::Number(9), "workspace/codeLens/refresh"));
    assert_eq!(
        instance.handle_server_message(message),
        Reaction::Send(vec![Outgoing::Server(Message::ResponseSuccess(ResponseSuccess::null(
            RequestId::Number(9)
        )))])
    );
}

#[test]
fn one_client_is_asked_for_the_configuration() {
    let message = || Message::Request(request(RequestId::Number(9), "workspace/configuration"));
    let outgoing = sent(instance(&[3, 4]).handle_server_message(message()));
    assert_eq!(outgoing.len(), 1);
    let (to_clients, _) = split(outgoing);
    assert!(to_clients[0].0 == 3 || to_clients[0].0 == 4);
    let tagged = RequestId::Number(9).tag(Tag::Forward);
    assert_eq!(to_clients[0].1, Message::Request(request(tagged, "workspace/configuration")));

    assert_eq!(instance(&[]).handle_server_message(message()), Reaction::Send(Vec::new()));
}

#[test]
fn unknown_requests_are_ignored() {
    let message = Message::Request(request(RequestId::Number(9), "workspace/applyEdit"));
    assert_eq!(instance(&[3]).handle_server_message(message), Reaction::Send(Vec::new()));
}

#[test]
fn notifications_go_to_every_client() {
    let notification = || {
        Message::Notification(Notification {
            method: "window/logMessage".to_owned(),
            params: Payload::Json(Value::from("hello")),
        })
    };
    let outgoing = sent(instance(&[3, 4]).handle_server_message(notification()));
    let (to_clients, to_server) = split(outgoing);
    assert_eq!(to_clients, vec![(3, notification()), (4, notification())]);
    assert_eq!(to_server, Vec::new());
}

#[test]
fn registration_is_remembered_announced_and_answered() {
    let mut instance = instance(&[3]);
    let register = || request(RequestId::Number(9), "client/registerCapability");
    assert_eq!(
        instance.handle_server_message(Message::Request(register())),
        Reaction::Register(register())
    );

    let params = RegistrationParams {
        registrations: vec![Registration {
            id: "1".to_owned(),
            method: "m".to_owned(),
            register_options: None,
        }],
    };
    let outgoing = instance.registered(register(), Some(params));
    let tagged = RequestId::Number(9).tag(Tag::Drop);
    assert_eq!(
        outgoing,
        vec![
            Outgoing::Client(3, Message::Request(request(tagged, "client/registerCapability"))),
            Outgoing::Server(Message::ResponseSuccess(ResponseSuccess::null(RequestId::Number(9)))),
        ]
    );
    assert!(instance.add_client(4).is_some());
}

#[test]
fn withdrawal_is_remembered_announced_and_answered() {
    let mut instance = instance(&[3]);
    instance.register_capabilities(RegistrationParams {
        registrations: vec![Registration {
            id: "1".to_owned(),
            method: "m".to_owned(),
            register_options: None,
        }],
    });
    let withdraw = || request(RequestId::Number(9), "client/unregisterCapability");
    assert_eq!(
        instance.handle_server_message(Message::Request(withdraw())),
        Reaction::Unregister(withdraw())
    );

    let params = UnregistrationParams {
        unregistrations: vec![Unregistration { id: "1".to_owned(), method: "m".to_owned() }],
    };
    let (to_clients, to_server) = split(instance.unregistered(withdraw(), Some(params)));
    assert_eq!(to_clients.len(), 1);
    assert_eq!(
        to_server,
        vec![Message::ResponseSuccess(ResponseSuccess::null(RequestId::Number(9)))]
    );
    assert_eq!(instance.add_client(4), None);
}

#[test]
fn unreadable_registration_is_announced_all_the_same() {
    let mut instance = instance(&[3]);
    let register = || request(RequestId::Number(9), "client/registerCapability");
    assert_eq!(instance.registered(register(), None).len(), 2);
    assert_eq!(instance.add_client(4), None);
    let withdraw = request(RequestId::Number(9), "client/unregisterCapability");
    assert_eq!(instance.unregistered(withdraw, None).len(), 3);
}

#[test]
fn tags_come_off_in_reverse_order() {
    let id = RequestId::String("a".to_owned());
    let tagged = id.clone().tag(Tag::Drop).tag(Tag::ClientId(2));
    let (outer, rest) = tagged.untag();
    assert_eq!(outer, Some(Tag::ClientId(2)));
    let (inner, rest) = rest.untag();
    assert_eq!(inner, Some(Tag::Drop));
    assert_eq!(rest, id);
    assert_eq!(rest.untag(), (None, id));
}

#[test]
fn messages_reach_a_client_in_the_order_in_which_they_were_read() {
    let instance = instance(&[3, 4]);
    let notification = |method: &str| {
        Message::Notification(Notification { method: method.to_owned(), params: Payload::Null })
    };
    let mut received = Vec::new();
    for message in [
        notification("a"),
        answer(RequestId::Number(1).tag(Tag::ClientId(3))),
        answer(RequestId::Number(2).tag(Tag::ClientId(4))),
        notification("b"),
    ] {
        let (to_clients, _) = split(sent(instance.handle_server_message(message)));
        received.extend(to_clients.into_iter().filter(|(id, _)| *id == 3).map(|(_, m)| m));
    }
    assert_eq!(
        received,
        vec![notification("a"), answer(RequestId::Number(1)), notification("b")]
    );
}
