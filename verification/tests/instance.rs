use std::collections::BTreeMap;

use lspmux::capabilities::Capabilities;
use lspmux::client_data::ClientData;
use lspmux::ext;
use lspmux::instance::{Instance, InstanceError};
use lspmux::instance_key::InstanceKey;
use lspmux::lsp::{
    DidCloseTextDocumentParams, DidOpenTextDocumentParams, InitializeResult, Notification, Payload,
    Registration, RegistrationParams, RequestId, Tag, TextDocumentIdentifier, TextDocumentItem,
    Unregistration, UnregistrationParams,
};
use lspmux::workspace::{FileIdentity, WorkspaceRoot};
use serde_json::Value;

fn instance() -> Instance {
    let mut env = BTreeMap::new();
    env.insert("TERM".to_owned(), "xterm".to_owned());
    let workspace_root = WorkspaceRoot::from_path(
        "/work".to_owned(),
        |_: &str| true,
        |_: &str| Ok::<FileIdentity, ()>(FileIdentity { device_id: 8, file_id: 9 }),
    )
    .unwrap();
    let key = InstanceKey {
        server: "rust-analyzer".to_owned(),
        args: vec!["--quiet".to_owned()],
        env,
        workspace_root,
    };
    Instance::new(key, 77, InitializeResult { content: Value::from("ready") }, 1, 100)
}

fn document(uri: &str) -> DidOpenTextDocumentParams {
    DidOpenTextDocumentParams {
        text_document: TextDocumentItem {
            uri: uri.to_owned(),
            language_id: "rust".to_owned(),
            version: 3,
            text: "fn main() {}".to_owned(),
        },
    }
}

fn named(uri: &str) -> DidCloseTextDocumentParams {
    DidCloseTextDocumentParams { text_document: TextDocumentIdentifier { uri: uri.to_owned() } }
}

fn did_close(uri: &str) -> Notification {
    Notification {
        method: "textDocument/didClose".to_owned(),
        params: Payload::DidClose(named(uri)),
    }
}

fn registration(id: &str, method: &str) -> Registration {
    Registration {
        id: id.to_owned(),
        method: method.to_owned(),
        register_options: Some(Value::from(id)),
    }
}

fn registrations(list: &[(&str, &str)]) -> RegistrationParams {
    RegistrationParams {
        registrations: list.iter().map(|(id, method)| registration(id, method)).collect(),
    }
}

fn unregistrations(ids: &[&str]) -> UnregistrationParams {
    UnregistrationParams {
        unregistrations: ids
            .iter()
            .map(|id| Unregistration { id: id.to_string(), method: String::new() })
            .collect(),
    }
}

fn sorted<A: Ord>(mut list: Vec<A>) -> Vec<A> {
    list.sort();
    list
}

#[test]
fn only_the_first_client_opens_a_file_at_the_server() {
    let mut instance = instance();
    assert_eq!(instance.add_client(2), None);

    let sent = instance.open_file(1, document("file:///a"));
    assert_eq!(
        sent,
        Some(Notification {
            method: "textDocument/didOpen".to_owned(),
            params: Payload::DidOpen(document("file:///a")),
        })
    );
    assert_eq!(instance.open_file(2, document("file:///a")), None);
    assert_eq!(instance.open_file(1, document("file:///a")), None);
    assert!(instance.open_file(2, document("file:///b")).is_some());
}

#[test]
fn only_the_last_client_closes_a_file_at_the_server() {
    let mut instance = instance();
    instance.add_client(2);
    instance.open_file(1, document("file:///a"));
    instance.open_file(2, document("file:///a"));

    assert_eq!(instance.close_file(1, named("file:///a")), Ok(Vec::new()));
    assert_eq!(instance.close_file(2, named("file:///a")), Ok(vec![did_close("file:///a")]));
}

#[test]
fn closing_a_file_that_is_not_open_is_passed_on() {
    let mut instance = instance();
    assert_eq!(instance.close_file(1, named("file:///a")), Ok(vec![did_close("file:///a")]));
}

#[test]
fn unknown_client_closes_no_file() {
    let mut instance = instance();
    instance.open_file(1, document("file:///a"));
    assert_eq!(
        instance.close_file(5, named("file:///a")),
        Err(InstanceError::NoMatchingClient)
    );
    assert_eq!(instance.unique_files(), vec!["file:///a".to_owned()]);
}

#[test]
fn files_of_a_client_that_leaves_are_closed_unless_shared() {
    let mut instance = instance();
    instance.add_client(2);
    instance.open_file(1, document("file:///a"));
    instance.open_file(1, document("file:///b"));
    instance.open_file(1, document("file:///c"));
    instance.open_file(2, document("file:///b"));

    let sent = instance.cleanup_client(1).unwrap();
    let mut uris: Vec<String> = Vec::new();
    for notification in sent {
        assert_eq!(notification.method, "textDocument/didClose");
        match notification.params {
            Payload::DidClose(params) => uris.push(params.text_document.uri),
            other => panic!("unexpected parameters {other:?}"),
        }
    }
    assert_eq!(sorted(uris), vec!["file:///a".to_owned(), "file:///c".to_owned()]);
    assert_eq!(instance.clients(), vec![2]);
    assert_eq!(instance.unique_files(), vec!["file:///b".to_owned()]);
}

#[test]
fn client_cannot_leave_twice() {
    let mut instance = instance();
    assert_eq!(instance.cleanup_client(1), Ok(Vec::new()));
    assert_eq!(instance.cleanup_client(1), Err(InstanceError::ClientNotConnected));
}

#[test]
fn clients_are_listed_and_found() {
    let mut instance = instance();
    instance.add_client(4);
    instance.add_client(2);
    assert_eq!(sorted(instance.clients()), vec![1, 2, 4]);
    assert_eq!(instance.get_client(4).unwrap().id(), 4);
    assert!(instance.get_client(3).is_none());
    assert!(instance.clients().contains(&instance.one_client().unwrap()));

    instance.disconnect_all();
    assert_eq!(instance.clients(), Vec::<usize>::new());
    assert_eq!(instance.one_client(), None);
}

#[test]
fn unique_files_lists_shared_files_once() {
    let mut instance = instance();
    instance.add_client(2);
    instance.open_file(1, document("file:///a"));
    instance.open_file(2, document("file:///a"));
    instance.open_file(2, document("file:///b"));
    assert_eq!(
        sorted(instance.unique_files()),
        vec!["file:///a".to_owned(), "file:///b".to_owned()]
    );
}

#[test]
fn registered_capabilities_are_replayed_to_new_clients() {
    let mut instance = instance();
    instance.register_capabilities(registrations(&[("1", "workspace/didChangeWatchedFiles")]));

    let replay = instance.add_client(2).unwrap();
    assert_eq!(
        replay.id,
        RequestId::String("replay:registerCapabilities".to_owned()).tag(Tag::Drop)
    );
    assert_eq!(replay.method, "client/registerCapability");
    assert_eq!(
        replay.params,
        Payload::Registrations(registrations(&[("1", "workspace/didChangeWatchedFiles")]))
    );
}

#[test]
fn withdrawn_capabilities_are_not_replayed() {
    let mut instance = instance();
    instance.register_capabilities(registrations(&[("1", "a"), ("2", "b")]));
    instance.unregister_capabilities(unregistrations(&["1", "unknown"]));
    assert_eq!(
        instance.add_client(2).unwrap().params,
        Payload::Registrations(registrations(&[("2", "b")]))
    );
    instance.unregister_capabilities(unregistrations(&["2"]));
    assert_eq!(instance.add_client(3), None);
}

#[test]
fn later_registration_replaces_an_earlier_one() {
    let mut capabilities = Capabilities::new();
    assert!(capabilities.is_empty());
    capabilities.register(registrations(&[("1", "a"), ("2", "b"), ("1", "c")]));
    assert_eq!(sorted(capabilities.methods()), vec!["b".to_owned(), "c".to_owned()]);
    assert!(!capabilities.is_empty());
    capabilities.unregister(unregistrations(&["2"]));
    assert_eq!(capabilities.registrations(), vec![registration("1", "c")]);
    capabilities.unregister(unregistrations(&["1"]));
    assert!(capabilities.is_empty());
}

#[test]
fn idle_time_is_counted_from_the_last_use() {
    let mut instance = instance();
    assert_eq!(instance.idle(100), 0);
    assert_eq!(instance.idle(160), 60);
    assert_eq!(instance.idle(40), 0);
    instance.keep_alive(150);
    assert_eq!(instance.idle(160), 10);
    assert_eq!(instance.idle(150), 0);
}

#[test]
fn instance_times_out_without_clients_only() {
    let mut instance = instance();
    assert!(!instance.timed_out(1000, Some(300)));
    instance.cleanup_client(1).unwrap();
    assert!(!instance.timed_out(400, Some(300)));
    assert!(instance.timed_out(401, Some(300)));
    assert!(!instance.timed_out(401, None));
    instance.keep_alive(390);
    assert!(!instance.timed_out(401, Some(300)));
}

#[test]
fn status_reports_the_instance() {
    let mut instance = instance();
    instance.open_file(1, document("file:///a"));
    instance.register_capabilities(registrations(&[("1", "workspace/didChangeWatchedFiles")]));
    let mut env = BTreeMap::new();
    env.insert("TERM".to_owned(), "xterm".to_owned());
    assert_eq!(
        instance.get_status(105),
        ext::Instance {
            pid: 77,
            server: "rust-analyzer".to_owned(),
            args: vec!["--quiet".to_owned()],
            env,
            workspace_root: ext::WorkspaceRoot {
                path: "/work".to_owned(),
                device_id: 8,
                file_id: 9,
            },
            idle_for: 5,
            clients: vec![ext::Client { id: 1, files: vec!["file:///a".to_owned()] }],
            registered_dyn_capabilities: vec!["workspace/didChangeWatchedFiles".to_owned()],
        }
    );
    assert_eq!(instance.pid(), 77);
    assert_eq!(instance.key().server, "rust-analyzer");
}

#[test]
fn initialize_result_is_what_the_server_answered() {
    let instance = instance();
    let expected = InitializeResult { content: Value::from("ready") };
    assert_eq!(instance.initialize_result(), expected);
    assert_eq!(instance.initialize_result(), expected);
}

#[test]
fn client_reports_its_open_files() {
    let mut client = ClientData::new(6);
    client.open("file:///a".to_owned());
    client.open("file:///b".to_owned());
    client.open("file:///a".to_owned());
    assert!(client.has_open("file:///a"));
    assert_eq!(client.files().len(), 2);
    client.close("file:///a");
    client.close("file:///c");
    assert!(!client.has_open("file:///a"));
    assert_eq!(
        client.get_status(),
        ext::Client { id: 6, files: vec!["file:///b".to_owned()] }
    );
}

#[test]
fn server_stays_in_step_with_the_clients() {
    let mut instance = instance();
    instance.add_client(2);
    instance.add_client(3);
    let mut at_server: Vec<String> = Vec::new();
    let apply = |at_server: &mut Vec<String>, sent: Vec<Notification>| {
        for notification in sent {
            match notification.params {
                Payload::DidOpen(params) => {
                    assert!(!at_server.contains(&params.text_document.uri));
                    at_server.push(params.text_document.uri);
                }
                Payload::DidClose(params) => {
                    at_server.retain(|uri| *uri != params.text_document.uri);
                }
                other => panic!("unexpected parameters {other:?}"),
            }
        }
    };
    for (client, uri) in [(1, "a"), (2, "a"), (2, "b"), (3, "b"), (3, "c"), (1, "d")] {
        let sent = instance.open_file(client, document(uri));
        apply(&mut at_server, sent.into_iter().collect());
        assert_eq!(sorted(at_server.clone()), sorted(instance.unique_files()));
    }
    for (client, uri) in [(2, "a"), (3, "c"), (1, "unknown")] {
        let sent = instance.close_file(client, named(uri)).unwrap();
        apply(&mut at_server, sent);
        assert_eq!(sorted(at_server.clone()), sorted(instance.unique_files()));
    }
    assert_eq!(sorted(at_server.clone()), vec!["a".to_owned(), "b".to_owned(), "d".to_owned()]);
    for client in [2, 1, 3] {
        let sent = instance.cleanup_client(client).unwrap();
        apply(&mut at_server, sent);
        assert_eq!(sorted(at_server.clone()), sorted(instance.unique_files()));
    }
    assert_eq!(at_server, Vec::<String>::new());
}

#[test]
fn file_is_opened_again_only_after_it_was_closed() {
    let mut instance = instance();
    instance.add_client(2);
    assert!(instance.open_file(1, document("a")).is_some());
    assert!(instance.open_file(2, document("a")).is_none());
    assert_eq!(instance.close_file(1, named("a")), Ok(Vec::new()));
    assert!(instance.open_file(1, document("a")).is_none());
    assert_eq!(instance.cleanup_client(2), Ok(Vec::new()));
    assert_eq!(instance.close_file(1, named("a")), Ok(vec![did_close("a")]));
    assert!(instance.open_file(1, document("a")).is_some());
}
