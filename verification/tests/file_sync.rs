use std::collections::BTreeMap;

use lspmux::file_sync::{SyncEvent, SyncStep};
use lspmux::instance::Instance;
use lspmux::instance_key::InstanceKey;
use lspmux::lsp::{
    DidChangeTextDocumentParams, DidOpenTextDocumentParams, InitializeResult, Notification, Payload,
    TextDocumentContentChangeEvent, TextDocumentItem, VersionedTextDocumentIdentifier,
};
use lspmux::workspace::{FileIdentity, WorkspaceRoot};
use serde_json::Value;

fn instance(files: &[(usize, &str)]) -> Instance {
    let workspace_root = WorkspaceRoot::from_path(
        "/work".to_owned(),
        |_: &str| true,
        |_: &str| Ok::<FileIdentity, ()>(FileIdentity { device_id: 1, file_id: 2 }),
    )
    .unwrap();
    let key = InstanceKey {
        server: "clangd".to_owned(),
        args: Vec::new(),
        env: BTreeMap::new(),
        workspace_root,
    };
    let mut instance = Instance::new(key, 5, InitializeResult { content: Value::Null }, 1, 0);
    instance.add_client(2);
    for (client, uri) in files {
        instance.open_file(
            *client,
            DidOpenTextDocumentParams {
                text_document: TextDocumentItem {
                    uri: uri.to_string(),
                    language_id: "c".to_owned(),
                    version: 1,
                    text: String::new(),
                },
            },
        );
    }
    instance
}

fn changed(uri: &str, text: &str) -> SyncStep {
    SyncStep::Send(Notification {
        method: "textDocument/didChange".to_owned(),
        params: Payload::DidChange(DidChangeTextDocumentParams {
            text_document: VersionedTextDocumentIdentifier { uri: uri.to_owned(), version: None },
            content_changes: vec![TextDocumentContentChangeEvent { text: text.to_owned() }],
        }),
    })
}

#[test]
fn every_open_file_is_read_once_and_sent() {
    let instance = instance(&[(1, "file:///a"), (2, "file:///a"), (2, "file:///b")]);
    let mut sync = instance.sync_files_from_disk();
    let mut read = Vec::new();
    let mut step = sync.advance(SyncEvent::Start);
    while let SyncStep::Read(uri) = step {
        let text = format!("text of {uri}");
        assert_eq!(sync.advance(SyncEvent::Content(text.clone())), changed(&uri, &text));
        read.push(uri);
        step = sync.advance(SyncEvent::Sent);
    }
    assert_eq!(step, SyncStep::Done);
    read.sort();
    assert_eq!(read, vec!["file:///a".to_owned(), "file:///b".to_owned()]);
}

#[test]
fn unreadable_files_are_passed_over() {
    let instance = instance(&[(1, "file:///a"), (1, "untitled:1")]);
    let mut sync = instance.sync_files_from_disk();
    assert!(matches!(sync.advance(SyncEvent::Start), SyncStep::Read(_)));
    assert!(matches!(sync.advance(SyncEvent::Unreadable), SyncStep::Read(_)));
    assert_eq!(sync.advance(SyncEvent::Unreadable), SyncStep::Done);
}

#[test]
fn nothing_is_read_once_the_instance_is_closed() {
    let instance = instance(&[(1, "file:///a"), (1, "file:///b")]);
    let mut sync = instance.sync_files_from_disk();
    sync.advance(SyncEvent::Start);
    sync.advance(SyncEvent::Content("text".to_owned()));
    assert_eq!(sync.advance(SyncEvent::SendFailed), SyncStep::Closed);
    assert_eq!(sync.advance(SyncEvent::Start), SyncStep::Done);
}

#[test]
fn nothing_is_to_be_done_without_open_files() {
    let mut sync = instance(&[]).sync_files_from_disk();
    assert_eq!(sync.advance(SyncEvent::Start), SyncStep::Done);
}

#[test]
fn each_text_that_was_read_is_sent_once() {
    let files = [(1, "file:///a"), (1, "file:///b"), (2, "file:///c"), (2, "file:///b")];
    let mut sync = instance(&files).sync_files_from_disk();
    let mut went_out = Vec::new();
    let mut event = SyncEvent::Start;
    loop {
        event = match sync.advance(event) {
            SyncStep::Read(uri) => {
                if uri == "file:///b" {
                    SyncEvent::Unreadable
                } else {
                    SyncEvent::Content(uri)
                }
            }
            SyncStep::Send(notification) => {
                went_out.push(SyncStep::Send(notification));
                SyncEvent::Sent
            }
            SyncStep::Done => break,
            SyncStep::Closed => panic!("the instance is not closed"),
        };
    }
    assert_eq!(went_out.len(), 2);
    assert!(went_out.contains(&changed("file:///a", "file:///a")));
    assert!(went_out.contains(&changed("file:///c", "file:///c")));
}
