use std::collections::BTreeMap;

use lspmux::instance::Instance;
use lspmux::instance_key::InstanceKey;
use lspmux::instance_map::{
    enter, get_or_spawn, longest_match, retire, wait_task, ChildAction, ChildEvent, InstanceMap, Source,
};
use lspmux::lsp::{InitializeParams, InitializeResult};
use lspmux::spawn::Spawn;
use lspmux::workspace::{FileIdentity, WorkspaceRoot};
use serde_json::Value;

fn key(path: &str, file_id: u64) -> InstanceKey {
    let workspace_root = WorkspaceRoot::from_path(
        path.to_owned(),
        |_: &str| true,
        |_: &str| Ok::<FileIdentity, ()>(FileIdentity { device_id: 1, file_id }),
    )
    .unwrap();
    InstanceKey {
        server: "clangd".to_owned(),
        args: Vec::new(),
        env: BTreeMap::new(),
        workspace_root,
    }
}

fn params() -> InitializeParams {
    InitializeParams { process_id: None, rest: Value::from("rest") }
}

#[test]
fn instance_is_found_by_keys_of_the_same_identity() {
    let mut map = InstanceMap::new();
    assert!(map.is_empty());
    map.insert(key("/work", 1), "one");
    map.insert(key("/other", 2), "two");
    assert!(!map.is_empty());

    let mut same = key("/WORK", 1);
    same.env.insert("TERM".to_owned(), "xterm".to_owned());
    assert_eq!(map.get(&same), Some(&"one"));
    assert_eq!(map.get(&key("/other", 2)), Some(&"two"));
    assert_eq!(map.get(&key("/work", 3)), None);

    map.remove(&same);
    assert_eq!(map.get(&key("/work", 1)), None);
    map.remove(&key("/work", 3));
    assert_eq!(map.instances(), vec![&"two"]);
}

#[test]
fn instance_with_the_longest_path_serves_a_directory() {
    let mut map = InstanceMap::new();
    map.insert(key("/work/lib", 2), "lib");
    map.insert(key("/work", 1), "work");
    map.insert(key("/elsewhere/that/is/long", 3), "elsewhere");

    assert_eq!(map.get_by_cwd("/work/lib/src"), Some(&"lib"));
    assert_eq!(map.get_by_cwd("/work/lib"), Some(&"lib"));
    assert_eq!(map.get_by_cwd("/work/bin"), Some(&"work"));
    assert_eq!(map.get_by_cwd("/work/library"), Some(&"work"));
    assert_eq!(map.get_by_cwd("/"), None);
    assert_eq!(map.get_by_cwd("/workshop"), None);
}

#[test]
fn all_instances_are_listed() {
    let mut map = InstanceMap::new();
    assert_eq!(map.instances(), Vec::<&u8>::new());
    map.insert(key("/a", 1), 1);
    map.insert(key("/b", 2), 2);
    let mut listed: Vec<u8> = map.instances().into_iter().copied().collect();
    listed.sort();
    assert_eq!(listed, vec![1, 2]);
}

#[test]
fn running_instance_is_reused() {
    let mut map = InstanceMap::new();
    map.insert(key("/work", 1), "one");
    match get_or_spawn(&map, &key("/other/path", 1), params(), 4) {
        Source::Running(instance) => assert_eq!(*instance, "one"),
        Source::Start(spawn) => panic!("unexpected start {spawn:?}"),
    }
}

#[test]
fn missing_instance_is_started() {
    let map: InstanceMap<u8> = InstanceMap::new();
    match get_or_spawn(&map, &key("/work", 1), params(), 4) {
        Source::Start(Spawn::Launching { key, params, client_id }) => {
            assert_eq!(key.launch().current_dir, "/work");
            assert_eq!(params.rest, Value::from("rest"));
            assert_eq!(client_id, 4);
        }
        other => panic!("unexpected source {other:?}"),
    }
}

#[test]
fn instance_is_kept_until_its_process_has_exited() {
    let mut map = InstanceMap::new();
    map.insert(key("/work", 1), 0);
    map.insert(key("/other", 2), 1);
    let result = InitializeResult { content: Value::Null };
    let mut instance = Instance::new(key("/work", 1), 5, result, 3, 0);

    assert_eq!(wait_task(ChildEvent::CloseRequested), ChildAction::Kill);
    assert_eq!(map.get(&key("/work", 1)), Some(&0));
    assert_eq!(instance.clients(), vec![3]);

    assert_eq!(wait_task(ChildEvent::Exited), ChildAction::Retire);
    retire(&mut map, &mut instance);
    assert_eq!(map.get(&key("/work", 1)), None);
    assert_eq!(map.get(&key("/other", 2)), Some(&1));
    assert_eq!(instance.clients(), Vec::<usize>::new());
}

#[test]
fn last_of_the_longest_matches_is_taken() {
    assert_eq!(longest_match(&Vec::new()), None);
    assert_eq!(longest_match(&vec![(false, 9), (false, 1)]), None);
    assert_eq!(longest_match(&vec![(true, 0)]), Some(0));
    assert_eq!(longest_match(&vec![(true, 3), (false, 9), (true, 5), (true, 4)]), Some(2));
    assert_eq!(longest_match(&vec![(true, 5), (true, 5), (true, 1)]), Some(1));
}

#[test]
fn only_a_started_instance_is_entered() {
    let mut map: InstanceMap<u8> = InstanceMap::new();
    enter(&mut map, key("/work", 1), Err("no such program"));
    assert!(map.is_empty());
    enter(&mut map, key("/work", 1), Ok::<u8, &str>(4));
    enter(&mut map, key("/other", 2), Err("no such program"));
    assert_eq!(map.get(&key("/work", 1)), Some(&4));
    assert_eq!(map.get(&key("/other", 2)), None);
}
