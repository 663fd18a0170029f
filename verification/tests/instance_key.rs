use std::collections::hash_map::DefaultHasher;
use std::collections::{BTreeMap, HashMap};
use std::hash::{Hash, Hasher};

use lspmux::instance_key::InstanceKey;
use lspmux::workspace::{FileIdentity, WorkspaceRoot};

fn root(path: &str, file_id: u64) -> WorkspaceRoot {
    WorkspaceRoot::from_path(
        path.to_owned(),
        |_: &str| true,
        |_: &str| Ok::<FileIdentity, ()>(FileIdentity { device_id: 1, file_id }),
    )
    .unwrap()
}

fn key(server: &str, args: &[&str], file_id: u64) -> InstanceKey {
    InstanceKey {
        server: server.to_owned(),
        args: args.iter().map(|arg| arg.to_string()).collect(),
        env: BTreeMap::new(),
        workspace_root: root("/work", file_id),
    }
}

#[test]
fn instance_keys_with_different_environments_are_equal() {
    let workspace_root = root(".", 1);

    let mut first_env = BTreeMap::new();
    first_env.insert("TERM".to_owned(), "xterm".to_owned());
    let first = InstanceKey {
        server: "rust-analyzer".to_owned(),
        args: Vec::new(),
        env: first_env,
        workspace_root: workspace_root.clone(),
    };

    let mut second_env = BTreeMap::new();
    second_env.insert("TERM".to_owned(), "alacritty".to_owned());
    let second = InstanceKey {
        server: "rust-analyzer".to_owned(),
        args: Vec::new(),
        env: second_env,
        workspace_root,
    };

    assert_eq!(first, second);
    let mut instances = HashMap::new();
    instances.insert(first, ());
    assert!(instances.contains_key(&second));
}

#[test]
fn keys_differ_in_server_arguments_or_workspace() {
    let first = key("clangd", &["--log", "x"], 1);
    assert_eq!(first, key("clangd", &["--log", "x"], 1));
    assert_ne!(first, key("gopls", &["--log", "x"], 1));
    assert_ne!(first, key("clangd", &["--log"], 1));
    assert_ne!(first, key("clangd", &["x", "--log"], 1));
    assert_ne!(first, key("clangd", &["--log", "x"], 2));
}

#[test]
fn map_of_keys_tells_servers_and_arguments_apart() {
    let mut instances = HashMap::new();
    instances.insert(key("clangd", &["a"], 1), 1);
    instances.insert(key("clangd", &["b"], 1), 2);
    instances.insert(key("gopls", &["a"], 1), 3);
    assert_eq!(instances.len(), 3);
    assert_eq!(instances[&key("clangd", &["b"], 1)], 2);
    assert_eq!(instances.get(&key("clangd", &["b"], 2)), None);
}

#[test]
fn copy_of_a_key_keeps_all_of_it() {
    let mut asked = key("clangd", &["a", "b"], 7);
    asked.env.insert("PATH".to_owned(), "/bin".to_owned());
    let copy = asked.clone();
    assert_eq!(copy.server, "clangd");
    assert_eq!(copy.args, vec!["a".to_owned(), "b".to_owned()]);
    assert_eq!(copy.env, asked.env);
    assert_eq!(copy.workspace_root.path(), "/work");
    assert_eq!(copy.workspace_root.file_id(), 7);
}

#[test]
fn launch_follows_the_key() {
    let mut asked = key("clangd", &["--log"], 7);
    asked.env.insert("PATH".to_owned(), "/bin".to_owned());
    let launch = asked.launch();
    assert_eq!(launch.program, "clangd");
    assert_eq!(launch.args, vec!["--log".to_owned()]);
    assert_eq!(launch.env, asked.env);
    assert_eq!(launch.current_dir, "/work");
}

fn fingerprint(key: &InstanceKey) -> u64 {
    let mut hasher = DefaultHasher::new();
    key.hash(&mut hasher);
    hasher.finish()
}

#[test]
fn hash_depends_on_the_identity_alone() {
    let first = key("clangd", &["a"], 1);
    let mut same = InstanceKey { workspace_root: root("/WORK", 1), ..key("clangd", &["a"], 1) };
    same.env.insert("TERM".to_owned(), "xterm".to_owned());
    assert_eq!(fingerprint(&first), fingerprint(&same));
    for other in [key("gopls", &["a"], 1), key("clangd", &["b"], 1), key("clangd", &["a"], 2)] {
        assert_ne!(fingerprint(&first), fingerprint(&other));
    }
}
