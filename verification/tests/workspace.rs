use std::collections::HashMap;
use std::path::Path;

use lspmux::workspace::{
    normalize_workspace_root_path, try_next, FileIdentity, MetadataError, WorkspaceRoot,
};

/// A file system that holds these directories, numbered from 1 on, and nothing
/// else.
struct Directories(Vec<String>);

impl Directories {
    fn of(paths: &[&str]) -> Directories {
        Directories(paths.iter().map(|path| path.to_string()).collect())
    }

    fn is_dir(&self, path: &str) -> bool {
        self.0.iter().any(|dir| dir == path)
    }

    fn identify(&self, path: &str) -> Result<FileIdentity, String> {
        match self.0.iter().position(|dir| dir == path) {
            Some(i) => Ok(FileIdentity { device_id: 1, file_id: i as u64 + 1 }),
            None => Err(format!("nothing at {path}")),
        }
    }

    fn root(&self, path: String) -> Result<WorkspaceRoot, MetadataError<String>> {
        WorkspaceRoot::from_path(path, |p: &str| self.is_dir(p), |p: &str| self.identify(p))
    }
}

#[test]
fn workspace_root_of_directory_is_unchanged() {
    let dir = Path::new("/tmp").join("lspmux-test-1-dir");
    let disk = Directories::of(&["/tmp", "/tmp/lspmux-test-1-dir"]);

    let root = disk.root(dir.to_string_lossy().into_owned()).unwrap();
    assert_eq!(Path::new(root.path()), dir.as_path());
}

#[test]
fn workspace_root_of_file_is_its_parent_directory() {
    let dir = Path::new("/tmp").join("lspmux-test-1-file-root");
    let disk = Directories::of(&["/tmp", "/tmp/lspmux-test-1-file-root"]);
    let file = dir.join("test.json");

    let file_root = disk.root(file.to_string_lossy().into_owned()).unwrap();
    let dir_root = disk.root(dir.to_string_lossy().into_owned()).unwrap();

    assert_eq!(Path::new(file_root.path()), dir.as_path());
    assert_eq!(file_root, dir_root);
}

#[test]
fn workspace_root_of_file_with_trailing_slash_is_its_parent_directory() {
    let dir = Path::new("/tmp").join("lspmux-test-1-file-root-slash");
    let disk = Directories::of(&["/tmp", "/tmp/lspmux-test-1-file-root-slash"]);
    let file = dir.join("test.json");

    let root = disk.root(format!("{}/", file.to_string_lossy())).unwrap();
    assert_eq!(Path::new(root.path()), dir.as_path());
}

#[test]
fn workspace_root_of_nonexistent_path_is_its_nearest_ancestor_directory() {
    let dir = Path::new("/tmp").join("lspmux-test-1-missing-root");
    let disk = Directories::of(&["/tmp", "/tmp/lspmux-test-1-missing-root"]);
    let missing = dir.join("does-not-exist.json");

    let root = disk.root(missing.to_string_lossy().into_owned()).unwrap();
    assert_eq!(Path::new(root.path()), dir.as_path());
}

#[test]
fn workspace_root_without_parent_component_is_current_directory() {
    let root = WorkspaceRoot::from_path(
        String::new(),
        |path: &str| Path::new(path).is_dir(),
        |_: &str| Ok::<FileIdentity, ()>(FileIdentity { device_id: 1, file_id: 2 }),
    )
    .unwrap();
    assert_eq!(Path::new(root.path()), Path::new("."));
}

#[test]
fn search_climbs_over_missing_directories() {
    let disk = Directories::of(&["/", "/a"]);
    let normalize =
        |path: &str| normalize_workspace_root_path(path.to_owned(), |p: &str| disk.is_dir(p));
    assert_eq!(normalize("/a/b/c/d.rs"), "/a");
    assert_eq!(normalize("/x/y"), "/");
    assert_eq!(normalize("/a"), "/a");
}

#[test]
fn relative_path_falls_back_to_the_current_directory() {
    let disk = Directories::of(&["."]);
    let normalize =
        |path: &str| normalize_workspace_root_path(path.to_owned(), |p: &str| disk.is_dir(p));
    assert_eq!(normalize("src/main.rs"), ".");
    assert_eq!(normalize("/gone"), ".");
}

#[test]
fn search_gives_up_at_the_current_directory() {
    let root = normalize_workspace_root_path("a/b".to_owned(), |_: &str| false);
    assert_eq!(root, ".");

    let disk = Directories::of(&[]);
    let error = disk.root("a/b".to_owned()).unwrap_err();
    assert_eq!(error, MetadataError { path: ".".to_owned(), source: "nothing at .".to_owned() });
}

#[test]
fn parent_is_tried_before_the_current_directory() {
    assert_eq!(try_next("a/b", Some("a".to_owned())), Some("a".to_owned()));
    assert_eq!(try_next("a", Some(String::new())), Some(".".to_owned()));
    assert_eq!(try_next("/", None), Some(".".to_owned()));
    assert_eq!(try_next(".", Some(String::new())), None);
    assert_eq!(try_next(".", None), None);
}

#[test]
fn directory_is_told_by_its_numbers_and_not_by_its_path() {
    let root = |path: &str, device_id: u64, file_id: u64| {
        WorkspaceRoot::from_path(
            path.to_owned(),
            |_: &str| true,
            |_: &str| Ok::<FileIdentity, ()>(FileIdentity { device_id, file_id }),
        )
        .unwrap()
    };
    let lower = root("/work", 3, 4);
    let upper = root("/WORK", 3, 4);
    assert_eq!(lower, upper);
    assert_ne!(lower, root("/work", 3, 5));
    assert_ne!(lower, root("/work", 2, 4));
    assert_eq!((upper.path(), upper.device_id(), upper.file_id()), ("/WORK", 3, 4));

    let mut by_root = HashMap::new();
    by_root.insert(lower.clone(), 1);
    assert_eq!(by_root.get(&upper), Some(&1));
    assert_eq!(by_root.get(&root("/work", 4, 3)), None);
    assert_eq!(lower.clone().path(), "/work");
}

#[test]
fn workspace_root_prints_its_path_alone() {
    let disk = Directories::of(&["/tmp/a \"b\""]);
    let root = disk.root("/tmp/a \"b\"".to_owned()).unwrap();
    assert_eq!(format!("{root:?}"), "\"/tmp/a \\\"b\\\"\"");
    assert_eq!(format!("{root:?}"), format!("{:?}", root.path()));
}
