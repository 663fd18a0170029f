//! The directory that a language server works in.
use std::fmt::{Debug, Formatter};
use std::hash::{Hash, Hasher};
use std::path::Path;

use vstd::prelude::*;
use vstd::std_specs::cmp::PartialEqSpecImpl;

use crate::hashing::{feed, hash_number};
use crate::printing::{print, print_string};
use crate::text::same_text;

verus! {

/// What `std::path::Path::parent` makes of a path: the path without its last
/// component, where it has one, by the path rules of the platform that the
/// crate is compiled for.
pub uninterp spec fn parent_path(path: Seq<char>) -> Option<Seq<char>>;

/// `std::path::Path::parent`. Its result is named [`parent_path`]; a parent
/// lacks the last component of the path, so it is shorter than the path.
#[verifier::external_body]
fn parent_of(path: &str) -> (parent: Option<String>)
    ensures
        parent.deep_view() == parent_path(path@),
        parent matches Some(p) ==> p@.len() < path@.len(),
{
    Path::new(path).parent().map(|parent| parent.to_string_lossy().into_owned())
}

/// What a function that was asked about a path has answered.
pub open spec fn answers<F: Fn(&str) -> R, R>(ask: F, path: Seq<char>, answer: R) -> bool {
    exists|s: &str| s@ == path && #[trigger] call_ensures(ask, (s,), answer)
}

/// The path to try after `path`, which has that parent, turned out to be no
/// directory: the parent, else the current directory, and nothing after that.
pub open spec fn next_candidate(path: Seq<char>, parent: Option<Seq<char>>) -> Option<Seq<char>> {
    match parent {
        Some(p) if p.len() > 0 => Some(p),
        _ => if path == "."@ {
            None
        } else {
            Some("."@)
        },
    }
}

/// The path that is tried when `n` paths, of which `path` was the first,
/// turned out to be no directories.
pub open spec fn candidate(path: Seq<char>, n: nat) -> Option<Seq<char>>
    decreases n,
{
    if n == 0 {
        Some(path)
    } else {
        match candidate(path, (n - 1) as nat) {
            Some(p) => next_candidate(p, parent_path(p)),
            None => None,
        }
    }
}

/// `root` is the candidate of rank `n` for `path`: all before it were found to
/// be no directories, and it was found to be one, or it was not and there is
/// no candidate after it.
pub open spec fn is_root_of<F: Fn(&str) -> bool>(
    path: Seq<char>,
    is_dir: F,
    n: nat,
    root: Seq<char>,
) -> bool {
    &&& candidate(path, n) == Some(root)
    &&& forall|m: nat|
        m < n ==> (#[trigger] candidate(path, m) matches Some(p) && answers(is_dir, p, false))
    &&& answers(is_dir, root, true) || (answers(is_dir, root, false) && candidate(path, n + 1)
        is None)
}

/// The path to try after `path`, which has that parent, turned out to be no
/// directory.
pub fn try_next(path: &str, parent: Option<String>) -> (next: Option<String>)
    ensures
        next.deep_view() == next_candidate(path@, parent.deep_view()),
{
    match parent {
        Some(p) => {
            if !p.as_str().is_empty() {
                return Some(p);
            }
        },
        None => {},
    }
    if same_text(path, ".") {
        None
    } else {
        Some(".".to_owned())
    }
}

/// Replaces a path that is not a directory by the nearest ancestor that is.
///
/// Clients that open a single file may send the path of the file as the
/// workspace root, but a language server is started with the root as its
/// current directory. A path without a parent component is replaced by the
/// current directory; if not even that is a directory, the search ends there.
pub fn normalize_workspace_root_path<F: Fn(&str) -> bool>(path: String, is_dir: F) -> (root: String)
    requires
        forall|s: &str| call_requires(is_dir, (s,)),
    ensures
        exists|n: nat| is_root_of(path@, is_dir, n, root@),
{
    let ghost first = path@;
    let ghost mut n: nat = 0;
    let mut path = path;
    proof {
        reveal_strlit(".");
    }
    loop
        invariant
            forall|s: &str| call_requires(is_dir, (s,)),
            candidate(first, n) == Some(path@),
            forall|m: nat|
                m < n ==> (#[trigger] candidate(first, m) matches Some(p) && answers(
                    is_dir,
                    p,
                    false,
                )),
            "."@.len() == 1,
        ensures
            is_root_of(first, is_dir, n, path@),
        decreases (if path@ == "."@ { 0nat } else { path@.len() + 1 }),
    {
        let found = is_dir(path.as_str());
        assert(answers(is_dir, path@, found));
        if found {
            break;
        }
        let parent = parent_of(path.as_str());
        assert(candidate(first, n + 1) == next_candidate(path@, parent_path(path@)));
        match try_next(path.as_str(), parent) {
            Some(next) => {
                path = next;
                proof {
                    n = n + 1;
                }
            },
            None => {
                break;
            },
        }
    }
    path
}

/// A directory, told apart from others by what identifies it on its file
/// system: two paths can differ and still name the same directory.
pub struct WorkspaceRoot {
    path: String,
    device_id: u64,
    file_id: u64,
}

/// The mathematical content of a [`WorkspaceRoot`].
pub ghost struct RootView {
    pub path: Seq<char>,
    pub device_id: u64,
    pub file_id: u64,
}

impl View for WorkspaceRoot {
    type V = RootView;

    closed spec fn view(&self) -> RootView {
        RootView { path: self.path@, device_id: self.device_id, file_id: self.file_id }
    }
}

/// What identifies a file on the machine.
#[derive(Clone, Copy, Debug, PartialEq, Eq, Structural)]
pub struct FileIdentity {
    pub device_id: u64,
    pub file_id: u64,
}

/// The metadata of a workspace root could not be had.
#[derive(Debug, PartialEq, Eq)]
pub struct MetadataError<E> {
    pub path: String,
    pub source: E,
}

impl WorkspaceRoot {
    /// Makes the root of a path that a client sent: the directory that stands
    /// for it, identified by what the file system says of it.
    pub fn from_path<D: Fn(&str) -> bool, I: Fn(&str) -> Result<FileIdentity, E>, E>(
        path: String,
        is_dir: D,
        identify: I,
    ) -> (root: Result<WorkspaceRoot, MetadataError<E>>)
        requires
            forall|s: &str| call_requires(is_dir, (s,)),
            forall|s: &str| call_requires(identify, (s,)),
        ensures
            match root {
                Ok(root) => {
                    &&& exists|n: nat| is_root_of(path@, is_dir, n, root@.path)
                    &&& answers(
                        identify,
                        root@.path,
                        Ok::<FileIdentity, E>(
                            FileIdentity { device_id: root@.device_id, file_id: root@.file_id },
                        ),
                    )
                },
                Err(error) => {
                    &&& exists|n: nat| is_root_of(path@, is_dir, n, error.path@)
                    &&& answers(identify, error.path@, Err::<FileIdentity, E>(error.source))
                },
            },
    {
        let path = normalize_workspace_root_path(path, is_dir);
        let found = identify(path.as_str());
        assert(answers(identify, path@, found));
        match found {
            Ok(identity) => Ok(
                WorkspaceRoot { path, device_id: identity.device_id, file_id: identity.file_id },
            ),
            Err(source) => Err(MetadataError { path, source }),
        }
    }

    /// The path by which the directory was found.
    pub fn path(&self) -> (path: &str)
        ensures
            path@ == self@.path,
    {
        self.path.as_str()
    }

    pub fn device_id(&self) -> (device_id: u64)
        ensures
            device_id == self@.device_id,
    {
        self.device_id
    }

    pub fn file_id(&self) -> (file_id: u64)
        ensures
            file_id == self@.file_id,
    {
        self.file_id
    }
}

impl Debug for WorkspaceRoot {
    /// Prints the path, as a string is printed, and nothing else.
    fn fmt(&self, f: &mut Formatter<'_>) -> (result: Result<(), std::fmt::Error>)
        ensures
            exists|path: String, a: &mut Formatter<'_>|
                path@ == self@.path && *a == *old(f) && *final(a) == *final(f)
                    && #[trigger] call_ensures(print_string, (&path, a), result),
    {
        print(print_string, &self.path, f)
    }
}

impl Clone for WorkspaceRoot {
    fn clone(&self) -> (copy: WorkspaceRoot)
        ensures
            copy == *self,
    {
        WorkspaceRoot {
            path: self.path.clone(),
            device_id: self.device_id,
            file_id: self.file_id,
        }
    }
}

impl RootView {
    /// Both are the same directory, by whatever paths.
    pub open spec fn same_directory(self, other: RootView) -> bool {
        self.device_id == other.device_id && self.file_id == other.file_id
    }
}

impl PartialEq for WorkspaceRoot {
    fn eq(&self, other: &Self) -> (same: bool) {
        self.device_id == other.device_id && self.file_id == other.file_id
    }
}

impl Eq for WorkspaceRoot {

}

impl PartialEqSpecImpl for WorkspaceRoot {
    open spec fn obeys_eq_spec() -> bool {
        true
    }

    open spec fn eq_spec(&self, other: &Self) -> bool {
        self@.same_directory(other@)
    }
}

impl Hash for WorkspaceRoot {
    /// Feeds the numbers of the device and of the file to the hasher, and
    /// nothing else: equal roots hash alike.
    fn hash<H: Hasher>(&self, state: &mut H)
        ensures
            exists|a: &mut H, b: &mut H|
                *a == *old(state) && *b == *final(a) && *final(b) == *final(state)
                    && #[trigger] call_ensures(hash_number::<H>, (&self@.device_id, a), ())
                    && #[trigger] call_ensures(hash_number::<H>, (&self@.file_id, b), ()),
    {
        let ghost first = *state;
        assert(self@.device_id == self.device_id && self@.file_id == self.file_id);
        feed(hash_number::<H>, &self.device_id, state);
        let ghost second = *state;
        assert(exists|a: &mut H|
            *a == first && *final(a) == second && #[trigger] call_ensures(
                hash_number::<H>,
                (&self@.device_id, a),
                (),
            ));
        feed(hash_number::<H>, &self.file_id, state);
        let ghost third = *state;
        assert(exists|b: &mut H|
            *b == second && *final(b) == third && #[trigger] call_ensures(
                hash_number::<H>,
                (&self@.file_id, b),
                (),
            ));
    }
}

/// A path that is always found to be a directory is its own root.
pub proof fn directory_is_its_own_root<F: Fn(&str) -> bool>(
    path: Seq<char>,
    is_dir: F,
    n: nat,
    root: Seq<char>,
)
    requires
        is_root_of(path, is_dir, n, root),
        !answers(is_dir, path, false),
    ensures
        root == path,
{
    if n > 0 {
        assert(candidate(path, 0) == Some(path));
    }
}

/// A path that is never found to be a directory, but whose parent always is,
/// has the parent as its root: files of one directory share their root.
pub proof fn parent_directory_is_the_root<F: Fn(&str) -> bool>(
    path: Seq<char>,
    is_dir: F,
    n: nat,
    root: Seq<char>,
)
    requires
        is_root_of(path, is_dir, n, root),
        !answers(is_dir, path, true),
        parent_path(path) is Some,
        parent_path(path)->0.len() > 0,
        !answers(is_dir, parent_path(path)->0, false),
    ensures
        root == parent_path(path)->0,
{
    assert(candidate(path, 0) == Some(path));
    assert(candidate(path, 1) == parent_path(path)) by {
        reveal_with_fuel(candidate, 2);
    }
    if n > 1 {
        assert(answers(is_dir, candidate(path, 1)->0, false));
    }
}

/// The search gives up only at the current directory.
pub proof fn root_is_a_directory_or_the_current_one<F: Fn(&str) -> bool>(
    path: Seq<char>,
    is_dir: F,
    n: nat,
    root: Seq<char>,
)
    requires
        is_root_of(path, is_dir, n, root),
    ensures
        answers(is_dir, root, true) || root == "."@,
{
    reveal_with_fuel(candidate, 2);
}

/// Being the same directory is reflexive, symmetric and transitive, whatever
/// the paths.
pub proof fn same_directory_is_an_equivalence(a: RootView, b: RootView, c: RootView)
    ensures
        a.same_directory(a),
        a.same_directory(b) ==> b.same_directory(a),
        a.same_directory(b) && b.same_directory(c) ==> a.same_directory(c),
        a.same_directory(RootView { path: b.path, ..a }),
{
}

/// What was answered about a path was answered about a string that holds it.
pub proof fn answers_are_those_of_the_function<F: Fn(&str) -> R, R>(
    ask: F,
    path: Seq<char>,
    answer: R,
)
    ensures
        answers(ask, path, answer) <==> exists|s: &str|
            s@ == path && #[trigger] call_ensures(ask, (s,), answer),
{
}

/// A path that the file system always calls a directory is its own root.
pub proof fn directory_stays<F: Fn(&str) -> bool>(
    path: Seq<char>,
    is_dir: F,
    n: nat,
    root: Seq<char>,
)
    requires
        is_root_of(path, is_dir, n, root),
        forall|s: &str| s@ == path ==> !#[trigger] call_ensures(is_dir, (s,), false),
    ensures
        root == path,
{
    directory_is_its_own_root(path, is_dir, n, root);
}

proof fn lemma_candidates_of_the_next(path: Seq<char>, next: Seq<char>, n: nat)
    requires
        next_candidate(path, parent_path(path)) == Some(next),
    ensures
        candidate(path, n + 1) == candidate(next, n),
    decreases n,
{
    if n == 0 {
        assert(candidate(path, 0) == Some(path));
    } else {
        lemma_candidates_of_the_next(path, next, (n - 1) as nat);
    }
}

proof fn lemma_root_of_the_next<F: Fn(&str) -> bool>(
    path: Seq<char>,
    next: Seq<char>,
    is_dir: F,
    n: nat,
    root: Seq<char>,
)
    requires
        is_root_of(path, is_dir, n, root),
        !answers(is_dir, path, true),
        next_candidate(path, parent_path(path)) == Some(next),
    ensures
        n > 0,
        is_root_of(next, is_dir, (n - 1) as nat, root),
{
    assert(candidate(path, 0) == Some(path));
    assert(candidate(path, 1) == Some(next)) by {
        reveal_with_fuel(candidate, 2);
    }
    assert(n > 0);
    let k = (n - 1) as nat;
    lemma_candidates_of_the_next(path, next, k);
    lemma_candidates_of_the_next(path, next, n);
    assert forall|m: nat| m < k implies (#[trigger] candidate(next, m) matches Some(p) && answers(
        is_dir,
        p,
        false,
    )) by {
        lemma_candidates_of_the_next(path, next, m);
        assert(candidate(path, m + 1) == candidate(next, m));
    }
}

/// The root of a path that the file system never calls a directory is the root
/// of its parent, where it has one, and of the current directory otherwise; and
/// the current directory, where it has no parent either, is kept at any rate.
pub proof fn root_of_a_file_is_the_root_of_its_parent<F: Fn(&str) -> bool>(
    path: Seq<char>,
    is_dir: F,
    n: nat,
    root: Seq<char>,
)
    requires
        is_root_of(path, is_dir, n, root),
        forall|s: &str| s@ == path ==> !#[trigger] call_ensures(is_dir, (s,), true),
    ensures
        match parent_path(path) {
            Some(parent) if parent.len() > 0 => n > 0 && is_root_of(
                parent,
                is_dir,
                (n - 1) as nat,
                root,
            ),
            _ => if path == "."@ {
                root == "."@
            } else {
                n > 0 && is_root_of("."@, is_dir, (n - 1) as nat, root)
            },
        },
{
    assert(!answers(is_dir, path, true));
    match parent_path(path) {
        Some(parent) if parent.len() > 0 => {
            lemma_root_of_the_next(path, parent, is_dir, n, root);
        },
        _ => {
            if path == "."@ {
                assert(candidate(path, 0) == Some(path));
                if n > 0 {
                    assert(candidate(path, 1) is None) by {
                        reveal_with_fuel(candidate, 2);
                    }
                    lemma_no_candidate_after_none(path, 1, n);
                }
            } else {
                lemma_root_of_the_next(path, "."@, is_dir, n, root);
            }
        },
    }
}

proof fn lemma_no_candidate_after_none(path: Seq<char>, m: nat, n: nat)
    requires
        m <= n,
        candidate(path, m) is None,
    ensures
        candidate(path, n) is None,
    decreases n,
{
    if m < n {
        lemma_no_candidate_after_none(path, m, (n - 1) as nat);
    }
}

/// The parent is tried next where the path has one that is not empty, else the
/// current directory, and after that nothing.
pub proof fn parent_is_tried_next(path: Seq<char>, parent: Option<Seq<char>>)
    ensures
        parent matches Some(p) ==> p.len() > 0 ==> next_candidate(path, parent) == parent,
        (parent is None || parent->0.len() == 0) && path == "."@ ==> next_candidate(path, parent)
            is None,
        (parent is None || parent->0.len() == 0) && path != "."@ ==> next_candidate(path, parent)
            == Some("."@),
{
}

/// Whether two roots are the same directory is told by both of their numbers,
/// and by nothing else.
pub proof fn directory_is_told_by_its_numbers(a: RootView, b: RootView)
    ensures
        a.same_directory(b) <==> a.device_id == b.device_id && a.file_id == b.file_id,
{
}

} // verus!
