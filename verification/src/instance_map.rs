//! The language server instances that are running.
use std::path::Path;

use vstd::prelude::*;
use vstd::utf8::encode_utf8;

use crate::instance::{Instance, InstanceView};
use crate::instance_key::{same_instance_is_same_identity, Identity, InstanceKey, KeyView};
use crate::keyed::{
    distinct_keys, keyed, lemma_keyed_item, lemma_keyed_push, lemma_keyed_remove,
};
use crate::lsp::InitializeParams;
use crate::spawn::{Spawn, SpawnView};
use crate::text::{byte_len, enumerates};

verus! {

/// Whether `std::path::Path::starts_with` finds that the first components of
/// `path` are those of `base`, by the path rules of the platform that the crate
/// is compiled for.
pub uninterp spec fn path_starts_with(path: Seq<char>, base: Seq<char>) -> bool;

/// `std::path::Path::starts_with`. Its result is named [`path_starts_with`].
#[verifier::external_body]
fn starts_with(path: &str, base: &str) -> (within: bool)
    ensures
        within == path_starts_with(path@, base@),
{
    Path::new(path).starts_with(base)
}

/// The running instances by their keys. What is known of an instance is shared
/// with the tasks that serve it, so a `T` gives access to it.
#[derive(Debug)]
pub struct InstanceMap<T> {
    entries: Vec<(InstanceKey, T)>,
}

/// The contents of a list of instances.
pub open spec fn entry_views<T>(entries: Seq<(InstanceKey, T)>) -> Seq<(KeyView, T)> {
    entries.map_values(|entry: (InstanceKey, T)| (entry.0@, entry.1))
}

/// What identifies an entry.
pub open spec fn entry_identity<T>() -> spec_fn((KeyView, T)) -> Identity {
    |entry: (KeyView, T)| entry.0.identity()
}

impl<T> View for InstanceMap<T> {
    type V = Map<Identity, (KeyView, T)>;

    closed spec fn view(&self) -> Map<Identity, (KeyView, T)> {
        keyed(entry_views(self.entries@), entry_identity())
    }
}

/// The length in memory of the path by which the workspace of an instance was
/// found.
pub open spec fn root_length(key: KeyView) -> nat {
    encode_utf8(key.workspace_root.path).len()
}

/// The instance works in a directory above `cwd`, or in `cwd`.
pub open spec fn covers<T>(map: Map<Identity, (KeyView, T)>, id: Identity, cwd: Seq<char>) -> bool {
    map.contains_key(id) && path_starts_with(cwd, map[id].0.workspace_root.path)
}

/// No instance works in `cwd` or in a directory above it.
pub open spec fn covers_none<T>(map: Map<Identity, (KeyView, T)>, cwd: Seq<char>) -> bool {
    forall|id: Identity| !#[trigger] covers(map, id, cwd)
}

/// Among the instances that cover `cwd`, none has a longer path than this one.
pub open spec fn covers_best<T>(
    map: Map<Identity, (KeyView, T)>,
    id: Identity,
    cwd: Seq<char>,
) -> bool {
    &&& covers(map, id, cwd)
    &&& forall|other: Identity| #[trigger]
        covers(map, other, cwd) ==> root_length(map[other].0) <= root_length(map[id].0)
}

/// The position `i` is that of a match, and of the longest matches it is the
/// last. A candidate says whether it matches, and how long it is.
pub open spec fn is_longest_match(candidates: Seq<(bool, usize)>, i: int) -> bool {
    &&& 0 <= i < candidates.len()
    &&& candidates[i].0
    &&& forall|j: int|
        0 <= j < candidates.len() && (#[trigger] candidates[j]).0 ==> candidates[j].1
            <= candidates[i].1 && (j > i ==> candidates[j].1 < candidates[i].1)
}

/// The position of the longest match, the last one where there are several.
pub fn longest_match(candidates: &Vec<(bool, usize)>) -> (position: Option<usize>)
    ensures
        position is None <==> forall|j: int|
            0 <= j < candidates@.len() ==> !(#[trigger] candidates@[j]).0,
        position matches Some(i) ==> is_longest_match(candidates@, i as int),
{
    let mut best: Option<usize> = None;
    let mut i: usize = 0;
    while i < candidates.len()
        invariant
            i <= candidates.len(),
            best is None <==> forall|j: int| 0 <= j < i ==> !(#[trigger] candidates@[j]).0,
            best matches Some(b) ==> b < i && is_longest_match(
                candidates@.take(i as int),
                b as int,
            ),
        decreases candidates.len() - i,
    {
        let ghost before = candidates@.take(i as int);
        let ghost after = candidates@.take(i + 1);
        assert(after =~= before.push(candidates@[i as int]));
        if candidates[i].0 {
            let better = match best {
                Some(b) => candidates[i].1 >= candidates[b].1,
                None => true,
            };
            assert forall|j: int| 0 <= j < i && (#[trigger] after[j]).0 implies best is Some
                && after[j].1 <= candidates@[best->0 as int].1 by {
                assert(after[j] == before[j] && candidates@[j].0);
            }
            if better {
                best = Some(i);
                assert(is_longest_match(after, i as int));
            } else {
                assert forall|j: int|
                    0 <= j < after.len() && (#[trigger] after[j]).0 implies after[j].1
                    <= after[best->0 as int].1 && (j > best->0 ==> after[j].1 < after[
                best->0 as int].1) by {
                    if j < i {
                        assert(after[j] == before[j]);
                    }
                }
            }
        } else {
            assert forall|j: int| 0 <= j < after.len() && (#[trigger] after[j]).0 implies j < i
                && after[j] == before[j] by {}
        }
        i += 1;
    }
    assert(candidates@.take(i as int) =~= candidates@);
    best
}

impl<T> InstanceMap<T> {
    /// No two instances have the same identity.
    pub closed spec fn wf(&self) -> bool {
        distinct_keys(entry_views(self.entries@), entry_identity())
    }

    pub fn new() -> (map: InstanceMap<T>)
        ensures
            map.wf(),
            map@ == Map::<Identity, (KeyView, T)>::empty(),
    {
        let map = InstanceMap { entries: Vec::new() };
        assert(map@ =~= Map::<Identity, (KeyView, T)>::empty());
        map
    }

    fn position_of(&self, key: &InstanceKey) -> (position: Option<usize>)
        requires
            self.wf(),
        ensures
            position is Some <==> self@.contains_key(key@.identity()),
            position matches Some(i) ==> {
                &&& i < self.entries@.len()
                &&& self.entries@[i as int].0@.identity() == key@.identity()
                &&& self@[key@.identity()] == entry_views(self.entries@)[i as int]
            },
    {
        let ghost views = entry_views(self.entries@);
        let mut i: usize = 0;
        while i < self.entries.len()
            invariant
                i <= self.entries.len(),
                self.wf(),
                views == entry_views(self.entries@),
                forall|j: int|
                    0 <= j < i ==> entry_identity::<T>()(#[trigger] views[j]) != key@.identity(),
            decreases self.entries.len() - i,
        {
            if self.entries[i].0 == *key {
                proof {
                    assert(entry_identity::<T>()(views[i as int]) == key@.identity());
                    lemma_keyed_item(views, entry_identity(), i as int);
                }
                return Some(i);
            }
            assert(entry_identity::<T>()(views[i as int]) != key@.identity());
            i += 1;
        }
        None
    }

    /// The instance that a key asks for.
    pub fn get(&self, key: &InstanceKey) -> (found: Option<&T>)
        requires
            self.wf(),
        ensures
            found is Some <==> self@.contains_key(key@.identity()),
            found matches Some(value) ==> *value == self@[key@.identity()].1,
    {
        match self.position_of(key) {
            Some(i) => Some(&self.entries[i].1),
            None => None,
        }
    }

    /// Enters an instance that was started.
    pub fn insert(&mut self, key: InstanceKey, value: T)
        requires
            old(self).wf(),
            !old(self)@.contains_key(key@.identity()),
        ensures
            final(self).wf(),
            final(self)@ == old(self)@.insert(key@.identity(), (key@, value)),
    {
        let ghost before = entry_views(self.entries@);
        let ghost new = (key@, value);
        self.entries.push((key, value));
        proof {
            assert(entry_views(self.entries@) =~= before.push(new));
            lemma_keyed_push(before, entry_identity(), new);
        }
    }

    /// Takes out the instance that a key asks for.
    pub fn remove(&mut self, key: &InstanceKey)
        requires
            old(self).wf(),
        ensures
            final(self).wf(),
            final(self)@ == old(self)@.remove(key@.identity()),
    {
        let ghost before = entry_views(self.entries@);
        match self.position_of(key) {
            Some(i) => {
                let removed = self.entries.remove(i);
                proof {
                    assert(entry_views(self.entries@) =~= before.remove(i as int));
                    assert(before[i as int].0.identity() == key@.identity());
                    lemma_keyed_remove(before, entry_identity(), i as int);
                }
            },
            None => {
                assert(old(self)@.remove(key@.identity()) =~= old(self)@);
            },
        }
    }

    /// Finds an instance with the longest path of those whose workspace holds
    /// `cwd`.
    pub fn get_by_cwd(&self, cwd: &str) -> (found: Option<&T>)
        requires
            self.wf(),
        ensures
            found is None <==> forall|id: Identity| !#[trigger] covers(self@, id, cwd@),
            found is None <==> covers_none(self@, cwd@),
            found matches Some(value) ==> exists|id: Identity| #[trigger]
                covers_best(self@, id, cwd@) && *value == self@[id].1,
    {
        let ghost views = entry_views(self.entries@);
        let ghost map = self@;
        let mut candidates: Vec<(bool, usize)> = Vec::new();
        let mut i: usize = 0;
        while i < self.entries.len()
            invariant
                i <= self.entries.len(),
                views == entry_views(self.entries@),
                candidates.len() == i,
                forall|j: int|
                    0 <= j < i ==> (#[trigger] candidates@[j]) == (
                        path_starts_with(cwd@, views[j].0.workspace_root.path),
                        root_length(views[j].0) as usize,
                    ) && candidates@[j].1 == root_length(views[j].0),
            decreases self.entries.len() - i,
        {
            let path = self.entries[i].0.workspace_root.path();
            assert(views[i as int].0.workspace_root.path == path@);
            candidates.push((starts_with(cwd, path), byte_len(path)));
            i += 1;
        }
        let best = longest_match(&candidates);
        proof {
            assert forall|id: Identity| #[trigger] covers(map, id, cwd@) implies best is Some
                && root_length(map[id].0) <= root_length(views[best->0 as int].0) by {
                let j = choose|j: int|
                    0 <= j < views.len() && entry_identity::<T>()(#[trigger] views[j]) == id;
                lemma_keyed_item(views, entry_identity(), j);
                assert(candidates@[j].0);
            }
        }
        match best {
            Some(b) => {
                proof {
                    lemma_keyed_item(views, entry_identity(), b as int);
                    let id = views[b as int].0.identity();
                    assert(covers(map, id, cwd@));
                    assert(covers_best(map, id, cwd@));
                }
                Some(&self.entries[b].1)
            },
            None => None,
        }
    }

    /// All instances, in no particular order.
    pub fn instances(&self) -> (instances: Vec<&T>)
        requires
            self.wf(),
        ensures
            exists|order: Seq<Identity>| #[trigger]
                enumerates(order, self@.dom()) && instances@ == order.map_values(
                    |id: Identity| &self@[id].1,
                ),
    {
        let ghost views = entry_views(self.entries@);
        let mut instances: Vec<&T> = Vec::new();
        let mut i: usize = 0;
        while i < self.entries.len()
            invariant
                i <= self.entries.len(),
                instances.len() == i,
                forall|j: int| 0 <= j < i ==> *(#[trigger] instances@[j]) == self.entries@[j].1,
            decreases self.entries.len() - i,
        {
            instances.push(&self.entries[i].1);
            i += 1;
        }
        proof {
            let order = views.map_values(entry_identity::<T>());
            assert(order.no_duplicates()) by {
                assert forall|a: int, b: int|
                    0 <= a < order.len() && 0 <= b < order.len() && a != b implies order[a]
                    != order[b] by {
                    if a < b {
                        assert(entry_identity::<T>()(views[a]) != entry_identity::<T>()(views[b]));
                    } else {
                        assert(entry_identity::<T>()(views[b]) != entry_identity::<T>()(views[a]));
                    }
                }
            }
            assert forall|id: Identity| order.to_set().contains(id) == self@.dom().contains(id) by {
                if order.contains(id) {
                    let j = choose|j: int| 0 <= j < order.len() && order[j] == id;
                    assert(entry_identity::<T>()(views[j]) == id);
                }
                if self@.contains_key(id) {
                    let j = choose|j: int|
                        0 <= j < views.len() && entry_identity::<T>()(#[trigger] views[j]) == id;
                    assert(order[j] == id);
                }
            }
            assert(order.to_set() =~= self@.dom());
            assert(enumerates(order, self@.dom()));
            assert forall|j: int| 0 <= j < views.len() implies #[trigger] instances@[j]
                == &self@[order[j]].1 by {
                lemma_keyed_item(views, entry_identity(), j);
            }
            assert(instances@ =~= order.map_values(|id: Identity| &self@[id].1));
        }
        instances
    }

    /// Whether no instance is running or shutting down.
    pub fn is_empty(&self) -> (empty: bool)
        ensures
            empty == (self@.dom() == Set::<Identity>::empty()),
    {
        proof {
            let views = entry_views(self.entries@);
            if views.len() > 0 {
                assert(entry_identity::<T>()(views[0]) == views[0].0.identity());
                assert(self@.dom().contains(views[0].0.identity()));
            } else {
                assert(self@.dom() =~= Set::<Identity>::empty());
            }
        }
        self.entries.len() == 0
    }
}

/// Where a client gets its instance from.
#[derive(Debug)]
pub enum Source<'a, T> {
    /// Connect the client to this one.
    Running(&'a T),
    /// Start one, and enter it if that succeeds.
    Start(Spawn),
}

/// Finds the running instance that a client asks for, or begins to start one.
/// The parameters of the client serve to initialize an instance that is
/// started, and are discarded otherwise.
pub fn get_or_spawn<'a, T>(
    map: &'a InstanceMap<T>,
    key: &InstanceKey,
    init_req_params: InitializeParams,
    client_id: usize,
) -> (source: Source<'a, T>)
    requires
        map.wf(),
    ensures
        match source {
            Source::Running(value) => map@.contains_key(key@.identity()) && *value
                == map@[key@.identity()].1,
            Source::Start(spawn) => {
                &&& !map@.contains_key(key@.identity())
                &&& spawn.wf()
                &&& spawn@ == (SpawnView::Launching {
                    key: key@,
                    rest: init_req_params.rest,
                    client_id,
                })
            },
        },
{
    match map.get(key) {
        Some(value) => Source::Running(value),
        None => Source::Start(Spawn::begin(key.clone(), init_req_params, client_id)),
    }
}

/// Enters an instance under the key that it was started for, where starting it
/// has succeeded; where it has not, the map stays as it is.
pub fn enter<T, E>(map: &mut InstanceMap<T>, key: InstanceKey, started: Result<T, E>)
    requires
        old(map).wf(),
        !old(map)@.contains_key(key@.identity()),
    ensures
        final(map).wf(),
        final(map)@ == match started {
            Ok(value) => old(map)@.insert(key@.identity(), (key@, value)),
            Err(_) => old(map)@,
        },
{
    match started {
        Ok(value) => map.insert(key, value),
        Err(_) => {},
    }
}

/// What the process of an instance is watched for.
#[derive(Clone, Copy, Debug, PartialEq, Eq, Structural)]
pub enum ChildEvent {
    /// The instance is to be closed.
    CloseRequested,
    /// The process has exited, or cannot be waited for.
    Exited,
}

/// What to do about it.
#[derive(Clone, Copy, Debug, PartialEq, Eq, Structural)]
pub enum ChildAction {
    /// Kill the process, and go on watching: its clients lose the instance only
    /// once the process has exited.
    Kill,
    /// Go on with [`retire`], report how the process ended, and stop watching.
    Retire,
}

/// Decides about what became of the process of an instance.
pub fn wait_task(event: ChildEvent) -> (action: ChildAction)
    ensures
        action == match event {
            ChildEvent::CloseRequested => ChildAction::Kill,
            ChildEvent::Exited => ChildAction::Retire,
        },
{
    match event {
        ChildEvent::CloseRequested => ChildAction::Kill,
        ChildEvent::Exited => ChildAction::Retire,
    }
}

/// Gives up an instance whose process has exited: it is found no more, so that
/// new clients get one of their own, and its clients are disconnected.
pub fn retire<T>(map: &mut InstanceMap<T>, instance: &mut Instance)
    requires
        old(map).wf(),
        old(instance).wf(),
    ensures
        final(map).wf(),
        final(instance).wf(),
        final(map)@ == old(map)@.remove(old(instance)@.key.identity()),
        final(instance)@ == (InstanceView {
            clients: Map::<usize, Set<Seq<char>>>::empty(),
            ..old(instance)@
        }),
{
    map.remove(instance.key());
    instance.disconnect_all();
}

/// Once an instance was entered, every key that asks for the same instance finds
/// it, whatever its environment; and once its process has exited, none does.
pub proof fn instance_is_found_until_its_process_exits<T>(
    map: Map<Identity, (KeyView, T)>,
    key: KeyView,
    value: T,
    other: KeyView,
)
    requires
        other.same_instance(key),
    ensures
        map.insert(key.identity(), (key, value)).contains_key(other.identity()),
        map.insert(key.identity(), (key, value))[other.identity()].1 == value,
        !map.remove(key.identity()).contains_key(other.identity()),
{
    same_instance_is_same_identity(other, key);
}

/// The instance that serves a directory works in it or above it, and no instance
/// that does has a workspace path of more bytes.
pub proof fn nearest_workspace_serves_a_directory<T>(
    map: Map<Identity, (KeyView, T)>,
    id: Identity,
    cwd: Seq<char>,
)
    ensures
        covers(map, id, cwd) <==> map.contains_key(id) && path_starts_with(
            cwd,
            map[id].0.workspace_root.path,
        ),
        covers_best(map, id, cwd) <==> {
            &&& map.contains_key(id)
            &&& path_starts_with(cwd, map[id].0.workspace_root.path)
            &&& forall|other: Identity| #[trigger]
                map.contains_key(other) && path_starts_with(
                    cwd,
                    map[other].0.workspace_root.path,
                ) ==> encode_utf8(map[other].0.workspace_root.path).len() <= encode_utf8(
                    map[id].0.workspace_root.path,
                ).len()
        },
{
    if covers_best(map, id, cwd) {
        assert forall|other: Identity| #[trigger] map.contains_key(other) && path_starts_with(
            cwd,
            map[other].0.workspace_root.path,
        ) implies encode_utf8(map[other].0.workspace_root.path).len() <= encode_utf8(
            map[id].0.workspace_root.path,
        ).len() by {
            assert(covers(map, other, cwd));
        }
    }
}

/// The longest match is one, none of the others is longer, and none that is as
/// long stands behind it.
pub proof fn longest_match_is_beaten_by_none(candidates: Seq<(bool, usize)>, i: int, j: int)
    requires
        is_longest_match(candidates, i),
    ensures
        0 <= i < candidates.len() && candidates[i].0,
        0 <= j < candidates.len() && candidates[j].0 ==> candidates[j].1 <= candidates[i].1,
        i < j < candidates.len() && candidates[j].0 ==> candidates[j].1 < candidates[i].1,
{
}

} // verus!
