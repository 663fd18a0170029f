//! The capabilities that a server registered while running.
use vstd::prelude::*;

use crate::keyed::{
    distinct_keys, keyed, lemma_keyed_item, lemma_keyed_push, lemma_keyed_remove,
    lemma_keyed_update, lists_all,
};
use crate::lsp::{
    copy_registrations, registration_views, Registration, RegistrationParams, RegistrationView,
    UnregistrationParams,
};
use crate::text::texts;

verus! {

/// Registrations by their ids.
#[derive(Debug)]
pub struct Capabilities {
    list: Vec<Registration>,
}

/// The key by which a registration is found.
pub open spec fn registration_id() -> spec_fn(RegistrationView) -> Seq<char> {
    |r: RegistrationView| r.id
}

/// `list` holds the registrations of a map, each of them once, in some order.
pub open spec fn lists_registrations(
    list: Seq<RegistrationView>,
    map: Map<Seq<char>, RegistrationView>,
) -> bool {
    lists_all(list, registration_id(), map)
}

/// What is registered after the registrations of a list were made one after
/// the other: of two with the same id, the later one.
pub open spec fn announced(list: Seq<RegistrationView>) -> Map<Seq<char>, RegistrationView>
    decreases list.len(),
{
    if list.len() == 0 {
        Map::empty()
    } else {
        announced(list.drop_last()).insert(list.last().id, list.last())
    }
}

/// The methods of the registrations of a list.
pub open spec fn methods_of(list: Seq<RegistrationView>) -> Seq<Seq<char>> {
    list.map_values(|r: RegistrationView| r.method)
}

impl View for Capabilities {
    type V = Map<Seq<char>, RegistrationView>;

    closed spec fn view(&self) -> Map<Seq<char>, RegistrationView> {
        keyed(registration_views(self.list@), registration_id())
    }
}

impl Capabilities {
    /// No two registrations have the same id.
    pub closed spec fn wf(&self) -> bool {
        distinct_keys(registration_views(self.list@), registration_id())
    }

    pub fn new() -> (capabilities: Capabilities)
        ensures
            capabilities.wf(),
            capabilities@ == Map::<Seq<char>, RegistrationView>::empty(),
    {
        let capabilities = Capabilities { list: Vec::new() };
        assert(capabilities@ =~= Map::<Seq<char>, RegistrationView>::empty());
        capabilities
    }

    pub fn is_empty(&self) -> (empty: bool)
        ensures
            empty == (self@ == Map::<Seq<char>, RegistrationView>::empty()),
    {
        proof {
            let views = registration_views(self.list@);
            if views.len() > 0 {
                assert(views[0].id == views[0].id);
                assert(self@.contains_key(views[0].id));
            } else {
                assert(self@ =~= Map::<Seq<char>, RegistrationView>::empty());
            }
        }
        self.list.len() == 0
    }

    fn position_of(&self, id: &String) -> (position: Option<usize>)
        ensures
            position is Some <==> self@.contains_key(id@),
            position matches Some(i) ==> i < self.list@.len() && self.list@[i as int].id@ == id@,
    {
        let ghost views = registration_views(self.list@);
        let mut i: usize = 0;
        while i < self.list.len()
            invariant
                i <= self.list.len(),
                views == registration_views(self.list@),
                forall|j: int| 0 <= j < i ==> (#[trigger] views[j]).id != id@,
            decreases self.list.len() - i,
        {
            if self.list[i].id == *id {
                assert(views[i as int].id == id@);
                return Some(i);
            }
            assert(views[i as int].id != id@);
            i += 1;
        }
        None
    }

    fn insert(&mut self, registration: Registration)
        requires
            old(self).wf(),
        ensures
            final(self).wf(),
            final(self)@ == old(self)@.insert(registration@.id, registration@),
    {
        let ghost before = registration_views(self.list@);
        let ghost new = registration@;
        match self.position_of(&registration.id) {
            Some(i) => {
                self.list.set(i, registration);
                proof {
                    assert(before[i as int].id == new.id);
                    assert(registration_views(self.list@) =~= before.update(i as int, new));
                    lemma_keyed_update(before, registration_id(), i as int, new);
                }
            },
            None => {
                self.list.push(registration);
                proof {
                    assert(registration_views(self.list@) =~= before.push(new));
                    lemma_keyed_push(before, registration_id(), new);
                }
            },
        }
    }

    fn remove(&mut self, id: &String)
        requires
            old(self).wf(),
        ensures
            final(self).wf(),
            final(self)@ == old(self)@.remove(id@),
    {
        let ghost before = registration_views(self.list@);
        match self.position_of(id) {
            Some(i) => {
                let removed = self.list.remove(i);
                proof {
                    assert(before[i as int].id == id@);
                    assert(registration_views(self.list@) =~= before.remove(i as int));
                    lemma_keyed_remove(before, registration_id(), i as int);
                }
            },
            None => {
                assert(old(self)@.remove(id@) =~= old(self)@);
            },
        }
    }

    /// Makes the registrations of a list one after the other: one with a known
    /// id replaces what was registered under it.
    pub fn register(&mut self, params: RegistrationParams)
        requires
            old(self).wf(),
        ensures
            final(self).wf(),
            final(self)@ == old(self)@.union_prefer_right(announced(params@)),
    {
        let ghost before = self@;
        let ghost list = params@;
        let mut i: usize = 0;
        assert(before =~= before.union_prefer_right(announced(list.take(0))));
        while i < params.registrations.len()
            invariant
                i <= params.registrations.len(),
                list == registration_views(params.registrations@),
                self.wf(),
                self@ == before.union_prefer_right(announced(list.take(i as int))),
            decreases params.registrations.len() - i,
        {
            let registration = params.registrations[i].clone();
            self.insert(registration);
            i += 1;
            proof {
                let done = list.take(i as int);
                assert(done.drop_last() =~= list.take(i - 1));
                assert(done.last() == registration@);
                assert(self@ =~= before.union_prefer_right(announced(done)));
            }
        }
        assert(list.take(i as int) =~= list);
    }

    /// Drops what is registered under the ids of a list.
    pub fn unregister(&mut self, params: UnregistrationParams)
        requires
            old(self).wf(),
        ensures
            final(self).wf(),
            final(self)@ == old(self)@.remove_keys(params@.to_set()),
    {
        let ghost before = self@;
        let ghost ids = params@;
        let mut i: usize = 0;
        assert(before =~= before.remove_keys(ids.take(0).to_set()));
        while i < params.unregistrations.len()
            invariant
                i <= params.unregistrations.len(),
                ids == params@,
                self.wf(),
                self@ == before.remove_keys(ids.take(i as int).to_set()),
            decreases params.unregistrations.len() - i,
        {
            let ghost last = self@;
            self.remove(&params.unregistrations[i].id);
            i += 1;
            proof {
                let done = ids.take(i as int);
                assert(done =~= ids.take(i - 1).push(ids[i - 1]));
                ids.take(i - 1).lemma_push_to_set_commute(ids[i - 1]);
                assert(self@ =~= before.remove_keys(done.to_set()));
            }
        }
        assert(ids.take(i as int) =~= ids);
    }

    /// All registrations, in no particular order.
    pub fn registrations(&self) -> (list: Vec<Registration>)
        requires
            self.wf(),
        ensures
            lists_registrations(registration_views(list@), self@),
    {
        copy_registrations(&self.list)
    }

    /// The methods of all registrations, in no particular order.
    pub fn methods(&self) -> (methods: Vec<String>)
        requires
            self.wf(),
        ensures
            exists|list: Seq<RegistrationView>| #[trigger]
                lists_registrations(list, self@) && texts(methods@) == methods_of(list),
    {
        let mut methods: Vec<String> = Vec::new();
        let mut i: usize = 0;
        while i < self.list.len()
            invariant
                i <= self.list.len(),
                methods.len() == i,
                forall|j: int| 0 <= j < i ==> #[trigger] methods[j]@ == self.list@[j].method@,
            decreases self.list.len() - i,
        {
            methods.push(self.list[i].method.clone());
            i += 1;
        }
        proof {
            let list = registration_views(self.list@);
            assert(lists_registrations(list, self@));
            assert(texts(methods@) =~= methods_of(list));
        }
        methods
    }
}

/// Withdrawing registrations undoes making them, if none of their ids was in
/// use before.
pub proof fn unregister_undoes_register(
    before: Map<Seq<char>, RegistrationView>,
    list: Seq<RegistrationView>,
)
    requires
        forall|i: int| 0 <= i < list.len() ==> !before.contains_key((#[trigger] list[i]).id),
    ensures
        before.union_prefer_right(announced(list)).remove_keys(
            list.map_values(|r: RegistrationView| r.id).to_set(),
        ) == before,
{
    let ids = list.map_values(|r: RegistrationView| r.id);
    assert forall|id: Seq<char>| announced(list).contains_key(id) == ids.contains(id) by {
        lemma_announced_ids(list, id);
    }
    assert forall|id: Seq<char>| before.contains_key(id) implies !ids.contains(id) by {
        if ids.contains(id) {
            let i = choose|i: int| 0 <= i < ids.len() && ids[i] == id;
            assert(list[i].id == id);
        }
    }
    assert(before.union_prefer_right(announced(list)).remove_keys(ids.to_set()) =~= before);
}

proof fn lemma_announced_ids(list: Seq<RegistrationView>, id: Seq<char>)
    ensures
        announced(list).contains_key(id) == list.map_values(|r: RegistrationView| r.id).contains(
            id,
        ),
    decreases list.len(),
{
    let ids = list.map_values(|r: RegistrationView| r.id);
    if list.len() > 0 {
        let rest = list.drop_last();
        let rest_ids = rest.map_values(|r: RegistrationView| r.id);
        lemma_announced_ids(rest, id);
        if id == list.last().id {
            assert(ids[list.len() - 1] == id);
        }
        if rest_ids.contains(id) {
            let j = choose|j: int| 0 <= j < rest_ids.len() && rest_ids[j] == id;
            assert(ids[j] == id);
        }
        if ids.contains(id) && id != list.last().id {
            let j = choose|j: int| 0 <= j < ids.len() && ids[j] == id;
            assert(rest_ids[j] == id);
        }
    }
}

/// Every id of a list is registered once the list was registered, and of two
/// registrations with the same id the last one counts.
pub proof fn last_registration_counts(list: Seq<RegistrationView>, i: int)
    requires
        0 <= i < list.len(),
        forall|j: int| i < j < list.len() ==> (#[trigger] list[j]).id != list[i].id,
    ensures
        announced(list).contains_key(list[i].id),
        announced(list)[list[i].id] == list[i],
    decreases list.len(),
{
    if i < list.len() - 1 {
        let rest = list.drop_last();
        assert(list[list.len() - 1].id != list[i].id);
        assert forall|j: int| i < j < rest.len() implies (#[trigger] rest[j]).id != rest[i].id by {
            assert(list[j].id != list[i].id);
        }
        last_registration_counts(rest, i);
    }
}

/// A client that connects after registrations were made is told of them: of two
/// with the same id, of the last one.
pub proof fn registrations_are_replayed(
    before: Map<Seq<char>, RegistrationView>,
    made: Seq<RegistrationView>,
    i: int,
    replayed: Seq<RegistrationView>,
)
    requires
        0 <= i < made.len(),
        forall|j: int| i < j < made.len() ==> (#[trigger] made[j]).id != made[i].id,
        lists_registrations(replayed, before.union_prefer_right(announced(made))),
    ensures
        replayed.contains(made[i]),
{
    last_registration_counts(made, i);
    let map = before.union_prefer_right(announced(made));
    assert(map.contains_key(made[i].id));
    let j = choose|j: int|
        0 <= j < replayed.len() && registration_id()(#[trigger] replayed[j]) == made[i].id;
    lemma_keyed_item(replayed, registration_id(), j);
    assert(replayed[j] == made[i]);
}

/// A client that connects after registrations were withdrawn is not told of
/// them, but of all others that there were.
pub proof fn withdrawn_registrations_are_not_replayed(
    before: Map<Seq<char>, RegistrationView>,
    withdrawn: Seq<Seq<char>>,
    replayed: Seq<RegistrationView>,
    id: Seq<char>,
)
    requires
        lists_registrations(replayed, before.remove_keys(withdrawn.to_set())),
    ensures
        withdrawn.contains(id) ==> forall|j: int|
            0 <= j < replayed.len() ==> (#[trigger] replayed[j]).id != id,
        before.contains_key(id) && !withdrawn.contains(id) ==> replayed.contains(before[id]),
{
    let map = before.remove_keys(withdrawn.to_set());
    if withdrawn.contains(id) {
        assert forall|j: int| 0 <= j < replayed.len() implies (#[trigger] replayed[j]).id != id by {
            lemma_keyed_item(replayed, registration_id(), j);
            assert(map.contains_key(replayed[j].id));
        }
    } else if before.contains_key(id) {
        assert(map.contains_key(id));
        let j = choose|j: int|
            0 <= j < replayed.len() && registration_id()(#[trigger] replayed[j]) == id;
        lemma_keyed_item(replayed, registration_id(), j);
        assert(replayed[j] == before[id]);
    }
}

/// After registrations were made, an id of theirs stands for a registration of
/// theirs with that id, and every other id for what it stood for before.
pub proof fn registering_touches_the_named_ids_alone(
    before: Map<Seq<char>, RegistrationView>,
    made: Seq<RegistrationView>,
    id: Seq<char>,
)
    ensures
        (exists|i: int| 0 <= i < made.len() && (#[trigger] made[i]).id == id) ==> {
            &&& before.union_prefer_right(announced(made)).contains_key(id)
            &&& made.contains(before.union_prefer_right(announced(made))[id])
            &&& before.union_prefer_right(announced(made))[id].id == id
        },
        (forall|i: int| 0 <= i < made.len() ==> (#[trigger] made[i]).id != id) ==> {
            &&& before.union_prefer_right(announced(made)).contains_key(id)
                == before.contains_key(id)
            &&& before.contains_key(id) ==> before.union_prefer_right(announced(made))[id]
                == before[id]
        },
    decreases made.len(),
{
    lemma_announced_item(made, id);
}

proof fn lemma_announced_item(made: Seq<RegistrationView>, id: Seq<char>)
    ensures
        announced(made).contains_key(id) <==> exists|i: int|
            0 <= i < made.len() && (#[trigger] made[i]).id == id,
        announced(made).contains_key(id) ==> made.contains(announced(made)[id])
            && announced(made)[id].id == id,
    decreases made.len(),
{
    if made.len() > 0 {
        let rest = made.drop_last();
        lemma_announced_item(rest, id);
        if made.last().id == id {
            assert(made[made.len() - 1].id == id);
            assert(made.contains(made.last()));
        } else {
            if exists|i: int| 0 <= i < made.len() && (#[trigger] made[i]).id == id {
                let i = choose|i: int| 0 <= i < made.len() && (#[trigger] made[i]).id == id;
                assert(rest[i].id == id);
            }
            if announced(rest).contains_key(id) {
                let item = announced(rest)[id];
                let i = choose|i: int| 0 <= i < rest.len() && rest[i] == item;
                assert(made[i] == item);
                assert(made[i].id == id);
            }
        }
    }
}

/// A list of all registrations holds each of them, nothing else, and no id twice.
pub proof fn list_of_registrations_is_complete(
    list: Seq<RegistrationView>,
    map: Map<Seq<char>, RegistrationView>,
)
    requires
        lists_registrations(list, map),
    ensures
        forall|id: Seq<char>| #[trigger]
            map.contains_key(id) ==> list.contains(map[id]) && map[id].id == id,
        forall|i: int|
            0 <= i < list.len() ==> map.contains_key((#[trigger] list[i]).id) && map[list[i].id]
                == list[i],
        forall|i: int, j: int|
            0 <= i < j < list.len() ==> (#[trigger] list[i]).id != (#[trigger] list[j]).id,
{
    assert forall|i: int| 0 <= i < list.len() implies map.contains_key((#[trigger] list[i]).id)
        && map[list[i].id] == list[i] by {
        lemma_keyed_item(list, registration_id(), i);
        assert(registration_id()(list[i]) == list[i].id);
    }
    assert forall|id: Seq<char>| #[trigger] map.contains_key(id) implies list.contains(map[id])
        && map[id].id == id by {
        let i = choose|i: int|
            0 <= i < list.len() && registration_id()(#[trigger] list[i]) == id;
        assert(list[i].id == id);
        assert(map[list[i].id] == list[i]);
    }
    assert forall|i: int, j: int| 0 <= i < j < list.len() implies (#[trigger] list[i]).id != (
    #[trigger] list[j]).id by {
        assert(registration_id()(list[i]) != registration_id()(list[j]));
    }
}

/// The methods of a list of registrations are theirs, one for one.
pub proof fn methods_are_those_of_the_registrations(list: Seq<RegistrationView>)
    ensures
        methods_of(list).len() == list.len(),
        forall|i: int| 0 <= i < list.len() ==> #[trigger] methods_of(list)[i] == list[i].method,
{
}

} // verus!
