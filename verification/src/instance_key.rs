//! What a language server instance is known by.
use std::collections::BTreeMap;
use std::hash::{Hash, Hasher};

use vstd::prelude::*;
use vstd::std_specs::cmp::PartialEqSpecImpl;

use crate::hashing::{feed, hash_number, hash_string, hash_strings};
use crate::text::{copy_texts, same_texts, texts};
use crate::workspace::{RootView, WorkspaceRoot};

verus! {

/// The identity and the launch configuration of a language server.
///
/// A client that asks for the same server, arguments and workspace gets the
/// running instance. The environment serves to launch the first instance and
/// is no part of the identity, so that clients started from different
/// environments can share a server.
#[derive(Debug)]
pub struct InstanceKey {
    pub server: String,
    pub args: Vec<String>,
    pub env: BTreeMap<String, String>,
    pub workspace_root: WorkspaceRoot,
}

/// The mathematical content of an [`InstanceKey`].
pub ghost struct KeyView {
    pub server: Seq<char>,
    pub args: Seq<Seq<char>>,
    pub env: Map<String, String>,
    pub workspace_root: RootView,
}

/// What identifies an instance.
pub ghost struct Identity {
    pub server: Seq<char>,
    pub args: Seq<Seq<char>>,
    pub device_id: u64,
    pub file_id: u64,
}

impl KeyView {
    /// Both keys ask for the same instance.
    pub open spec fn same_instance(self, other: KeyView) -> bool {
        &&& self.server == other.server
        &&& self.args == other.args
        &&& self.workspace_root.same_directory(other.workspace_root)
    }

    /// The identity of the instance that the key asks for.
    pub open spec fn identity(self) -> Identity {
        Identity {
            server: self.server,
            args: self.args,
            device_id: self.workspace_root.device_id,
            file_id: self.workspace_root.file_id,
        }
    }
}

impl View for InstanceKey {
    type V = KeyView;

    open spec fn view(&self) -> KeyView {
        KeyView {
            server: self.server@,
            args: texts(self.args@),
            env: self.env@,
            workspace_root: self.workspace_root@,
        }
    }
}

impl PartialEq for InstanceKey {
    fn eq(&self, other: &Self) -> (same: bool) {
        self.server == other.server && same_texts(&self.args, &other.args) && self.workspace_root
            == other.workspace_root
    }
}

impl Eq for InstanceKey {

}

impl PartialEqSpecImpl for InstanceKey {
    open spec fn obeys_eq_spec() -> bool {
        true
    }

    open spec fn eq_spec(&self, other: &Self) -> bool {
        self@.same_instance(other@)
    }
}

impl Clone for InstanceKey {
    fn clone(&self) -> (copy: InstanceKey)
        ensures
            copy@ == self@,
    {
        InstanceKey {
            server: self.server.clone(),
            args: copy_texts(&self.args),
            env: self.env.clone(),
            workspace_root: self.workspace_root.clone(),
        }
    }
}

impl Hash for InstanceKey {
    /// Feeds the server, the arguments and the numbers of the workspace root to
    /// the hasher, in this order, and nothing else: equal keys hash alike.
    fn hash<H: Hasher>(&self, state: &mut H)
        ensures
            exists|server: String, args: Vec<String>, a: &mut H, b: &mut H, c: &mut H, d: &mut H|
                server@ == self@.server && texts(args@) == self@.args && *a == *old(state) && *b
                    == *final(a) && *c == *final(b) && *d == *final(c) && *final(d) == *final(state)
                    && #[trigger] call_ensures(hash_string::<H>, (&server, a), ())
                    && #[trigger] call_ensures(hash_strings::<H>, (&args, b), ())
                    && #[trigger] call_ensures(
                    hash_number::<H>,
                    (&self@.workspace_root.device_id, c),
                    (),
                ) && #[trigger] call_ensures(
                    hash_number::<H>,
                    (&self@.workspace_root.file_id, d),
                    (),
                ),
    {
        let ghost first = *state;
        feed(hash_string::<H>, &self.server, state);
        let ghost second = *state;
        assert(exists|a: &mut H|
            *a == first && *final(a) == second && #[trigger] call_ensures(
                hash_string::<H>,
                (&self.server, a),
                (),
            ));
        feed(hash_strings::<H>, &self.args, state);
        let ghost third = *state;
        assert(exists|b: &mut H|
            *b == second && *final(b) == third && #[trigger] call_ensures(
                hash_strings::<H>,
                (&self.args, b),
                (),
            ));
        self.workspace_root.hash(state);
        assert(self@.workspace_root == self.workspace_root@);
        let ghost last = *state;
        assert(exists|c: &mut H, d: &mut H|
            *c == third && *d == *final(c) && *final(d) == last && #[trigger] call_ensures(
                hash_number::<H>,
                (&self@.workspace_root.device_id, c),
                (),
            ) && #[trigger] call_ensures(
                hash_number::<H>,
                (&self@.workspace_root.file_id, d),
                (),
            ));
    }
}

/// Asking for the same instance is reflexive, symmetric and transitive.
pub proof fn same_instance_is_an_equivalence(a: KeyView, b: KeyView, c: KeyView)
    ensures
        a.same_instance(a),
        a.same_instance(b) ==> b.same_instance(a),
        a.same_instance(b) && b.same_instance(c) ==> a.same_instance(c),
{
}

/// Keys ask for the same instance exactly if they have the same identity.
pub proof fn same_instance_is_same_identity(a: KeyView, b: KeyView)
    ensures
        a.same_instance(b) <==> a.identity() == b.identity(),
{
}

/// Keys that differ in their environments only, or in the path by which they
/// name the workspace directory, ask for the same instance.
pub proof fn environment_is_no_part_of_the_identity(
    key: KeyView,
    env: Map<String, String>,
    path: Seq<char>,
)
    ensures
        key.same_instance(
            KeyView {
                env,
                workspace_root: RootView { path, ..key.workspace_root },
                ..key
            },
        ),
{
}

/// Keys that ask for the same instance hash alike: the states that hashing one
/// of them can take a hasher to are those that hashing the other can.
pub proof fn equal_keys_hash_alike<H: Hasher>(key: KeyView, other: KeyView, before: H, after: H)
    requires
        key.same_instance(other),
        exists|
            server: String,
            args: Vec<String>,
            a: &mut H,
            b: &mut H,
            c: &mut H,
            d: &mut H,
        |
            server@ == key.server && texts(args@) == key.args && *a == before && *b == *final(a)
                && *c == *final(b) && *d == *final(c) && *final(d) == after
                && #[trigger] call_ensures(hash_string::<H>, (&server, a), ())
                && #[trigger] call_ensures(hash_strings::<H>, (&args, b), ())
                && #[trigger] call_ensures(
                hash_number::<H>,
                (&key.workspace_root.device_id, c),
                (),
            ) && #[trigger] call_ensures(hash_number::<H>, (&key.workspace_root.file_id, d), ()),
    ensures
        exists|
            server: String,
            args: Vec<String>,
            a: &mut H,
            b: &mut H,
            c: &mut H,
            d: &mut H,
        |
            server@ == other.server && texts(args@) == other.args && *a == before && *b == *final(a)
                && *c == *final(b) && *d == *final(c) && *final(d) == after
                && #[trigger] call_ensures(hash_string::<H>, (&server, a), ())
                && #[trigger] call_ensures(hash_strings::<H>, (&args, b), ())
                && #[trigger] call_ensures(
                hash_number::<H>,
                (&other.workspace_root.device_id, c),
                (),
            ) && #[trigger] call_ensures(hash_number::<H>, (&other.workspace_root.file_id, d), ()),
{
}

/// Two keys ask for the same instance exactly if they name the same server with
/// the same arguments in the same order, and the same directory.
pub proof fn instance_is_told_by_server_arguments_and_directory(a: InstanceKey, b: InstanceKey)
    ensures
        a@.same_instance(b@) <==> {
            &&& a.server@ == b.server@
            &&& a.args@.len() == b.args@.len()
            &&& forall|i: int|
                0 <= i < a.args@.len() ==> (#[trigger] a.args@[i])@ == b.args@[i]@
            &&& a.workspace_root@.device_id == b.workspace_root@.device_id
            &&& a.workspace_root@.file_id == b.workspace_root@.file_id
        },
        a@.identity() == b@.identity() <==> a@.same_instance(b@),
        a@.env == a.env@,
        a@.workspace_root == a.workspace_root@,
{
    let x = texts(a.args@);
    let y = texts(b.args@);
    assert(x.len() == a.args@.len() && y.len() == b.args@.len());
    assert forall|i: int| 0 <= i < x.len() implies #[trigger] x[i] == a.args@[i]@ by {}
    assert forall|i: int| 0 <= i < y.len() implies #[trigger] y[i] == b.args@[i]@ by {}
    if x == y {
        assert forall|i: int| 0 <= i < a.args@.len() implies (#[trigger] a.args@[i])@
            == b.args@[i]@ by {
            assert(x[i] == y[i]);
        }
    }
    if a.args@.len() == b.args@.len() && (forall|i: int|
        0 <= i < a.args@.len() ==> (#[trigger] a.args@[i])@ == b.args@[i]@) {
        assert(x =~= y);
    }
    same_instance_is_same_identity(a@, b@);
}

} // verus!
