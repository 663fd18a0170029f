//! What an instance knows about one of its clients.
use vstd::prelude::*;

use crate::ext;
use crate::text::{contains_text, copy_texts, enumerates, position_of, texts};

verus! {

/// A client, with the files that it has open.
#[derive(Debug)]
pub struct ClientData {
    id: usize,
    files: Vec<String>,
}

impl View for ClientData {
    type V = Set<Seq<char>>;

    /// The URIs of the open files.
    closed spec fn view(&self) -> Set<Seq<char>> {
        texts(self.files@).to_set()
    }
}

impl ClientData {
    pub closed spec fn spec_id(&self) -> usize {
        self.id
    }

    /// No file is listed twice.
    pub closed spec fn wf(&self) -> bool {
        texts(self.files@).no_duplicates()
    }

    /// A client that has no file open.
    pub fn new(id: usize) -> (client: ClientData)
        ensures
            client.wf(),
            client.spec_id() == id,
            client@ == Set::<Seq<char>>::empty(),
    {
        let client = ClientData { id, files: Vec::new() };
        assert(client@ =~= Set::<Seq<char>>::empty());
        client
    }

    pub fn id(&self) -> (id: usize)
        ensures
            id == self.spec_id(),
    {
        self.id
    }

    /// Whether the client has the file open.
    pub fn has_open(&self, uri: &str) -> (open: bool)
        ensures
            open == self@.contains(uri@),
    {
        contains_text(&self.files, uri)
    }

    /// Lists the file as open.
    pub fn open(&mut self, uri: String)
        requires
            old(self).wf(),
        ensures
            final(self).wf(),
            final(self).spec_id() == old(self).spec_id(),
            final(self)@ == old(self)@.insert(uri@),
    {
        let ghost before = texts(self.files@);
        if !contains_text(&self.files, uri.as_str()) {
            self.files.push(uri);
            assert(texts(self.files@) =~= before.push(uri@));
            proof {
                before.lemma_push_to_set_commute(uri@);
            }
        } else {
            assert(self@ =~= old(self)@.insert(uri@));
        }
    }

    /// Takes the file off the open ones.
    pub fn close(&mut self, uri: &str)
        requires
            old(self).wf(),
        ensures
            final(self).wf(),
            final(self).spec_id() == old(self).spec_id(),
            final(self)@ == old(self)@.remove(uri@),
    {
        let ghost before = texts(self.files@);
        match position_of(&self.files, uri) {
            Some(i) => {
                let removed = self.files.remove(i);
                let ghost after = texts(self.files@);
                assert(after =~= before.remove(i as int));
                assert(before[i as int] == uri@);
                assert(self@ =~= old(self)@.remove(uri@)) by {
                    assert forall|u: Seq<char>| old(self)@.remove(uri@).contains(u)
                        implies self@.contains(u) by {
                        let j = choose|j: int| 0 <= j < before.len() && before[j] == u;
                        if j < i {
                            assert(after[j] == u);
                        } else {
                            assert(after[j - 1] == u);
                        }
                    }
                    assert forall|u: Seq<char>| self@.contains(u) implies old(self)@.remove(
                        uri@,
                    ).contains(u) by {
                        let j = choose|j: int| 0 <= j < after.len() && after[j] == u;
                        if j < i {
                            assert(before[j] == u);
                        } else {
                            assert(before[j + 1] == u);
                        }
                    }
                }
            },
            None => {
                assert(self@ =~= old(self)@.remove(uri@));
            },
        }
    }

    /// The open files, each of them once, in no particular order.
    pub fn files(&self) -> (files: Vec<String>)
        requires
            self.wf(),
        ensures
            enumerates(texts(files@), self@),
    {
        copy_texts(&self.files)
    }

    /// What is reported about the client.
    pub fn get_status(&self) -> (status: ext::Client)
        requires
            self.wf(),
        ensures
            status.id == self.spec_id(),
            enumerates(texts(status.files@), self@),
    {
        ext::Client { id: self.id, files: self.files() }
    }
}

} // verus!
