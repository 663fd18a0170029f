//! The server's idea of which files are open.
use vstd::prelude::*;

use crate::instance::{close_messages, open_files};
use crate::lsp::{did_close, did_open, DocumentView, MessageView, PayloadView};
use crate::text::enumerates;

verus! {

/// The files that a server takes for open after a message, when it took
/// `files` for open before.
pub open spec fn files_after(files: Set<Seq<char>>, message: MessageView) -> Set<Seq<char>> {
    match message {
        MessageView::Notification { method, params: PayloadView::DidOpen(document) } => if method
            == "textDocument/didOpen"@ {
            files.insert(document.uri)
        } else {
            files
        },
        MessageView::Notification { method, params: PayloadView::DidClose { uri } } => if method
            == "textDocument/didClose"@ {
            files.remove(uri)
        } else {
            files
        },
        _ => files,
    }
}

/// The same after several messages.
pub open spec fn files_after_all(files: Set<Seq<char>>, messages: Seq<MessageView>) -> Set<
    Seq<char>,
>
    decreases messages.len(),
{
    if messages.len() == 0 {
        files
    } else {
        files_after(files_after_all(files, messages.drop_last()), messages.last())
    }
}

/// Closing the files of a list takes those off that are open nowhere else.
proof fn lemma_closing(files: Set<Seq<char>>, list: Seq<Seq<char>>, still_open: Set<Seq<char>>)
    ensures
        files_after_all(files, close_messages(list, still_open)) == files.filter(
            |uri: Seq<char>| still_open.contains(uri) || !list.contains(uri),
        ),
    decreases list.len(),
{
    reveal(Seq::filter);
    let messages = close_messages(list, still_open);
    if list.len() == 0 {
        assert(messages =~= Seq::empty());
        assert(files =~= files.filter(
            |uri: Seq<char>| still_open.contains(uri) || !list.contains(uri),
        ));
    } else {
        let rest = list.drop_last();
        let last = list.last();
        lemma_closing(files, rest, still_open);
        let before = close_messages(rest, still_open);
        assert forall|uri: Seq<char>| list.contains(uri) == (rest.contains(uri) || uri == last) by {
            if list.contains(uri) {
                let i = choose|i: int| 0 <= i < list.len() && list[i] == uri;
                if i < rest.len() {
                    assert(rest[i] == uri);
                }
            }
            if rest.contains(uri) {
                let i = choose|i: int| 0 <= i < rest.len() && rest[i] == uri;
                assert(list[i] == uri);
            }
            if uri == last {
                assert(list[list.len() - 1] == uri);
            }
        }
        if still_open.contains(last) {
            assert(messages =~= before);
        } else {
            assert(messages =~= before.push(did_close(last)));
            assert(messages.drop_last() =~= before);
        }
        assert(files_after_all(files, messages) =~= files.filter(
            |uri: Seq<char>| still_open.contains(uri) || !list.contains(uri),
        ));
    }
}

/// What the server is told when a client opens a document keeps it in step: it
/// takes exactly those files for open that some client has open.
pub proof fn opening_keeps_the_server_in_step(
    clients: Map<usize, Set<Seq<char>>>,
    id: usize,
    document: DocumentView,
)
    requires
        clients.contains_key(id),
    ensures
        files_after_all(
            open_files(clients),
            if open_files(clients).contains(document.uri) {
                Seq::empty()
            } else {
                seq![did_open(document)]
            },
        ) == open_files(clients.insert(id, clients[id].insert(document.uri))),
{
    let uri = document.uri;
    let before = open_files(clients);
    let clients_after = clients.insert(id, clients[id].insert(uri));
    let after = open_files(clients_after);
    assert forall|u: Seq<char>| after.contains(u) == before.insert(uri).contains(u) by {
        if after.contains(u) {
            let c = choose|c: usize| #[trigger]
                clients_after.contains_key(c) && clients_after[c].contains(u);
            if u != uri {
                assert(clients.contains_key(c) && clients[c].contains(u));
            }
        }
        if before.contains(u) {
            let c = choose|c: usize| #[trigger] clients.contains_key(c) && clients[c].contains(u);
            assert(clients_after.contains_key(c) && clients_after[c].contains(u));
        }
        if u == uri {
            assert(clients_after.contains_key(id) && clients_after[id].contains(u));
        }
    }
    assert(after =~= before.insert(uri));
    let sent = seq![did_open(document)];
    assert(sent.drop_last() =~= Seq::empty());
    assert(files_after_all(before, sent.drop_last()) == before);
    assert(files_after_all(before, sent) == before.insert(uri));
    if before.contains(uri) {
        assert(before.insert(uri) =~= before);
    }
}

/// What the server is told when a client closes a document keeps it in step.
pub proof fn closing_keeps_the_server_in_step(
    clients: Map<usize, Set<Seq<char>>>,
    id: usize,
    uri: Seq<char>,
)
    requires
        clients.contains_key(id),
    ensures
        files_after_all(
            open_files(clients),
            close_messages(
                seq![uri],
                open_files(clients.insert(id, clients[id].remove(uri))),
            ),
        ) == open_files(clients.insert(id, clients[id].remove(uri))),
{
    let before = open_files(clients);
    let clients_after = clients.insert(id, clients[id].remove(uri));
    let after = open_files(clients_after);
    lemma_closing(before, seq![uri], after);
    assert(seq![uri][0] == uri);
    assert forall|u: Seq<char>| after.contains(u) == (before.contains(u) && (after.contains(u)
        || !seq![uri].contains(u))) by {
        if after.contains(u) {
            let c = choose|c: usize| #[trigger]
                clients_after.contains_key(c) && clients_after[c].contains(u);
            assert(clients.contains_key(c) && clients[c].contains(u));
        }
        if before.contains(u) && u != uri {
            let c = choose|c: usize| #[trigger] clients.contains_key(c) && clients[c].contains(u);
            assert(clients_after.contains_key(c) && clients_after[c].contains(u));
        }
    }
    assert(after =~= before.filter(
        |u: Seq<char>| after.contains(u) || !seq![uri].contains(u),
    ));
}

/// What the server is told when a client goes away keeps it in step.
pub proof fn leaving_keeps_the_server_in_step(
    clients: Map<usize, Set<Seq<char>>>,
    id: usize,
    files: Seq<Seq<char>>,
)
    requires
        clients.contains_key(id),
        enumerates(files, clients[id]),
    ensures
        files_after_all(
            open_files(clients),
            close_messages(files, open_files(clients.remove(id))),
        ) == open_files(clients.remove(id)),
{
    let before = open_files(clients);
    let clients_after = clients.remove(id);
    let after = open_files(clients_after);
    lemma_closing(before, files, after);
    assert forall|u: Seq<char>| after.contains(u) == (before.contains(u) && (after.contains(u)
        || !files.contains(u))) by {
        if after.contains(u) {
            let c = choose|c: usize| #[trigger]
                clients_after.contains_key(c) && clients_after[c].contains(u);
            assert(clients.contains_key(c) && clients[c].contains(u));
        }
        if before.contains(u) && !files.contains(u) {
            let c = choose|c: usize| #[trigger] clients.contains_key(c) && clients[c].contains(u);
            if c == id {
                assert(files.to_set().contains(u));
            }
            assert(clients_after.contains_key(c) && clients_after[c].contains(u));
        }
    }
    assert(after =~= before.filter(|u: Seq<char>| after.contains(u) || !files.contains(u)));
}

/// A file that another client has open stays open when a client closes it, and
/// the server is told nothing; when the last client closes it, the server is
/// told so once.
pub proof fn last_client_closes_the_file(
    clients: Map<usize, Set<Seq<char>>>,
    id: usize,
    uri: Seq<char>,
)
    requires
        clients.contains_key(id),
    ensures
        (exists|other: usize| #[trigger]
            clients.contains_key(other) && other != id && clients[other].contains(uri))
            ==> close_messages(
            seq![uri],
            open_files(clients.insert(id, clients[id].remove(uri))),
        ) == Seq::<MessageView>::empty(),
        (forall|other: usize| #[trigger]
            clients.contains_key(other) && other != id ==> !clients[other].contains(uri))
            ==> close_messages(
            seq![uri],
            open_files(clients.insert(id, clients[id].remove(uri))),
        ) == seq![did_close(uri)],
{
    reveal(Seq::filter);
    let after = clients.insert(id, clients[id].remove(uri));
    let list = seq![uri];
    let closed = |u: Seq<char>| !open_files(after).contains(u);
    assert(list.drop_last() =~= Seq::empty());
    assert(list.drop_last().filter(closed) =~= Seq::empty());
    if exists|other: usize| #[trigger]
        clients.contains_key(other) && other != id && clients[other].contains(uri) {
        let other = choose|other: usize| #[trigger]
            clients.contains_key(other) && other != id && clients[other].contains(uri);
        assert(after.contains_key(other) && after[other].contains(uri));
        assert(close_messages(list, open_files(after)) =~= Seq::empty());
    }
    if forall|other: usize| #[trigger]
        clients.contains_key(other) && other != id ==> !clients[other].contains(uri) {
        assert(!open_files(after).contains(uri)) by {
            if open_files(after).contains(uri) {
                let c = choose|c: usize| #[trigger] after.contains_key(c) && after[c].contains(uri);
                assert(clients.contains_key(c));
            }
        }
        assert(close_messages(list, open_files(after)) =~= seq![did_close(uri)]);
    }
}

/// What clients do that concerns their files.
pub ghost enum FileEvent {
    Connect(usize),
    Open(usize, DocumentView),
    Close(usize, Seq<char>),
    /// The client goes away, and its files are closed in that order.
    Leave(usize, Seq<Seq<char>>),
}

/// The event can happen with those clients connected.
pub open spec fn possible(clients: Map<usize, Set<Seq<char>>>, event: FileEvent) -> bool {
    match event {
        FileEvent::Connect(id) => !clients.contains_key(id),
        FileEvent::Open(id, _) => clients.contains_key(id),
        FileEvent::Close(id, _) => clients.contains_key(id),
        FileEvent::Leave(id, files) => clients.contains_key(id) && enumerates(files, clients[id]),
    }
}

/// The clients and their files after an event.
pub open spec fn clients_after(
    clients: Map<usize, Set<Seq<char>>>,
    event: FileEvent,
) -> Map<usize, Set<Seq<char>>> {
    match event {
        FileEvent::Connect(id) => clients.insert(id, Set::empty()),
        FileEvent::Open(id, document) => clients.insert(id, clients[id].insert(document.uri)),
        FileEvent::Close(id, uri) => clients.insert(id, clients[id].remove(uri)),
        FileEvent::Leave(id, _) => clients.remove(id),
    }
}

/// What the server is told of an event.
pub open spec fn told(clients: Map<usize, Set<Seq<char>>>, event: FileEvent) -> Seq<MessageView> {
    match event {
        FileEvent::Connect(_) => Seq::empty(),
        FileEvent::Open(_, document) => if open_files(clients).contains(document.uri) {
            Seq::empty()
        } else {
            seq![did_open(document)]
        },
        FileEvent::Close(_, uri) => close_messages(
            seq![uri],
            open_files(clients_after(clients, event)),
        ),
        FileEvent::Leave(_, files) => close_messages(
            files,
            open_files(clients_after(clients, event)),
        ),
    }
}

/// The clients and their files after a history that began with `first` alone.
pub open spec fn clients_after_all(first: usize, events: Seq<FileEvent>) -> Map<
    usize,
    Set<Seq<char>>,
>
    decreases events.len(),
{
    if events.len() == 0 {
        map![first => Set::<Seq<char>>::empty()]
    } else {
        clients_after(clients_after_all(first, events.drop_last()), events.last())
    }
}

/// Each event of the history can happen when it does.
pub open spec fn possible_history(first: usize, events: Seq<FileEvent>) -> bool
    decreases events.len(),
{
    events.len() > 0 ==> {
        &&& possible_history(first, events.drop_last())
        &&& possible(clients_after_all(first, events.drop_last()), events.last())
    }
}

/// Everything that the server is told in the course of a history.
pub open spec fn told_all(first: usize, events: Seq<FileEvent>) -> Seq<MessageView>
    decreases events.len(),
{
    if events.len() == 0 {
        Seq::empty()
    } else {
        told_all(first, events.drop_last()) + told(
            clients_after_all(first, events.drop_last()),
            events.last(),
        )
    }
}

proof fn lemma_more_messages(
    files: Set<Seq<char>>,
    messages: Seq<MessageView>,
    more: Seq<MessageView>,
)
    ensures
        files_after_all(files, messages + more) == files_after_all(
            files_after_all(files, messages),
            more,
        ),
    decreases more.len(),
{
    if more.len() == 0 {
        assert(messages + more =~= messages);
    } else {
        lemma_more_messages(files, messages, more.drop_last());
        assert((messages + more).drop_last() =~= messages + more.drop_last());
        assert((messages + more).last() == more.last());
    }
}

proof fn lemma_connecting_opens_nothing(clients: Map<usize, Set<Seq<char>>>, id: usize)
    requires
        !clients.contains_key(id),
    ensures
        open_files(clients.insert(id, Set::empty())) == open_files(clients),
{
    let after = clients.insert(id, Set::empty());
    assert forall|u: Seq<char>|
        open_files(after).contains(u) == open_files(clients).contains(u) by {
        if open_files(after).contains(u) {
            let c = choose|c: usize| #[trigger] after.contains_key(c) && after[c].contains(u);
            assert(clients.contains_key(c) && clients[c].contains(u));
        }
        if open_files(clients).contains(u) {
            let c = choose|c: usize| #[trigger] clients.contains_key(c) && clients[c].contains(u);
            assert(after.contains_key(c) && after[c].contains(u));
        }
    }
    assert(open_files(after) =~= open_files(clients));
}

/// Whatever clients connect, open, close and leave, the server at all times
/// takes exactly those files for open that some client has open.
pub proof fn server_is_always_in_step(first: usize, events: Seq<FileEvent>)
    requires
        possible_history(first, events),
    ensures
        files_after_all(Set::empty(), told_all(first, events)) == open_files(
            clients_after_all(first, events),
        ),
    decreases events.len(),
{
    if events.len() == 0 {
        let clients = clients_after_all(first, events);
        assert forall|u: Seq<char>| !open_files(clients).contains(u) by {
            if open_files(clients).contains(u) {
                let c = choose|c: usize| #[trigger]
                    clients.contains_key(c) && clients[c].contains(u);
                assert(c == first);
            }
        }
        assert(open_files(clients) =~= Set::empty());
    } else {
        let rest = events.drop_last();
        let clients = clients_after_all(first, rest);
        server_is_always_in_step(first, rest);
        lemma_more_messages(Set::empty(), told_all(first, rest), told(clients, events.last()));
        match events.last() {
            FileEvent::Connect(id) => {
                lemma_connecting_opens_nothing(clients, id);
            },
            FileEvent::Open(id, document) => {
                opening_keeps_the_server_in_step(clients, id, document);
            },
            FileEvent::Close(id, uri) => {
                closing_keeps_the_server_in_step(clients, id, uri);
            },
            FileEvent::Leave(id, files) => {
                leaving_keeps_the_server_in_step(clients, id, files);
            },
        }
    }
}

/// Where the server is told of a document that is opened, it does not take the
/// document for open.
spec fn opens_afresh(messages: Seq<MessageView>) -> bool {
    forall|j: int, document: DocumentView|
        0 <= j < messages.len() && messages[j] == #[trigger] did_open(document)
            ==> !files_after_all(Set::empty(), #[trigger] messages.take(j)).contains(document.uri)
}

proof fn lemma_opened_until_closed(
    messages: Seq<MessageView>,
    i: int,
    j: int,
    document: DocumentView,
)
    requires
        0 <= i < j <= messages.len(),
        messages[i] == did_open(document),
        forall|k: int| i < k < j ==> #[trigger] messages[k] != did_close(document.uri),
    ensures
        files_after_all(Set::empty(), messages.take(j)).contains(document.uri),
    decreases j,
{
    assert(messages.take(j).drop_last() =~= messages.take(j - 1));
    assert(messages.take(j).last() == messages[j - 1]);
    if j > i + 1 {
        lemma_opened_until_closed(messages, i, j - 1, document);
        assert(messages[j - 1] != did_close(document.uri));
    }
}

proof fn lemma_documents_are_opened_afresh(first: usize, events: Seq<FileEvent>)
    requires
        possible_history(first, events),
    ensures
        opens_afresh(told_all(first, events)),
    decreases events.len(),
{
    if events.len() > 0 {
        let rest = events.drop_last();
        let clients = clients_after_all(first, rest);
        let before = told_all(first, rest);
        let new = told(clients, events.last());
        let all = told_all(first, events);
        lemma_documents_are_opened_afresh(first, rest);
        server_is_always_in_step(first, rest);
        assert forall|j: int, document: DocumentView|
            0 <= j < all.len() && all[j] == #[trigger] did_open(document)
            implies !files_after_all(Set::empty(), #[trigger] all.take(j)).contains(
            document.uri,
        ) by {
            if j < before.len() {
                assert(before[j] == did_open(document));
                assert(all.take(j) =~= before.take(j));
            } else {
                assert(new[j - before.len()] == did_open(document));
                assert(events.last() is Open);
                assert(all.take(j) =~= before);
            }
        }
    }
}

/// Whatever clients do, the server is never told twice that a document was opened
/// without being told in between that it was closed.
pub proof fn document_is_closed_before_it_is_opened_again(
    first: usize,
    events: Seq<FileEvent>,
    i: int,
    j: int,
    earlier: DocumentView,
    later: DocumentView,
)
    requires
        possible_history(first, events),
        0 <= i < j < told_all(first, events).len(),
        told_all(first, events)[i] == did_open(earlier),
        told_all(first, events)[j] == did_open(later),
        earlier.uri == later.uri,
    ensures
        exists|k: int| i < k < j && #[trigger] told_all(first, events)[k] == did_close(later.uri),
{
    let messages = told_all(first, events);
    lemma_documents_are_opened_afresh(first, events);
    assert(!files_after_all(Set::empty(), messages.take(j)).contains(later.uri));
    if forall|k: int| i < k < j ==> #[trigger] messages[k] != did_close(later.uri) {
        lemma_opened_until_closed(messages, i, j, earlier);
    }
}

} // verus!
