//! Bringing a server up to date with what is on disk.
use vstd::prelude::*;

use crate::instance::{open_files, Instance};
use crate::lsp::{
    did_change, DidChangeTextDocumentParams, MessageView, Notification, Payload,
    TextDocumentContentChangeEvent, VersionedTextDocumentIdentifier,
};
use crate::text::{enumerates, texts};

verus! {

/// The file that is being dealt with, and those that are still to be.
#[derive(Debug)]
pub struct FileSync {
    current: Option<String>,
    pending: Vec<String>,
}

/// What to do next.
#[derive(Debug, PartialEq, Eq)]
pub enum SyncStep {
    /// Read the file of that URI.
    Read(String),
    /// Send the notification to the server.
    Send(Notification),
    /// Nothing: all files were dealt with.
    Done,
    /// Give up: the instance is closed.
    Closed,
}

/// What came of it.
#[derive(Debug, PartialEq, Eq)]
pub enum SyncEvent {
    /// Nothing was asked for yet.
    Start,
    /// The URI names no file, or the file could not be read.
    Unreadable,
    /// The file holds that text.
    Content(String),
    Sent,
    SendFailed,
}

/// The mathematical content of a [`FileSync`].
pub ghost struct SyncView {
    pub current: Option<Seq<char>>,
    pub pending: Seq<Seq<char>>,
}

/// The mathematical content of a [`SyncStep`].
pub ghost enum SyncStepView {
    Read(Seq<char>),
    Send(MessageView),
    Done,
    Closed,
}

/// The mathematical content of a [`SyncEvent`].
pub ghost enum SyncEventView {
    Start,
    Unreadable,
    Content(Seq<char>),
    Sent,
    SendFailed,
}

impl View for FileSync {
    type V = SyncView;

    closed spec fn view(&self) -> SyncView {
        SyncView {
            current: match self.current {
                Some(uri) => Some(uri@),
                None => None,
            },
            pending: texts(self.pending@),
        }
    }
}

impl View for SyncStep {
    type V = SyncStepView;

    open spec fn view(&self) -> SyncStepView {
        match self {
            SyncStep::Read(uri) => SyncStepView::Read(uri@),
            SyncStep::Send(notification) => SyncStepView::Send(notification@),
            SyncStep::Done => SyncStepView::Done,
            SyncStep::Closed => SyncStepView::Closed,
        }
    }
}

impl View for SyncEvent {
    type V = SyncEventView;

    open spec fn view(&self) -> SyncEventView {
        match self {
            SyncEvent::Start => SyncEventView::Start,
            SyncEvent::Unreadable => SyncEventView::Unreadable,
            SyncEvent::Content(text) => SyncEventView::Content(text@),
            SyncEvent::Sent => SyncEventView::Sent,
            SyncEvent::SendFailed => SyncEventView::SendFailed,
        }
    }
}

impl SyncView {
    /// A text can come only of a file that is being dealt with.
    pub open spec fn expects(self, event: SyncEventView) -> bool {
        event is Content ==> self.current is Some
    }

    /// The files that are left after an event. A file that cannot be read is
    /// passed over; once the instance is closed, no file is left.
    pub open spec fn after(self, event: SyncEventView) -> SyncView {
        match event {
            SyncEventView::Content(_) => self,
            SyncEventView::SendFailed => SyncView { current: None, pending: Seq::empty() },
            _ => if self.pending.len() > 0 {
                SyncView {
                    current: Some(self.pending.last()),
                    pending: self.pending.drop_last(),
                }
            } else {
                SyncView { current: None, pending: self.pending }
            },
        }
    }

    /// What to do after an event: send the text of the file that was read, or
    /// read the next one.
    pub open spec fn step(self, event: SyncEventView) -> SyncStepView {
        match event {
            SyncEventView::Content(text) => SyncStepView::Send(did_change(self.current->0, text)),
            SyncEventView::SendFailed => SyncStepView::Closed,
            _ => if self.pending.len() > 0 {
                SyncStepView::Read(self.pending.last())
            } else {
                SyncStepView::Done
            },
        }
    }
}

impl Instance {
    /// Begins to send the content on disk of every file that any client has
    /// open.
    pub fn sync_files_from_disk(&self) -> (sync: FileSync)
        requires
            self.wf(),
        ensures
            sync@.current is None,
            enumerates(sync@.pending, open_files(self@.clients)),
    {
        FileSync { current: None, pending: self.unique_files() }
    }
}

impl FileSync {
    /// Decides how to go on.
    pub fn advance(&mut self, event: SyncEvent) -> (step: SyncStep)
        requires
            old(self)@.expects(event@),
        ensures
            final(self)@ == old(self)@.after(event@),
            step@ == old(self)@.step(event@),
            event matches SyncEvent::Content(text) ==> {
                &&& step matches SyncStep::Send(sent)
                &&& sent.method@ == "textDocument/didChange"@
                &&& sent.params matches Payload::DidChange(params)
                &&& Some(params.text_document.uri@) == old(self)@.current
                &&& params.text_document.version == None::<i64>
                &&& params.content_changes@.len() == 1
                &&& params.content_changes@[0].text == text
            },
    {
        match event {
            SyncEvent::Content(text) => {
                let uri = match &self.current {
                    Some(uri) => uri.clone(),
                    None => String::new(),
                };
                let ghost t = text@;
                let mut content_changes: Vec<TextDocumentContentChangeEvent> = Vec::new();
                content_changes.push(TextDocumentContentChangeEvent { text });
                let params = DidChangeTextDocumentParams {
                    text_document: VersionedTextDocumentIdentifier { uri, version: None },
                    content_changes,
                };
                assert(content_changes@.map_values(|c: TextDocumentContentChangeEvent| c.text@)
                    =~= seq![t]);
                SyncStep::Send(
                    Notification {
                        method: "textDocument/didChange".to_owned(),
                        params: Payload::DidChange(params),
                    },
                )
            },
            SyncEvent::SendFailed => {
                self.current = None;
                self.pending.clear();
                assert(self@.pending =~= Seq::<Seq<char>>::empty());
                SyncStep::Closed
            },
            _ => {
                match self.pending.pop() {
                    Some(uri) => {
                        self.current = Some(uri.clone());
                        assert(self@.pending =~= old(self)@.pending.drop_last());
                        SyncStep::Read(uri)
                    },
                    None => {
                        self.current = None;
                        assert(self@.pending =~= old(self)@.pending);
                        SyncStep::Done
                    },
                }
            },
        }
    }
}

/// The files that are left after events.
pub open spec fn left_after(sync: SyncView, events: Seq<SyncEventView>) -> SyncView
    decreases events.len(),
{
    if events.len() == 0 {
        sync
    } else {
        left_after(sync, events.drop_last()).after(events.last())
    }
}

/// The files that were to be read while events happened, in that order.
pub open spec fn read_during(sync: SyncView, events: Seq<SyncEventView>) -> Seq<Seq<char>>
    decreases events.len(),
{
    if events.len() == 0 {
        Seq::empty()
    } else {
        let before = read_during(sync, events.drop_last());
        match left_after(sync, events.drop_last()).step(events.last()) {
            SyncStepView::Read(uri) => before.push(uri),
            _ => before,
        }
    }
}

proof fn lemma_nothing_is_lost(sync: SyncView, events: Seq<SyncEventView>)
    requires
        !events.contains(SyncEventView::SendFailed),
    ensures
        sync.pending == left_after(sync, events).pending + read_during(sync, events).reverse(),
    decreases events.len(),
{
    if events.len() == 0 {
        assert(read_during(sync, events).reverse() =~= Seq::empty());
    } else {
        let rest = events.drop_last();
        assert forall|i: int| 0 <= i < rest.len() implies rest[i] != SyncEventView::SendFailed by {
            assert(events[i] == rest[i]);
        }
        lemma_nothing_is_lost(sync, rest);
        assert(events[events.len() - 1] != SyncEventView::SendFailed);
        let before = left_after(sync, rest);
        let reads = read_during(sync, rest);
        if before.step(events.last()) is Read {
            let uri = before.pending.last();
            assert(reads.push(uri).reverse() =~= seq![uri] + reads.reverse());
            assert(before.pending =~= before.pending.drop_last() + seq![uri]);
        }
    }
    assert(sync.pending =~= left_after(sync, events).pending + read_during(
        sync,
        events,
    ).reverse());
}

/// When the instance was not closed meanwhile and nothing is left to be done,
/// every file that was to be read was read, and each of them once, whichever of
/// them could be read.
pub proof fn every_file_is_read_once(
    sync: SyncView,
    files: Set<Seq<char>>,
    events: Seq<SyncEventView>,
    last: SyncEventView,
)
    requires
        enumerates(sync.pending, files),
        !events.contains(SyncEventView::SendFailed),
        left_after(sync, events).step(last) is Done,
    ensures
        enumerates(read_during(sync, events), files),
{
    lemma_nothing_is_lost(sync, events);
    let reads = read_during(sync, events);
    assert(sync.pending =~= reads.reverse());
    assert forall|i: int, j: int|
        0 <= i < reads.len() && 0 <= j < reads.len() && i != j implies reads[i] != reads[j] by {
        let n = reads.len() - 1;
        assert(sync.pending[n - i] == reads[i]);
        assert(sync.pending[n - j] == reads[j]);
    }
    assert forall|uri: Seq<char>| reads.to_set().contains(uri) == files.contains(uri) by {
        let n = reads.len() - 1;
        if reads.contains(uri) {
            let i = choose|i: int| 0 <= i < reads.len() && reads[i] == uri;
            assert(sync.pending[n - i] == uri);
            assert(sync.pending.to_set().contains(uri));
        }
        if files.contains(uri) {
            assert(sync.pending.to_set().contains(uri));
            let i = choose|i: int| 0 <= i < sync.pending.len() && sync.pending[i] == uri;
            assert(reads[n - i] == uri);
        }
    }
    assert(reads.to_set() =~= files);
}

/// The text of a file goes to the server under the URI by which the file was
/// read.
pub proof fn text_is_sent_for_the_file_that_was_read(
    sync: SyncView,
    event: SyncEventView,
    text: Seq<char>,
)
    requires
        sync.step(event) is Read,
    ensures
        sync.after(event).expects(SyncEventView::Content(text)),
        sync.after(event).step(SyncEventView::Content(text)) == SyncStepView::Send(
            did_change(sync.step(event)->Read_0, text),
        ),
{
}

/// What was to be done after events, if there were any.
pub open spec fn last_step(sync: SyncView, events: Seq<SyncEventView>) -> Option<SyncStepView> {
    if events.len() == 0 {
        None
    } else {
        Some(left_after(sync, events.drop_last()).step(events.last()))
    }
}

/// The event is what can come of what was to be done.
pub open spec fn comes_of(event: SyncEventView, step: Option<SyncStepView>) -> bool {
    match step {
        None => event is Start,
        Some(SyncStepView::Read(_)) => event is Unreadable || event is Content,
        Some(SyncStepView::Send(_)) => event is Sent || event is SendFailed,
        Some(SyncStepView::Done) => false,
        Some(SyncStepView::Closed) => false,
    }
}

/// What was to be done was done each time, and the events are what came of it.
pub open spec fn is_run(sync: SyncView, events: Seq<SyncEventView>) -> bool
    decreases events.len(),
{
    events.len() > 0 ==> is_run(sync, events.drop_last()) && comes_of(
        events.last(),
        last_step(sync, events.drop_last()),
    )
}

/// The files whose text was read during a run, with their texts, in order.
pub open spec fn texts_read(sync: SyncView, events: Seq<SyncEventView>) -> Seq<
    (Seq<char>, Seq<char>),
>
    decreases events.len(),
{
    if events.len() == 0 {
        Seq::empty()
    } else {
        let before = texts_read(sync, events.drop_last());
        match (last_step(sync, events.drop_last()), events.last()) {
            (Some(SyncStepView::Read(uri)), SyncEventView::Content(text)) => before.push(
                (uri, text),
            ),
            _ => before,
        }
    }
}

/// The messages that went out during a run, in order.
pub open spec fn went_out(sync: SyncView, events: Seq<SyncEventView>) -> Seq<MessageView>
    decreases events.len(),
{
    if events.len() == 0 {
        Seq::empty()
    } else {
        let before = went_out(sync, events.drop_last());
        match (last_step(sync, events.drop_last()), events.last()) {
            (Some(SyncStepView::Send(message)), SyncEventView::Sent) => before.push(message),
            _ => before,
        }
    }
}

/// The notifications of the new contents of files.
pub open spec fn changes(read: Seq<(Seq<char>, Seq<char>)>) -> Seq<MessageView> {
    read.map_values(|file: (Seq<char>, Seq<char>)| did_change(file.0, file.1))
}

/// No file is listed twice.
pub open spec fn distinct_files(read: Seq<(Seq<char>, Seq<char>)>) -> bool {
    forall|i: int, j: int|
        0 <= i < j < read.len() ==> (#[trigger] read[i]).0 != (#[trigger] read[j]).0
}

/// None of the files is among those of a list.
spec fn none_of(read: Seq<(Seq<char>, Seq<char>)>, uris: Seq<Seq<char>>) -> bool {
    forall|i: int, j: int|
        0 <= i < read.len() && 0 <= j < uris.len() ==> (#[trigger] read[i]).0 != #[trigger] uris[j]
}

proof fn lemma_run(sync: SyncView, files: Set<Seq<char>>, events: Seq<SyncEventView>)
    requires
        enumerates(sync.pending, files),
        is_run(sync, events),
    ensures
        distinct_files(texts_read(sync, events)),
        none_of(texts_read(sync, events), left_after(sync, events).pending),
        left_after(sync, events).pending.no_duplicates(),
        forall|i: int|
            0 <= i < left_after(sync, events).pending.len() ==> files.contains(
                #[trigger] left_after(sync, events).pending[i],
            ),
        forall|i: int|
            0 <= i < texts_read(sync, events).len() ==> files.contains(
                (#[trigger] texts_read(sync, events)[i]).0,
            ),
        match last_step(sync, events) {
            Some(SyncStepView::Read(uri)) => {
                &&& left_after(sync, events).current == Some(uri)
                &&& files.contains(uri)
                &&& none_of(texts_read(sync, events), seq![uri])
                &&& !left_after(sync, events).pending.contains(uri)
                &&& went_out(sync, events) == changes(texts_read(sync, events))
            },
            Some(SyncStepView::Send(message)) => {
                &&& texts_read(sync, events).len() > 0
                &&& message == changes(texts_read(sync, events)).last()
                &&& went_out(sync, events) == changes(texts_read(sync, events)).drop_last()
            },
            Some(SyncStepView::Closed) => {
                &&& texts_read(sync, events).len() > 0
                &&& went_out(sync, events) == changes(texts_read(sync, events)).drop_last()
            },
            _ => went_out(sync, events) == changes(texts_read(sync, events)),
        },
    decreases events.len(),
{
    let read = texts_read(sync, events);
    if events.len() == 0 {
        assert(went_out(sync, events) =~= changes(read));
        assert forall|i: int| 0 <= i < sync.pending.len() implies files.contains(
            #[trigger] sync.pending[i],
        ) by {
            assert(sync.pending.to_set().contains(sync.pending[i]));
        }
    } else {
        let rest = events.drop_last();
        let event = events.last();
        lemma_run(sync, files, rest);
        let before = left_after(sync, rest);
        let after = left_after(sync, events);
        let read_before = texts_read(sync, rest);
        assert(after == before.after(event));
        assert(last_step(sync, events) == Some(before.step(event)));
        match event {
            SyncEventView::Content(text) => {
                let uri = last_step(sync, rest)->0->Read_0;
                assert(read == read_before.push((uri, text)));
                assert forall|i: int, j: int| 0 <= i < j < read.len() implies (
                #[trigger] read[i]).0 != (#[trigger] read[j]).0 by {
                    if j == read_before.len() {
                        assert(read_before[i].0 != seq![uri][0]);
                    } else {
                        assert(read_before[i].0 != read_before[j].0);
                    }
                }
                assert forall|i: int, j: int|
                    0 <= i < read.len() && 0 <= j < after.pending.len() implies (
                #[trigger] read[i]).0 != #[trigger] after.pending[j] by {
                    if i < read_before.len() {
                        assert(read_before[i].0 != before.pending[j]);
                    } else {
                        assert(before.pending.contains(before.pending[j]));
                    }
                }
                assert forall|i: int| 0 <= i < read.len() implies files.contains(
                    (#[trigger] read[i]).0,
                ) by {
                    if i < read_before.len() {
                        assert(files.contains(read_before[i].0));
                    }
                }
                assert(changes(read) =~= changes(read_before).push(did_change(uri, text)));
                assert(changes(read).drop_last() =~= changes(read_before));
            },
            SyncEventView::SendFailed => {},
            _ => {
                assert(read == read_before);
                if event is Sent {
                    assert(changes(read) =~= changes(read).drop_last().push(changes(read).last()));
                }
                assert(went_out(sync, events) =~= changes(read));
                if before.pending.len() > 0 {
                    let uri = before.pending.last();
                    assert(before.pending[before.pending.len() - 1] == uri);
                    assert forall|i: int, j: int|
                        0 <= i < read.len() && 0 <= j < seq![uri].len() implies (
                    #[trigger] read[i]).0 != #[trigger] seq![uri][j] by {
                        assert(read_before[i].0 != before.pending[before.pending.len() - 1]);
                    }
                    assert forall|i: int, j: int|
                        0 <= i < read.len() && 0 <= j < after.pending.len() implies (
                    #[trigger] read[i]).0 != #[trigger] after.pending[j] by {
                        assert(read_before[i].0 != before.pending[j]);
                    }
                    assert forall|i: int| 0 <= i < after.pending.len() implies files.contains(
                        #[trigger] after.pending[i],
                    ) by {
                        assert(files.contains(before.pending[i]));
                    }
                    if after.pending.contains(uri) {
                        let i = choose|i: int|
                            0 <= i < after.pending.len() && after.pending[i] == uri;
                        assert(before.pending[i] == before.pending[before.pending.len() - 1]);
                    }
                }
            },
        }
    }
}

/// At any time of a run the server was sent the texts of files that were to be
/// read, in the order in which they were read, and of no file more than one, also
/// where the instance was closed meanwhile. Once nothing is left to be done, it
/// was sent exactly one for each file whose text was read.
pub proof fn each_text_is_sent_once(
    sync: SyncView,
    files: Set<Seq<char>>,
    events: Seq<SyncEventView>,
)
    requires
        enumerates(sync.pending, files),
        is_run(sync, events),
    ensures
        distinct_files(texts_read(sync, events)),
        forall|i: int|
            0 <= i < texts_read(sync, events).len() ==> files.contains(
                (#[trigger] texts_read(sync, events)[i]).0,
            ),
        went_out(sync, events).len() <= texts_read(sync, events).len(),
        went_out(sync, events) == changes(texts_read(sync, events)).take(
            went_out(sync, events).len() as int,
        ),
        last_step(sync, events) == Some(SyncStepView::Done) ==> went_out(sync, events) == changes(
            texts_read(sync, events),
        ),
{
    lemma_run(sync, files, events);
    let all = changes(texts_read(sync, events));
    assert(all.take(all.len() as int) =~= all);
    if all.len() > 0 {
        assert(all.take(all.len() - 1) =~= all.drop_last());
    }
}

proof fn lemma_run_ends_when_closed(sync: SyncView, events: Seq<SyncEventView>)
    requires
        is_run(sync, events),
        events.len() > 0,
    ensures
        !events.drop_last().contains(SyncEventView::SendFailed),
    decreases events.len(),
{
    let rest = events.drop_last();
    if rest.len() > 0 {
        lemma_run_ends_when_closed(sync, rest);
        if rest.contains(SyncEventView::SendFailed) {
            let i = choose|i: int| 0 <= i < rest.len() && rest[i] == SyncEventView::SendFailed;
            if i < rest.len() - 1 {
                assert(rest.drop_last()[i] == SyncEventView::SendFailed);
            } else {
                assert(last_step(sync, rest) == Some(SyncStepView::Closed));
            }
        }
    }
}

/// At any time of a run no file was read twice, and none that was not to be
/// read, also where the instance was closed meanwhile.
pub proof fn no_file_is_read_twice(
    sync: SyncView,
    files: Set<Seq<char>>,
    events: Seq<SyncEventView>,
)
    requires
        enumerates(sync.pending, files),
        is_run(sync, events),
    ensures
        read_during(sync, events).no_duplicates(),
        read_during(sync, events).to_set().subset_of(files),
    decreases events.len(),
{
    let reads = read_during(sync, events);
    if events.len() > 0 {
        lemma_run_ends_when_closed(sync, events);
    }
    if events.len() > 0 && events.last() is SendFailed {
        no_file_is_read_twice(sync, files, events.drop_last());
    } else {
        if events.contains(SyncEventView::SendFailed) {
            let i = choose|i: int| 0 <= i < events.len() && events[i] == SyncEventView::SendFailed;
            assert(events.drop_last()[i] == SyncEventView::SendFailed);
        }
        lemma_nothing_is_lost(sync, events);
        let left = left_after(sync, events).pending.len();
        let n = left + reads.len() - 1;
        assert forall|i: int| 0 <= i < reads.len() implies #[trigger] reads[i] == sync.pending[n
            - i] by {
            assert(reads.reverse()[reads.len() - 1 - i] == reads[i]);
        }
        assert forall|i: int, j: int|
            0 <= i < reads.len() && 0 <= j < reads.len() && i != j implies reads[i] != reads[j] by {
            assert(sync.pending[n - i] != sync.pending[n - j]);
        }
        assert forall|uri: Seq<char>| reads.to_set().contains(uri) implies files.contains(uri) by {
            let i = choose|i: int| 0 <= i < reads.len() && reads[i] == uri;
            assert(sync.pending.to_set().contains(sync.pending[n - i]));
        }
    }
}

/// The text of a file goes to the server whole, whatever it is, as the one new
/// content of the file that was read, without a version; and the file stays the
/// one that is dealt with.
pub proof fn whole_text_is_sent(
    sync: SyncView,
    uri: Seq<char>,
    text: String,
    step: SyncStep,
)
    requires
        sync.current == Some(uri),
        step@ == sync.step(SyncEvent::Content(text)@),
    ensures
        step matches SyncStep::Send(sent) && sent.method@ == "textDocument/didChange"@ && (
        sent.params matches Payload::DidChange(params) && {
            &&& params.text_document.uri@ == uri
            &&& params.text_document.version == None::<i64>
            &&& params.content_changes@.len() == 1
            &&& params.content_changes@[0].text@ == text@
        }),
        sync.expects(SyncEvent::Content(text)@),
        sync.after(SyncEvent::Content(text)@) == sync,
{
    let sent = step->Send_0;
    let params = sent.params->DidChange_0;
    let texts = params.content_changes@.map_values(|c: TextDocumentContentChangeEvent| c.text@);
    assert(texts == seq![text@]);
    assert(texts.len() == params.content_changes@.len());
    assert(texts[0] == params.content_changes@[0].text@);
}

/// At the start, after a file that cannot be read and after a text was sent, one
/// of the files that are left is to be read and is left no more, and nothing is
/// left to be done exactly if no file is; after a text could not be sent no file
/// is left and nothing is done any more.
pub proof fn next_file_is_one_of_those_left(
    sync: SyncView,
    event: SyncEvent,
    step: SyncStep,
)
    requires
        step@ == sync.step(event@),
    ensures
        event is Start || event is Unreadable || event is Sent ==> if sync.pending.len() == 0 {
            &&& step == SyncStep::Done
            &&& sync.after(event@).pending.len() == 0
        } else {
            &&& step matches SyncStep::Read(uri)
            &&& sync.pending == sync.after(event@).pending.push(uri@)
            &&& sync.after(event@).current == Some(uri@)
        },
        event is SendFailed ==> step == SyncStep::Closed && sync.after(event@).pending.len() == 0,
        !(event is Content) ==> sync.expects(event@),
        event is Content ==> (sync.expects(event@) <==> sync.current is Some),
{
    if sync.pending.len() > 0 {
        assert(sync.pending =~= sync.pending.drop_last().push(sync.pending.last()));
    }
}

} // verus!
