//! The messages that pass between clients and a language server.
use serde_json::Value;
use vstd::prelude::*;

verus! {

/// A JSON value of `serde_json`. The library carries such values along and
/// never looks inside.
#[verifier::external_type_specification]
#[verifier::external_body]
pub struct ExValue(serde_json::Value);

/// `serde_json::Value::clone`: the copy is equal to the value it was made of.
pub assume_specification[ <serde_json::Value as Clone>::clone ](value: &serde_json::Value) -> (copy:
    serde_json::Value)
    ensures
        copy == *value,
;

/// What becomes of the answer to a request whose id carries the tag.
#[derive(Clone, Copy, Debug, PartialEq, Eq, Structural)]
pub enum Tag {
    /// Nobody waits for the answer.
    Drop,
    /// The answer goes on to the server.
    Forward,
    /// The answer goes to the client of that id.
    ClientId(usize),
}

/// The id of a request, possibly carrying tags that were put on it.
#[derive(Debug, PartialEq, Eq)]
pub enum RequestId {
    Number(i64),
    String(String),
    Tagged(Tag, Box<RequestId>),
}

/// The mathematical content of a [`RequestId`].
pub ghost enum IdView {
    Number(i64),
    Text(Seq<char>),
    Tagged(Tag, Box<IdView>),
}

impl IdView {
    pub open spec fn tag(self, tag: Tag) -> IdView {
        IdView::Tagged(tag, Box::new(self))
    }

    pub open spec fn untag(self) -> (Option<Tag>, IdView) {
        match self {
            IdView::Tagged(tag, inner) => (Some(tag), *inner),
            _ => (None, self),
        }
    }
}

impl View for RequestId {
    type V = IdView;

    open spec fn view(&self) -> IdView {
        self.content()
    }
}

impl RequestId {
    pub open spec fn content(&self) -> IdView
        decreases self,
    {
        match self {
            RequestId::Number(n) => IdView::Number(*n),
            RequestId::String(s) => IdView::Text(s@),
            RequestId::Tagged(tag, inner) => IdView::Tagged(*tag, Box::new(inner.content())),
        }
    }

    /// Puts a tag on the id.
    pub fn tag(self, tag: Tag) -> (tagged: RequestId)
        ensures
            tagged@ == self@.tag(tag),
    {
        RequestId::Tagged(tag, Box::new(self))
    }

    /// Takes the outermost tag off the id; an id without one is left as it is.
    pub fn untag(self) -> (parts: (Option<Tag>, RequestId))
        ensures
            (parts.0, parts.1@) == self@.untag(),
    {
        match self {
            RequestId::Tagged(tag, inner) => (Some(tag), *inner),
            other => (None, other),
        }
    }
}

impl Clone for RequestId {
    fn clone(&self) -> (copy: RequestId)
        ensures
            copy@ == self@,
        decreases self,
    {
        match self {
            RequestId::Number(n) => RequestId::Number(*n),
            RequestId::String(s) => RequestId::String(s.clone()),
            RequestId::Tagged(tag, inner) => RequestId::Tagged(
                *tag,
                Box::new((&**inner).clone()),
            ),
        }
    }
}

/// A document as a client opens it.
#[derive(Debug, PartialEq, Eq)]
pub struct TextDocumentItem {
    pub uri: String,
    pub language_id: String,
    pub version: i64,
    pub text: String,
}

/// Parameters of `textDocument/didOpen`.
#[derive(Debug, PartialEq, Eq)]
pub struct DidOpenTextDocumentParams {
    pub text_document: TextDocumentItem,
}

/// Names a document.
#[derive(Debug, PartialEq, Eq)]
pub struct TextDocumentIdentifier {
    pub uri: String,
}

/// Parameters of `textDocument/didClose`.
#[derive(Debug, PartialEq, Eq)]
pub struct DidCloseTextDocumentParams {
    pub text_document: TextDocumentIdentifier,
}

/// Names a document at one of its versions.
#[derive(Debug, PartialEq, Eq)]
pub struct VersionedTextDocumentIdentifier {
    pub uri: String,
    pub version: Option<i64>,
}

/// The new content of a whole document.
#[derive(Debug, PartialEq, Eq)]
pub struct TextDocumentContentChangeEvent {
    pub text: String,
}

/// Parameters of `textDocument/didChange`.
#[derive(Debug, PartialEq, Eq)]
pub struct DidChangeTextDocumentParams {
    pub text_document: VersionedTextDocumentIdentifier,
    pub content_changes: Vec<TextDocumentContentChangeEvent>,
}

/// A capability that the server registered while running.
#[derive(Debug, PartialEq, Eq)]
pub struct Registration {
    pub id: String,
    pub method: String,
    pub register_options: Option<Value>,
}

/// Parameters of `client/registerCapability`.
#[derive(Debug, PartialEq, Eq)]
pub struct RegistrationParams {
    pub registrations: Vec<Registration>,
}

/// Names a capability that the server withdraws.
#[derive(Debug, PartialEq, Eq)]
pub struct Unregistration {
    pub id: String,
    pub method: String,
}

/// Parameters of `client/unregisterCapability`.
#[derive(Debug, PartialEq, Eq)]
pub struct UnregistrationParams {
    pub unregistrations: Vec<Unregistration>,
}

/// Parameters of `initialize`: the process id of the client, and all their
/// other members.
#[derive(Debug, PartialEq, Eq)]
pub struct InitializeParams {
    pub process_id: Option<u64>,
    pub rest: Value,
}

/// The answer of a server to `initialize`.
#[derive(Debug, PartialEq, Eq)]
pub struct InitializeResult {
    pub content: Value,
}

/// The parameters of a message, or the result in an answer.
#[derive(Debug, PartialEq, Eq)]
pub enum Payload {
    /// A value that came from a peer.
    Json(Value),
    /// `null`
    Null,
    /// `{}`
    Empty,
    Initialize(InitializeParams),
    Registrations(RegistrationParams),
    DidOpen(DidOpenTextDocumentParams),
    DidClose(DidCloseTextDocumentParams),
    DidChange(DidChangeTextDocumentParams),
}

#[derive(Debug, PartialEq, Eq)]
pub struct Request {
    pub id: RequestId,
    pub method: String,
    pub params: Payload,
}

#[derive(Debug, PartialEq, Eq)]
pub struct Notification {
    pub method: String,
    pub params: Payload,
}

#[derive(Debug, PartialEq, Eq)]
pub struct ResponseSuccess {
    pub id: RequestId,
    pub result: Payload,
}

#[derive(Debug, PartialEq, Eq)]
pub struct ResponseError {
    pub id: RequestId,
    pub error: Value,
}

#[derive(Debug, PartialEq, Eq)]
pub enum Message {
    Request(Request),
    Notification(Notification),
    ResponseSuccess(ResponseSuccess),
    ResponseError(ResponseError),
}

/// The mathematical content of a [`Registration`].
pub ghost struct RegistrationView {
    pub id: Seq<char>,
    pub method: Seq<char>,
    pub register_options: Option<Value>,
}

/// The mathematical content of a [`TextDocumentItem`].
pub ghost struct DocumentView {
    pub uri: Seq<char>,
    pub language_id: Seq<char>,
    pub version: i64,
    pub text: Seq<char>,
}

/// The mathematical content of a [`Payload`].
pub ghost enum PayloadView {
    Json(Value),
    Null,
    Empty,
    Initialize { process_id: Option<u64>, rest: Value },
    Registrations(Seq<RegistrationView>),
    DidOpen(DocumentView),
    DidClose { uri: Seq<char> },
    DidChange { uri: Seq<char>, version: Option<i64>, texts: Seq<Seq<char>> },
}

/// The mathematical content of a [`Message`].
pub ghost enum MessageView {
    Request { id: IdView, method: Seq<char>, params: PayloadView },
    Notification { method: Seq<char>, params: PayloadView },
    ResponseSuccess { id: IdView, result: PayloadView },
    ResponseError { id: IdView, error: Value },
}

impl View for Registration {
    type V = RegistrationView;

    open spec fn view(&self) -> RegistrationView {
        RegistrationView {
            id: self.id@,
            method: self.method@,
            register_options: self.register_options,
        }
    }
}

impl View for RegistrationParams {
    type V = Seq<RegistrationView>;

    open spec fn view(&self) -> Seq<RegistrationView> {
        registration_views(self.registrations@)
    }
}

/// The contents of a list of registrations.
pub open spec fn registration_views(registrations: Seq<Registration>) -> Seq<RegistrationView> {
    registrations.map_values(|r: Registration| r@)
}

impl View for UnregistrationParams {
    type V = Seq<Seq<char>>;

    /// The ids that are withdrawn.
    open spec fn view(&self) -> Seq<Seq<char>> {
        self.unregistrations@.map_values(|u: Unregistration| u.id@)
    }
}

impl View for TextDocumentItem {
    type V = DocumentView;

    open spec fn view(&self) -> DocumentView {
        DocumentView {
            uri: self.uri@,
            language_id: self.language_id@,
            version: self.version,
            text: self.text@,
        }
    }
}

impl View for DidChangeTextDocumentParams {
    type V = PayloadView;

    open spec fn view(&self) -> PayloadView {
        PayloadView::DidChange {
            uri: self.text_document.uri@,
            version: self.text_document.version,
            texts: self.content_changes@.map_values(|c: TextDocumentContentChangeEvent| c.text@),
        }
    }
}

impl View for Payload {
    type V = PayloadView;

    open spec fn view(&self) -> PayloadView {
        match self {
            Payload::Json(value) => PayloadView::Json(*value),
            Payload::Null => PayloadView::Null,
            Payload::Empty => PayloadView::Empty,
            Payload::Initialize(params) => PayloadView::Initialize {
                process_id: params.process_id,
                rest: params.rest,
            },
            Payload::Registrations(params) => PayloadView::Registrations(params@),
            Payload::DidOpen(params) => PayloadView::DidOpen(params.text_document@),
            Payload::DidClose(params) => PayloadView::DidClose { uri: params.text_document.uri@ },
            Payload::DidChange(params) => params@,
        }
    }
}

impl View for Request {
    type V = MessageView;

    open spec fn view(&self) -> MessageView {
        MessageView::Request { id: self.id@, method: self.method@, params: self.params@ }
    }
}

impl View for Notification {
    type V = MessageView;

    open spec fn view(&self) -> MessageView {
        MessageView::Notification { method: self.method@, params: self.params@ }
    }
}

impl View for ResponseSuccess {
    type V = MessageView;

    open spec fn view(&self) -> MessageView {
        MessageView::ResponseSuccess { id: self.id@, result: self.result@ }
    }
}

impl View for ResponseError {
    type V = MessageView;

    open spec fn view(&self) -> MessageView {
        MessageView::ResponseError { id: self.id@, error: self.error }
    }
}

impl View for Message {
    type V = MessageView;

    open spec fn view(&self) -> MessageView {
        match self {
            Message::Request(request) => request@,
            Message::Notification(notification) => notification@,
            Message::ResponseSuccess(response) => response@,
            Message::ResponseError(response) => response@,
        }
    }
}

/// A successful answer without content to the request of that id.
pub open spec fn null_response(id: IdView) -> MessageView {
    MessageView::ResponseSuccess { id, result: PayloadView::Null }
}

/// Tells the server that a document was opened.
pub open spec fn did_open(document: DocumentView) -> MessageView {
    MessageView::Notification {
        method: "textDocument/didOpen"@,
        params: PayloadView::DidOpen(document),
    }
}

/// Tells the server that a document is not open any more.
pub open spec fn did_close(uri: Seq<char>) -> MessageView {
    MessageView::Notification {
        method: "textDocument/didClose"@,
        params: PayloadView::DidClose { uri },
    }
}

/// Tells the server the whole new content of a document.
pub open spec fn did_change(uri: Seq<char>, text: Seq<char>) -> MessageView {
    MessageView::Notification {
        method: "textDocument/didChange"@,
        params: PayloadView::DidChange { uri, version: None, texts: seq![text] },
    }
}

impl ResponseSuccess {
    /// A successful answer without content to the request of that id.
    pub fn null(id: RequestId) -> (response: ResponseSuccess)
        ensures
            response@ == null_response(id@),
    {
        ResponseSuccess { id, result: Payload::Null }
    }
}

impl Clone for TextDocumentItem {
    fn clone(&self) -> (copy: TextDocumentItem)
        ensures
            copy == *self,
    {
        TextDocumentItem {
            uri: self.uri.clone(),
            language_id: self.language_id.clone(),
            version: self.version,
            text: self.text.clone(),
        }
    }
}

impl Clone for Registration {
    fn clone(&self) -> (copy: Registration)
        ensures
            copy == *self,
    {
        Registration {
            id: self.id.clone(),
            method: self.method.clone(),
            register_options: self.register_options.clone(),
        }
    }
}

/// A copy of a list of registrations.
pub fn copy_registrations(registrations: &Vec<Registration>) -> (copy: Vec<Registration>)
    ensures
        copy@ == registrations@,
{
    let mut copy: Vec<Registration> = Vec::new();
    let mut i: usize = 0;
    while i < registrations.len()
        invariant
            i <= registrations.len(),
            copy@ == registrations@.take(i as int),
        decreases registrations.len() - i,
    {
        copy.push(registrations[i].clone());
        i += 1;
    }
    copy
}

impl Clone for DidChangeTextDocumentParams {
    fn clone(&self) -> (copy: DidChangeTextDocumentParams)
        ensures
            copy@ == self@,
    {
        let mut content_changes: Vec<TextDocumentContentChangeEvent> = Vec::new();
        let mut i: usize = 0;
        while i < self.content_changes.len()
            invariant
                i <= self.content_changes.len(),
                content_changes@ == self.content_changes@.take(i as int),
            decreases self.content_changes.len() - i,
        {
            let text = self.content_changes[i].text.clone();
            content_changes.push(TextDocumentContentChangeEvent { text });
            i += 1;
        }
        let text_document = VersionedTextDocumentIdentifier {
            uri: self.text_document.uri.clone(),
            version: self.text_document.version,
        };
        assert(content_changes@ =~= self.content_changes@);
        DidChangeTextDocumentParams { text_document, content_changes }
    }
}

impl Clone for InitializeResult {
    fn clone(&self) -> (copy: InitializeResult)
        ensures
            copy == *self,
    {
        InitializeResult { content: self.content.clone() }
    }
}

impl Clone for Payload {
    fn clone(&self) -> (copy: Payload)
        ensures
            copy@ == self@,
    {
        match self {
            Payload::Json(value) => Payload::Json(value.clone()),
            Payload::Null => Payload::Null,
            Payload::Empty => Payload::Empty,
            Payload::Initialize(params) => Payload::Initialize(
                InitializeParams { process_id: params.process_id, rest: params.rest.clone() },
            ),
            Payload::Registrations(params) => Payload::Registrations(
                RegistrationParams { registrations: copy_registrations(&params.registrations) },
            ),
            Payload::DidOpen(params) => Payload::DidOpen(
                DidOpenTextDocumentParams { text_document: params.text_document.clone() },
            ),
            Payload::DidClose(params) => Payload::DidClose(
                DidCloseTextDocumentParams {
                    text_document: TextDocumentIdentifier { uri: params.text_document.uri.clone() },
                },
            ),
            Payload::DidChange(params) => Payload::DidChange(params.clone()),
        }
    }
}

impl Clone for Request {
    fn clone(&self) -> (copy: Request)
        ensures
            copy@ == self@,
    {
        Request {
            id: self.id.clone(),
            method: self.method.clone(),
            params: self.params.clone(),
        }
    }
}

impl Clone for Notification {
    fn clone(&self) -> (copy: Notification)
        ensures
            copy@ == self@,
    {
        Notification { method: self.method.clone(), params: self.params.clone() }
    }
}

/// Taking the tag off an id undoes putting it on.
pub proof fn untag_undoes_tag(id: IdView, tag: Tag)
    ensures
        id.tag(tag).untag() == (Some(tag), id),
{
}

/// A tag stands on the outside of an id, with the id unchanged inside; and an id
/// without a tag is left alone when its tag is taken off.
pub proof fn tag_stands_around_the_id(id: RequestId, tag: Tag, tagged: RequestId)
    requires
        tagged@ == id@.tag(tag),
    ensures
        tagged matches RequestId::Tagged(outer, inner) && outer == tag && inner@ == id@,
        !(id is Tagged) ==> id@.untag() == (None::<Tag>, id@),
{
}

/// The content of an id tells numbers, strings and tagged ids apart, and within
/// them everything that they hold.
pub proof fn id_content_shows_everything(a: RequestId, b: RequestId)
    requires
        a@ == b@,
    ensures
        match a {
            RequestId::Number(n) => b == RequestId::Number(n),
            RequestId::String(s) => b matches RequestId::String(t) && t@ == s@,
            RequestId::Tagged(tag, inner) => b matches RequestId::Tagged(other, rest) && other
                == tag && rest@ == inner@,
        },
{
}

/// A registration, in a list or alone, shows its id, its method and its options.
pub proof fn registrations_show_everything(a: RegistrationParams, b: RegistrationParams)
    requires
        a@ == b@,
    ensures
        a.registrations@.len() == b.registrations@.len(),
        a@.len() == a.registrations@.len(),
        forall|i: int|
            0 <= i < a.registrations@.len() ==> {
                &&& (#[trigger] a.registrations@[i]).id@ == b.registrations@[i].id@
                &&& a.registrations@[i].method@ == b.registrations@[i].method@
                &&& a.registrations@[i].register_options == b.registrations@[i].register_options
            },
        forall|i: int|
            0 <= i < a.registrations@.len() ==> {
                &&& (#[trigger] a@[i]).id == a.registrations@[i].id@
                &&& a@[i].method == a.registrations@[i].method@
                &&& a@[i].register_options == a.registrations@[i].register_options
            },
{
    assert(a@.len() == a.registrations@.len());
    assert(b@.len() == b.registrations@.len());
    assert forall|i: int| 0 <= i < a.registrations@.len() implies {
        &&& (#[trigger] a.registrations@[i]).id@ == b.registrations@[i].id@
        &&& a.registrations@[i].method@ == b.registrations@[i].method@
        &&& a.registrations@[i].register_options == b.registrations@[i].register_options
    } by {
        assert(a@[i] == a.registrations@[i]@);
        assert(b@[i] == b.registrations@[i]@);
    }
}

/// What a server withdraws is the ids that it names, one for one.
pub proof fn unregistrations_name_their_ids(params: UnregistrationParams)
    ensures
        params@.len() == params.unregistrations@.len(),
        forall|i: int|
            0 <= i < params.unregistrations@.len() ==> #[trigger] params@[i]
                == params.unregistrations@[i].id@,
{
}

/// The content of a payload tells its forms apart, and within them everything
/// that they hold.
pub proof fn payload_content_shows_everything(a: Payload, b: Payload)
    requires
        a@ == b@,
    ensures
        match a {
            Payload::Json(value) => b == Payload::Json(value),
            Payload::Null => b == Payload::Null,
            Payload::Empty => b == Payload::Empty,
            Payload::Initialize(p) => b matches Payload::Initialize(q) && q.process_id
                == p.process_id && q.rest == p.rest,
            Payload::Registrations(p) => b matches Payload::Registrations(q) && q@ == p@,
            Payload::DidOpen(p) => b matches Payload::DidOpen(q) && {
                &&& q.text_document.uri@ == p.text_document.uri@
                &&& q.text_document.language_id@ == p.text_document.language_id@
                &&& q.text_document.version == p.text_document.version
                &&& q.text_document.text@ == p.text_document.text@
            },
            Payload::DidClose(p) => b matches Payload::DidClose(q) && q.text_document.uri@
                == p.text_document.uri@,
            Payload::DidChange(p) => b matches Payload::DidChange(q) && {
                &&& q.text_document.uri@ == p.text_document.uri@
                &&& q.text_document.version == p.text_document.version
                &&& q.content_changes@.len() == p.content_changes@.len()
                &&& forall|i: int|
                    0 <= i < p.content_changes@.len() ==> (#[trigger] q.content_changes@[i]).text@
                        == p.content_changes@[i].text@
            },
        },
{
    match (a, b) {
        (Payload::DidChange(p), Payload::DidChange(q)) => {
            let f = |c: TextDocumentContentChangeEvent| c.text@;
            let x = p.content_changes@.map_values(f);
            let y = q.content_changes@.map_values(f);
            assert(x == y);
            assert(x.len() == y.len());
            assert forall|i: int| 0 <= i < p.content_changes@.len() implies (
            #[trigger] q.content_changes@[i]).text@ == p.content_changes@[i].text@ by {
                assert(x[i] == p.content_changes@[i].text@);
                assert(y[i] == q.content_changes@[i].text@);
            }
        },
        _ => {},
    }
}

/// The content of a message tells requests, notifications, answers and errors
/// apart, and within them everything that they hold.
pub proof fn message_content_shows_everything(a: Message, b: Message)
    requires
        a@ == b@,
    ensures
        match a {
            Message::Request(p) => b matches Message::Request(q) && q.id@ == p.id@ && q.method@
                == p.method@ && q.params@ == p.params@,
            Message::Notification(p) => b matches Message::Notification(q) && q.method@
                == p.method@ && q.params@ == p.params@,
            Message::ResponseSuccess(p) => b matches Message::ResponseSuccess(q) && q.id@ == p.id@
                && q.result@ == p.result@,
            Message::ResponseError(p) => b matches Message::ResponseError(q) && q.id@ == p.id@
                && q.error == p.error,
        },
{
}

/// The answer in place of a client's has the id of the request that it answers,
/// and no content.
pub proof fn null_answer_has_the_id_of_the_request(id: RequestId, response: ResponseSuccess)
    requires
        response@ == null_response(id@),
    ensures
        response.id@ == id@,
        response.result == Payload::Null,
{
}

} // verus!
