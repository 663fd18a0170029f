//! Where the messages of a language server go.
use vstd::prelude::*;

use crate::capabilities::announced;
use crate::instance::{Instance, InstanceView};
use crate::lsp::{
    null_response, IdView, Message, MessageView, Notification, Payload, PayloadView,
    RegistrationParams, Request, RequestId, ResponseError, ResponseSuccess, Tag,
    UnregistrationParams,
};
use crate::tasks::{after_read, goes_on, handled_of, ReadOutcome};
use crate::text::{enumerates, same_text};

verus! {

/// A message, with the peer that it is to be sent to. That a peer is gone
/// already is no error.
#[derive(Debug, PartialEq, Eq)]
pub enum Outgoing {
    /// To the client of that id
    Client(usize, Message),
    /// To the language server
    Server(Message),
}

/// The mathematical content of an [`Outgoing`] message.
pub ghost enum OutgoingView {
    Client(usize, MessageView),
    Server(MessageView),
}

impl View for Outgoing {
    type V = OutgoingView;

    open spec fn view(&self) -> OutgoingView {
        match self {
            Outgoing::Client(id, message) => OutgoingView::Client(*id, message@),
            Outgoing::Server(message) => OutgoingView::Server(message@),
        }
    }
}

/// The contents of a list of outgoing messages.
pub open spec fn outgoing_views(outgoing: Seq<Outgoing>) -> Seq<OutgoingView> {
    outgoing.map_values(|o: Outgoing| o@)
}

/// What is to be done about a message of the server.
#[derive(Debug, PartialEq, Eq)]
pub enum Reaction {
    /// Send these messages, one after the other.
    Send(Vec<Outgoing>),
    /// Read the parameters of the request as [`RegistrationParams`], and go on
    /// with [`Instance::registered`].
    Register(Request),
    /// Read the parameters of the request as [`UnregistrationParams`], and go
    /// on with [`Instance::unregistered`].
    Unregister(Request),
}

/// The mathematical content of a [`Reaction`].
pub ghost enum ReactionView {
    Send(Seq<OutgoingView>),
    Register(MessageView),
    Unregister(MessageView),
}

impl View for Reaction {
    type V = ReactionView;

    open spec fn view(&self) -> ReactionView {
        match self {
            Reaction::Send(outgoing) => ReactionView::Send(outgoing_views(outgoing@)),
            Reaction::Register(request) => ReactionView::Register(request@),
            Reaction::Unregister(request) => ReactionView::Unregister(request@),
        }
    }
}

/// The requests of a server that concern all clients and are answered with
/// `null`.
pub open spec fn concerns_all_clients(method: Seq<char>) -> bool {
    ||| method == "window/workDoneProgress/create"@
    ||| method == "workspace/codeLens/refresh"@
    ||| method == "workspace/semanticTokens/refresh"@
    ||| method == "workspace/inlayHint/refresh"@
    ||| method == "workspace/inlineValue/refresh"@
    ||| method == "workspace/diagnostic/refresh"@
}

/// A message to each of the clients.
pub open spec fn to_each(order: Seq<usize>, message: MessageView) -> Seq<OutgoingView> {
    order.map_values(|id: usize| OutgoingView::Client(id, message))
}

/// A request of the server goes to each client, in a way that the answers of
/// the clients are dropped, and is answered in their place.
pub open spec fn announce(
    order: Seq<usize>,
    id: IdView,
    method: Seq<char>,
    params: PayloadView,
) -> Seq<OutgoingView> {
    to_each(order, MessageView::Request { id: id.tag(Tag::Drop), method, params }).push(
        OutgoingView::Server(null_response(id)),
    )
}

/// An answer of the server goes to the client whose id the tag holds, if that
/// client is still connected, and nowhere else.
pub open spec fn deliver(
    order: Seq<usize>,
    tag: Option<Tag>,
    answer: MessageView,
) -> Seq<OutgoingView> {
    match tag {
        Some(Tag::ClientId(id)) => if order.contains(id) {
            seq![OutgoingView::Client(id, answer)]
        } else {
            Seq::empty()
        },
        _ => Seq::empty(),
    }
}

/// What is to be done about a message of the server when `order` lists the
/// connected clients.
pub open spec fn reaction_to(order: Seq<usize>, message: MessageView) -> ReactionView {
    match message {
        MessageView::ResponseSuccess { id, result } => ReactionView::Send(
            deliver(
                order,
                id.untag().0,
                MessageView::ResponseSuccess { id: id.untag().1, result },
            ),
        ),
        MessageView::ResponseError { id, error } => ReactionView::Send(
            deliver(
                order,
                id.untag().0,
                MessageView::ResponseError { id: id.untag().1, error },
            ),
        ),
        MessageView::Request { id, method, params } => if concerns_all_clients(method) {
            ReactionView::Send(announce(order, id, method, params))
        } else if method == "workspace/configuration"@ {
            ReactionView::Send(
                if order.len() > 0 {
                    seq![
                        OutgoingView::Client(
                            order[0],
                            MessageView::Request { id: id.tag(Tag::Forward), method, params },
                        ),
                    ]
                } else {
                    Seq::empty()
                },
            )
        } else if method == "client/registerCapability"@ {
            ReactionView::Register(message)
        } else if method == "client/unregisterCapability"@ {
            ReactionView::Unregister(message)
        } else {
            ReactionView::Send(Seq::empty())
        },
        MessageView::Notification { method, params } => ReactionView::Send(
            to_each(order, message),
        ),
    }
}

fn is_for_all_clients(method: &str) -> (all: bool)
    ensures
        all == concerns_all_clients(method@),
{
    same_text(method, "window/workDoneProgress/create") || same_text(
        method,
        "workspace/codeLens/refresh",
    ) || same_text(method, "workspace/semanticTokens/refresh") || same_text(
        method,
        "workspace/inlayHint/refresh",
    ) || same_text(method, "workspace/inlineValue/refresh") || same_text(
        method,
        "workspace/diagnostic/refresh",
    )
}

/// Sends a request on to each client and answers it.
fn announce_to(ids: &Vec<usize>, request: Request) -> (outgoing: Vec<Outgoing>)
    ensures
        outgoing_views(outgoing@) == announce(
            ids@,
            request.id@,
            request.method@,
            request.params@,
        ),
{
    let Request { id, method, params } = request;
    let answer = ResponseSuccess::null(id.clone());
    let request = Request { id: id.tag(Tag::Drop), method, params };
    let mut outgoing: Vec<Outgoing> = Vec::new();
    let mut i: usize = 0;
    assert(outgoing_views(outgoing@) =~= to_each(ids@.take(0), request@));
    while i < ids.len()
        invariant
            i <= ids.len(),
            outgoing_views(outgoing@) == to_each(ids@.take(i as int), request@),
        decreases ids.len() - i,
    {
        let ghost before = outgoing_views(outgoing@);
        outgoing.push(Outgoing::Client(ids[i], Message::Request(request.clone())));
        i += 1;
        assert(outgoing_views(outgoing@) =~= before.push(
            OutgoingView::Client(ids@[i - 1], request@),
        ));
        assert(to_each(ids@.take(i as int), request@) =~= to_each(
            ids@.take(i - 1),
            request@,
        ).push(OutgoingView::Client(ids@[i - 1], request@)));
    }
    assert(ids@.take(i as int) =~= ids@);
    let ghost before = outgoing_views(outgoing@);
    outgoing.push(Outgoing::Server(Message::ResponseSuccess(answer)));
    assert(outgoing_views(outgoing@) =~= before.push(OutgoingView::Server(answer@)));
    outgoing
}

/// Sends a notification on to each client.
fn notify(ids: &Vec<usize>, notification: Notification) -> (outgoing: Vec<Outgoing>)
    ensures
        outgoing_views(outgoing@) == to_each(ids@, notification@),
{
    let mut outgoing: Vec<Outgoing> = Vec::new();
    let mut i: usize = 0;
    assert(outgoing_views(outgoing@) =~= to_each(ids@.take(0), notification@));
    while i < ids.len()
        invariant
            i <= ids.len(),
            outgoing_views(outgoing@) == to_each(ids@.take(i as int), notification@),
        decreases ids.len() - i,
    {
        let ghost before = outgoing_views(outgoing@);
        outgoing.push(Outgoing::Client(ids[i], Message::Notification(notification.clone())));
        i += 1;
        assert(outgoing_views(outgoing@) =~= before.push(
            OutgoingView::Client(ids@[i - 1], notification@),
        ));
        assert(to_each(ids@.take(i as int), notification@) =~= to_each(
            ids@.take(i - 1),
            notification@,
        ).push(OutgoingView::Client(ids@[i - 1], notification@)));
    }
    assert(ids@.take(i as int) =~= ids@);
    outgoing
}

/// Sends an answer to the client that its tag names.
fn deliver_to(ids: &Vec<usize>, tag: Option<Tag>, answer: Message) -> (outgoing: Vec<Outgoing>)
    ensures
        outgoing_views(outgoing@) == deliver(ids@, tag, answer@),
{
    let mut outgoing: Vec<Outgoing> = Vec::new();
    match tag {
        Some(Tag::ClientId(id)) => {
            let mut i: usize = 0;
            while i < ids.len()
                invariant
                    i <= ids.len(),
                    outgoing.len() == 0,
                    tag == Some(Tag::ClientId(id)),
                    forall|j: int| 0 <= j < i ==> ids@[j] != id,
                decreases ids.len() - i,
            {
                if ids[i] == id {
                    outgoing.push(Outgoing::Client(id, answer));
                    assert(outgoing_views(outgoing@) =~= seq![
                        OutgoingView::Client(id, answer@),
                    ]);
                    return outgoing;
                }
                i += 1;
            }
            assert(!ids@.contains(id));
        },
        _ => {},
    }
    assert(outgoing_views(outgoing@) =~= Seq::empty());
    outgoing
}

impl Instance {
    /// Decides about a message that the server wrote.
    pub fn handle_server_message(&self, message: Message) -> (reaction: Reaction)
        requires
            self.wf(),
        ensures
            exists|order: Seq<usize>| #[trigger]
                enumerates(order, self@.clients.dom()) && reaction@ == reaction_to(
                    order,
                    message@,
                ),
            message matches Message::Request(request) ==> request.method@
                == "client/registerCapability"@ ==> reaction == Reaction::Register(request),
            message matches Message::Request(request) ==> request.method@
                == "client/unregisterCapability"@ ==> reaction == Reaction::Unregister(request),
    {
        let ids = self.clients();
        let ghost order = ids@;
        assert(enumerates(order, self@.clients.dom()));
        proof {
            lemma_methods_differ();
        }
        match message {
            Message::ResponseSuccess(response) => {
                let ResponseSuccess { id, result } = response;
                let (tag, id) = id.untag();
                let answer = Message::ResponseSuccess(ResponseSuccess { id, result });
                Reaction::Send(deliver_to(&ids, tag, answer))
            },
            Message::ResponseError(response) => {
                let ResponseError { id, error } = response;
                let (tag, id) = id.untag();
                let answer = Message::ResponseError(ResponseError { id, error });
                Reaction::Send(deliver_to(&ids, tag, answer))
            },
            Message::Request(request) => {
                if is_for_all_clients(request.method.as_str()) {
                    Reaction::Send(announce_to(&ids, request))
                } else if same_text(request.method.as_str(), "workspace/configuration") {
                    // Any client can answer this one, so that one does.
                    let mut outgoing: Vec<Outgoing> = Vec::new();
                    if ids.len() > 0 {
                        let Request { id, method, params } = request;
                        let request = Request { id: id.tag(Tag::Forward), method, params };
                        outgoing.push(Outgoing::Client(ids[0], Message::Request(request)));
                    }
                    assert(Reaction::Send(outgoing)@ == reaction_to(order, message@)) by {
                        let expected = reaction_to(order, message@)->Send_0;
                        assert(outgoing_views(outgoing@) =~= expected);
                    }
                    Reaction::Send(outgoing)
                } else if same_text(request.method.as_str(), "client/registerCapability") {
                    Reaction::Register(request)
                } else if same_text(request.method.as_str(), "client/unregisterCapability") {
                    Reaction::Unregister(request)
                } else {
                    let outgoing: Vec<Outgoing> = Vec::new();
                    assert(outgoing_views(outgoing@) =~= Seq::empty());
                    Reaction::Send(outgoing)
                }
            },
            Message::Notification(notification) => Reaction::Send(notify(&ids, notification)),
        }
    }

    /// Goes on with a `client/registerCapability` request whose parameters were
    /// read, or could not be. The capabilities are remembered before the
    /// clients are told, so that a client that connects meanwhile learns of
    /// them at any rate.
    pub fn registered(&mut self, request: Request, params: Option<RegistrationParams>) -> (outgoing:
        Vec<Outgoing>)
        requires
            old(self).wf(),
        ensures
            final(self).wf(),
            final(self)@ == (InstanceView {
                capabilities: match params {
                    Some(params) => old(self)@.capabilities.union_prefer_right(
                        announced(params@),
                    ),
                    None => old(self)@.capabilities,
                },
                ..old(self)@
            }),
            exists|order: Seq<usize>| #[trigger]
                enumerates(order, old(self)@.clients.dom()) && outgoing_views(outgoing@)
                    == announce(order, request.id@, request.method@, request.params@),
    {
        match params {
            Some(params) => {
                self.register_capabilities(params);
            },
            None => {},
        }
        let ids = self.clients();
        announce_to(&ids, request)
    }

    /// Goes on with a `client/unregisterCapability` request whose parameters
    /// were read, or could not be. The capabilities are forgotten before the
    /// clients are told, so that a client that connects meanwhile does not
    /// learn of them.
    pub fn unregistered(
        &mut self,
        request: Request,
        params: Option<UnregistrationParams>,
    ) -> (outgoing: Vec<Outgoing>)
        requires
            old(self).wf(),
        ensures
            final(self).wf(),
            final(self)@ == (InstanceView {
                capabilities: match params {
                    Some(params) => old(self)@.capabilities.remove_keys(params@.to_set()),
                    None => old(self)@.capabilities,
                },
                ..old(self)@
            }),
            exists|order: Seq<usize>| #[trigger]
                enumerates(order, old(self)@.clients.dom()) && outgoing_views(outgoing@)
                    == announce(order, request.id@, request.method@, request.params@),
    {
        match params {
            Some(params) => {
                self.unregister_capabilities(params);
            },
            None => {},
        }
        let ids = self.clients();
        announce_to(&ids, request)
    }
}

/// An answer to a request of a client reaches that client under the id that the
/// client gave to the request, and nobody else.
pub proof fn answer_reaches_the_client_that_asked(
    order: Seq<usize>,
    client: usize,
    id: IdView,
    result: PayloadView,
    error: serde_json::Value,
)
    requires
        order.contains(client),
    ensures
        reaction_to(
            order,
            MessageView::ResponseSuccess { id: id.tag(Tag::ClientId(client)), result },
        ) == ReactionView::Send(
            seq![OutgoingView::Client(client, MessageView::ResponseSuccess { id, result })],
        ),
        reaction_to(
            order,
            MessageView::ResponseError { id: id.tag(Tag::ClientId(client)), error },
        ) == ReactionView::Send(
            seq![OutgoingView::Client(client, MessageView::ResponseError { id, error })],
        ),
{
}

/// An answer whose id has no tag, or another tag than that of a connected
/// client, goes to nobody.
pub proof fn other_answers_go_to_nobody(
    order: Seq<usize>,
    id: IdView,
    result: PayloadView,
    error: serde_json::Value,
)
    requires
        id.untag().0 matches Some(Tag::ClientId(client)) ==> !order.contains(client),
    ensures
        reaction_to(order, MessageView::ResponseSuccess { id, result }) == ReactionView::Send(
            Seq::empty(),
        ),
        reaction_to(order, MessageView::ResponseError { id, error }) == ReactionView::Send(
            Seq::empty(),
        ),
{
}

/// A request that concerns all clients reaches each connected client exactly
/// once and nobody else, with an id whose answers are dropped; and the server
/// gets exactly one answer, at the end, under the id of its request.
pub proof fn announcement_reaches_every_client(
    clients: Set<usize>,
    order: Seq<usize>,
    id: IdView,
    method: Seq<char>,
    params: PayloadView,
)
    requires
        enumerates(order, clients),
    ensures
        announce(order, id, method, params).last() == OutgoingView::Server(null_response(id)),
        announce(order, id, method, params).no_duplicates(),
        forall|client: usize, message: MessageView| #[trigger]
            announce(order, id, method, params).contains(OutgoingView::Client(client, message))
                <==> clients.contains(client) && message == (MessageView::Request {
                id: id.tag(Tag::Drop),
                method,
                params,
            }),
        forall|message: MessageView| #[trigger]
            announce(order, id, method, params).contains(OutgoingView::Server(message)) <==> message
                == null_response(id),
{
    let tagged = MessageView::Request { id: id.tag(Tag::Drop), method, params };
    let sent = announce(order, id, method, params);
    let n = order.len() as int;
    assert(sent[n] == OutgoingView::Server(null_response(id)));
    assert forall|i: int| 0 <= i < n implies #[trigger] sent[i] == OutgoingView::Client(
        order[i],
        tagged,
    ) by {}
    assert forall|client: usize, message: MessageView| #[trigger]
        sent.contains(OutgoingView::Client(client, message)) <==> clients.contains(client)
            && message == tagged by {
        if sent.contains(OutgoingView::Client(client, message)) {
            let i = choose|i: int|
                0 <= i < sent.len() && sent[i] == OutgoingView::Client(client, message);
            assert(i < n);
            assert(order.to_set().contains(order[i]));
        }
        if clients.contains(client) && message == tagged {
            assert(order.to_set().contains(client));
            let i = choose|i: int| 0 <= i < order.len() && order[i] == client;
            assert(sent[i] == OutgoingView::Client(client, message));
        }
    }
    assert forall|message: MessageView| #[trigger]
        sent.contains(OutgoingView::Server(message)) <==> message == null_response(id) by {
        if sent.contains(OutgoingView::Server(message)) {
            let i = choose|i: int| 0 <= i < sent.len() && sent[i] == OutgoingView::Server(message);
            assert(i == n);
        }
    }
    assert forall|i: int, j: int|
        0 <= i < sent.len() && 0 <= j < sent.len() && i != j implies sent[i] != sent[j] by {
        if i < n && j < n {
            assert(order[i] != order[j]);
        }
    }
}

/// A notification reaches each connected client exactly once, as it is, and
/// nobody else.
pub proof fn notification_reaches_every_client(
    clients: Set<usize>,
    order: Seq<usize>,
    method: Seq<char>,
    params: PayloadView,
)
    requires
        enumerates(order, clients),
    ensures
        reaction_to(order, MessageView::Notification { method, params }) is Send,
        reaction_to(order, MessageView::Notification { method, params })->Send_0.no_duplicates(),
        forall|outgoing: OutgoingView| #[trigger]
            reaction_to(order, MessageView::Notification { method, params })->Send_0.contains(
                outgoing,
            ) <==> (outgoing matches OutgoingView::Client(client, message) && clients.contains(
                client,
            ) && message == (MessageView::Notification { method, params })),
{
    let message = MessageView::Notification { method, params };
    let sent = to_each(order, message);
    assert forall|outgoing: OutgoingView| #[trigger] sent.contains(outgoing) <==> (
    outgoing matches OutgoingView::Client(client, m) && clients.contains(client) && m
        == message) by {
        if sent.contains(outgoing) {
            let i = choose|i: int| 0 <= i < sent.len() && sent[i] == outgoing;
            assert(order.to_set().contains(order[i]));
        }
        if outgoing matches OutgoingView::Client(client, m) && clients.contains(client) && m
            == message {
            let client = outgoing->Client_0;
            assert(order.to_set().contains(client));
            let i = choose|i: int| 0 <= i < order.len() && order[i] == client;
            assert(sent[i] == outgoing);
        }
    }
    assert forall|i: int, j: int|
        0 <= i < sent.len() && 0 <= j < sent.len() && i != j implies sent[i] != sent[j] by {
        assert(order[i] != order[j]);
    }
}

/// A request for the configuration goes to a single client, in a way that its
/// answer goes on to the server, or to nobody where no client is connected.
pub proof fn one_client_answers_for_all(
    clients: Set<usize>,
    order: Seq<usize>,
    id: IdView,
    params: PayloadView,
)
    requires
        enumerates(order, clients),
    ensures
        reaction_to(
            order,
            MessageView::Request { id, method: "workspace/configuration"@, params },
        ) matches ReactionView::Send(sent) && if clients == Set::<usize>::empty() {
            sent == Seq::<OutgoingView>::empty()
        } else {
            &&& sent.len() == 1
            &&& sent[0] matches OutgoingView::Client(client, message)
            &&& clients.contains(client)
            &&& message == (MessageView::Request {
                id: id.tag(Tag::Forward),
                method: "workspace/configuration"@,
                params,
            })
        },
{
    reveal_strlit("workspace/configuration");
    reveal_strlit("window/workDoneProgress/create");
    reveal_strlit("workspace/codeLens/refresh");
    reveal_strlit("workspace/semanticTokens/refresh");
    reveal_strlit("workspace/inlayHint/refresh");
    reveal_strlit("workspace/inlineValue/refresh");
    reveal_strlit("workspace/diagnostic/refresh");
    let method = "workspace/configuration"@;
    assert(method.len() == 23);
    assert(method[10] == 'c' && method[11] == 'o' && method[12] == 'n');
    assert(!concerns_all_clients(method));
    if order.len() > 0 {
        assert(order.to_set().contains(order[0]));
    } else {
        assert(clients =~= Set::<usize>::empty());
    }
}

/// All that is sent on account of a message of the server, with what
/// [`Instance::registered`] and [`Instance::unregistered`] send, when `order`
/// lists the connected clients.
pub open spec fn sent_for(order: Seq<usize>, message: MessageView) -> Seq<OutgoingView> {
    match reaction_to(order, message) {
        ReactionView::Send(sent) => sent,
        ReactionView::Register(request) => announce(
            order,
            request->Request_id,
            request->Request_method,
            request->Request_params,
        ),
        ReactionView::Unregister(request) => announce(
            order,
            request->Request_id,
            request->Request_method,
            request->Request_params,
        ),
    }
}

/// Whether reading goes on after reads, each with the clients that were connected
/// at the time, and what was sent by then, in order.
pub open spec fn sent_during(reads: Seq<(Seq<usize>, ReadOutcome)>) -> (bool, Seq<OutgoingView>)
    decreases reads.len(),
{
    if reads.len() == 0 {
        (true, Seq::empty())
    } else {
        let (running, sent) = sent_during(reads.drop_last());
        if !running {
            (false, sent)
        } else {
            let (order, read) = reads.last();
            (
                goes_on(after_read(read).0),
                match after_read(read).1 {
                    Some(message) => sent + sent_for(order, message@),
                    None => sent,
                },
            )
        }
    }
}

/// A read that fails reaches nobody and ends nothing: what is sent, and whether
/// reading goes on, is the same as without it.
pub proof fn failed_reads_reach_nobody(reads: Seq<(Seq<usize>, ReadOutcome)>)
    ensures
        sent_during(reads) == sent_during(
            reads.filter(|read: (Seq<usize>, ReadOutcome)| read.1 !is Failed),
        ),
    decreases reads.len(),
{
    reveal(Seq::filter);
    let readable = |read: (Seq<usize>, ReadOutcome)| read.1 !is Failed;
    if reads.len() > 0 {
        let rest = reads.drop_last();
        failed_reads_reach_nobody(rest);
        if reads.last().1 !is Failed {
            assert(reads.filter(readable) =~= rest.filter(readable).push(reads.last()));
            assert(reads.filter(readable).drop_last() =~= rest.filter(readable));
        } else {
            assert(reads.filter(readable) =~= rest.filter(readable));
        }
    } else {
        assert(reads.filter(readable) =~= Seq::empty());
    }
}

/// Sending goes on exactly as long as the messages of the server are read: until
/// the stream is closed, whoever is connected.
pub proof fn messages_are_sent_until_the_stream_is_closed(reads: Seq<(Seq<usize>, ReadOutcome)>)
    ensures
        sent_during(reads).0 == handled_of(
            reads.map_values(|read: (Seq<usize>, ReadOutcome)| read.1),
        ).0,
        sent_during(reads).0 <==> forall|i: int|
            0 <= i < reads.len() ==> (#[trigger] reads[i]).1 != ReadOutcome::Closed,
    decreases reads.len(),
{
    let outcomes = reads.map_values(|read: (Seq<usize>, ReadOutcome)| read.1);
    if reads.len() > 0 {
        let rest = reads.drop_last();
        messages_are_sent_until_the_stream_is_closed(rest);
        assert(outcomes.drop_last() =~= rest.map_values(
            |read: (Seq<usize>, ReadOutcome)| read.1,
        ));
        assert(outcomes.last() == reads.last().1);
        assert(reads[reads.len() - 1] == reads.last());
        assert forall|i: int| 0 <= i < rest.len() implies #[trigger] rest[i] == reads[i] by {}
        if sent_during(reads).0 {
            assert forall|i: int| 0 <= i < reads.len() implies (#[trigger] reads[i]).1
                != ReadOutcome::Closed by {
                if i < rest.len() {
                    assert(rest[i].1 != ReadOutcome::Closed);
                }
            }
        }
    }
}

/// The messages among those sent that are for one client, in order.
pub open spec fn for_client(sent: Seq<OutgoingView>, client: usize) -> Seq<MessageView>
    decreases sent.len(),
{
    if sent.len() == 0 {
        Seq::empty()
    } else {
        let before = for_client(sent.drop_last(), client);
        match sent.last() {
            OutgoingView::Client(id, message) => if id == client {
                before.push(message)
            } else {
                before
            },
            OutgoingView::Server(_) => before,
        }
    }
}

/// What a message of the server brings to one client.
pub open spec fn brought(order: Seq<usize>, message: MessageView, client: usize) -> Option<
    MessageView,
> {
    match message {
        MessageView::ResponseSuccess { id, result } => if id.untag().0 == Some(
            Tag::ClientId(client),
        ) && order.contains(client) {
            Some(MessageView::ResponseSuccess { id: id.untag().1, result })
        } else {
            None
        },
        MessageView::ResponseError { id, error } => if id.untag().0 == Some(Tag::ClientId(client))
            && order.contains(client) {
            Some(MessageView::ResponseError { id: id.untag().1, error })
        } else {
            None
        },
        MessageView::Request { id, method, params } => {
            let announced = concerns_all_clients(method) || (method != "workspace/configuration"@
                && (method == "client/registerCapability"@ || method
                == "client/unregisterCapability"@));
            if announced && order.contains(client) {
                Some(MessageView::Request { id: id.tag(Tag::Drop), method, params })
            } else if !announced && method == "workspace/configuration"@ && order.len() > 0
                && order[0] == client {
                Some(MessageView::Request { id: id.tag(Tag::Forward), method, params })
            } else {
                None
            }
        },
        MessageView::Notification { .. } => if order.contains(client) {
            Some(message)
        } else {
            None
        },
    }
}

/// What one client gets while reads happen: what each message that is handled
/// brings it, in the order in which they were read.
pub open spec fn received(reads: Seq<(Seq<usize>, ReadOutcome)>, client: usize) -> Seq<MessageView>
    decreases reads.len(),
{
    if reads.len() == 0 {
        Seq::empty()
    } else {
        let before = received(reads.drop_last(), client);
        let (order, read) = reads.last();
        match read {
            ReadOutcome::Read(message) => if sent_during(reads.drop_last()).0 {
                match brought(order, message@, client) {
                    Some(message) => before.push(message),
                    None => before,
                }
            } else {
                before
            },
            _ => before,
        }
    }
}

proof fn lemma_more_for_client(sent: Seq<OutgoingView>, more: Seq<OutgoingView>, client: usize)
    ensures
        for_client(sent + more, client) == for_client(sent, client) + for_client(more, client),
    decreases more.len(),
{
    if more.len() == 0 {
        assert(sent + more =~= sent);
        assert(for_client(sent, client) + Seq::empty() =~= for_client(sent, client));
    } else {
        lemma_more_for_client(sent, more.drop_last(), client);
        assert((sent + more).drop_last() =~= sent + more.drop_last());
        assert((sent + more).last() == more.last());
        assert(for_client(sent + more, client) =~= for_client(sent, client) + for_client(
            more,
            client,
        ));
    }
}

proof fn lemma_each_gets_it_once(order: Seq<usize>, message: MessageView, client: usize)
    requires
        order.no_duplicates(),
    ensures
        for_client(to_each(order, message), client) == if order.contains(client) {
            seq![message]
        } else {
            Seq::empty()
        },
    decreases order.len(),
{
    let sent = to_each(order, message);
    if order.len() > 0 {
        let rest = order.drop_last();
        assert forall|i: int, j: int|
            0 <= i < rest.len() && 0 <= j < rest.len() && i != j implies rest[i] != rest[j] by {
            assert(order[i] != order[j]);
        }
        lemma_each_gets_it_once(rest, message, client);
        assert(sent.drop_last() =~= to_each(rest, message));
        assert(sent.last() == OutgoingView::Client(order.last(), message));
        if rest.contains(client) {
            let i = choose|i: int| 0 <= i < rest.len() && rest[i] == client;
            assert(order[i] == client);
            assert(order[i] != order[order.len() - 1]);
        }
        if order.contains(client) && order.last() != client {
            let i = choose|i: int| 0 <= i < order.len() && order[i] == client;
            assert(rest[i] == client);
        }
        if order.last() == client {
            assert(order[order.len() - 1] == client);
            assert(for_client(sent, client) =~= seq![message]);
        }
    } else {
        assert(sent =~= Seq::empty());
    }
}

proof fn lemma_brought(order: Seq<usize>, message: MessageView, client: usize)
    requires
        order.no_duplicates(),
    ensures
        for_client(sent_for(order, message), client) == match brought(order, message, client) {
            Some(message) => seq![message],
            None => Seq::empty(),
        },
{
    let sent = sent_for(order, message);
    match message {
        MessageView::Notification { .. } => {
            lemma_each_gets_it_once(order, message, client);
        },
        MessageView::Request { id, method, params } => {
            let tagged = MessageView::Request { id: id.tag(Tag::Drop), method, params };
            lemma_each_gets_it_once(order, tagged, client);
            let announced = announce(order, id, method, params);
            assert(announced.drop_last() =~= to_each(order, tagged));
            assert(announced.last() == OutgoingView::Server(null_response(id)));
            assert(for_client(announced, client) == for_client(to_each(order, tagged), client));
            if sent.len() == 1 && sent != announced {
                assert(sent.drop_last() =~= Seq::empty());
                assert(for_client(sent.drop_last(), client) =~= Seq::empty());
            }
        },
        _ => {
            if sent.len() == 1 {
                assert(sent.drop_last() =~= Seq::empty());
                assert(for_client(sent.drop_last(), client) =~= Seq::empty());
            }
        },
    }
    assert(for_client(sent, client) =~= match brought(order, message, client) {
        Some(message) => seq![message],
        None => Seq::empty(),
    });
}

/// The messages for one client are sent in the order in which the server's
/// messages were read, and each of these brings a client one message at most.
pub proof fn client_gets_messages_in_order(
    reads: Seq<(Seq<usize>, ReadOutcome)>,
    client: usize,
)
    requires
        forall|i: int| 0 <= i < reads.len() ==> (#[trigger] reads[i]).0.no_duplicates(),
    ensures
        for_client(sent_during(reads).1, client) == received(reads, client),
    decreases reads.len(),
{
    if reads.len() > 0 {
        let rest = reads.drop_last();
        assert forall|i: int|
            0 <= i < rest.len() implies (#[trigger] rest[i]).0.no_duplicates() by {
            assert(reads[i] == rest[i]);
        }
        client_gets_messages_in_order(rest, client);
        let (order, read) = reads.last();
        assert(reads[reads.len() - 1].0.no_duplicates());
        match read {
            ReadOutcome::Read(message) => {
                if sent_during(rest).0 {
                    let new = sent_for(order, message@);
                    lemma_more_for_client(sent_during(rest).1, new, client);
                    lemma_brought(order, message@, client);
                    assert(for_client(sent_during(reads).1, client) =~= received(reads, client));
                }
            },
            _ => {},
        }
    }
}

/// A request by which the server registers or withdraws capabilities is never
/// dealt with by sending alone, however many clients are connected: its
/// parameters are to be read, so that the capabilities are remembered or
/// forgotten, and it is handed over as it came.
pub proof fn capabilities_are_asked_for(
    order: Seq<usize>,
    request: Request,
    reaction: Reaction,
)
    requires
        reaction@ == reaction_to(order, Message::Request(request)@),
    ensures
        request.method@ == "client/registerCapability"@ ==> (reaction matches Reaction::Register(
            asked,
        ) && asked.id@ == request.id@ && asked.method@ == request.method@ && asked.params@
            == request.params@),
        request.method@ == "client/unregisterCapability"@ ==> (
        reaction matches Reaction::Unregister(asked) && asked.id@ == request.id@ && asked.method@
            == request.method@ && asked.params@ == request.params@),
        request.method@ != "client/registerCapability"@ && request.method@
            != "client/unregisterCapability"@ ==> reaction is Send,
{
    lemma_methods_differ();
}

/// The methods that the server's requests are told apart by are all different.
proof fn lemma_methods_differ()
    ensures
        !concerns_all_clients("workspace/configuration"@),
        !concerns_all_clients("client/registerCapability"@),
        !concerns_all_clients("client/unregisterCapability"@),
        "workspace/configuration"@ != "client/registerCapability"@,
        "workspace/configuration"@ != "client/unregisterCapability"@,
        "client/registerCapability"@ != "client/unregisterCapability"@,
{
    reveal_strlit("workspace/configuration");
    reveal_strlit("client/registerCapability");
    reveal_strlit("client/unregisterCapability");
    reveal_strlit("window/workDoneProgress/create");
    reveal_strlit("workspace/codeLens/refresh");
    reveal_strlit("workspace/semanticTokens/refresh");
    reveal_strlit("workspace/inlayHint/refresh");
    reveal_strlit("workspace/inlineValue/refresh");
    reveal_strlit("workspace/diagnostic/refresh");
    assert("workspace/configuration"@[10] == 'c' && "workspace/configuration"@[11] == 'o'
        && "workspace/configuration"@[12] == 'n');
    assert("client/registerCapability"@[0] == 'c' && "client/unregisterCapability"@[0] == 'c');
    assert("client/registerCapability"@.len() != "client/unregisterCapability"@.len());
    assert("workspace/configuration"@[0] == 'w');
    assert("window/workDoneProgress/create"@[0] == 'w');
    assert("workspace/codeLens/refresh"@[0] == 'w');
    assert("workspace/semanticTokens/refresh"@[0] == 'w');
    assert("workspace/inlayHint/refresh"@[0] == 'w');
    assert("workspace/inlineValue/refresh"@[0] == 'w');
    assert("workspace/diagnostic/refresh"@[0] == 'w');
}

/// An answer goes to the client that its tag names, if that one is connected,
/// with its content and the id that the client gave; every other answer goes
/// nowhere. The same holds of errors.
pub proof fn answers_go_to_the_tagged_client_alone(
    clients: Set<usize>,
    order: Seq<usize>,
    answer: Message,
    reaction: Reaction,
)
    requires
        enumerates(order, clients),
        reaction@ == reaction_to(order, answer@),
    ensures
        answer matches Message::ResponseSuccess(response) ==> (reaction matches Reaction::Send(sent)
            && match response.id {
            RequestId::Tagged(Tag::ClientId(client), id) => if clients.contains(client) {
                &&& sent@.len() == 1
                &&& sent@[0] matches Outgoing::Client(to, Message::ResponseSuccess(passed))
                &&& to == client
                &&& passed.id@ == id@
                &&& passed.result@ == response.result@
            } else {
                sent@.len() == 0
            },
            _ => sent@.len() == 0,
        }),
        answer matches Message::ResponseError(response) ==> (reaction matches Reaction::Send(sent)
            && match response.id {
            RequestId::Tagged(Tag::ClientId(client), id) => if clients.contains(client) {
                &&& sent@.len() == 1
                &&& sent@[0] matches Outgoing::Client(to, Message::ResponseError(passed))
                &&& to == client
                &&& passed.id@ == id@
                &&& passed.error == response.error
            } else {
                sent@.len() == 0
            },
            _ => sent@.len() == 0,
        }),
{
    if answer is ResponseSuccess || answer is ResponseError {
        let sent = reaction->Send_0;
        let views = reaction@->Send_0;
        assert(views.len() == sent@.len());
        assert forall|client: usize| clients.contains(client) == order.contains(client) by {
            assert(order.to_set().contains(client) == order.contains(client));
        }
        if sent@.len() == 1 {
            assert(views[0] == sent@[0]@);
        }
    }
}

/// A request that concerns all clients, or whose capabilities were read, goes to
/// every connected client once, unchanged but for a tag by which the clients'
/// answers are dropped; then the server gets an empty answer with the id of its
/// request, and nothing else is sent.
pub proof fn announced_request_goes_to_every_client(
    clients: Set<usize>,
    order: Seq<usize>,
    request: Request,
    outgoing: Vec<Outgoing>,
)
    requires
        enumerates(order, clients),
        outgoing_views(outgoing@) == announce(
            order,
            request.id@,
            request.method@,
            request.params@,
        ),
    ensures
        outgoing@.len() > 0,
        outgoing@.last() matches Outgoing::Server(Message::ResponseSuccess(answer)) && answer.id@
            == request.id@ && answer.result == Payload::Null,
        forall|i: int|
            0 <= i < outgoing@.len() - 1 ==> (#[trigger] outgoing@[i] matches Outgoing::Client(
                client,
                Message::Request(sent),
            ) && clients.contains(client) && sent.method@ == request.method@ && sent.params@
                == request.params@ && (sent.id matches RequestId::Tagged(tag, id) && tag
                    == Tag::Drop
                && id@ == request.id@)),
        forall|client: usize| #[trigger]
            clients.contains(client) ==> exists|i: int|
                0 <= i < outgoing@.len() - 1 && #[trigger] outgoing@[i] is Client
                    && outgoing@[i]->Client_0 == client,
        forall|i: int, j: int|
            0 <= i < j < outgoing@.len() - 1 ==> (#[trigger] outgoing@[i])->Client_0 != (
            #[trigger] outgoing@[j])->Client_0,
{
    let views = outgoing_views(outgoing@);
    let tagged = MessageView::Request {
        id: IdView::Tagged(Tag::Drop, Box::new(request.id@)),
        method: request.method@,
        params: request.params@,
    };
    assert(views.len() == outgoing@.len());
    assert(views.len() == order.len() + 1);
    assert(outgoing@.last()@ == views.last());
    assert(views.last() == OutgoingView::Server(
        MessageView::ResponseSuccess { id: request.id@, result: PayloadView::Null },
    ));
    assert forall|i: int| 0 <= i < order.len() implies #[trigger] outgoing@[i]@
        == OutgoingView::Client(order[i], tagged) by {
        assert(views[i] == outgoing@[i]@);
    }
    assert forall|i: int| 0 <= i < outgoing@.len() - 1 implies (
    #[trigger] outgoing@[i] matches Outgoing::Client(client, Message::Request(sent))
        && clients.contains(client) && sent.method@ == request.method@ && sent.params@
        == request.params@ && (sent.id matches RequestId::Tagged(tag, id) && tag == Tag::Drop && id@
        == request.id@)) by {
        assert(outgoing@[i]@ == OutgoingView::Client(order[i], tagged));
        assert(order.to_set().contains(order[i]));
    }
    assert forall|client: usize| #[trigger] clients.contains(client) implies exists|i: int|
        0 <= i < outgoing@.len() - 1 && #[trigger] outgoing@[i] is Client
            && outgoing@[i]->Client_0 == client by {
        assert(order.to_set().contains(client));
        let i = choose|i: int| 0 <= i < order.len() && order[i] == client;
        assert(outgoing@[i]@ == OutgoingView::Client(order[i], tagged));
    }
    assert forall|i: int, j: int| 0 <= i < j < outgoing@.len() - 1 implies (
    #[trigger] outgoing@[i])->Client_0 != (#[trigger] outgoing@[j])->Client_0 by {
        assert(outgoing@[i]@ == OutgoingView::Client(order[i], tagged));
        assert(outgoing@[j]@ == OutgoingView::Client(order[j], tagged));
        assert(order[i] != order[j]);
    }
}

/// The requests that are announced at once are exactly those to create a
/// progress report and to refresh something; what is sent about them is an
/// announcement.
pub proof fn refreshing_is_announced_at_once(
    order: Seq<usize>,
    request: Request,
    reaction: Reaction,
)
    requires
        reaction@ == reaction_to(order, Message::Request(request)@),
        request.method@ == "window/workDoneProgress/create"@ || request.method@
            == "workspace/codeLens/refresh"@ || request.method@
            == "workspace/semanticTokens/refresh"@ || request.method@
            == "workspace/inlayHint/refresh"@ || request.method@ == "workspace/inlineValue/refresh"@
            || request.method@ == "workspace/diagnostic/refresh"@,
    ensures
        reaction matches Reaction::Send(outgoing) && outgoing_views(outgoing@) == announce(
            order,
            request.id@,
            request.method@,
            request.params@,
        ),
{
}

/// Of all other requests of the server only those for the configuration are sent
/// on: unchanged but for a tag by which the answer goes on to the server, to one
/// client that is connected, and to nobody where none is. Unknown requests are
/// dropped.
pub proof fn other_requests_go_to_one_client_or_nowhere(
    clients: Set<usize>,
    order: Seq<usize>,
    request: Request,
    reaction: Reaction,
)
    requires
        enumerates(order, clients),
        reaction@ == reaction_to(order, Message::Request(request)@),
    ensures
        request.method@ == "workspace/configuration"@ ==> (reaction matches Reaction::Send(sent)
            && if clients == Set::<usize>::empty() {
            sent@.len() == 0
        } else {
            &&& sent@.len() == 1
            &&& sent@[0] matches Outgoing::Client(client, Message::Request(passed))
            &&& clients.contains(client)
            &&& passed.method@ == request.method@
            &&& passed.params@ == request.params@
            &&& passed.id matches RequestId::Tagged(tag, id)
            &&& tag == Tag::Forward
            &&& id@ == request.id@
        }),
        request.method@ != "workspace/configuration"@ && request.method@
            != "client/registerCapability"@ && request.method@ != "client/unregisterCapability"@
            && request.method@ != "window/workDoneProgress/create"@ && request.method@
            != "workspace/codeLens/refresh"@ && request.method@
            != "workspace/semanticTokens/refresh"@ && request.method@
            != "workspace/inlayHint/refresh"@ && request.method@ != "workspace/inlineValue/refresh"@
            && request.method@ != "workspace/diagnostic/refresh"@ ==> (
        reaction matches Reaction::Send(sent) && sent@.len() == 0),
{
    lemma_methods_differ();
    if reaction is Send {
        let sent = reaction->Send_0;
        assert(outgoing_views(sent@).len() == sent@.len());
        if request.method@ == "workspace/configuration"@ {
            if order.len() > 0 {
                assert(order.to_set().contains(order[0]));
                assert(outgoing_views(sent@)[0] == sent@[0]@);
            } else {
                assert(clients =~= Set::<usize>::empty());
            }
        }
    }
}

/// A notification goes to every connected client once, unchanged, and nowhere
/// else.
pub proof fn notification_goes_to_every_client(
    clients: Set<usize>,
    order: Seq<usize>,
    notification: Notification,
    reaction: Reaction,
)
    requires
        enumerates(order, clients),
        reaction@ == reaction_to(order, Message::Notification(notification)@),
    ensures
        reaction is Send,
        forall|i: int|
            0 <= i < reaction->Send_0@.len() ==> (
            #[trigger] reaction->Send_0@[i] matches Outgoing::Client(
                client,
                Message::Notification(sent),
            ) && clients.contains(client) && sent.method@ == notification.method@ && sent.params@
                == notification.params@),
        forall|client: usize| #[trigger]
            clients.contains(client) ==> exists|i: int|
                0 <= i < reaction->Send_0@.len() && #[trigger] reaction->Send_0@[i] is Client
                    && reaction->Send_0@[i]->Client_0 == client,
        forall|i: int, j: int|
            0 <= i < j < reaction->Send_0@.len() ==> (#[trigger] reaction->Send_0@[i])->Client_0
                != (#[trigger] reaction->Send_0@[j])->Client_0,
{
    let sent = reaction->Send_0@;
    let message = MessageView::Notification {
        method: notification.method@,
        params: notification.params@,
    };
    assert(outgoing_views(sent).len() == sent.len());
    assert(sent.len() == order.len());
    assert forall|i: int| 0 <= i < order.len() implies #[trigger] sent[i]@ == OutgoingView::Client(
        order[i],
        message,
    ) by {
        assert(outgoing_views(sent)[i] == sent[i]@);
    }
    assert forall|i: int| 0 <= i < sent.len() implies (
    #[trigger] sent[i] matches Outgoing::Client(client, Message::Notification(passed))
        && clients.contains(client) && passed.method@ == notification.method@ && passed.params@
        == notification.params@) by {
        assert(sent[i]@ == OutgoingView::Client(order[i], message));
        assert(order.to_set().contains(order[i]));
    }
    assert forall|client: usize| #[trigger] clients.contains(client) implies exists|i: int|
        0 <= i < sent.len() && #[trigger] sent[i] is Client && sent[i]->Client_0 == client by {
        assert(order.to_set().contains(client));
        let i = choose|i: int| 0 <= i < order.len() && order[i] == client;
        assert(sent[i]@ == OutgoingView::Client(order[i], message));
    }
    assert forall|i: int, j: int| 0 <= i < j < sent.len() implies (#[trigger] sent[i])->Client_0
        != (#[trigger] sent[j])->Client_0 by {
        assert(sent[i]@ == OutgoingView::Client(order[i], message));
        assert(sent[j]@ == OutgoingView::Client(order[j], message));
        assert(order[i] != order[j]);
    }
}

} // verus!
