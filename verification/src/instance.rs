//! A running language server and the clients that share it.
use std::collections::HashMap;

use vstd::prelude::*;

use crate::capabilities::{
    announced, list_of_registrations_is_complete, lists_registrations, methods_of, Capabilities,
};
use crate::client_data::ClientData;
use crate::ext;
use crate::instance_key::{InstanceKey, KeyView};
use crate::lsp::{
    did_close, did_open, DidCloseTextDocumentParams, DidOpenTextDocumentParams, IdView,
    InitializeResult, MessageView, Notification, Payload, PayloadView, RegistrationParams,
    RegistrationView, Request, RequestId, Tag, TextDocumentIdentifier, UnregistrationParams,
};
use crate::text::{contains_text, copy_texts, enumerates, texts};

verus! {

/// Why an instance refuses a request of a client.
#[derive(Clone, Copy, Debug, PartialEq, Eq, Structural)]
pub enum InstanceError {
    /// A client that is to be cleaned up is not connected.
    ClientNotConnected,
    /// A client that closes a file is not connected.
    NoMatchingClient,
}

/// A language server instance.
#[derive(Debug)]
pub struct Instance {
    key: InstanceKey,
    /// Process id of the language server
    pid: u32,
    /// Answer of the server to the `initialize` request
    init_result: InitializeResult,
    /// The connected clients by their ids
    clients: HashMap<usize, ClientData>,
    /// Capabilities that the server registered while running
    dynamic_capabilities: Capabilities,
    /// Second in which a message was last sent to the instance
    last_used: i64,
}

/// The mathematical content of an [`Instance`].
pub ghost struct InstanceView {
    pub key: KeyView,
    pub pid: u32,
    pub init_result: InitializeResult,
    /// The files that each connected client has open
    pub clients: Map<usize, Set<Seq<char>>>,
    pub capabilities: Map<Seq<char>, RegistrationView>,
    pub last_used: i64,
}

/// The files that at least one of the clients has open.
pub open spec fn open_files(clients: Map<usize, Set<Seq<char>>>) -> Set<Seq<char>> {
    Set::new(
        |uri: Seq<char>|
            exists|id: usize| #[trigger] clients.contains_key(id) && clients[id].contains(uri),
    )
}

/// What the server is told when the files of a list were closed by a client:
/// those that no other client has open are closed.
pub open spec fn close_messages(
    files: Seq<Seq<char>>,
    still_open: Set<Seq<char>>,
) -> Seq<MessageView> {
    files.filter(|uri: Seq<char>| !still_open.contains(uri)).map_values(
        |uri: Seq<char>| did_close(uri),
    )
}

/// The request by which a new client learns of registered capabilities. Its
/// answer is dropped.
pub open spec fn replay_message(list: Seq<RegistrationView>) -> MessageView {
    MessageView::Request {
        id: IdView::Text("replay:registerCapabilities"@).tag(Tag::Drop),
        method: "client/registerCapability"@,
        params: PayloadView::Registrations(list),
    }
}

/// The seconds from `last_used` to `now`, and none where the clock stepped
/// back.
pub open spec fn idle_seconds(now: i64, last_used: i64) -> int {
    if now > last_used {
        now - last_used
    } else {
        0
    }
}

/// The contents of a list of notifications.
pub open spec fn notification_views(notifications: Seq<Notification>) -> Seq<MessageView> {
    notifications.map_values(|n: Notification| n@)
}

/// The report on the clients of an instance, in the given order.
pub open spec fn reports_clients(
    reports: Seq<ext::Client>,
    order: Seq<usize>,
    clients: Map<usize, Set<Seq<char>>>,
) -> bool {
    &&& reports.len() == order.len()
    &&& forall|i: int|
        0 <= i < order.len() ==> (#[trigger] reports[i]).id == order[i] && enumerates(
            texts(reports[i].files@),
            clients[order[i]],
        )
}

impl View for Instance {
    type V = InstanceView;

    closed spec fn view(&self) -> InstanceView {
        InstanceView {
            key: self.key@,
            pid: self.pid,
            init_result: self.init_result,
            clients: self.clients@.map_values(|client: ClientData| client@),
            capabilities: self.dynamic_capabilities@,
            last_used: self.last_used,
        }
    }
}

impl Instance {
    /// Each client is listed under its id, and clients and capabilities are
    /// well formed.
    pub closed spec fn wf(&self) -> bool {
        &&& forall|id: usize| #[trigger]
            self.clients@.contains_key(id) ==> self.clients@[id].wf()
                && self.clients@[id].spec_id() == id
        &&& self.dynamic_capabilities.wf()
    }

    /// A newly started instance, with the client that it was started for.
    pub fn new(
        key: InstanceKey,
        pid: u32,
        init_result: InitializeResult,
        client_id: usize,
        now: i64,
    ) -> (instance: Instance)
        ensures
            instance.wf(),
            instance@ == (InstanceView {
                key: key@,
                pid,
                init_result,
                clients: map![client_id => Set::<Seq<char>>::empty()],
                capabilities: Map::<Seq<char>, RegistrationView>::empty(),
                last_used: now,
            }),
    {
        broadcast use vstd::std_specs::hash::group_hash_axioms;

        let mut clients: HashMap<usize, ClientData> = HashMap::new();
        clients.insert(client_id, ClientData::new(client_id));
        let instance = Instance {
            key,
            pid,
            init_result,
            clients,
            dynamic_capabilities: Capabilities::new(),
            last_used: now,
        };
        assert(instance@.clients =~= map![client_id => Set::<Seq<char>>::empty()]);
        instance
    }

    pub fn key(&self) -> (key: &InstanceKey)
        ensures
            key@ == self@.key,
    {
        &self.key
    }

    pub fn pid(&self) -> (pid: u32)
        ensures
            pid == self@.pid,
    {
        self.pid
    }

    /// Marks the instance as used in the second `now`.
    pub fn keep_alive(&mut self, now: i64)
        requires
            old(self).wf(),
        ensures
            final(self).wf(),
            final(self)@ == (InstanceView { last_used: now, ..old(self)@ }),
    {
        self.last_used = now;
    }

    /// For how many seconds the instance has not been used.
    pub fn idle(&self, now: i64) -> (seconds: i64)
        requires
            i64::MIN <= now - self@.last_used <= i64::MAX,
        ensures
            seconds == idle_seconds(now, self@.last_used),
    {
        let seconds: i64 = now - self.last_used;
        if seconds > 0 {
            seconds
        } else {
            0
        }
    }

    /// The answer that the server gave to the `initialize` request.
    pub fn initialize_result(&self) -> (result: InitializeResult)
        ensures
            result == self@.init_result,
    {
        self.init_result.clone()
    }

    /// Connects a client. Where the server has capabilities registered, the
    /// client is to be sent the request that is returned, before anything
    /// else.
    pub fn add_client(&mut self, client_id: usize) -> (replay: Option<Request>)
        requires
            old(self).wf(),
            !old(self)@.clients.contains_key(client_id),
        ensures
            final(self).wf(),
            final(self)@ == (InstanceView {
                clients: old(self)@.clients.insert(client_id, Set::empty()),
                ..old(self)@
            }),
            replay is None <==> old(self)@.capabilities == Map::<
                Seq<char>,
                RegistrationView,
            >::empty(),
            replay matches Some(request) ==> exists|list: Seq<RegistrationView>| #[trigger]
                lists_registrations(list, old(self)@.capabilities) && request@ == replay_message(
                    list,
                ),
            replay matches Some(request) ==> (request.params matches Payload::Registrations(params)
                && lists_registrations(params@, old(self)@.capabilities)),
    {
        broadcast use vstd::std_specs::hash::group_hash_axioms;

        let replay = if self.dynamic_capabilities.is_empty() {
            None
        } else {
            let registrations = self.dynamic_capabilities.registrations();
            let id = RequestId::String("replay:registerCapabilities".to_owned()).tag(Tag::Drop);
            Some(
                Request {
                    id,
                    method: "client/registerCapability".to_owned(),
                    params: Payload::Registrations(RegistrationParams { registrations }),
                },
            )
        };
        self.clients.insert(client_id, ClientData::new(client_id));
        assert(self@.clients =~= old(self)@.clients.insert(client_id, Set::empty()));
        replay
    }

    /// One client, if it is connected.
    pub fn get_client(&self, id: usize) -> (client: Option<&ClientData>)
        requires
            self.wf(),
        ensures
            client is Some <==> self@.clients.contains_key(id),
            client matches Some(c) ==> c.wf() && c.spec_id() == id && c@ == self@.clients[id],
    {
        broadcast use vstd::std_specs::hash::group_hash_axioms;

        self.clients.get(&id)
    }

    /// The ids of the connected clients, in no particular order.
    pub fn clients(&self) -> (ids: Vec<usize>)
        ensures
            enumerates(ids@, self@.clients.dom()),
    {
        broadcast use vstd::std_specs::hash::group_hash_axioms;

        let mut ids: Vec<usize> = Vec::new();
        for id in it: self.clients.keys()
            invariant
                ids@ =~= it.seq().unref().take(it.index() as int),
                it.index() == it.seq().len() ==> ids@ =~= it.seq().unref(),
                it.seq().unref().no_duplicates(),
                it.seq().unref().to_set() == self.clients@.dom(),
        {
            ids.push(*id);
        }
        assert(self.clients@.dom() =~= self@.clients.dom());
        ids
    }

    /// One of the connected clients, whichever it is.
    pub fn one_client(&self) -> (id: Option<usize>)
        ensures
            id is None <==> self@.clients.dom() == Set::<usize>::empty(),
            id matches Some(id) ==> self@.clients.contains_key(id),
    {
        let ids = self.clients();
        if ids.len() == 0 {
            assert(self@.clients.dom() =~= Set::<usize>::empty());
            None
        } else {
            assert(ids@.to_set().contains(ids@[0]));
            Some(ids[0])
        }
    }

    /// Whether any client has the file open.
    fn is_open(&self, uri: &str) -> (open: bool)
        ensures
            open == open_files(self@.clients).contains(uri@),
    {
        broadcast use vstd::std_specs::hash::group_hash_axioms;

        for client in it: self.clients.values()
            invariant
                it.seq().unref().to_set() == self.clients@.values(),
                forall|i: int|
                    0 <= i < it.index() ==> !(#[trigger] it.seq()[i])@.contains(uri@),
        {
            if client.has_open(uri) {
                proof {
                    let all = it.seq().unref();
                    assert(all[it.index() as int] == *client);
                    assert(all.to_set().contains(*client));
                    let id = choose|id: usize|
                        self.clients@.contains_key(id) && self.clients@[id] == *client;
                    assert(self@.clients.contains_key(id));
                }
                return true;
            }
        }
        proof {
            assert forall|id: usize| #[trigger]
                self@.clients.contains_key(id) implies !self@.clients[id].contains(uri@) by {
                assert(self.clients@.values().contains(self.clients@[id]));
            }
        }
        false
    }

    /// What the server is told when a client has closed the files of a list.
    fn close_all_files(&self, files: Vec<String>) -> (notifications: Vec<Notification>)
        ensures
            notification_views(notifications@) == close_messages(
                texts(files@),
                open_files(self@.clients),
            ),
    {
        let ghost all = texts(files@);
        let ghost still_open = open_files(self@.clients);
        let ghost closed = |uri: Seq<char>| !still_open.contains(uri);
        let mut notifications: Vec<Notification> = Vec::new();
        let mut i: usize = 0;
        reveal(Seq::filter);
        assert(all.take(0) =~= Seq::<Seq<char>>::empty());
        assert(notification_views(notifications@) =~= close_messages(all.take(0), still_open));
        while i < files.len()
            invariant
                i <= files.len(),
                all == texts(files@),
                still_open == open_files(self@.clients),
                closed == |uri: Seq<char>| !still_open.contains(uri),
                notification_views(notifications@) == close_messages(
                    all.take(i as int),
                    still_open,
                ),
            decreases files.len() - i,
        {
            let uri = files[i].clone();
            let ghost before = notification_views(notifications@);
            proof {
                reveal(Seq::filter);
                assert(all.take(i + 1).drop_last() =~= all.take(i as int));
                assert(all.take(i + 1).last() == uri@);
            }
            if !self.is_open(uri.as_str()) {
                let ghost u = uri@;
                let notification = Notification {
                    method: "textDocument/didClose".to_owned(),
                    params: Payload::DidClose(
                        DidCloseTextDocumentParams {
                            text_document: TextDocumentIdentifier { uri },
                        },
                    ),
                };
                notifications.push(notification);
                assert(notification_views(notifications@) =~= before.push(did_close(u)));
                assert(close_messages(all.take(i + 1), still_open) =~= close_messages(
                    all.take(i as int),
                    still_open,
                ).push(did_close(u)));
            }
            i += 1;
        }
        assert(all.take(i as int) =~= all);
        notifications
    }

    /// Disconnects a client and closes its files: the server is to be told
    /// what is returned.
    pub fn cleanup_client(&mut self, client_id: usize) -> (result: Result<
        Vec<Notification>,
        InstanceError,
    >)
        requires
            old(self).wf(),
        ensures
            final(self).wf(),
            result is Ok <==> old(self)@.clients.contains_key(client_id),
            match result {
                Ok(sent) => {
                    &&& final(self)@ == (InstanceView {
                        clients: old(self)@.clients.remove(client_id),
                        ..old(self)@
                    })
                    &&& exists|files: Seq<Seq<char>>| #[trigger]
                        enumerates(files, old(self)@.clients[client_id]) && notification_views(
                            sent@,
                        ) == close_messages(files, open_files(final(self)@.clients))
                },
                Err(error) => error == InstanceError::ClientNotConnected && final(self)@ == old(
                    self,
                )@,
            },
    {
        broadcast use vstd::std_specs::hash::group_hash_axioms;

        match self.clients.remove(&client_id) {
            Some(client) => {
                assert(self@.clients =~= old(self)@.clients.remove(client_id));
                let files = client.files();
                assert(enumerates(texts(files@), old(self)@.clients[client_id]));
                Ok(self.close_all_files(files))
            },
            None => {
                assert(self@.clients =~= old(self)@.clients);
                Err(InstanceError::ClientNotConnected)
            },
        }
    }

    /// Handles `textDocument/didOpen` of a client: the server is told of the
    /// first client that opens a file only.
    pub fn open_file(&mut self, client_id: usize, params: DidOpenTextDocumentParams) -> (sent:
        Option<Notification>)
        requires
            old(self).wf(),
            old(self)@.clients.contains_key(client_id),
        ensures
            final(self).wf(),
            final(self)@ == (InstanceView {
                clients: old(self)@.clients.insert(
                    client_id,
                    old(self)@.clients[client_id].insert(params.text_document.uri@),
                ),
                ..old(self)@
            }),
            sent is None <==> open_files(old(self)@.clients).contains(params.text_document.uri@),
            sent matches Some(notification) ==> {
                &&& notification@ == did_open(params.text_document@)
                &&& notification.method@ == "textDocument/didOpen"@
                &&& notification.params == Payload::DidOpen(params)
            },
    {
        broadcast use vstd::std_specs::hash::group_hash_axioms;

        let known = self.is_open(params.text_document.uri.as_str());
        match self.clients.remove(&client_id) {
            Some(mut client) => {
                client.open(params.text_document.uri.clone());
                self.clients.insert(client_id, client);
            },
            None => {},
        }
        assert(self@.clients =~= old(self)@.clients.insert(
            client_id,
            old(self)@.clients[client_id].insert(params.text_document.uri@),
        ));
        if known {
            None
        } else {
            Some(
                Notification {
                    method: "textDocument/didOpen".to_owned(),
                    params: Payload::DidOpen(params),
                },
            )
        }
    }

    /// Handles `textDocument/didClose` of a client: the server is told unless
    /// another client has the file open.
    pub fn close_file(&mut self, client_id: usize, params: DidCloseTextDocumentParams) -> (result:
        Result<Vec<Notification>, InstanceError>)
        requires
            old(self).wf(),
        ensures
            final(self).wf(),
            result is Ok <==> old(self)@.clients.contains_key(client_id),
            match result {
                Ok(sent) => {
                    &&& final(self)@ == (InstanceView {
                        clients: old(self)@.clients.insert(
                            client_id,
                            old(self)@.clients[client_id].remove(params.text_document.uri@),
                        ),
                        ..old(self)@
                    })
                    &&& notification_views(sent@) == close_messages(
                        seq![params.text_document.uri@],
                        open_files(final(self)@.clients),
                    )
                },
                Err(error) => error == InstanceError::NoMatchingClient && final(self)@ == old(
                    self,
                )@,
            },
    {
        broadcast use vstd::std_specs::hash::group_hash_axioms;

        match self.clients.remove(&client_id) {
            Some(mut client) => {
                client.close(params.text_document.uri.as_str());
                self.clients.insert(client_id, client);
                assert(self@.clients =~= old(self)@.clients.insert(
                    client_id,
                    old(self)@.clients[client_id].remove(params.text_document.uri@),
                ));
                let mut files: Vec<String> = Vec::new();
                files.push(params.text_document.uri);
                assert(texts(files@) =~= seq![params.text_document.uri@]);
                Ok(self.close_all_files(files))
            },
            None => {
                assert(self@.clients =~= old(self)@.clients);
                Err(InstanceError::NoMatchingClient)
            },
        }
    }

    /// Remembers capabilities that the server registered, for clients to come.
    pub fn register_capabilities(&mut self, params: RegistrationParams)
        requires
            old(self).wf(),
        ensures
            final(self).wf(),
            final(self)@ == (InstanceView {
                capabilities: old(self)@.capabilities.union_prefer_right(announced(params@)),
                ..old(self)@
            }),
    {
        self.dynamic_capabilities.register(params);
    }

    /// Forgets capabilities that the server withdrew.
    pub fn unregister_capabilities(&mut self, params: UnregistrationParams)
        requires
            old(self).wf(),
        ensures
            final(self).wf(),
            final(self)@ == (InstanceView {
                capabilities: old(self)@.capabilities.remove_keys(params@.to_set()),
                ..old(self)@
            }),
    {
        self.dynamic_capabilities.unregister(params);
    }

    /// The files that are open at any client, each of them once, in no
    /// particular order.
    pub fn unique_files(&self) -> (files: Vec<String>)
        requires
            self.wf(),
        ensures
            enumerates(texts(files@), open_files(self@.clients)),
    {
        let ids = self.clients();
        let ghost order = ids@;
        let ghost map = self@.clients;
        let mut files: Vec<String> = Vec::new();
        let mut i: usize = 0;
        while i < ids.len()
            invariant
                i <= ids.len(),
                self.wf(),
                map == self@.clients,
                order == ids@,
                enumerates(order, map.dom()),
                texts(files@).no_duplicates(),
                forall|uri: Seq<char>|
                    texts(files@).contains(uri) <==> exists|k: int|
                        0 <= k < i && map[#[trigger] order[k]].contains(uri),
            decreases ids.len() - i,
        {
            let ghost before = texts(files@);
            assert(order.to_set().contains(order[i as int]));
            match self.get_client(ids[i]) {
                Some(client) => {
                    let own = client.files();
                    add_missing(&mut files, &own);
                },
                None => {},
            }
            proof {
                assert forall|uri: Seq<char>|
                    texts(files@).contains(uri) <==> exists|k: int|
                        0 <= k < i + 1 && map[#[trigger] order[k]].contains(uri) by {
                    let here = map[order[i as int]].contains(uri);
                    assert(texts(files@).to_set().contains(uri) == (before.to_set().contains(uri)
                        || here));
                    if exists|k: int| 0 <= k < i + 1 && map[#[trigger] order[k]].contains(uri) {
                        let k = choose|k: int|
                            0 <= k < i + 1 && map[#[trigger] order[k]].contains(uri);
                        assert(k == i || before.contains(uri));
                    }
                    if before.contains(uri) {
                        let k = choose|k: int|
                            0 <= k < i && map[#[trigger] order[k]].contains(uri);
                        assert(k < i + 1);
                    }
                }
            }
            i += 1;
        }
        proof {
            assert forall|uri: Seq<char>| open_files(map).contains(uri) == texts(files@).contains(
                uri,
            ) by {
                if open_files(map).contains(uri) {
                    let id = choose|id: usize| #[trigger]
                        map.contains_key(id) && map[id].contains(uri);
                    assert(order.to_set().contains(id));
                    let k = choose|k: int| 0 <= k < order.len() && order[k] == id;
                    assert(map[order[k]].contains(uri));
                }
                if texts(files@).contains(uri) {
                    let k = choose|k: int|
                        0 <= k < order.len() && map[#[trigger] order[k]].contains(uri);
                    assert(order.to_set().contains(order[k]));
                }
            }
            assert(texts(files@).to_set() =~= open_files(map));
        }
        files
    }

    /// What is reported about the instance in the second `now`.
    pub fn get_status(&self, now: i64) -> (status: ext::Instance)
        requires
            self.wf(),
            i64::MIN <= now - self@.last_used <= i64::MAX,
        ensures
            status.pid == self@.pid,
            status.server@ == self@.key.server,
            texts(status.args@) == self@.key.args,
            status.env@ == self@.key.env,
            status.workspace_root.path@ == self@.key.workspace_root.path,
            status.workspace_root.device_id == self@.key.workspace_root.device_id,
            status.workspace_root.file_id == self@.key.workspace_root.file_id,
            status.idle_for == idle_seconds(now, self@.last_used),
            exists|order: Seq<usize>| #[trigger]
                enumerates(order, self@.clients.dom()) && reports_clients(
                    status.clients@,
                    order,
                    self@.clients,
                ),
            exists|list: Seq<RegistrationView>| #[trigger]
                lists_registrations(list, self@.capabilities) && texts(
                    status.registered_dyn_capabilities@,
                ) == methods_of(list),
    {
        let ids = self.clients();
        let ghost order = ids@;
        let mut clients: Vec<ext::Client> = Vec::new();
        let mut i: usize = 0;
        while i < ids.len()
            invariant
                i <= ids.len(),
                self.wf(),
                order == ids@,
                enumerates(order, self@.clients.dom()),
                reports_clients(clients@, order.take(i as int), self@.clients),
            decreases ids.len() - i,
        {
            assert(order.to_set().contains(order[i as int]));
            match self.get_client(ids[i]) {
                Some(client) => {
                    clients.push(client.get_status());
                },
                None => {},
            }
            i += 1;
            proof {
                let done = order.take(i as int);
                assert(done.drop_last() =~= order.take(i - 1));
                assert forall|j: int| 0 <= j < done.len() implies (#[trigger] clients@[j]).id
                    == done[j] && enumerates(
                    texts(clients@[j].files@),
                    self@.clients[done[j]],
                ) by {
                    if j < i - 1 {
                        assert(done[j] == order.take(i - 1)[j]);
                    }
                }
            }
        }
        assert(order.take(i as int) =~= order);
        let registered_dyn_capabilities = self.dynamic_capabilities.methods();
        assert(self@.capabilities == self.dynamic_capabilities@);
        ext::Instance {
            pid: self.pid,
            server: self.key.server.clone(),
            args: copy_texts(&self.key.args),
            env: self.key.env.clone(),
            workspace_root: ext::WorkspaceRoot {
                path: self.key.workspace_root.path().to_owned(),
                device_id: self.key.workspace_root.device_id(),
                file_id: self.key.workspace_root.file_id(),
            },
            idle_for: self.idle(now),
            clients,
            registered_dyn_capabilities,
        }
    }

    /// Whether the instance is to be closed: it has no clients and was not
    /// used for longer than the timeout allows.
    pub fn timed_out(&self, now: i64, instance_timeout: Option<u32>) -> (close: bool)
        requires
            i64::MIN <= now - self@.last_used <= i64::MAX,
        ensures
            close == (instance_timeout matches Some(timeout) && idle_seconds(
                now,
                self@.last_used,
            ) > timeout && self@.clients.dom() == Set::<usize>::empty()),
    {
        let idle = self.idle(now);
        match instance_timeout {
            Some(timeout) => idle > timeout as i64 && self.one_client().is_none(),
            None => false,
        }
    }

    /// Disconnects all clients.
    pub fn disconnect_all(&mut self)
        requires
            old(self).wf(),
        ensures
            final(self).wf(),
            final(self)@ == (InstanceView {
                clients: Map::<usize, Set<Seq<char>>>::empty(),
                ..old(self)@
            }),
    {
        self.clients.clear();
        assert(self@.clients =~= Map::<usize, Set<Seq<char>>>::empty());
    }
}

/// Adds the strings of `own` that `files` lacks.
fn add_missing(files: &mut Vec<String>, own: &Vec<String>)
    requires
        texts(old(files)@).no_duplicates(),
    ensures
        texts(final(files)@).no_duplicates(),
        texts(final(files)@).to_set() == texts(old(files)@).to_set().union(texts(own@).to_set()),
{
    let ghost before = texts(files@).to_set();
    let ghost wanted = texts(own@);
    let mut i: usize = 0;
    assert(before =~= before.union(wanted.take(0).to_set()));
    while i < own.len()
        invariant
            i <= own.len(),
            wanted == texts(own@),
            texts(files@).no_duplicates(),
            texts(files@).to_set() == before.union(wanted.take(i as int).to_set()),
        decreases own.len() - i,
    {
        let ghost listed = texts(files@);
        proof {
            assert(wanted.take(i + 1) =~= wanted.take(i as int).push(own[i as int]@));
            wanted.take(i as int).lemma_push_to_set_commute(own[i as int]@);
        }
        if !contains_text(files, own[i].as_str()) {
            files.push(own[i].clone());
            proof {
                assert(texts(files@) =~= listed.push(own[i as int]@));
                listed.lemma_push_to_set_commute(own[i as int]@);
            }
        } else {
            assert(listed.to_set().contains(own[i as int]@));
        }
        i += 1;
        assert(texts(files@).to_set() =~= before.union(wanted.take(i as int).to_set()));
    }
    assert(wanted.take(i as int) =~= wanted);
}

/// An instance that was just used is not idle, and from then on it is idle for
/// as long as it is not used again.
pub proof fn idle_time_counts_from_the_last_use(used: i64, now: i64)
    requires
        used <= now,
    ensures
        idle_seconds(used, used) == 0,
        idle_seconds(now, used) == now - used,
{
}

/// A file counts as open exactly as long as some connected client has it open.
pub proof fn file_is_open_while_some_client_has_it_open(
    clients: Map<usize, Set<Seq<char>>>,
    uri: Seq<char>,
)
    ensures
        open_files(clients).contains(uri) <==> exists|id: usize| #[trigger]
            clients.contains_key(id) && clients[id].contains(uri),
{
}

/// The server gets a document as the client sent it: its URI, its language, its
/// version and its text, whatever they are.
pub proof fn opened_document_is_passed_on_unchanged(
    params: DidOpenTextDocumentParams,
    sent: Notification,
)
    requires
        sent@ == did_open(params.text_document@),
    ensures
        sent.method@ == "textDocument/didOpen"@,
        sent.params matches Payload::DidOpen(passed) && {
            &&& passed.text_document.uri@ == params.text_document.uri@
            &&& passed.text_document.language_id@ == params.text_document.language_id@
            &&& passed.text_document.version == params.text_document.version
            &&& passed.text_document.text@ == params.text_document.text@
        },
{
}

proof fn lemma_close_messages(files: Seq<Seq<char>>, still_open: Set<Seq<char>>)
    ensures
        close_messages(files, still_open).len() <= files.len(),
        forall|i: int|
            0 <= i < close_messages(files, still_open).len() ==> exists|uri: Seq<char>|
                files.contains(uri) && !still_open.contains(uri)
                    && #[trigger] close_messages(files, still_open)[i] == #[trigger] did_close(uri),
        forall|uri: Seq<char>| #[trigger]
            files.contains(uri) && !still_open.contains(uri) ==> close_messages(
                files,
                still_open,
            ).contains(did_close(uri)),
        files.no_duplicates() ==> close_messages(files, still_open).no_duplicates(),
    decreases files.len(),
{
    reveal(Seq::filter);
    let closed = |uri: Seq<char>| !still_open.contains(uri);
    let messages = close_messages(files, still_open);
    if files.len() > 0 {
        let rest = files.drop_last();
        let last = files.last();
        lemma_close_messages(rest, still_open);
        let before = close_messages(rest, still_open);
        if closed(last) {
            assert(messages =~= before.push(did_close(last)));
        } else {
            assert(messages =~= before);
        }
        assert forall|i: int| 0 <= i < messages.len() implies exists|uri: Seq<char>|
            files.contains(uri) && !still_open.contains(uri)
                && #[trigger] messages[i] == #[trigger] did_close(uri) by {
            if i < before.len() {
                let uri = choose|uri: Seq<char>|
                    rest.contains(uri) && !still_open.contains(uri) && before[i]
                        == #[trigger] did_close(
                        uri,
                    );
                let k = choose|k: int| 0 <= k < rest.len() && rest[k] == uri;
                assert(files[k] == uri);
                assert(messages[i] == did_close(uri));
            } else {
                assert(files[files.len() - 1] == last);
                assert(messages[i] == did_close(last));
            }
        }
        assert forall|uri: Seq<char>| #[trigger] files.contains(uri) && !still_open.contains(
            uri,
        ) implies messages.contains(did_close(uri)) by {
            let k = choose|k: int| 0 <= k < files.len() && files[k] == uri;
            if k < rest.len() {
                assert(rest[k] == uri);
                assert(rest.contains(uri));
                let i = choose|i: int| 0 <= i < before.len() && before[i] == did_close(uri);
                assert(messages[i] == did_close(uri));
            } else {
                assert(messages[before.len() as int] == did_close(uri));
            }
        }
        if files.no_duplicates() {
            assert(rest.no_duplicates()) by {
                assert forall|i: int, j: int|
                    0 <= i < rest.len() && 0 <= j < rest.len() && i != j implies rest[i]
                    != rest[j] by {
                    assert(files[i] != files[j]);
                }
            }
            assert forall|i: int, j: int|
                0 <= i < messages.len() && 0 <= j < messages.len() && i != j implies messages[i]
                != messages[j] by {
                if i < before.len() && j < before.len() {
                    assert(before[i] != before[j]);
                } else {
                    let k = if i < before.len() {
                        i
                    } else {
                        j
                    };
                    let uri = choose|uri: Seq<char>|
                        rest.contains(uri) && !still_open.contains(uri)
                            && before[k] == #[trigger] did_close(uri);
                    let m = choose|m: int| 0 <= m < rest.len() && rest[m] == uri;
                    assert(files[m] != files[files.len() - 1]);
                    assert(did_close(uri) != did_close(last));
                }
            }
        }
    } else {
        assert(messages =~= Seq::empty());
    }
}

/// Of the files that a client has closed, the server is told to close exactly
/// those that no other client has open, each of them once, by their URIs.
pub proof fn closed_files_are_those_open_nowhere_else(
    files: Seq<Seq<char>>,
    clients: Map<usize, Set<Seq<char>>>,
    sent: Vec<Notification>,
)
    requires
        files.no_duplicates(),
        notification_views(sent@) == close_messages(files, open_files(clients)),
    ensures
        forall|i: int|
            0 <= i < sent@.len() ==> {
                &&& (#[trigger] sent@[i]).method@ == "textDocument/didClose"@
                &&& sent@[i].params matches Payload::DidClose(params)
                &&& files.contains(params.text_document.uri@)
                &&& forall|id: usize| #[trigger]
                    clients.contains_key(id) ==> !clients[id].contains(params.text_document.uri@)
            },
        forall|uri: Seq<char>| #[trigger]
            files.contains(uri) && (forall|id: usize| #[trigger]
                clients.contains_key(id) ==> !clients[id].contains(uri)) ==> exists|i: int|
                0 <= i < sent@.len() && (#[trigger] sent@[i]).params is DidClose
                    && sent@[i].params->DidClose_0.text_document.uri@ == uri,
        forall|i: int, j: int|
            0 <= i < j < sent@.len() ==> (
            #[trigger] sent@[i]).params->DidClose_0.text_document.uri@ != (
            #[trigger] sent@[j]).params->DidClose_0.text_document.uri@,
{
    let still_open = open_files(clients);
    let messages = close_messages(files, still_open);
    lemma_close_messages(files, still_open);
    assert(notification_views(sent@).len() == sent@.len());
    assert forall|i: int| 0 <= i < sent@.len() implies #[trigger] sent@[i]@ == messages[i] by {
        assert(notification_views(sent@)[i] == sent@[i]@);
    }
    assert forall|i: int| 0 <= i < sent@.len() implies {
        &&& (#[trigger] sent@[i]).method@ == "textDocument/didClose"@
        &&& sent@[i].params matches Payload::DidClose(params)
        &&& files.contains(params.text_document.uri@)
        &&& forall|id: usize| #[trigger]
            clients.contains_key(id) ==> !clients[id].contains(params.text_document.uri@)
    } by {
        assert(sent@[i]@ == messages[i]);
        let uri = choose|uri: Seq<char>|
            files.contains(uri) && !still_open.contains(uri) && messages[i] == #[trigger] did_close(
                uri,
            );
        assert(sent@[i]@ == did_close(uri));
        assert(sent@[i].params->DidClose_0.text_document.uri@ == uri);
    }
    assert forall|uri: Seq<char>| #[trigger]
        files.contains(uri) && (forall|id: usize| #[trigger]
            clients.contains_key(id) ==> !clients[id].contains(uri)) implies exists|i: int|
        0 <= i < sent@.len() && (#[trigger] sent@[i]).params is DidClose
            && sent@[i].params->DidClose_0.text_document.uri@ == uri by {
        assert(!still_open.contains(uri));
        assert(messages.contains(did_close(uri)));
        let i = choose|i: int| 0 <= i < messages.len() && messages[i] == did_close(uri);
        assert(sent@[i]@ == messages[i]);
    }
    assert forall|i: int, j: int| 0 <= i < j < sent@.len() implies (
    #[trigger] sent@[i]).params->DidClose_0.text_document.uri@ != (
    #[trigger] sent@[j]).params->DidClose_0.text_document.uri@ by {
        assert(sent@[i]@ == messages[i] && sent@[j]@ == messages[j]);
        assert(messages[i] != messages[j]);
        let a = choose|uri: Seq<char>|
            files.contains(uri) && !still_open.contains(uri) && messages[i] == #[trigger] did_close(
                uri,
            );
        let b = choose|uri: Seq<char>|
            files.contains(uri) && !still_open.contains(uri) && messages[j] == #[trigger] did_close(
                uri,
            );
    }
}

/// A client that connects is told of every registration that is remembered, each
/// of them once with all that it holds, and of nothing else, in a request whose
/// answer is dropped.
pub proof fn all_registrations_are_replayed(
    capabilities: Map<Seq<char>, RegistrationView>,
    list: Seq<RegistrationView>,
    replay: Request,
)
    requires
        lists_registrations(list, capabilities),
        replay@ == replay_message(list),
    ensures
        replay.method@ == "client/registerCapability"@,
        replay.id matches RequestId::Tagged(tag, id) && tag == Tag::Drop && (
        *id matches RequestId::String(text) && text@ == "replay:registerCapabilities"@),
        replay.params is Registrations,
        forall|id: Seq<char>| #[trigger]
            capabilities.contains_key(id) ==> exists|i: int|
                0 <= i < replay.params->Registrations_0.registrations@.len() && (
                #[trigger] replay.params->Registrations_0.registrations@[i]).id@ == id,
        forall|i: int|
            0 <= i < replay.params->Registrations_0.registrations@.len() ==> {
                let told = #[trigger] replay.params->Registrations_0.registrations@[i];
                &&& capabilities.contains_key(told.id@)
                &&& capabilities[told.id@].method == told.method@
                &&& capabilities[told.id@].register_options == told.register_options
            },
        forall|i: int, j: int|
            0 <= i < j < replay.params->Registrations_0.registrations@.len() ==> (
            #[trigger] replay.params->Registrations_0.registrations@[i]).id@ != (
            #[trigger] replay.params->Registrations_0.registrations@[j]).id@,
{
    reveal_with_fuel(RequestId::content, 3);
    list_of_registrations_is_complete(list, capabilities);
    let params = replay.params->Registrations_0;
    let told = params.registrations@;
    assert(params@ == list);
    assert(params@.len() == told.len());
    assert forall|i: int| 0 <= i < told.len() implies #[trigger] told[i]@ == list[i] by {
        assert(params@[i] == told[i]@);
    }
    assert forall|i: int| 0 <= i < told.len() implies {
        &&& capabilities.contains_key((#[trigger] told[i]).id@)
        &&& capabilities[told[i].id@].method == told[i].method@
        &&& capabilities[told[i].id@].register_options == told[i].register_options
    } by {
        assert(told[i]@ == list[i]);
    }
    assert forall|id: Seq<char>| #[trigger] capabilities.contains_key(id) implies exists|i: int|
        0 <= i < told.len() && (#[trigger] told[i]).id@ == id by {
        let i = choose|i: int| 0 <= i < list.len() && list[i] == capabilities[id];
        assert(told[i]@ == list[i]);
    }
    assert forall|i: int, j: int| 0 <= i < j < told.len() implies (#[trigger] told[i]).id@ != (
    #[trigger] told[j]).id@ by {
        assert(told[i]@ == list[i] && told[j]@ == list[j]);
        assert(list[i].id != list[j].id);
    }
}

/// The report on an instance has one report for each connected client, with
/// exactly the files that the client has open, and the method of every
/// registration that is remembered.
pub proof fn status_reports_every_client_and_capability(
    clients: Map<usize, Set<Seq<char>>>,
    order: Seq<usize>,
    capabilities: Map<Seq<char>, RegistrationView>,
    list: Seq<RegistrationView>,
    status: ext::Instance,
)
    requires
        enumerates(order, clients.dom()),
        reports_clients(status.clients@, order, clients),
        lists_registrations(list, capabilities),
        texts(status.registered_dyn_capabilities@) == methods_of(list),
    ensures
        forall|id: usize| #[trigger]
            clients.contains_key(id) ==> exists|i: int|
                0 <= i < status.clients@.len() && (#[trigger] status.clients@[i]).id == id,
        forall|i: int, j: int|
            0 <= i < j < status.clients@.len() ==> (#[trigger] status.clients@[i]).id != (
            #[trigger] status.clients@[j]).id,
        forall|i: int, uri: Seq<char>|
            #![trigger status.clients@[i], clients[status.clients@[i].id].contains(uri)]
            0 <= i < status.clients@.len() ==> clients.contains_key(status.clients@[i].id) && (
            clients[status.clients@[i].id].contains(uri) <==> exists|k: int|
                0 <= k < status.clients@[i].files@.len()
                    && #[trigger] status.clients@[i].files@[k]@ == uri),
        forall|i: int, k: int, m: int|
            #![trigger status.clients@[i].files@[k], status.clients@[i].files@[m]]
            0 <= i < status.clients@.len() && 0 <= k < m < status.clients@[i].files@.len()
                ==> status.clients@[i].files@[k]@ != status.clients@[i].files@[m]@,
        forall|id: Seq<char>| #[trigger]
            capabilities.contains_key(id) ==> exists|k: int|
                0 <= k < status.registered_dyn_capabilities@.len()
                    && #[trigger] status.registered_dyn_capabilities@[k]@
                    == capabilities[id].method,
        forall|method: Seq<char>|
            #![trigger texts(status.registered_dyn_capabilities@).contains(method)]
            texts(status.registered_dyn_capabilities@).contains(method) ==> exists|id: Seq<char>|
                capabilities.contains_key(id) && (#[trigger] capabilities[id]).method == method,
{
    list_of_registrations_is_complete(list, capabilities);
    let reports = status.clients@;
    let methods = status.registered_dyn_capabilities@;
    assert forall|id: usize| #[trigger] clients.contains_key(id) implies exists|i: int|
        0 <= i < reports.len() && (#[trigger] reports[i]).id == id by {
        assert(order.to_set().contains(id));
        let i = choose|i: int| 0 <= i < order.len() && order[i] == id;
        assert(reports[i].id == id);
    }
    assert forall|i: int, j: int| 0 <= i < j < reports.len() implies (#[trigger] reports[i]).id
        != (#[trigger] reports[j]).id by {
        assert(order[i] != order[j]);
    }
    assert forall|i: int, uri: Seq<char>|
        #![trigger reports[i], clients[reports[i].id].contains(uri)]
        0 <= i < reports.len() implies clients.contains_key(reports[i].id) && (
    clients[reports[i].id].contains(uri) <==> exists|k: int|
        0 <= k < reports[i].files@.len() && #[trigger] reports[i].files@[k]@ == uri) by {
        let files = texts(reports[i].files@);
        assert(reports[i].id == order[i]);
        assert(order.to_set().contains(order[i]));
        assert(files.to_set().contains(uri) == files.contains(uri));
        if files.contains(uri) {
            let k = choose|k: int| 0 <= k < files.len() && files[k] == uri;
            assert(reports[i].files@[k]@ == uri);
        }
        if exists|k: int| 0 <= k < reports[i].files@.len() && #[trigger] reports[i].files@[k]@
            == uri {
            let k = choose|k: int|
                0 <= k < reports[i].files@.len() && #[trigger] reports[i].files@[k]@ == uri;
            assert(files[k] == uri);
        }
    }
    assert forall|i: int, k: int, m: int|
        #![trigger reports[i].files@[k], reports[i].files@[m]]
        0 <= i < reports.len() && 0 <= k < m < reports[i].files@.len() implies reports[i].files@[k]@
        != reports[i].files@[m]@ by {
        let files = texts(reports[i].files@);
        assert(reports[i].id == order[i]);
        assert(files[k] != files[m]);
    }
    assert(texts(methods).len() == methods.len());
    assert forall|id: Seq<char>| #[trigger] capabilities.contains_key(id) implies exists|k: int|
        0 <= k < methods.len() && #[trigger] methods[k]@ == capabilities[id].method by {
        let k = choose|k: int| 0 <= k < list.len() && list[k] == capabilities[id];
        assert(texts(methods)[k] == methods[k]@);
        assert(methods_of(list)[k] == list[k].method);
    }
    assert forall|method: Seq<char>|
        #![trigger texts(methods).contains(method)]
        texts(methods).contains(method) implies exists|id: Seq<char>|
        capabilities.contains_key(id) && (#[trigger] capabilities[id]).method == method by {
        let k = choose|k: int| 0 <= k < texts(methods).len() && texts(methods)[k] == method;
        assert(methods_of(list)[k] == list[k].method);
        assert(capabilities.contains_key(list[k].id));
        assert(capabilities[list[k].id].method == method);
    }
}

/// Where the clock stepped back behind the last use, the instance is not idle.
pub proof fn idle_time_is_never_negative(used: i64, now: i64)
    ensures
        idle_seconds(now, used) >= 0,
        now <= used ==> idle_seconds(now, used) == 0,
        now > used ==> idle_seconds(now, used) == now - used,
{
}

} // verus!
