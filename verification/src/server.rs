//! Accepting clients, and when to stop doing so.
use vstd::prelude::*;

verus! {

/// The server that clients connect to.
#[derive(Clone, Copy, Debug, PartialEq, Eq, Structural)]
pub struct Server {
    /// Id of the next client
    pub next_client_id: usize,
    /// Number of the connected clients, with those that have asked for no
    /// instance yet
    pub active_clients: usize,
    /// Whether the server was started because somebody connected, and will be
    /// again
    pub socket_activated: bool,
}

/// What the server has to deal with.
#[derive(Clone, Copy, Debug, PartialEq, Eq, Structural)]
pub enum ServerEvent {
    /// A client has connected.
    Accepted,
    /// A connection could not be accepted: because it is gone already, or for
    /// another reason.
    AcceptFailed { not_connected: bool },
    /// A client was served to its end.
    ClientFinished,
    /// It is time to look whether the server is still needed.
    IdleCheck { no_instances: bool },
}

/// What the server does about it.
#[derive(Clone, Copy, Debug, PartialEq, Eq, Structural)]
pub enum ServerAction {
    /// Go on listening.
    Listen,
    /// Serve the client that has connected under that id.
    Serve(usize),
    /// Report that accepting failed, and stop.
    Fail,
    /// Stop, for nobody needs the server now.
    Exit,
}

/// The number after `n`, and 0 after the last one.
pub open spec fn successor(n: usize) -> usize {
    if n == usize::MAX {
        0
    } else {
        (n + 1) as usize
    }
}

/// The number before `n`, and the last one before 0.
pub open spec fn predecessor(n: usize) -> usize {
    if n == 0 {
        usize::MAX
    } else {
        (n - 1) as usize
    }
}

impl Server {
    /// The server after an event.
    pub open spec fn after(self, event: ServerEvent) -> Server {
        match event {
            ServerEvent::Accepted => Server {
                next_client_id: successor(self.next_client_id),
                active_clients: successor(self.active_clients),
                ..self
            },
            ServerEvent::ClientFinished => Server {
                active_clients: predecessor(self.active_clients),
                ..self
            },
            _ => self,
        }
    }

    /// What the server does about an event.
    pub open spec fn reaction(self, event: ServerEvent) -> ServerAction {
        match event {
            ServerEvent::Accepted => ServerAction::Serve(self.next_client_id),
            ServerEvent::AcceptFailed { not_connected } => if not_connected {
                ServerAction::Listen
            } else {
                ServerAction::Fail
            },
            ServerEvent::ClientFinished => ServerAction::Listen,
            ServerEvent::IdleCheck { no_instances } => if self.socket_activated && no_instances
                && self.active_clients == 0 {
                ServerAction::Exit
            } else {
                ServerAction::Listen
            },
        }
    }

    pub fn new(socket_activated: bool) -> (server: Server)
        ensures
            server == (Server { next_client_id: 0, active_clients: 0, socket_activated }),
    {
        Server { next_client_id: 0, active_clients: 0, socket_activated }
    }

    /// The seconds between two checks whether the server is still needed. Only
    /// a server that is started again on demand checks that at all.
    pub fn idle_check_period(&self, gc_interval: u32) -> (seconds: Option<u64>)
        ensures
            seconds == (if self.socket_activated {
                Some(
                    if gc_interval == 0 {
                        1u64
                    } else {
                        gc_interval as u64
                    },
                )
            } else {
                None
            }),
    {
        if self.socket_activated {
            if gc_interval == 0 {
                Some(1)
            } else {
                Some(gc_interval as u64)
            }
        } else {
            None
        }
    }

    /// Takes note of an event, and decides what to do about it.
    pub fn handle(&mut self, event: ServerEvent) -> (action: ServerAction)
        ensures
            *final(self) == old(self).after(event),
            action == old(self).reaction(event),
            action == ServerAction::Fail <==> event == (ServerEvent::AcceptFailed {
                not_connected: false,
            }),
    {
        match event {
            ServerEvent::Accepted => {
                let id = self.next_client_id;
                self.next_client_id = self.next_client_id.wrapping_add(1);
                self.active_clients = self.active_clients.wrapping_add(1);
                ServerAction::Serve(id)
            },
            ServerEvent::AcceptFailed { not_connected } => {
                if not_connected {
                    ServerAction::Listen
                } else {
                    ServerAction::Fail
                }
            },
            ServerEvent::ClientFinished => {
                self.active_clients = self.active_clients.wrapping_sub(1);
                ServerAction::Listen
            },
            ServerEvent::IdleCheck { no_instances } => {
                if self.socket_activated && no_instances && self.active_clients == 0 {
                    ServerAction::Exit
                } else {
                    ServerAction::Listen
                }
            },
        }
    }
}

/// A new server after a history of events.
pub open spec fn after_all(socket_activated: bool, events: Seq<ServerEvent>) -> Server
    decreases events.len(),
{
    if events.len() == 0 {
        Server { next_client_id: 0, active_clients: 0, socket_activated }
    } else {
        after_all(socket_activated, events.drop_last()).after(events.last())
    }
}

/// How often an event occurs in a history.
pub open spec fn occurrences(events: Seq<ServerEvent>, event: ServerEvent) -> nat
    decreases events.len(),
{
    if events.len() == 0 {
        0
    } else {
        occurrences(events.drop_last(), event) + if events.last() == event {
            1nat
        } else {
            0
        }
    }
}

/// No more clients finish than have connected, and no more connect than there
/// are numbers for.
pub open spec fn is_history(events: Seq<ServerEvent>) -> bool {
    &&& occurrences(events, ServerEvent::Accepted) <= usize::MAX
    &&& forall|n: int|
        0 <= n <= events.len() ==> occurrences(
            #[trigger] events.take(n),
            ServerEvent::ClientFinished,
        ) <= occurrences(events.take(n), ServerEvent::Accepted)
}

proof fn lemma_shorter_history(events: Seq<ServerEvent>)
    requires
        is_history(events),
        events.len() > 0,
    ensures
        is_history(events.drop_last()),
{
    let shorter = events.drop_last();
    assert forall|n: int| 0 <= n <= shorter.len() implies occurrences(
        #[trigger] shorter.take(n),
        ServerEvent::ClientFinished,
    ) <= occurrences(shorter.take(n), ServerEvent::Accepted) by {
        assert(shorter.take(n) =~= events.take(n));
    }
}

/// The server counts the clients that have connected and did not finish yet,
/// and numbers clients from 0 on.
pub proof fn clients_are_counted(socket_activated: bool, events: Seq<ServerEvent>)
    requires
        is_history(events),
    ensures
        after_all(socket_activated, events).active_clients == occurrences(
            events,
            ServerEvent::Accepted,
        ) - occurrences(events, ServerEvent::ClientFinished),
        after_all(socket_activated, events).next_client_id == occurrences(
            events,
            ServerEvent::Accepted,
        ),
        after_all(socket_activated, events).socket_activated == socket_activated,
    decreases events.len(),
{
    assert(events.take(events.len() as int) =~= events);
    if events.len() > 0 {
        lemma_shorter_history(events);
        clients_are_counted(socket_activated, events.drop_last());
    }
}

proof fn lemma_histories_begin_as_histories(events: Seq<ServerEvent>, n: int)
    requires
        is_history(events),
        0 <= n <= events.len(),
    ensures
        is_history(events.take(n)),
    decreases events.len() - n,
{
    if n == events.len() {
        assert(events.take(n) =~= events);
    } else {
        lemma_histories_begin_as_histories(events, n + 1);
        lemma_shorter_history(events.take(n + 1));
        assert(events.take(n + 1).drop_last() =~= events.take(n));
    }
}

proof fn lemma_later_client(events: Seq<ServerEvent>, i: int, n: int)
    requires
        0 <= i < n <= events.len(),
        events[i] == ServerEvent::Accepted,
    ensures
        occurrences(events.take(i), ServerEvent::Accepted) < occurrences(
            events.take(n),
            ServerEvent::Accepted,
        ),
    decreases n - i,
{
    assert(events.take(n).drop_last() =~= events.take(n - 1));
    if n > i + 1 {
        lemma_later_client(events, i, n - 1);
    }
}

/// Two clients are never served under the same id.
pub proof fn client_ids_are_unique(
    socket_activated: bool,
    events: Seq<ServerEvent>,
    i: int,
    j: int,
)
    requires
        is_history(events),
        0 <= i < j < events.len(),
        events[i] == ServerEvent::Accepted,
        events[j] == ServerEvent::Accepted,
    ensures
        after_all(socket_activated, events.take(i)).reaction(events[i]) != after_all(
            socket_activated,
            events.take(j),
        ).reaction(events[j]),
{
    lemma_histories_begin_as_histories(events, i);
    lemma_histories_begin_as_histories(events, j);
    clients_are_counted(socket_activated, events.take(i));
    clients_are_counted(socket_activated, events.take(j));
    lemma_later_client(events, i, j);
}

/// A server that does not start again on demand never exits on its own; one
/// that does exits exactly at a check that finds no instances, when all clients
/// that have connected are finished.
pub proof fn exit_is_for_idle_activated_servers(
    socket_activated: bool,
    events: Seq<ServerEvent>,
    event: ServerEvent,
)
    requires
        is_history(events),
    ensures
        after_all(socket_activated, events).reaction(event) == ServerAction::Exit <==> {
            &&& socket_activated
            &&& event == ServerEvent::IdleCheck { no_instances: true }
            &&& occurrences(events, ServerEvent::Accepted) == occurrences(
                events,
                ServerEvent::ClientFinished,
            )
        },
{
    clients_are_counted(socket_activated, events);
}

/// In any state and for any event: the server stops with a failure exactly if a
/// connection could not be accepted for another reason than that it was gone,
/// exits exactly if a check finds an activated server with no instances and no
/// clients, serves exactly a client that has connected, under the next id, and
/// goes on listening otherwise.
pub proof fn server_stops_for_two_reasons_only(server: Server, event: ServerEvent)
    ensures
        server.reaction(event) == ServerAction::Fail <==> event == (ServerEvent::AcceptFailed {
            not_connected: false,
        }),
        server.reaction(event) == ServerAction::Exit <==> event == (ServerEvent::IdleCheck {
            no_instances: true,
        }) && server.socket_activated && server.active_clients == 0,
        server.reaction(event) is Serve <==> event == ServerEvent::Accepted,
        event == ServerEvent::Accepted ==> server.reaction(event) == ServerAction::Serve(
            server.next_client_id,
        ),
        event is IdleCheck ==> server.reaction(event) == ServerAction::Exit || server.reaction(
            event,
        ) == ServerAction::Listen,
{
}

/// A client that connects is counted and takes an id, one that is finished is
/// not counted any more, and no other event changes anything; whether the server
/// was activated never changes.
pub proof fn only_clients_change_the_server(server: Server, event: ServerEvent)
    ensures
        server.after(event).socket_activated == server.socket_activated,
        event == ServerEvent::Accepted && server.next_client_id < usize::MAX ==> server.after(
            event,
        ).next_client_id == server.next_client_id + 1,
        event == ServerEvent::Accepted && server.active_clients < usize::MAX ==> server.after(
            event,
        ).active_clients == server.active_clients + 1,
        event == ServerEvent::Accepted && server.next_client_id == usize::MAX ==> server.after(
            event,
        ).next_client_id == 0,
        event == ServerEvent::Accepted && server.active_clients == usize::MAX ==> server.after(
            event,
        ).active_clients == 0,
        event == ServerEvent::ClientFinished ==> server.after(event).next_client_id
            == server.next_client_id,
        event == ServerEvent::ClientFinished && server.active_clients > 0 ==> server.after(
            event,
        ).active_clients == server.active_clients - 1,
        event == ServerEvent::ClientFinished && server.active_clients == 0 ==> server.after(
            event,
        ).active_clients == usize::MAX,
        event is AcceptFailed || event is IdleCheck ==> server.after(event) == server,
        server.after(ServerEvent::Accepted).after(ServerEvent::ClientFinished).active_clients
            == server.active_clients,
{
}

} // verus!
