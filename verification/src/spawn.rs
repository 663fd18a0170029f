//! Starting a language server for its first client.
use std::collections::BTreeMap;

use vstd::prelude::*;

use crate::handshake::{
    initialize_message, EventView, HandshakeError, HandshakeEvent, HandshakePhase, PhaseView,
};
use crate::instance::{Instance, InstanceView};
use crate::instance_key::{InstanceKey, KeyView};
use crate::lsp::{InitializeParams, RegistrationView};
use crate::text::{copy_texts, texts};

verus! {

/// How a language server is started.
#[derive(Debug, PartialEq, Eq)]
pub struct Launch {
    pub program: String,
    pub args: Vec<String>,
    /// What is added to the environment of this process
    pub env: BTreeMap<String, String>,
    pub current_dir: String,
}

/// Starts the server that the key names with the arguments and the environment
/// of the key, in the workspace directory.
pub open spec fn launches(launch: Launch, key: KeyView) -> bool {
    &&& launch.program@ == key.server
    &&& texts(launch.args@) == key.args
    &&& launch.env@ == key.env
    &&& launch.current_dir@ == key.workspace_root.path
}

impl InstanceKey {
    /// How to start the server that the key asks for.
    pub fn launch(&self) -> (launch: Launch)
        ensures
            launches(launch, self@),
    {
        Launch {
            program: self.server.clone(),
            args: copy_texts(&self.args),
            env: self.env.clone(),
            current_dir: self.workspace_root.path().to_owned(),
        }
    }
}

/// Why a server could not be started.
#[derive(Clone, Copy, Debug, PartialEq, Eq, Structural)]
pub enum SpawnError {
    /// The process could not be started.
    Launch,
    /// The process exited before its id was known.
    ExitedEarly,
    /// The server could not be initialized.
    Handshake(HandshakeError),
}

/// How far a server was started, and what to do next about it.
#[derive(Debug)]
pub enum Spawn {
    /// Start the process as [`InstanceKey::launch`] says.
    Launching { key: InstanceKey, params: InitializeParams, client_id: usize },
    /// Do what the phase of the handshake asks for.
    Initializing { key: InstanceKey, client_id: usize, pid: u32, phase: HandshakePhase },
    /// Nothing: the instance is ready for the client that it was started for.
    Ready(Instance),
    Failed(SpawnError),
}

/// What came of it.
#[derive(Debug, PartialEq, Eq)]
pub enum SpawnEvent {
    LaunchFailed,
    /// The process was started, and has that id, unless it exited already.
    Launched { pid: Option<u32> },
    Handshake(HandshakeEvent),
}

/// The mathematical content of a [`Spawn`].
pub ghost enum SpawnView {
    Launching { key: KeyView, rest: serde_json::Value, client_id: usize },
    Initializing { key: KeyView, client_id: usize, pid: u32, phase: PhaseView },
    Ready(InstanceView),
    Failed(SpawnError),
}

/// The mathematical content of a [`SpawnEvent`].
pub ghost enum SpawnEventView {
    LaunchFailed,
    Launched { pid: Option<u32> },
    Handshake(EventView),
}

impl View for Spawn {
    type V = SpawnView;

    open spec fn view(&self) -> SpawnView {
        match self {
            Spawn::Launching { key, params, client_id } => SpawnView::Launching {
                key: key@,
                rest: params.rest,
                client_id: *client_id,
            },
            Spawn::Initializing { key, client_id, pid, phase } => SpawnView::Initializing {
                key: key@,
                client_id: *client_id,
                pid: *pid,
                phase: phase@,
            },
            Spawn::Ready(instance) => SpawnView::Ready(instance@),
            Spawn::Failed(error) => SpawnView::Failed(*error),
        }
    }
}

impl View for SpawnEvent {
    type V = SpawnEventView;

    open spec fn view(&self) -> SpawnEventView {
        match self {
            SpawnEvent::LaunchFailed => SpawnEventView::LaunchFailed,
            SpawnEvent::Launched { pid } => SpawnEventView::Launched { pid: *pid },
            SpawnEvent::Handshake(event) => SpawnEventView::Handshake(event@),
        }
    }
}

impl SpawnView {
    /// Something is to be done, and the event is one that can come of it.
    pub open spec fn expects(self, event: SpawnEventView) -> bool {
        match (self, event) {
            (SpawnView::Launching { .. }, SpawnEventView::LaunchFailed) => true,
            (SpawnView::Launching { .. }, SpawnEventView::Launched { .. }) => true,
            (
                SpawnView::Initializing { phase, .. },
                SpawnEventView::Handshake(event),
            ) => phase.expects(event),
            _ => false,
        }
    }

    /// How far the server is started after an event, for a process of id
    /// `own_pid`, in the second `now`.
    pub open spec fn after(self, event: SpawnEventView, own_pid: u32, now: i64) -> SpawnView {
        match (self, event) {
            (SpawnView::Launching { .. }, SpawnEventView::LaunchFailed) => SpawnView::Failed(
                SpawnError::Launch,
            ),
            (
                SpawnView::Launching { key, rest, client_id },
                SpawnEventView::Launched { pid },
            ) => match pid {
                Some(pid) => SpawnView::Initializing {
                    key,
                    client_id,
                    pid,
                    phase: PhaseView::SendRequest(initialize_message(rest, own_pid)),
                },
                None => SpawnView::Failed(SpawnError::ExitedEarly),
            },
            (
                SpawnView::Initializing { key, client_id, pid, phase },
                SpawnEventView::Handshake(event),
            ) => match phase.after(event) {
                PhaseView::Done(init_result) => SpawnView::Ready(
                    InstanceView {
                        key,
                        pid,
                        init_result,
                        clients: map![client_id => Set::<Seq<char>>::empty()],
                        capabilities: Map::<Seq<char>, RegistrationView>::empty(),
                        last_used: now,
                    },
                ),
                PhaseView::Failed(error) => SpawnView::Failed(SpawnError::Handshake(error)),
                phase => SpawnView::Initializing { key, client_id, pid, phase },
            },
            _ => self,
        }
    }
}

impl Spawn {
    /// An instance that is ready is well formed.
    pub open spec fn wf(&self) -> bool {
        self matches Spawn::Ready(instance) ==> instance.wf()
    }

    /// Begins to start a server for a client.
    pub fn begin(key: InstanceKey, params: InitializeParams, client_id: usize) -> (spawn: Spawn)
        ensures
            spawn.wf(),
            spawn@ == (SpawnView::Launching { key: key@, rest: params.rest, client_id }),
    {
        Spawn::Launching { key, params, client_id }
    }

    /// Decides how to go on. The id of this process is `own_pid`, and it is the
    /// second `now`.
    pub fn advance(self, event: SpawnEvent, own_pid: u32, now: i64) -> (next: Spawn)
        requires
            self.wf(),
            self@.expects(event@),
        ensures
            next.wf(),
            next@ == self@.after(event@, own_pid, now),
    {
        match (self, event) {
            (Spawn::Launching { .. }, SpawnEvent::LaunchFailed) => Spawn::Failed(
                SpawnError::Launch,
            ),
            (Spawn::Launching { key, params, client_id }, SpawnEvent::Launched { pid }) => {
                match pid {
                    Some(pid) => {
                        let phase = HandshakePhase::start(params, own_pid);
                        Spawn::Initializing { key, client_id, pid, phase }
                    },
                    None => Spawn::Failed(SpawnError::ExitedEarly),
                }
            },
            (
                Spawn::Initializing { key, client_id, pid, phase },
                SpawnEvent::Handshake(event),
            ) => {
                match phase.advance(event) {
                    HandshakePhase::Done(init_result) => Spawn::Ready(
                        Instance::new(key, pid, init_result, client_id, now),
                    ),
                    HandshakePhase::Failed(error) => Spawn::Failed(SpawnError::Handshake(error)),
                    phase => Spawn::Initializing { key, client_id, pid, phase },
                }
            },
            (spawn, _) => spawn,
        }
    }
}

/// How far a server is started after events, each in its second.
pub open spec fn spawn_after(
    spawn: SpawnView,
    events: Seq<(SpawnEventView, i64)>,
    own_pid: u32,
) -> SpawnView
    decreases events.len(),
{
    if events.len() == 0 {
        spawn
    } else {
        spawn_after(spawn, events.drop_last(), own_pid).after(
            events.last().0,
            own_pid,
            events.last().1,
        )
    }
}

/// Whatever happens on the way, the server is initialized with the process id
/// of the multiplexer and never with that of the client, and an instance that
/// is ready has the key that it was started for and exactly the client that it
/// was started for, with no files open and no capabilities registered.
pub proof fn instance_is_started_for_its_client(
    key: KeyView,
    rest: serde_json::Value,
    client_id: usize,
    events: Seq<(SpawnEventView, i64)>,
    own_pid: u32,
)
    ensures
        match spawn_after(SpawnView::Launching { key, rest, client_id }, events, own_pid) {
            SpawnView::Launching { key: k, rest: r, client_id: c } => k == key && r == rest && c
                == client_id,
            SpawnView::Initializing { key: k, client_id: c, phase, .. } => {
                &&& k == key
                &&& c == client_id
                &&& phase matches PhaseView::SendRequest(request) ==> request
                    == initialize_message(rest, own_pid)
                &&& phase !is Done
                &&& phase !is Failed
            },
            SpawnView::Ready(instance) => {
                &&& instance.key == key
                &&& instance.clients == map![client_id => Set::<Seq<char>>::empty()]
                &&& instance.capabilities == Map::<Seq<char>, RegistrationView>::empty()
            },
            SpawnView::Failed(_) => true,
        },
    decreases events.len(),
{
    if events.len() > 0 {
        instance_is_started_for_its_client(key, rest, client_id, events.drop_last(), own_pid);
    }
}

/// A server is launched as its key says: the program, the arguments in their
/// order, the environment, and the workspace directory as the current one.
pub proof fn launch_follows_the_key(key: InstanceKey, launch: Launch)
    requires
        launches(launch, key@),
    ensures
        launch.program@ == key.server@,
        launch.args@.len() == key.args@.len(),
        forall|i: int|
            0 <= i < key.args@.len() ==> (#[trigger] launch.args@[i])@ == key.args@[i]@,
        launch.env@ == key.env@,
        launch.current_dir@ == key.workspace_root@.path,
{
    assert(texts(launch.args@).len() == launch.args@.len());
    assert(texts(key.args@).len() == key.args@.len());
    assert forall|i: int| 0 <= i < key.args@.len() implies (#[trigger] launch.args@[i])@
        == key.args@[i]@ by {
        assert(texts(launch.args@)[i] == launch.args@[i]@);
        assert(texts(key.args@)[i] == key.args@[i]@);
    }
}

/// Launching fails with the reason why: the process could not be started, or it
/// was gone before its id was known. Otherwise the server is initialized for the
/// key and the client that it is started for, with the id of its process, and
/// first gets the client's own parameters.
pub proof fn launching_goes_on_with_the_handshake(
    spawn: Spawn,
    event: SpawnEvent,
    own_pid: u32,
    now: i64,
    next: Spawn,
)
    requires
        spawn is Launching,
        next@ == spawn@.after(event@, own_pid, now),
    ensures
        event is LaunchFailed || event is Launched ==> spawn@.expects(event@),
        event is LaunchFailed ==> next == Spawn::Failed(SpawnError::Launch),
        event is Launched && event->pid is None ==> next == Spawn::Failed(SpawnError::ExitedEarly),
        event is Launched && event->pid is Some ==> {
            &&& next is Initializing
            &&& next->Initializing_key@ == spawn->Launching_key@
            &&& next->Initializing_client_id == spawn->Launching_client_id
            &&& Some(next->Initializing_pid) == event->pid
            &&& next->Initializing_phase@ == PhaseView::SendRequest(
                initialize_message(spawn->params.rest, own_pid),
            )
        },
{
}

/// While a server is initialized, what it was started for stays as it is, and
/// the handshake alone decides: with its error where it fails, and with an
/// instance of that key, that process and that one client once it is done.
pub proof fn handshake_decides_about_the_instance(
    spawn: Spawn,
    event: HandshakeEvent,
    own_pid: u32,
    now: i64,
    next: Spawn,
)
    requires
        spawn is Initializing,
        next@ == spawn@.after(SpawnEvent::Handshake(event)@, own_pid, now),
    ensures
        spawn@.expects(SpawnEvent::Handshake(event)@) <==> spawn->Initializing_phase@.expects(
            event@,
        ),
        spawn->Initializing_phase@.after(event@) is Failed ==> next == Spawn::Failed(
            SpawnError::Handshake(spawn->Initializing_phase@.after(event@)->Failed_0),
        ),
        spawn->Initializing_phase@.after(event@) is Done ==> {
            &&& next is Ready
            &&& next->Ready_0@.key == spawn->Initializing_key@
            &&& next->Ready_0@.pid == spawn->Initializing_pid
            &&& next->Ready_0@.init_result == spawn->Initializing_phase@.after(event@)->Done_0
            &&& next->Ready_0@.last_used == now
            &&& next->Ready_0@.capabilities.dom() == Set::<Seq<char>>::empty()
            &&& forall|id: usize| #[trigger]
                next->Ready_0@.clients.contains_key(id) <==> id == spawn->Initializing_client_id
            &&& next->Ready_0@.clients[spawn->Initializing_client_id]
                == Set::<Seq<char>>::empty()
        },
        !(spawn->Initializing_phase@.after(event@) is Failed)
            && !(spawn->Initializing_phase@.after(event@) is Done) ==> {
            &&& next is Initializing
            &&& next->Initializing_key@ == spawn->Initializing_key@
            &&& next->Initializing_client_id == spawn->Initializing_client_id
            &&& next->Initializing_pid == spawn->Initializing_pid
            &&& next->Initializing_phase@ == spawn->Initializing_phase@.after(event@)
        },
{
}

} // verus!
