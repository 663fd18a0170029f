//! What the operations do, told by their arguments and results alone.
//!
//! Each law here speaks of the calls of a function: whatever a call gives back,
//! and however it changes what it was handed, it is as the law says.
use vstd::prelude::*;
use vstd::std_specs::cmp::PartialEqSpec;
use vstd::utf8::encode_utf8;

use crate::capabilities::{
    last_registration_counts, lists_registrations, methods_of,
    registering_touches_the_named_ids_alone,
};
use crate::client_data::ClientData;
use crate::ext;
use crate::file_sync::{
    next_file_is_one_of_those_left, whole_text_is_sent, FileSync, SyncEvent, SyncStep,
};
use crate::handshake::{
    answer_is_told_by_its_id, handshake_fails_with_the_step_that_failed,
    handshake_goes_on_with_the_next_step, initialize_request_is_the_clients_own, HandshakeError,
    HandshakeEvent, HandshakePhase,
};
use crate::instance::{
    all_registrations_are_replayed, closed_files_are_those_open_nowhere_else, close_messages,
    notification_views, open_files, replay_message, reports_clients,
    status_reports_every_client_and_capability, Instance, InstanceError,
};
use crate::instance_key::{
    instance_is_told_by_server_arguments_and_directory, Identity, InstanceKey,
};
use crate::instance_map::{
    covers, covers_best, covers_none, enter, get_or_spawn, nearest_workspace_serves_a_directory,
    path_starts_with, retire, ChildAction, ChildEvent, InstanceMap, Source,
};
use crate::lsp::{
    registrations_show_everything, unregistrations_name_their_ids, DidCloseTextDocumentParams,
    DidOpenTextDocumentParams, InitializeParams, InitializeResult, Message, Notification, Payload,
    RegistrationParams, RegistrationView, Request, RequestId, Tag, UnregistrationParams,
};
use crate::router::{
    announce, announced_request_goes_to_every_client, answers_go_to_the_tagged_client_alone,
    capabilities_are_asked_for, notification_goes_to_every_client,
    other_requests_go_to_one_client_or_nowhere, outgoing_views, reaction_to,
    refreshing_is_announced_at_once, Outgoing, Reaction,
};
use crate::server::{Server, ServerAction, ServerEvent};
use crate::socketwrapper::{
    activation_fails_with_the_call_that_failed, activation_goes_on_with_the_next_call,
    activation_needs_one_socket_for_this_process, number_of, ActivationError, ActivationStep,
    CallOutcome, Listener, Platform, Removal,
};
use crate::spawn::{
    handshake_decides_about_the_instance, launch_follows_the_key,
    launching_goes_on_with_the_handshake, Launch, Spawn, SpawnError, SpawnEvent,
};
use crate::tasks::{
    is_white_space, stderr_task, stdin_task, stdout_task, trimming_takes_white_space_off_the_end,
    Progress, ReadOutcome, WriteOutcome,
};
use crate::text::{enumeration_holds_each_element_once, enumerates, texts};
use crate::workspace::{
    answers, directory_stays, is_root_of, normalize_workspace_root_path, parent_path,
    root_of_a_file_is_the_root_of_its_parent, FileIdentity, MetadataError, WorkspaceRoot,
};

verus! {

/// A request by which the server registers or withdraws capabilities is handed
/// over as it came, however many clients are connected, so that they are
/// remembered or forgotten; every other message is dealt with by sending.
pub proof fn capabilities_are_handed_over(instance: Instance, message: Message, reaction: Reaction)
    requires
        call_ensures(Instance::handle_server_message, (&instance, message), reaction),
    ensures
        message matches Message::Request(request) ==> {
            &&& request.method@ == "client/registerCapability"@ ==> reaction == Reaction::Register(
                request,
            )
            &&& request.method@ == "client/unregisterCapability"@ ==> reaction
                == Reaction::Unregister(request)
            &&& request.method@ != "client/registerCapability"@ && request.method@
                != "client/unregisterCapability"@ ==> reaction is Send
        },
        !(message is Request) ==> reaction is Send,
{
    let order = choose|order: Seq<usize>| #[trigger]
        enumerates(order, instance@.clients.dom()) && reaction@ == reaction_to(order, message@);
    if message is Request {
        capabilities_are_asked_for(order, message->Request_0, reaction);
    }
}

/// An answer or an error of the server reaches the client that its tag names, if
/// that one is connected, with its content and the id inside the tag; all others
/// reach nobody.
pub proof fn answers_are_delivered(instance: Instance, message: Message, reaction: Reaction)
    requires
        call_ensures(Instance::handle_server_message, (&instance, message), reaction),
    ensures
        message matches Message::ResponseSuccess(response) ==> (reaction matches Reaction::Send(
            sent,
        ) && match response.id {
            RequestId::Tagged(Tag::ClientId(client), id) => if instance@.clients.contains_key(
                client,
            ) {
                &&& sent@.len() == 1
                &&& sent@[0] matches Outgoing::Client(to, Message::ResponseSuccess(passed))
                &&& to == client
                &&& passed.id@ == id@
                &&& passed.result@ == response.result@
            } else {
                sent@.len() == 0
            },
            _ => sent@.len() == 0,
        }),
        message matches Message::ResponseError(response) ==> (reaction matches Reaction::Send(sent)
            && match response.id {
            RequestId::Tagged(Tag::ClientId(client), id) => if instance@.clients.contains_key(
                client,
            ) {
                &&& sent@.len() == 1
                &&& sent@[0] matches Outgoing::Client(to, Message::ResponseError(passed))
                &&& to == client
                &&& passed.id@ == id@
                &&& passed.error == response.error
            } else {
                sent@.len() == 0
            },
            _ => sent@.len() == 0,
        }),
{
    let order = choose|order: Seq<usize>| #[trigger]
        enumerates(order, instance@.clients.dom()) && reaction@ == reaction_to(order, message@);
    answers_go_to_the_tagged_client_alone(instance@.clients.dom(), order, message, reaction);
}

/// A request to create a progress report or to refresh something reaches every
/// connected client once, unchanged but for a tag by which the clients' answers
/// are dropped; then the server gets an empty answer with the id of its request.
pub proof fn refreshing_reaches_every_client(
    instance: Instance,
    request: Request,
    reaction: Reaction,
)
    requires
        call_ensures(
            Instance::handle_server_message,
            (&instance, Message::Request(request)),
            reaction,
        ),
        request.method@ == "window/workDoneProgress/create"@ || request.method@
            == "workspace/codeLens/refresh"@ || request.method@
            == "workspace/semanticTokens/refresh"@ || request.method@
            == "workspace/inlayHint/refresh"@ || request.method@ == "workspace/inlineValue/refresh"@
            || request.method@ == "workspace/diagnostic/refresh"@,
    ensures
        reaction is Send,
        reaction->Send_0@.len() > 0,
        reaction->Send_0@.last() matches Outgoing::Server(Message::ResponseSuccess(answer))
            && answer.id@ == request.id@ && answer.result == Payload::Null,
        forall|i: int|
            0 <= i < reaction->Send_0@.len() - 1 ==> (
            #[trigger] reaction->Send_0@[i] matches Outgoing::Client(client, Message::Request(sent))
                && instance@.clients.contains_key(client) && sent.method@ == request.method@
                && sent.params@ == request.params@ && (sent.id matches RequestId::Tagged(tag, id)
                && tag == Tag::Drop && id@ == request.id@)),
        forall|client: usize| #[trigger]
            instance@.clients.contains_key(client) ==> exists|i: int|
                0 <= i < reaction->Send_0@.len() - 1 && #[trigger] reaction->Send_0@[i] is Client
                    && reaction->Send_0@[i]->Client_0 == client,
        forall|i: int, j: int|
            0 <= i < j < reaction->Send_0@.len() - 1 ==> (
            #[trigger] reaction->Send_0@[i])->Client_0 != (
            #[trigger] reaction->Send_0@[j])->Client_0,
{
    let message = Message::Request(request);
    let clients = instance@.clients.dom();
    let order = choose|order: Seq<usize>| #[trigger]
        enumerates(order, clients) && reaction@ == reaction_to(order, message@);
    refreshing_is_announced_at_once(order, request, reaction);
    announced_request_goes_to_every_client(clients, order, request, reaction->Send_0);
    assert forall|client: usize| #[trigger] instance@.clients.contains_key(client) implies exists|
        i: int,
    |
        0 <= i < reaction->Send_0@.len() - 1 && #[trigger] reaction->Send_0@[i] is Client
            && reaction->Send_0@[i]->Client_0 == client by {
        assert(clients.contains(client));
    }
}

/// A request for the configuration goes to one connected client, unchanged but
/// for a tag by which the answer goes on to the server, and to nobody where no
/// client is connected; requests that are not known go to nobody.
pub proof fn other_requests_are_asked_once_or_dropped(
    instance: Instance,
    request: Request,
    reaction: Reaction,
)
    requires
        call_ensures(
            Instance::handle_server_message,
            (&instance, Message::Request(request)),
            reaction,
        ),
    ensures
        request.method@ == "workspace/configuration"@ ==> (reaction matches Reaction::Send(sent)
            && if instance@.clients.dom() == Set::<usize>::empty() {
            sent@.len() == 0
        } else {
            &&& sent@.len() == 1
            &&& sent@[0] matches Outgoing::Client(client, Message::Request(passed))
            &&& instance@.clients.contains_key(client)
            &&& passed.method@ == request.method@
            &&& passed.params@ == request.params@
            &&& passed.id matches RequestId::Tagged(tag, id)
            &&& tag == Tag::Forward
            &&& id@ == request.id@
        }),
        request.method@ != "workspace/configuration"@ && request.method@
            != "client/registerCapability"@ && request.method@ != "client/unregisterCapability"@
            && request.method@ != "window/workDoneProgress/create"@ && request.method@
            != "workspace/codeLens/refresh"@ && request.method@
            != "workspace/semanticTokens/refresh"@ && request.method@
            != "workspace/inlayHint/refresh"@ && request.method@ != "workspace/inlineValue/refresh"@
            && request.method@ != "workspace/diagnostic/refresh"@ ==> (
        reaction matches Reaction::Send(sent) && sent@.len() == 0),
{
    let message = Message::Request(request);
    let order = choose|order: Seq<usize>| #[trigger]
        enumerates(order, instance@.clients.dom()) && reaction@ == reaction_to(order, message@);
    other_requests_go_to_one_client_or_nowhere(instance@.clients.dom(), order, request, reaction);
}

/// A notification of the server reaches every connected client once, unchanged,
/// and nobody else.
pub proof fn notifications_reach_every_client(
    instance: Instance,
    notification: Notification,
    reaction: Reaction,
)
    requires
        call_ensures(
            Instance::handle_server_message,
            (&instance, Message::Notification(notification)),
            reaction,
        ),
    ensures
        reaction is Send,
        forall|i: int|
            0 <= i < reaction->Send_0@.len() ==> (
            #[trigger] reaction->Send_0@[i] matches Outgoing::Client(
                client,
                Message::Notification(sent),
            ) && instance@.clients.contains_key(client) && sent.method@ == notification.method@
                && sent.params@ == notification.params@),
        forall|client: usize| #[trigger]
            instance@.clients.contains_key(client) ==> exists|i: int|
                0 <= i < reaction->Send_0@.len() && #[trigger] reaction->Send_0@[i] is Client
                    && reaction->Send_0@[i]->Client_0 == client,
        forall|i: int, j: int|
            0 <= i < j < reaction->Send_0@.len() ==> (#[trigger] reaction->Send_0@[i])->Client_0
                != (#[trigger] reaction->Send_0@[j])->Client_0,
{
    let message = Message::Notification(notification);
    let clients = instance@.clients.dom();
    let order = choose|order: Seq<usize>| #[trigger]
        enumerates(order, clients) && reaction@ == reaction_to(order, message@);
    notification_goes_to_every_client(clients, order, notification, reaction);
    assert forall|client: usize| #[trigger] instance@.clients.contains_key(client) implies exists|
        i: int,
    |
        0 <= i < reaction->Send_0@.len() && #[trigger] reaction->Send_0@[i] is Client
            && reaction->Send_0@[i]->Client_0 == client by {
        assert(clients.contains(client));
    }
}

/// Registrations that were read are remembered, the last one of each id as it
/// was made, and what stood under other ids stays; where they could not be read
/// nothing changes. Nothing but the capabilities changes either way.
pub proof fn registrations_are_remembered(
    instance: &mut Instance,
    request: Request,
    params: Option<RegistrationParams>,
    outgoing: Vec<Outgoing>,
)
    requires
        call_ensures(Instance::registered, (instance, request, params), outgoing),
    ensures
        final(instance)@.clients == old(instance)@.clients,
        final(instance)@.key == old(instance)@.key,
        final(instance)@.pid == old(instance)@.pid,
        final(instance)@.init_result == old(instance)@.init_result,
        final(instance)@.last_used == old(instance)@.last_used,
        params is None ==> final(instance)@.capabilities == old(instance)@.capabilities,
        params matches Some(made) ==> {
            &&& forall|i: int|
                0 <= i < made.registrations@.len() && (forall|j: int|
                    i < j < made.registrations@.len() ==> (#[trigger] made.registrations@[j]).id@
                        != made.registrations@[i].id@) ==> {
                    let new = #[trigger] made.registrations@[i];
                    &&& final(instance)@.capabilities.contains_key(new.id@)
                    &&& final(instance)@.capabilities[new.id@].id == new.id@
                    &&& final(instance)@.capabilities[new.id@].method == new.method@
                    &&& final(instance)@.capabilities[new.id@].register_options
                        == new.register_options
                }
            &&& forall|id: Seq<char>|
                (forall|i: int|
                    0 <= i < made.registrations@.len() ==> (#[trigger] made.registrations@[i]).id@
                        != id) ==> (#[trigger] final(instance)@.capabilities.contains_key(id)
                    <==> old(instance)@.capabilities.contains_key(id))
                        && (old(instance)@.capabilities.contains_key(id)
                        ==> final(instance)@.capabilities[id] == old(instance)@.capabilities[id])
        },
{
    let before = old(instance)@.capabilities;
    let after = final(instance)@.capabilities;
    if params is Some {
        let made = params->0;
        registrations_show_everything(made, made);
        let list = made@;
        assert forall|i: int|
            0 <= i < made.registrations@.len() && (forall|j: int|
                i < j < made.registrations@.len() ==> (#[trigger] made.registrations@[j]).id@
                    != made.registrations@[i].id@) implies {
            let new = #[trigger] made.registrations@[i];
            &&& after.contains_key(new.id@)
            &&& after[new.id@].id == new.id@
            &&& after[new.id@].method == new.method@
            &&& after[new.id@].register_options == new.register_options
        } by {
            assert forall|j: int| i < j < list.len() implies (#[trigger] list[j]).id
                != list[i].id by {
                assert(made.registrations@[j].id@ != made.registrations@[i].id@);
            }
            last_registration_counts(list, i);
            assert(list[i].id == made.registrations@[i].id@);
        }
        assert forall|id: Seq<char>|
            (forall|i: int|
                0 <= i < made.registrations@.len() ==> (#[trigger] made.registrations@[i]).id@
                    != id) implies (#[trigger] after.contains_key(id) <==> before.contains_key(id))
            && (before.contains_key(id) ==> after[id] == before[id]) by {
            assert forall|i: int| 0 <= i < list.len() implies (#[trigger] list[i]).id != id by {
                assert(made.registrations@[i].id@ != id);
            }
            registering_touches_the_named_ids_alone(before, list, id);
        }
    }
}

/// Registrations whose withdrawal was read are forgotten, and all others stay;
/// where it could not be read nothing changes. Nothing but the capabilities
/// changes either way.
pub proof fn withdrawn_registrations_are_forgotten(
    instance: &mut Instance,
    request: Request,
    params: Option<UnregistrationParams>,
    outgoing: Vec<Outgoing>,
)
    requires
        call_ensures(Instance::unregistered, (instance, request, params), outgoing),
    ensures
        final(instance)@.clients == old(instance)@.clients,
        final(instance)@.key == old(instance)@.key,
        final(instance)@.pid == old(instance)@.pid,
        final(instance)@.init_result == old(instance)@.init_result,
        final(instance)@.last_used == old(instance)@.last_used,
        params is None ==> final(instance)@.capabilities == old(instance)@.capabilities,
        params matches Some(gone) ==> {
            &&& forall|i: int|
                0 <= i < gone.unregistrations@.len()
                    ==> !final(instance)@.capabilities.contains_key((#[trigger] gone.unregistrations@[i]).id@)
            &&& forall|id: Seq<char>|
                (forall|i: int|
                    0 <= i < gone.unregistrations@.len() ==> (
                    #[trigger] gone.unregistrations@[i]).id@ != id)
                        ==> (#[trigger] final(instance)@.capabilities.contains_key(id)
                        <==> old(instance)@.capabilities.contains_key(id))
                    && (old(instance)@.capabilities.contains_key(id)
                        ==> final(instance)@.capabilities[id] == old(instance)@.capabilities[id])
        },
{
    let before = old(instance)@.capabilities;
    let after = final(instance)@.capabilities;
    if params is Some {
        let gone = params->0;
        unregistrations_name_their_ids(gone);
        let ids = gone@;
        assert forall|i: int| 0 <= i < gone.unregistrations@.len() implies !after.contains_key(
            (#[trigger] gone.unregistrations@[i]).id@,
        ) by {
            assert(ids[i] == gone.unregistrations@[i].id@);
            assert(ids.to_set().contains(ids[i]));
        }
        assert forall|id: Seq<char>|
            (forall|i: int|
                0 <= i < gone.unregistrations@.len() ==> (#[trigger] gone.unregistrations@[i]).id@
                    != id) implies (#[trigger] after.contains_key(id) <==> before.contains_key(id))
            && (before.contains_key(id) ==> after[id] == before[id]) by {
            if ids.contains(id) {
                let i = choose|i: int| 0 <= i < ids.len() && ids[i] == id;
                assert(gone.unregistrations@[i].id@ == id);
            }
            assert(!ids.to_set().contains(id));
        }
    }
}

/// Whether its parameters could be read or not, a request about capabilities is
/// announced to every connected client once and answered once: by what is sent
/// after them being remembered or forgotten.
pub proof fn capability_requests_are_announced(
    instance: &mut Instance,
    request: Request,
    made: Option<RegistrationParams>,
    gone: Option<UnregistrationParams>,
    outgoing: Vec<Outgoing>,
)
    requires
        call_ensures(Instance::registered, (instance, request, made), outgoing) || call_ensures(
            Instance::unregistered,
            (instance, request, gone),
            outgoing,
        ),
    ensures
        outgoing@.len() > 0,
        outgoing@.last() matches Outgoing::Server(Message::ResponseSuccess(answer)) && answer.id@
            == request.id@ && answer.result == Payload::Null,
        forall|i: int|
            0 <= i < outgoing@.len() - 1 ==> (#[trigger] outgoing@[i] matches Outgoing::Client(
                client,
                Message::Request(sent),
            ) && old(instance)@.clients.contains_key(client) && sent.method@ == request.method@
                && sent.params@ == request.params@ && (sent.id matches RequestId::Tagged(tag, id)
                && tag == Tag::Drop && id@ == request.id@)),
        forall|client: usize| #[trigger]
            old(instance)@.clients.contains_key(client) ==> exists|i: int|
                0 <= i < outgoing@.len() - 1 && #[trigger] outgoing@[i] is Client
                    && outgoing@[i]->Client_0 == client,
        forall|i: int, j: int|
            0 <= i < j < outgoing@.len() - 1 ==> (#[trigger] outgoing@[i])->Client_0 != (
            #[trigger] outgoing@[j])->Client_0,
{
    let clients = old(instance)@.clients.dom();
    let order = choose|order: Seq<usize>| #[trigger]
        enumerates(order, clients) && outgoing_views(outgoing@) == announce(
            order,
            request.id@,
            request.method@,
            request.params@,
        );
    announced_request_goes_to_every_client(clients, order, request, outgoing);
    assert forall|client: usize| #[trigger]
        old(instance)@.clients.contains_key(client) implies exists|i: int|
        0 <= i < outgoing@.len() - 1 && #[trigger] outgoing@[i] is Client
            && outgoing@[i]->Client_0 == client by {
        assert(clients.contains(client));
    }
}

/// A client that connects has no file open, the others stay as they are, and it
/// is told of every registration that is remembered, each of them once with all
/// that it holds, and of nothing else; it is told nothing where none is.
pub proof fn new_client_learns_of_all_registrations(
    instance: &mut Instance,
    client_id: usize,
    replay: Option<Request>,
)
    requires
        call_ensures(Instance::add_client, (instance, client_id), replay),
    ensures
        final(instance)@.capabilities == old(instance)@.capabilities,
        final(instance)@.key == old(instance)@.key,
        final(instance)@.pid == old(instance)@.pid,
        final(instance)@.init_result == old(instance)@.init_result,
        final(instance)@.last_used == old(instance)@.last_used,
        final(instance)@.clients.contains_key(client_id),
        final(instance)@.clients[client_id] == Set::<Seq<char>>::empty(),
        forall|id: usize|
            id != client_id ==> (#[trigger] final(instance)@.clients.contains_key(id)
                <==> old(instance)@.clients.contains_key(id)) && final(instance)@.clients[id]
                == old(instance)@.clients[id],
        replay is None <==> forall|id: Seq<char>|
            !#[trigger] old(instance)@.capabilities.contains_key(id),
        replay matches Some(request) ==> {
            &&& request.method@ == "client/registerCapability"@
            &&& request.id matches RequestId::Tagged(tag, id)
            &&& tag == Tag::Drop
            &&& *id matches RequestId::String(text)
            &&& text@ == "replay:registerCapabilities"@
        },
        replay matches Some(request) ==> request.params is Registrations && {
            let told = request.params->Registrations_0.registrations@;
            &&& forall|id: Seq<char>| #[trigger]
                old(instance)@.capabilities.contains_key(id) ==> exists|i: int|
                    0 <= i < told.len() && (#[trigger] told[i]).id@ == id
            &&& forall|i: int|
                0 <= i < told.len() ==> {
                    &&& old(instance)@.capabilities.contains_key((#[trigger] told[i]).id@)
                    &&& old(instance)@.capabilities[told[i].id@].method == told[i].method@
                    &&& old(instance)@.capabilities[told[i].id@].register_options
                        == told[i].register_options
                }
            &&& forall|i: int, j: int|
                0 <= i < j < told.len() ==> (#[trigger] told[i]).id@ != (#[trigger] told[j]).id@
        },
{
    let capabilities = old(instance)@.capabilities;
    if replay is None {
        assert(capabilities =~= Map::<Seq<char>, RegistrationView>::empty());
    }
    if forall|id: Seq<char>| !#[trigger] capabilities.contains_key(id) {
        assert(capabilities =~= Map::<Seq<char>, RegistrationView>::empty());
    }
    if replay is Some {
        let request = replay->0;
        let list = choose|list: Seq<RegistrationView>| #[trigger]
            lists_registrations(list, capabilities) && request@ == replay_message(list);
        all_registrations_are_replayed(capabilities, list, request);
    }
}

/// A client that opens a document has it open and nothing else changes; the
/// server is told exactly if no client had it open, and gets the document as the
/// client sent it.
pub proof fn first_open_is_passed_on_unchanged(
    instance: &mut Instance,
    client_id: usize,
    params: DidOpenTextDocumentParams,
    sent: Option<Notification>,
)
    requires
        call_ensures(Instance::open_file, (instance, client_id, params), sent),
    ensures
        final(instance)@.capabilities == old(instance)@.capabilities,
        final(instance)@.key == old(instance)@.key,
        final(instance)@.pid == old(instance)@.pid,
        final(instance)@.init_result == old(instance)@.init_result,
        final(instance)@.last_used == old(instance)@.last_used,
        forall|id: usize|
            id != client_id ==> (#[trigger] final(instance)@.clients.contains_key(id)
                <==> old(instance)@.clients.contains_key(id)) && final(instance)@.clients[id]
                == old(instance)@.clients[id],
        forall|uri: Seq<char>| #[trigger]
            final(instance)@.clients[client_id].contains(uri) <==> uri == params.text_document.uri@
                || old(instance)@.clients[client_id].contains(uri),
        sent is None <==> exists|id: usize| #[trigger]
            old(instance)@.clients.contains_key(id) && old(instance)@.clients[id].contains(
                params.text_document.uri@,
            ),
        sent matches Some(notification) ==> {
            &&& notification.method@ == "textDocument/didOpen"@
            &&& notification.params matches Payload::DidOpen(passed)
            &&& passed.text_document.uri@ == params.text_document.uri@
            &&& passed.text_document.language_id@ == params.text_document.language_id@
            &&& passed.text_document.version == params.text_document.version
            &&& passed.text_document.text@ == params.text_document.text@
        },
{
}

/// A client that closes a document does not have it open any more and nothing
/// else changes; the server is told, once and with the URI of the document,
/// exactly if no other client has it open. Only a client that is not connected
/// is refused.
pub proof fn last_close_is_passed_on(
    instance: &mut Instance,
    client_id: usize,
    params: DidCloseTextDocumentParams,
    result: Result<Vec<Notification>, InstanceError>,
)
    requires
        call_ensures(Instance::close_file, (instance, client_id, params), result),
    ensures
        result is Ok <==> old(instance)@.clients.contains_key(client_id),
        result matches Err(error) ==> error == InstanceError::NoMatchingClient && final(instance)@
            == old(instance)@,
        final(instance)@.capabilities == old(instance)@.capabilities,
        final(instance)@.key == old(instance)@.key,
        final(instance)@.pid == old(instance)@.pid,
        final(instance)@.init_result == old(instance)@.init_result,
        final(instance)@.last_used == old(instance)@.last_used,
        forall|id: usize|
            id != client_id ==> (#[trigger] final(instance)@.clients.contains_key(id)
                <==> old(instance)@.clients.contains_key(id)) && final(instance)@.clients[id]
                == old(instance)@.clients[id],
        result is Ok ==> forall|uri: Seq<char>| #[trigger]
            final(instance)@.clients[client_id].contains(uri) <==> uri != params.text_document.uri@
                && old(instance)@.clients[client_id].contains(uri),
        result matches Ok(sent) ==> if exists|id: usize| #[trigger]
            old(instance)@.clients.contains_key(id) && id != client_id
                && old(instance)@.clients[id].contains(params.text_document.uri@) {
            sent@.len() == 0
        } else {
            &&& sent@.len() == 1
            &&& sent@[0].method@ == "textDocument/didClose"@
            &&& sent@[0].params matches Payload::DidClose(passed)
            &&& passed.text_document.uri@ == params.text_document.uri@
        },
{
    if result is Ok {
        let sent = result->Ok_0;
        let uri = params.text_document.uri@;
        let files = seq![uri];
        let clients = final(instance)@.clients;
        closed_files_are_those_open_nowhere_else(files, clients, sent);
        assert forall|id: usize| #[trigger] old(instance)@.clients.contains_key(id) && id
            != client_id implies clients.contains_key(id) && clients[id]
                == old(instance)@.clients[id] by {}
        if exists|id: usize| #[trigger]
            old(instance)@.clients.contains_key(id) && id != client_id
                && old(instance)@.clients[id].contains(uri) {
            let id = choose|id: usize| #[trigger]
                old(instance)@.clients.contains_key(id) && id != client_id
                    && old(instance)@.clients[id].contains(uri);
            assert(clients.contains_key(id) && clients[id].contains(uri));
            if sent@.len() > 0 {
                assert(sent@[0].params->DidClose_0.text_document.uri@ == uri);
                assert(false);
            }
        } else {
            assert forall|id: usize| #[trigger]
                clients.contains_key(id) implies !clients[id].contains(uri) by {
                if id != client_id {
                    assert(old(instance)@.clients.contains_key(id));
                }
            }
            assert(files[0] == uri);
            assert(files.contains(uri));
            if sent@.len() > 1 {
                assert(sent@[0].params->DidClose_0.text_document.uri@ == uri);
                assert(sent@[1].params->DidClose_0.text_document.uri@ == uri);
                assert(false);
            }
        }
    }
}

/// A client that leaves is gone and nothing else changes; the server is told to
/// close exactly the files that it had open and nobody else has, each of them
/// once. Only a client that is not connected is refused.
pub proof fn files_of_a_client_that_leaves_are_closed(
    instance: &mut Instance,
    client_id: usize,
    result: Result<Vec<Notification>, InstanceError>,
)
    requires
        call_ensures(Instance::cleanup_client, (instance, client_id), result),
    ensures
        result is Ok <==> old(instance)@.clients.contains_key(client_id),
        result matches Err(error) ==> error == InstanceError::ClientNotConnected && final(instance)@
            == old(instance)@,
        final(instance)@.capabilities == old(instance)@.capabilities,
        final(instance)@.key == old(instance)@.key,
        final(instance)@.pid == old(instance)@.pid,
        final(instance)@.init_result == old(instance)@.init_result,
        final(instance)@.last_used == old(instance)@.last_used,
        !final(instance)@.clients.contains_key(client_id),
        forall|id: usize|
            id != client_id ==> (#[trigger] final(instance)@.clients.contains_key(id)
                <==> old(instance)@.clients.contains_key(id)) && final(instance)@.clients[id]
                == old(instance)@.clients[id],
        result matches Ok(sent) ==> {
            &&& forall|i: int|
                0 <= i < sent@.len() ==> {
                    &&& (#[trigger] sent@[i]).method@ == "textDocument/didClose"@
                    &&& sent@[i].params matches Payload::DidClose(params)
                    &&& old(instance)@.clients[client_id].contains(params.text_document.uri@)
                    &&& forall|id: usize| #[trigger]
                        final(instance)@.clients.contains_key(id)
                            ==> !final(instance)@.clients[id].contains(params.text_document.uri@)
                }
            &&& forall|uri: Seq<char>| #[trigger]
                old(instance)@.clients[client_id].contains(uri) && (forall|id: usize| #[trigger]
                    final(instance)@.clients.contains_key(id)
                        ==> !final(instance)@.clients[id].contains(uri)) ==> exists|i: int|
                    0 <= i < sent@.len() && (#[trigger] sent@[i]).params is DidClose
                        && sent@[i].params->DidClose_0.text_document.uri@ == uri
            &&& forall|i: int, j: int|
                0 <= i < j < sent@.len() ==> (
                #[trigger] sent@[i]).params->DidClose_0.text_document.uri@ != (
                #[trigger] sent@[j]).params->DidClose_0.text_document.uri@
        },
{
    if result is Ok {
        let sent = result->Ok_0;
        let own = old(instance)@.clients[client_id];
        let clients = final(instance)@.clients;
        let files = choose|files: Seq<Seq<char>>| #[trigger]
            enumerates(files, own) && notification_views(sent@) == close_messages(
                files,
                open_files(clients),
            );
        closed_files_are_those_open_nowhere_else(files, clients, sent);
        enumeration_holds_each_element_once(files, own);
        assert forall|uri: Seq<char>| #[trigger]
            own.contains(uri) && (forall|id: usize| #[trigger]
                clients.contains_key(id) ==> !clients[id].contains(uri)) implies exists|i: int|
            0 <= i < sent@.len() && (#[trigger] sent@[i]).params is DidClose
                && sent@[i].params->DidClose_0.text_document.uri@ == uri by {
            assert(files.contains(uri));
        }
        assert forall|i: int| 0 <= i < sent@.len() implies own.contains(
            (#[trigger] sent@[i]).params->DidClose_0.text_document.uri@,
        ) by {
            assert(files.contains(sent@[i].params->DidClose_0.text_document.uri@));
        }
    }
}

/// The sync begins with the files that some client has open, each of them once.
pub proof fn sync_begins_with_all_open_files(instance: Instance, sync: FileSync)
    requires
        call_ensures(Instance::sync_files_from_disk, (&instance,), sync),
    ensures
        forall|uri: Seq<char>| #[trigger]
            sync@.pending.contains(uri) <==> exists|id: usize| #[trigger]
                instance@.clients.contains_key(id) && instance@.clients[id].contains(uri),
        forall|i: int, j: int|
            0 <= i < j < sync@.pending.len() ==> #[trigger] sync@.pending[i]
                != #[trigger] sync@.pending[j],
{
    let files = open_files(instance@.clients);
    enumeration_holds_each_element_once(sync@.pending, files);
    assert forall|uri: Seq<char>| #[trigger] sync@.pending.contains(uri) <==> exists|id: usize|
        #[trigger]
        instance@.clients.contains_key(id) && instance@.clients[id].contains(uri) by {
        assert(files.contains(uri) <==> sync@.pending.contains(uri));
    }
}

/// The text of the file that was read goes to the server whole, as its one new
/// content and without a version; after that, and after a file that cannot be
/// read, one of the files that are left is read next, until none is; and a text
/// that could not be sent ends it all.
pub proof fn sync_sends_whole_texts_and_goes_on(
    sync: &mut FileSync,
    event: SyncEvent,
    step: SyncStep,
)
    requires
        call_ensures(FileSync::advance, (sync, event), step),
    ensures
        event matches SyncEvent::Content(text) ==> old(sync)@.current is Some ==> {
            &&& final(sync)@ == old(sync)@
            &&& step matches SyncStep::Send(sent)
            &&& sent.method@ == "textDocument/didChange"@
            &&& sent.params matches Payload::DidChange(params)
            &&& params.text_document.uri@ == old(sync)@.current->0
            &&& params.text_document.version == None::<i64>
            &&& params.content_changes@.len() == 1
            &&& params.content_changes@[0].text@ == text@
        },
        event is Start || event is Unreadable || event is Sent ==> if old(sync)@.pending.len()
            == 0 {
            &&& step == SyncStep::Done
            &&& final(sync)@.pending.len() == 0
        } else {
            &&& step matches SyncStep::Read(uri)
            &&& old(sync)@.pending == final(sync)@.pending.push(uri@)
            &&& final(sync)@.current == Some(uri@)
        },
        event is SendFailed ==> step == SyncStep::Closed && final(sync)@.pending.len() == 0,
{
    next_file_is_one_of_those_left(old(sync)@, event, step);
    if event is Content && old(sync)@.current is Some {
        whole_text_is_sent(old(sync)@, old(sync)@.current->0, event->Content_0, step);
    }
}

/// At every event, in any state: the server fails exactly where a connection
/// could not be accepted for another reason than that it was gone, exits exactly
/// where a check finds an activated server without instances and clients, serves
/// exactly who has connected, and listens on otherwise. Clients that connect and
/// finish are counted, and nothing else changes.
pub proof fn server_deals_with_an_event(
    server: &mut Server,
    event: ServerEvent,
    action: ServerAction,
)
    requires
        call_ensures(Server::handle, (server, event), action),
    ensures
        action == ServerAction::Fail <==> event == (ServerEvent::AcceptFailed {
            not_connected: false,
        }),
        action == ServerAction::Exit <==> event == (ServerEvent::IdleCheck { no_instances: true })
            && old(server).socket_activated && old(server).active_clients == 0,
        event == ServerEvent::Accepted ==> action == ServerAction::Serve(
            old(server).next_client_id,
        ),
        action is Serve ==> event == ServerEvent::Accepted,
        final(server).socket_activated == old(server).socket_activated,
        event == ServerEvent::Accepted && old(server).next_client_id < usize::MAX
            ==> final(server).next_client_id == old(server).next_client_id + 1,
        event == ServerEvent::Accepted && old(server).active_clients < usize::MAX
            ==> final(server).active_clients == old(server).active_clients + 1,
        event == ServerEvent::ClientFinished && old(server).active_clients > 0
            ==> final(server).active_clients == old(server).active_clients - 1,
        event != ServerEvent::Accepted ==> final(server).next_client_id
            == old(server).next_client_id,
        event != ServerEvent::Accepted && event != ServerEvent::ClientFinished
            ==> final(server).active_clients == old(server).active_clients,
{
}

/// An activated server looks at least once a second and at most once every
/// `gc_interval` seconds whether it is needed; another server never does.
pub proof fn activated_servers_look_whether_they_are_needed(
    server: Server,
    gc_interval: u32,
    period: Option<u64>,
)
    requires
        call_ensures(Server::idle_check_period, (&server, gc_interval), period),
    ensures
        period is Some <==> server.socket_activated,
        period matches Some(seconds) ==> seconds >= 1 && (gc_interval >= 1 ==> seconds
            == gc_interval) && (gc_interval == 0 ==> seconds == 1),
{
}

/// A use of an instance is noted with its second, and nothing else changes.
pub proof fn use_is_noted(instance: &mut Instance, now: i64)
    requires
        call_ensures(Instance::keep_alive, (instance, now), ()),
    ensures
        final(instance)@.last_used == now,
        final(instance)@.clients == old(instance)@.clients,
        final(instance)@.capabilities == old(instance)@.capabilities,
        final(instance)@.key == old(instance)@.key,
        final(instance)@.pid == old(instance)@.pid,
        final(instance)@.init_result == old(instance)@.init_result,
{
}

/// An instance is idle for the seconds since its last use, and for none where
/// the clock stepped back behind it.
pub proof fn idle_time_is_that_since_the_last_use(instance: Instance, now: i64, seconds: i64)
    requires
        call_ensures(Instance::idle, (&instance, now), seconds),
    ensures
        now >= instance@.last_used ==> seconds == now - instance@.last_used,
        now <= instance@.last_used ==> seconds == 0,
{
}

/// An instance is closed exactly if there is a timeout, it was not used for
/// longer than that, and no client is connected.
pub proof fn unused_instances_without_clients_time_out(
    instance: Instance,
    now: i64,
    timeout: Option<u32>,
    close: bool,
)
    requires
        call_ensures(Instance::timed_out, (&instance, now, timeout), close),
    ensures
        close <==> timeout is Some && now - instance@.last_used > timeout->0 && forall|id: usize|
            !#[trigger] instance@.clients.contains_key(id),
{
    if forall|id: usize| !#[trigger] instance@.clients.contains_key(id) {
        assert(instance@.clients.dom() =~= Set::<usize>::empty());
    }
    if close {
        assert forall|id: usize| !#[trigger] instance@.clients.contains_key(id) by {
            assert(!instance@.clients.dom().contains(id));
        }
    }
}

/// The clients that are connected are all listed, each of them once; one of them
/// is found where there is any; and a client is found by its id exactly if it is
/// connected, with the files that it has open.
pub proof fn clients_are_found(
    instance: Instance,
    id: usize,
    ids: Vec<usize>,
    one: Option<usize>,
    client: Option<&ClientData>,
)
    requires
        call_ensures(Instance::clients, (&instance,), ids),
        call_ensures(Instance::one_client, (&instance,), one),
        call_ensures(Instance::get_client, (&instance, id), client),
    ensures
        ids@.contains(id) <==> instance@.clients.contains_key(id),
        forall|i: int, j: int| 0 <= i < j < ids@.len() ==> #[trigger] ids@[i] != #[trigger] ids@[j],
        one is None ==> !instance@.clients.contains_key(id),
        one matches Some(found) ==> instance@.clients.contains_key(found),
        client is Some <==> instance@.clients.contains_key(id),
        client matches Some(found) ==> found.spec_id() == id && found@ == instance@.clients[id],
{
    enumeration_holds_each_element_once(ids@, instance@.clients.dom());
    assert(instance@.clients.dom().contains(id) <==> ids@.contains(id));
}

/// The report on an instance says what it was started as and how long it is
/// idle, has one report for each connected client with exactly the files that it
/// has open, and the method of every registration that is remembered.
pub proof fn status_is_complete(instance: Instance, now: i64, status: ext::Instance)
    requires
        call_ensures(Instance::get_status, (&instance, now), status),
    ensures
        status.pid == instance@.pid,
        status.server@ == instance@.key.server,
        texts(status.args@) == instance@.key.args,
        status.env@ == instance@.key.env,
        status.workspace_root.path@ == instance@.key.workspace_root.path,
        status.workspace_root.device_id == instance@.key.workspace_root.device_id,
        status.workspace_root.file_id == instance@.key.workspace_root.file_id,
        now >= instance@.last_used ==> status.idle_for == now - instance@.last_used,
        now <= instance@.last_used ==> status.idle_for == 0,
        forall|id: usize| #[trigger]
            instance@.clients.contains_key(id) ==> exists|i: int|
                0 <= i < status.clients@.len() && (#[trigger] status.clients@[i]).id == id,
        forall|i: int, j: int|
            0 <= i < j < status.clients@.len() ==> (#[trigger] status.clients@[i]).id != (
            #[trigger] status.clients@[j]).id,
        forall|i: int, uri: Seq<char>|
            #![trigger status.clients@[i], instance@.clients[status.clients@[i].id].contains(uri)]
            0 <= i < status.clients@.len() ==> instance@.clients.contains_key(
                status.clients@[i].id,
            ) && (instance@.clients[status.clients@[i].id].contains(uri) <==> exists|k: int|
                0 <= k < status.clients@[i].files@.len()
                    && #[trigger] status.clients@[i].files@[k]@ == uri),
        forall|id: Seq<char>| #[trigger]
            instance@.capabilities.contains_key(id) ==> exists|k: int|
                0 <= k < status.registered_dyn_capabilities@.len()
                    && #[trigger] status.registered_dyn_capabilities@[k]@
                    == instance@.capabilities[id].method,
        forall|method: Seq<char>|
            #![trigger texts(status.registered_dyn_capabilities@).contains(method)]
            texts(status.registered_dyn_capabilities@).contains(method) ==> exists|id: Seq<char>|
                instance@.capabilities.contains_key(id) && (
                #[trigger] instance@.capabilities[id]).method == method,
{
    let order = choose|order: Seq<usize>| #[trigger]
        enumerates(order, instance@.clients.dom()) && reports_clients(
            status.clients@,
            order,
            instance@.clients,
        );
    let list = choose|list: Seq<RegistrationView>| #[trigger]
        lists_registrations(list, instance@.capabilities) && texts(
            status.registered_dyn_capabilities@,
        ) == methods_of(list);
    status_reports_every_client_and_capability(
        instance@.clients,
        order,
        instance@.capabilities,
        list,
        status,
    );
}

/// A new instance has what it was started with, and its one client, with no file
/// open and no capability registered.
pub proof fn new_instance_has_its_first_client(
    key: InstanceKey,
    pid: u32,
    init_result: InitializeResult,
    client_id: usize,
    now: i64,
    instance: Instance,
)
    requires
        call_ensures(Instance::new, (key, pid, init_result, client_id, now), instance),
    ensures
        instance@.key == key@,
        instance@.pid == pid,
        instance@.init_result == init_result,
        instance@.last_used == now,
        forall|id: usize| #[trigger] instance@.clients.contains_key(id) <==> id == client_id,
        instance@.clients[client_id] == Set::<Seq<char>>::empty(),
        forall|id: Seq<char>| !#[trigger] instance@.capabilities.contains_key(id),
{
}

/// A client is given the running instance of its key's server, arguments and
/// directory where there is one, and one is started for it where there is none:
/// with its key, its parameters and its id.
pub proof fn running_instance_is_found_or_one_is_started<T>(
    map: &InstanceMap<T>,
    key: InstanceKey,
    params: InitializeParams,
    client_id: usize,
    source: Source<'_, T>,
)
    requires
        call_ensures(get_or_spawn::<T>, (map, &key, params, client_id), source),
    ensures
        source is Running <==> map@.contains_key(key@.identity()),
        source matches Source::Running(value) ==> *value == map@[key@.identity()].1,
        source matches Source::Start(spawn) ==> {
            &&& spawn is Launching
            &&& spawn->Launching_key@ == key@
            &&& spawn->params.rest == params.rest
            &&& spawn->Launching_client_id == client_id
        },
{
}

/// An instance that was started is entered under its key, and nothing is where
/// starting it has failed; no other entry changes.
pub proof fn started_instance_is_entered<T, E>(
    map: &mut InstanceMap<T>,
    key: InstanceKey,
    started: Result<T, E>,
    id: Identity,
)
    requires
        call_ensures(enter::<T, E>, (map, key, started), ()),
    ensures
        started matches Ok(value) ==> final(map)@.contains_key(key@.identity()) && final(
            map)@[key@.identity()] == (key@, value),
        started is Err ==> final(map)@ == old(map)@,
        id != key@.identity() ==> (final(map)@.contains_key(id) <==> old(map)@.contains_key(id))
            && final(map)@[id] == old(map)@[id],
{
}

/// An instance whose process has exited is found no more under its own identity,
/// no other entry changes, and all its clients are disconnected.
pub proof fn exited_instance_is_given_up<T>(
    map: &mut InstanceMap<T>,
    instance: &mut Instance,
    id: Identity,
    client: usize,
)
    requires
        call_ensures(retire::<T>, (map, instance), ()),
    ensures
        !final(map)@.contains_key(old(instance)@.key.identity()),
        id != old(instance)@.key.identity() ==> (final(map)@.contains_key(id) <==> old(
            map)@.contains_key(id)) && final(map)@[id] == old(map)@[id],
        !final(instance)@.clients.contains_key(client),
        final(instance)@.capabilities == old(instance)@.capabilities,
        final(instance)@.key == old(instance)@.key,
        final(instance)@.pid == old(instance)@.pid,
{
}

/// The process of an instance is killed exactly if the instance is to be closed,
/// and given up exactly if it has exited.
pub proof fn process_is_killed_on_request_alone(event: ChildEvent, action: ChildAction)
    requires
        call_ensures(crate::instance_map::wait_task, (event,), action),
    ensures
        action == ChildAction::Kill <==> event == ChildEvent::CloseRequested,
        action == ChildAction::Retire <==> event == ChildEvent::Exited,
{
}

/// A directory is served by an instance that works in it or above it, where
/// there is one, and then by one whose workspace path is the longest in bytes.
pub proof fn directory_is_served_by_the_nearest_workspace<T>(
    map: &InstanceMap<T>,
    cwd: &str,
    found: Option<&T>,
)
    requires
        call_ensures(InstanceMap::<T>::get_by_cwd, (map, cwd), found),
    ensures
        found is None <==> forall|id: Identity| #[trigger]
            map@.contains_key(id) ==> !path_starts_with(cwd@, map@[id].0.workspace_root.path),
        found matches Some(value) ==> exists|id: Identity| #[trigger]
            map@.contains_key(id) && map@[id].1 == *value && path_starts_with(
                cwd@,
                map@[id].0.workspace_root.path,
            ) && forall|other: Identity| #[trigger]
                map@.contains_key(other) && path_starts_with(
                    cwd@,
                    map@[other].0.workspace_root.path,
                ) ==> encode_utf8(map@[other].0.workspace_root.path).len() <= encode_utf8(
                    map@[id].0.workspace_root.path,
                ).len(),
{
    if found is None {
        assert(covers_none(map@, cwd@));
        assert forall|id: Identity| #[trigger] map@.contains_key(id) implies !path_starts_with(
            cwd@,
            map@[id].0.workspace_root.path,
        ) by {
            nearest_workspace_serves_a_directory(map@, id, cwd@);
            assert(!covers(map@, id, cwd@));
        }
    } else {
        let id = choose|id: Identity| #[trigger]
            covers_best(map@, id, cwd@) && *found->0 == map@[id].1;
        nearest_workspace_serves_a_directory(map@, id, cwd@);
        assert(map@.contains_key(id));
    }
}

/// The server that is launched is the key's, with the key's arguments in their
/// order, its environment, and the workspace directory as the current one.
pub proof fn server_is_launched_as_the_key_says(key: InstanceKey, launch: Launch)
    requires
        call_ensures(InstanceKey::launch, (&key,), launch),
    ensures
        launch.program@ == key.server@,
        launch.args@.len() == key.args@.len(),
        forall|i: int|
            0 <= i < key.args@.len() ==> (#[trigger] launch.args@[i])@ == key.args@[i]@,
        launch.env@ == key.env@,
        launch.current_dir@ == key.workspace_root@.path,
{
    launch_follows_the_key(key, launch);
}

/// The `initialize` request has everything that the client gave but for the
/// process id, which is that of the multiplexer.
pub proof fn server_is_initialized_in_the_clients_place(
    params: InitializeParams,
    own_pid: u32,
    phase: HandshakePhase,
)
    requires
        call_ensures(HandshakePhase::start, (params, own_pid), phase),
    ensures
        phase matches HandshakePhase::SendRequest(request) && {
            &&& request.method@ == "initialize"@
            &&& request.id matches RequestId::String(id)
            &&& id@ == "lspmux:initialize_request"@
            &&& request.params matches Payload::Initialize(sent)
            &&& sent.process_id == Some(own_pid as u64)
            &&& sent.rest == params.rest
        },
{
    initialize_request_is_the_clients_own(params, own_pid, phase);
}

/// The handshake waits for the successful answer to its request and passes over
/// every other message, reads the result of that answer, notifies the server,
/// and is then done with the result.
pub proof fn handshake_takes_its_steps(
    phase: HandshakePhase,
    event: HandshakeEvent,
    next: HandshakePhase,
)
    requires
        call_ensures(HandshakePhase::advance, (phase, event), next),
        phase@.expects(event@),
    ensures
        phase is SendRequest && event is Written ==> next == HandshakePhase::AwaitResponse,
        phase is AwaitResponse ==> (event matches HandshakeEvent::Received(message) ==> if (
        message matches Message::ResponseSuccess(response) && (
        response.id matches RequestId::String(id) && id@ == "lspmux:initialize_request"@)) {
            next matches HandshakePhase::ParseResult(result) && result@
                == message->ResponseSuccess_0.result@
        } else {
            next == HandshakePhase::AwaitResponse
        }),
        phase is ParseResult ==> (event matches HandshakeEvent::Parsed(result) ==> (
        next matches HandshakePhase::SendInitialized(notification, kept) && kept == result
            && notification.method@ == "initialized"@ && notification.params == Payload::Empty)),
        phase matches HandshakePhase::SendInitialized(_, result) ==> (event is Written ==> next
            == HandshakePhase::Done(result)),
        next is Done ==> phase is SendInitialized && event is Written,
        phase is SendRequest && event is WriteFailed <==> next == HandshakePhase::Failed(
            HandshakeError::SendRequest,
        ),
        phase is AwaitResponse && event is StreamEnded <==> next == HandshakePhase::Failed(
            HandshakeError::StreamEnded,
        ),
        phase is AwaitResponse && event is ReadFailed <==> next == HandshakePhase::Failed(
            HandshakeError::ReceiveResponse,
        ),
        phase is ParseResult && event is ParseFailed <==> next == HandshakePhase::Failed(
            HandshakeError::ParseResult,
        ),
        phase is SendInitialized && event is WriteFailed <==> next == HandshakePhase::Failed(
            HandshakeError::SendInitialized,
        ),
{
    handshake_fails_with_the_step_that_failed(phase, event, next);
    handshake_goes_on_with_the_next_step(phase, event, next);
    if phase is AwaitResponse && event is Received {
        answer_is_told_by_its_id(event->Received_0, next);
    }
}

/// Starting a server fails with the reason why, and otherwise goes on with the
/// handshake for the key, the client and the process that it was begun with.
pub proof fn server_is_started_step_by_step(
    spawn: Spawn,
    event: SpawnEvent,
    own_pid: u32,
    now: i64,
    next: Spawn,
)
    requires
        call_ensures(Spawn::advance, (spawn, event, own_pid, now), next),
        spawn is Launching,
        event is LaunchFailed || event is Launched,
    ensures
        event is LaunchFailed ==> next == Spawn::Failed(SpawnError::Launch),
        event is Launched && event->pid is None ==> next == Spawn::Failed(SpawnError::ExitedEarly),
        event is Launched && event->pid is Some ==> {
            &&& next is Initializing
            &&& next->Initializing_key@ == spawn->Launching_key@
            &&& next->Initializing_client_id == spawn->Launching_client_id
            &&& Some(next->Initializing_pid) == event->pid
            &&& next->Initializing_phase is SendRequest
            &&& next->Initializing_phase->SendRequest_0.params is Initialize
            &&& next->Initializing_phase->SendRequest_0.params->Initialize_0.rest
                == spawn->params.rest
            &&& next->Initializing_phase->SendRequest_0.params->Initialize_0.process_id == Some(
                own_pid as u64,
            )
        },
{
    launching_goes_on_with_the_handshake(spawn, event, own_pid, now, next);
    if event is Launched && event->pid is Some {
        initialize_request_is_the_clients_own(
            spawn->params,
            own_pid,
            next->Initializing_phase,
        );
    }
}

/// Once the handshake is done the instance is ready: with the key, the process
/// and the one client that it was begun with, the result of the server, no file
/// open and no capability registered. Where the handshake fails, so does the
/// start, with its error.
pub proof fn instance_is_ready_after_the_handshake(
    spawn: Spawn,
    event: HandshakeEvent,
    own_pid: u32,
    now: i64,
    next: Spawn,
)
    requires
        call_ensures(
            Spawn::advance,
            (spawn, SpawnEvent::Handshake(event), own_pid, now),
            next,
        ),
        spawn is Initializing,
        spawn->Initializing_phase@.expects(event@),
    ensures
        next is Ready <==> spawn->Initializing_phase is SendInitialized && event is Written,
        next is Ready ==> {
            &&& next->Ready_0@.key == spawn->Initializing_key@
            &&& next->Ready_0@.pid == spawn->Initializing_pid
            &&& next->Ready_0@.init_result == spawn->Initializing_phase->SendInitialized_1
            &&& next->Ready_0@.last_used == now
            &&& forall|id: usize| #[trigger]
                next->Ready_0@.clients.contains_key(id) <==> id == spawn->Initializing_client_id
            &&& next->Ready_0@.clients[spawn->Initializing_client_id]
                == Set::<Seq<char>>::empty()
            &&& forall|id: Seq<char>| !#[trigger] next->Ready_0@.capabilities.contains_key(id)
        },
        next == Spawn::Failed(SpawnError::Handshake(HandshakeError::SendRequest)) <==> (
        spawn->Initializing_phase is SendRequest && event is WriteFailed),
        next == Spawn::Failed(SpawnError::Handshake(HandshakeError::StreamEnded)) <==> event
            is StreamEnded,
        next == Spawn::Failed(SpawnError::Handshake(HandshakeError::ReceiveResponse)) <==> event
            is ReadFailed,
        next == Spawn::Failed(SpawnError::Handshake(HandshakeError::ParseResult)) <==> event
            is ParseFailed,
        next == Spawn::Failed(SpawnError::Handshake(HandshakeError::SendInitialized)) <==> (
        spawn->Initializing_phase is SendInitialized && event is WriteFailed),
        next is Initializing ==> {
            &&& next->Initializing_key@ == spawn->Initializing_key@
            &&& next->Initializing_client_id == spawn->Initializing_client_id
            &&& next->Initializing_pid == spawn->Initializing_pid
        },
{
    handshake_decides_about_the_instance(spawn, event, own_pid, now, next);
    if next is Ready {
        assert forall|id: Seq<char>| !#[trigger] next->Ready_0@.capabilities.contains_key(id) by {
            assert(!next->Ready_0@.capabilities.dom().contains(id));
        }
    }
}

/// A socket is looked for exactly if the environment names this process and
/// brings one socket; a process that is named with more sockets fails with their
/// number; and any other process has none.
pub proof fn activation_is_for_this_process(
    listen_pid: Option<&str>,
    listen_fds: Option<&str>,
    own_pid: u32,
    step: ActivationStep,
    n: u32,
)
    requires
        call_ensures(Listener::from_activation, (listen_pid, listen_fds, own_pid), step),
    ensures
        step == ActivationStep::ReadName <==> (listen_pid matches Some(pid) && number_of(pid@)
            == Some(own_pid)) && (listen_fds matches Some(fds) && number_of(fds@) == Some(1u32)),
        step == ActivationStep::Failed(ActivationError::SocketCount(n)) <==> n > 1 && (
        listen_pid matches Some(pid) && number_of(pid@) == Some(own_pid)) && (
        listen_fds matches Some(fds) && number_of(fds@) == Some(n)),
        step == ActivationStep::ReadName || step == ActivationStep::Inactive || (
        step matches ActivationStep::Failed(error) && error is SocketCount),
{
    activation_needs_one_socket_for_this_process(
        listen_pid.deep_view(),
        listen_fds.deep_view(),
        own_pid,
        n,
    );
}

/// An activated socket is prepared call by call: each that fails ends it with
/// its own error, flags are written back with the wanted one added, and the
/// family that was read decides what the socket is taken over as.
pub proof fn activated_socket_is_prepared_call_by_call(
    step: ActivationStep,
    outcome: CallOutcome,
    platform: Platform,
    next: ActivationStep,
)
    requires
        call_ensures(ActivationStep::advance, (step, outcome, &platform), next),
        step.expects(outcome),
    ensures
        next == ActivationStep::Failed(ActivationError::Name) <==> step is ReadName
            && outcome->Name_ret != 0,
        next == ActivationStep::Failed(ActivationError::CloseOnExec) <==> (step
            is ReadDescriptorFlags || step is WriteDescriptorFlags) && outcome->Control_ret == -1,
        next == ActivationStep::Failed(ActivationError::Nonblocking) <==> (step is ReadStatusFlags
            || step is WriteStatusFlags) && outcome->Control_ret == -1,
        step is ReadName && outcome->Name_ret == 0 ==> next == (
        ActivationStep::ReadDescriptorFlags { family: outcome->family }),
        step is ReadDescriptorFlags && outcome->Control_ret != -1 ==> next == (
        ActivationStep::WriteDescriptorFlags {
            family: step->ReadDescriptorFlags_family,
            flags: outcome->Control_ret | platform.close_on_exec,
        }),
        step is WriteDescriptorFlags && outcome->Control_ret != -1 ==> next == (
        ActivationStep::ReadStatusFlags { family: step->WriteDescriptorFlags_family }),
        step is ReadStatusFlags && outcome->Control_ret != -1 ==> next == (
        ActivationStep::WriteStatusFlags {
            family: step->ReadStatusFlags_family,
            flags: outcome->Control_ret | platform.nonblocking,
        }),
        step is WriteStatusFlags && outcome->Control_ret != -1 ==> {
            let family = step->WriteStatusFlags_family;
            next == if family == platform.inet || family == platform.inet6 {
                ActivationStep::Listen(Listener::Tcp)
            } else if family == platform.unix {
                ActivationStep::Listen(Listener::Unix)
            } else {
                ActivationStep::Failed(ActivationError::Family(family))
            }
        },
{
    activation_fails_with_the_call_that_failed(step, outcome, platform);
    activation_goes_on_with_the_next_call(step, outcome, platform);
}

/// Writing stops with the first failure, and reports it unless the server has
/// closed its end.
pub proof fn writing_stops_with_a_failure(outcome: WriteOutcome, progress: Progress)
    requires
        call_ensures(stdin_task, (outcome,), progress),
    ensures
        progress == Progress::Next <==> outcome == WriteOutcome::Written,
        progress == Progress::Stop <==> outcome == WriteOutcome::BrokenPipe,
        progress == Progress::ReportAndStop <==> outcome == WriteOutcome::Failed,
{
}

/// Reading stops at the end of the stream alone; failures are reported, and
/// every message that was read is handled.
pub proof fn reading_stops_at_the_end(
    outcome: ReadOutcome,
    decision: (Progress, Option<Message>),
)
    requires
        call_ensures(stdout_task, (outcome,), decision),
    ensures
        decision.0 == Progress::Next <==> outcome is Read,
        decision.0 == Progress::Stop <==> outcome is Closed,
        decision.0 == Progress::ReportAndNext <==> outcome is Failed,
        outcome matches ReadOutcome::Read(message) ==> decision.1 == Some(message),
        !(outcome is Read) ==> decision.1 is None,
{
}

/// Every line that was read is logged, up to its last character that is no white
/// space; failures are reported; and reading stops at the end alone.
pub proof fn lines_are_logged_without_their_ends(
    read: Option<usize>,
    line: &str,
    decision: (Progress, Option<&str>),
)
    requires
        call_ensures(stderr_task, (read, line), decision),
    ensures
        decision.0 == Progress::Stop <==> read == Some(0usize),
        decision.0 == Progress::ReportAndNext <==> read is None,
        decision.0 == Progress::Next <==> (read matches Some(n) && n > 0),
        decision.1 is Some <==> decision.0 == Progress::Next,
        decision.1 matches Some(logged) ==> {
            &&& logged@.len() <= line@.len()
            &&& logged@ == line@.take(logged@.len() as int)
            &&& logged@.len() > 0 ==> !is_white_space(logged@.last())
            &&& forall|i: int|
                logged@.len() <= i < line@.len() ==> is_white_space(#[trigger] line@[i])
        },
{
    trimming_takes_white_space_off_the_end(line@);
}

/// A path that the file system always calls a directory is kept; for one that it
/// never does, the root is a root of its parent, or of the current directory
/// where it has none.
pub proof fn workspace_root_is_the_nearest_directory<F: Fn(&str) -> bool>(
    path: String,
    is_dir: F,
    root: String,
)
    requires
        call_ensures(normalize_workspace_root_path::<F>, (path, is_dir), root),
    ensures
        (forall|s: &str| s@ == path@ ==> !#[trigger] call_ensures(is_dir, (s,), false)) ==> root@
            == path@,
        (forall|s: &str| s@ == path@ ==> !#[trigger] call_ensures(is_dir, (s,), true)) ==> match (
        parent_path(path@)) {
            Some(parent) if parent.len() > 0 => exists|n: nat|
                is_root_of(parent, is_dir, n, root@),
            _ => if path@ == "."@ {
                root@ == "."@
            } else {
                exists|n: nat| is_root_of("."@, is_dir, n, root@)
            },
        },
{
    let n = choose|n: nat| is_root_of(path@, is_dir, n, root@);
    if forall|s: &str| s@ == path@ ==> !#[trigger] call_ensures(is_dir, (s,), false) {
        directory_stays(path@, is_dir, n, root@);
    }
    if forall|s: &str| s@ == path@ ==> !#[trigger] call_ensures(is_dir, (s,), true) {
        root_of_a_file_is_the_root_of_its_parent(path@, is_dir, n, root@);
    }
}

/// A workspace root has the normalized path, and the numbers that the file
/// system gave for that path; where it gave none, that is the error.
pub proof fn workspace_root_is_identified_by_the_file_system<
    D: Fn(&str) -> bool,
    I: Fn(&str) -> Result<FileIdentity, E>,
    E,
>(
    path: String,
    is_dir: D,
    identify: I,
    result: Result<WorkspaceRoot, MetadataError<E>>,
)
    requires
        call_ensures(WorkspaceRoot::from_path::<D, I, E>, (path, is_dir, identify), result),
    ensures
        result matches Ok(root) ==> {
            &&& exists|n: nat| is_root_of(path@, is_dir, n, root@.path)
            &&& exists|s: &str, identity: FileIdentity|
                s@ == root@.path && #[trigger] call_ensures(
                    identify,
                    (s,),
                    Ok::<FileIdentity, E>(identity),
                ) && identity.device_id == root@.device_id && identity.file_id == root@.file_id
        },
        result matches Err(error) ==> {
            &&& exists|n: nat| is_root_of(path@, is_dir, n, error.path@)
            &&& exists|s: &str|
                s@ == error.path@ && #[trigger] call_ensures(
                    identify,
                    (s,),
                    Err::<FileIdentity, E>(error.source),
                )
        },
{
    match result {
        Ok(root) => {
            let identity = FileIdentity { device_id: root@.device_id, file_id: root@.file_id };
            let s = choose|s: &str|
                s@ == root@.path && #[trigger] call_ensures(
                    identify,
                    (s,),
                    Ok::<FileIdentity, E>(identity),
                );
            assert(answers(identify, root@.path, Ok::<FileIdentity, E>(identity)));
            assert(s@ == root@.path && call_ensures(
                identify,
                (s,),
                Ok::<FileIdentity, E>(identity),
            ));
        },
        Err(error) => {
            assert(answers(identify, error.path@, Err::<FileIdentity, E>(error.source)));
        },
    }
}

/// A text is read as the number that it stands for, if it stands for one.
pub proof fn number_is_read(text: &str, number: Option<u32>)
    requires
        call_ensures(crate::socketwrapper::parse_number, (text,), number),
    ensures
        number == number_of(text@),
        text@.len() == 0 ==> number is None,
{
}

/// A socket can be bound unless it is a local one whose old file is in the way.
pub proof fn old_socket_is_out_of_the_way(listener: Listener, removal: Removal, bind: bool)
    requires
        call_ensures(Listener::may_bind, (listener, removal), bind),
    ensures
        !bind <==> listener == Listener::Unix && removal == Removal::Failed,
{
}

/// A tag that is put on an id and taken off again is the one that was put on,
/// and leaves the id as it was; an id without a tag has none to take off.
pub proof fn tags_come_off_as_they_were_put_on(
    id: RequestId,
    tag: Tag,
    tagged: RequestId,
    parts: (Option<Tag>, RequestId),
    bare: (Option<Tag>, RequestId),
)
    requires
        call_ensures(RequestId::tag, (id, tag), tagged),
        call_ensures(RequestId::untag, (tagged,), parts),
        call_ensures(RequestId::untag, (id,), bare),
    ensures
        parts.0 == Some(tag),
        parts.1@ == id@,
        tagged is Tagged,
        !(id is Tagged) ==> bare.0 is None && bare.1@ == id@,
{
}

/// Comparing two roots compares the numbers of their directories, and nothing
/// else.
pub proof fn comparing_roots_compares_their_numbers(a: WorkspaceRoot, b: WorkspaceRoot)
    ensures
        WorkspaceRoot::obeys_eq_spec(),
        a.eq_spec(&b) <==> a@.device_id == b@.device_id && a@.file_id == b@.file_id,
{
}

/// Comparing two keys compares their servers, their arguments in order and the
/// directories that they name, and nothing else.
pub proof fn comparing_keys_compares_their_identities(a: InstanceKey, b: InstanceKey)
    ensures
        InstanceKey::obeys_eq_spec(),
        a.eq_spec(&b) <==> {
            &&& a.server@ == b.server@
            &&& a.args@.len() == b.args@.len()
            &&& forall|i: int|
                0 <= i < a.args@.len() ==> (#[trigger] a.args@[i])@ == b.args@[i]@
            &&& a.workspace_root@.device_id == b.workspace_root@.device_id
            &&& a.workspace_root@.file_id == b.workspace_root@.file_id
        },
{
    instance_is_told_by_server_arguments_and_directory(a, b);
}

} // verus!
