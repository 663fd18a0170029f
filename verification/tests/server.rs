use lspmux::server::{Server, ServerAction, ServerEvent};

#[test]
fn clients_are_numbered_from_zero() {
    let mut server = Server::new(false);
    assert_eq!(server.handle(ServerEvent::Accepted), ServerAction::Serve(0));
    assert_eq!(server.handle(ServerEvent::Accepted), ServerAction::Serve(1));
    server.handle(ServerEvent::ClientFinished);
    assert_eq!(server.handle(ServerEvent::Accepted), ServerAction::Serve(2));
    assert_eq!(server.active_clients, 2);
}

#[test]
fn activated_server_exits_when_nobody_needs_it() {
    let mut server = Server::new(true);
    let idle = ServerEvent::IdleCheck { no_instances: true };
    server.handle(ServerEvent::Accepted);
    assert_eq!(server.handle(idle), ServerAction::Listen);
    server.handle(ServerEvent::ClientFinished);
    assert_eq!(
        server.handle(ServerEvent::IdleCheck { no_instances: false }),
        ServerAction::Listen
    );
    assert_eq!(server.handle(idle), ServerAction::Exit);
}

#[test]
fn server_that_is_not_activated_stays() {
    let mut server = Server::new(false);
    assert_eq!(
        server.handle(ServerEvent::IdleCheck { no_instances: true }),
        ServerAction::Listen
    );
}

#[test]
fn benign_accept_errors_are_ignored() {
    let mut server = Server::new(false);
    assert_eq!(
        server.handle(ServerEvent::AcceptFailed { not_connected: true }),
        ServerAction::Listen
    );
    assert_eq!(
        server.handle(ServerEvent::AcceptFailed { not_connected: false }),
        ServerAction::Fail
    );
    assert_eq!(server, Server::new(false));
}

#[test]
fn only_activated_servers_check_whether_they_are_needed() {
    assert_eq!(Server::new(false).idle_check_period(10), None);
    assert_eq!(Server::new(true).idle_check_period(10), Some(10));
    assert_eq!(Server::new(true).idle_check_period(0), Some(1));
}

#[test]
fn numbers_start_over_after_the_last_one() {
    let mut server =
        Server { next_client_id: usize::MAX, active_clients: 0, socket_activated: false };
    assert_eq!(server.handle(ServerEvent::Accepted), ServerAction::Serve(usize::MAX));
    assert_eq!(server.handle(ServerEvent::Accepted), ServerAction::Serve(0));
}
