use ipc_server::server::{on_readable, AcceptStep, Accepted, BindError, IpcServer, ListenOutcome};
use ipc_server::session::Phase;

#[test]
fn start_gives_the_server_that_owns_the_path() {
    let server = IpcServer::start(
        String::from("/run/user/1000/niri.wayland-1.4242.sock"),
        ListenOutcome::Listening,
    )
    .unwrap();
    assert_eq!(server.socket_path, "/run/user/1000/niri.wayland-1.4242.sock");
}

#[test]
fn start_fails_when_the_socket_cannot_be_bound() {
    let started = IpcServer::start(String::from("/tmp/x.sock"), ListenOutcome::BindFailed);
    assert_eq!(started.err(), Some(BindError::Bind));
}

#[test]
fn start_fails_when_the_socket_stays_blocking() {
    let started = IpcServer::start(String::from("/tmp/x.sock"), ListenOutcome::NonBlockingFailed);
    assert_eq!(started.err(), Some(BindError::NonBlocking));
}

#[test]
fn bind_errors_have_their_messages() {
    assert_eq!(BindError::Bind.message(), "error binding socket");
    assert_eq!(BindError::NonBlocking.message(), "error setting socket to non-blocking");
}

#[test]
fn a_connection_spawns_a_new_session() {
    match on_readable(Accepted::Connection) {
        AcceptStep::Spawn(session) => {
            assert_eq!(session.phase(), Phase::Connected);
            assert!(!session.is_closed());
        }
        other => panic!("unexpected step {:?}", other),
    }
}

#[test]
fn would_block_changes_nothing() {
    assert!(matches!(on_readable(Accepted::WouldBlock), AcceptStep::Continue));
}

#[test]
fn any_other_failure_stops_the_acceptor() {
    assert!(matches!(on_readable(Accepted::Failed), AcceptStep::Remove));
}
