use rustrelay::log_line::{accept_failed_line, connected_line, decimal_string, Level, LogLine};
use rustrelay::tunnel_server::{bind_address, TunnelServer, IDS_EXHAUSTED};

/// Stand-in for a listening socket: the address it was bound to.
type Listener = ([u8; 4], u16);

/// Stand-in for a client session: its id and the connection it was built on.
#[derive(Debug, PartialEq)]
struct Session {
    id: u32,
    stream: u32,
}

fn fresh(port: u16) -> TunnelServer<Listener, Session> {
    let bound: Result<Listener, String> = Ok(bind_address(port));
    TunnelServer::new(bound).unwrap()
}

fn open(id: u32, stream: u32) -> Result<Session, String> {
    Ok(Session { id, stream })
}

fn accept(server: &mut TunnelServer<Listener, Session>, stream: u32) -> LogLine {
    server.on_ready(Ok(stream), open)
}

#[test]
fn two_accepts_log_each_client_in_order() {
    let mut server = fresh(9000);
    let first = accept(&mut server, 100);
    let second = accept(&mut server, 101);
    assert_eq!(first.level, Level::Info);
    assert_eq!(first.text, "Client #0 connected");
    assert_eq!(second.level, Level::Info);
    assert_eq!(second.text, "Client #1 connected");
    assert_eq!(server.clients().len(), 2);
    assert_eq!(server.client_ids(), &vec![0, 1]);
    assert_eq!(*server.listener(), ([127, 0, 0, 1], 9000));
}

#[test]
fn bind_failure_is_returned_unchanged_and_nothing_registers() {
    let mut registrations: u32 = 0;
    let bound: Result<Listener, String> = Err("Address already in use".to_string());
    let built: Result<TunnelServer<Listener, Session>, String> = TunnelServer::new(bound);
    if built.is_ok() {
        registrations += 1;
    }
    assert_eq!(built.err(), Some("Address already in use".to_string()));
    assert_eq!(registrations, 0);
}

#[test]
fn transient_accept_error_logs_once_and_listener_keeps_serving() {
    let mut server = fresh(9000);
    let line = server.on_ready(Err("Resource temporarily unavailable".to_string()), open);
    assert_eq!(line.level, Level::Error);
    assert_eq!(line.text, "Cannot accept client: Resource temporarily unavailable");
    assert_eq!(server.clients().len(), 0);
    assert_eq!(server.next_client_id(), 0);
    assert_eq!(*server.listener(), ([127, 0, 0, 1], 9000));
    let next = accept(&mut server, 7);
    assert_eq!(next.text, "Client #0 connected");
    assert_eq!(server.clients(), &vec![Session { id: 0, stream: 7 }]);
}

#[test]
fn no_pending_connection_leaves_registry_unchanged() {
    let mut server = fresh(4000);
    accept(&mut server, 1);
    let line = server.on_ready(Err("operation would block".to_string()), open);
    assert_eq!(line.level, Level::Error);
    assert_eq!(server.clients(), &vec![Session { id: 0, stream: 1 }]);
    assert_eq!(server.client_ids(), &vec![0]);
    assert_eq!(server.next_client_id(), 1);
    assert_eq!(*server.listener(), ([127, 0, 0, 1], 4000));
}

#[test]
fn ids_follow_acceptance_order() {
    let mut server = fresh(9000);
    for stream in 0..5u32 {
        let line = accept(&mut server, 50 + stream);
        assert_eq!(line.text, format!("Client #{} connected", stream));
    }
    assert_eq!(server.client_ids(), &vec![0, 1, 2, 3, 4]);
    assert_eq!(server.next_client_id(), 5);
}

#[test]
fn registry_has_one_entry_per_accept_on_distinct_connections() {
    let mut server = fresh(9000);
    accept(&mut server, 10);
    accept(&mut server, 11);
    accept(&mut server, 12);
    assert_eq!(
        server.clients(),
        &vec![
            Session { id: 0, stream: 10 },
            Session { id: 1, stream: 11 },
            Session { id: 2, stream: 12 },
        ]
    );
}

#[test]
fn failed_session_uses_up_its_id() {
    let mut server = fresh(9000);
    let line = server.on_ready(Ok(3u32), |_id: u32, _stream: u32| -> Result<Session, String> {
        Err("cannot register client".to_string())
    });
    assert_eq!(line.level, Level::Error);
    assert_eq!(line.text, "Cannot accept client: cannot register client");
    assert_eq!(server.clients().len(), 0);
    assert_eq!(server.next_client_id(), 1);
    let next = accept(&mut server, 4);
    assert_eq!(next.text, "Client #1 connected");
    assert_eq!(server.clients(), &vec![Session { id: 1, stream: 4 }]);
}

#[test]
fn session_is_built_with_the_assigned_id_and_connection() {
    let mut server = fresh(9000);
    let mut seen: Vec<(u32, u32)> = Vec::new();
    server.on_ready(Ok(42u32), |id: u32, stream: u32| {
        seen.push((id, stream));
        open(id, stream)
    });
    assert_eq!(seen, vec![(0, 42)]);
}

#[test]
fn bind_address_is_loopback_on_the_port() {
    assert_eq!(bind_address(9000), ([127, 0, 0, 1], 9000));
    assert_eq!(bind_address(0), ([127, 0, 0, 1], 0));
    assert_eq!(bind_address(65535), ([127, 0, 0, 1], 65535));
}

#[test]
fn decimal_string_writes_digits() {
    assert_eq!(decimal_string(0), "0");
    assert_eq!(decimal_string(7), "7");
    assert_eq!(decimal_string(10), "10");
    assert_eq!(decimal_string(305), "305");
    assert_eq!(decimal_string(u32::MAX), "4294967295");
}

#[test]
fn log_lines_have_their_texts() {
    let info = connected_line(4294967294);
    assert_eq!(info.level, Level::Info);
    assert_eq!(info.text, "Client #4294967294 connected");
    let error = accept_failed_line("");
    assert_eq!(error.level, Level::Error);
    assert_eq!(error.text, "Cannot accept client: ");
    assert_eq!(IDS_EXHAUSTED, "client ids exhausted");
}
