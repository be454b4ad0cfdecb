use ws_chat::client::{ClientState, ConnectionMode, Interest, ReadOutcome, WriteOutcome};
use ws_chat::event_message::EventMessage;
use ws_chat::server::{DispatchAction, NotifyAction, Readiness, Server, LISTENER_FD};

fn readable() -> Readiness {
    Readiness { readable: true, writable: false, hup: false }
}

fn writable() -> Readiness {
    Readiness { readable: false, writable: true, hup: false }
}

fn hangup() -> Readiness {
    Readiness { readable: false, writable: false, hup: true }
}

fn accept_ws(server: &mut Server) -> u64 {
    let (token, interest) = server.accept(ConnectionMode::WebSocketFrames);
    assert_eq!(interest, Interest { readable: true, writable: false });
    token
}

/// Brings the client at `index` through the handshake to `Running`.
fn complete_handshake(server: &mut Server, index: usize, key: &str) {
    server.clients[index].set_peer_key(String::from(key));
    let step = server.clients[index].on_upgrade();
    assert!(step.done);
    let len = server.clients[index].outbound.len();
    let step = server.clients[index].handle_writable(WriteOutcome::Wrote(len));
    assert!(step.done);
    assert_eq!(server.clients[index].state, ClientState::Running);
}

#[test]
fn listener_token_is_reserved() {
    assert_eq!(LISTENER_FD, 0);
    let mut server = Server::new();
    let t = accept_ws(&mut server);
    assert_ne!(t, LISTENER_FD);
}

#[test]
fn accept_allocates_monotonic_tokens() {
    let mut server = Server::new();
    assert_eq!(accept_ws(&mut server), 1);
    assert_eq!(accept_ws(&mut server), 2);
    assert_eq!(accept_ws(&mut server), 3);
    assert_eq!(server.next_free_token, 4);
    assert_eq!(server.clients.len(), 3);
    assert_eq!(server.clients[0].state, ClientState::AwaitingHandshake);
}

#[test]
fn dispatch_issues_one_job_until_rearm() {
    let mut server = Server::new();
    let t = accept_ws(&mut server);
    assert_eq!(server.dispatch(t, readable()), DispatchAction::ReadJob);
    assert_eq!(server.dispatch(t, readable()), DispatchAction::Ignored);
    assert_eq!(server.dispatch(t, writable()), DispatchAction::Ignored);
    let interest = server.handle_client_rearm(t);
    assert_eq!(interest, Some(Interest { readable: true, writable: false }));
    assert_eq!(server.dispatch(t, readable()), DispatchAction::ReadJob);
}

#[test]
fn dispatch_prefers_write_over_read() {
    let mut server = Server::new();
    let t = accept_ws(&mut server);
    let both = Readiness { readable: true, writable: true, hup: false };
    assert_eq!(server.dispatch(t, both), DispatchAction::WriteJob);
}

#[test]
fn dispatch_unknown_token_is_noop() {
    let mut server = Server::new();
    let _ = accept_ws(&mut server);
    assert_eq!(server.dispatch(99, readable()), DispatchAction::Ignored);
    assert_eq!(server.clients.len(), 1);
}

#[test]
fn dispatch_hangup_closes() {
    let mut server = Server::new();
    let t = accept_ws(&mut server);
    assert_eq!(server.dispatch(t, hangup()), DispatchAction::Closed);
    assert_eq!(server.clients.len(), 0);
    assert_eq!(server.dispatch(t, hangup()), DispatchAction::Ignored);
}

#[test]
fn close_twice_removes_exactly_once() {
    let mut server = Server::new();
    let t1 = accept_ws(&mut server);
    let t2 = accept_ws(&mut server);
    assert!(server.handle_client_close(t1));
    assert_eq!(server.clients.len(), 1);
    assert!(!server.handle_client_close(t1));
    assert_eq!(server.clients.len(), 1);
    assert_eq!(server.clients[0].token, t2);
}

#[test]
fn rearm_clears_in_flight() {
    let mut server = Server::new();
    let t = accept_ws(&mut server);
    let _ = server.dispatch(t, readable());
    assert!(server.clients[0].in_flight);
    let _ = server.handle_client_rearm(t);
    assert!(!server.clients[0].in_flight);
}

#[test]
fn rearm_unknown_token_is_noop() {
    let mut server = Server::new();
    assert_eq!(server.handle_client_rearm(42), None);
}

#[test]
fn broadcast_reaches_everyone_but_sender() {
    let mut server = Server::new();
    let t1 = accept_ws(&mut server);
    let _t2 = accept_ws(&mut server);
    let _t3 = accept_ws(&mut server);
    complete_handshake(&mut server, 0, "dGhlIHNhbXBsZSBub25jZQ==");
    complete_handshake(&mut server, 1, "x3JJHMbDL1EzLkh9GBhXDw==");
    // the third client never finishes its handshake and must be skipped
    server.handle_client_message(t1, String::from("hi"));
    assert!(server.clients[0].outbound.is_empty(), "the sender gets no echo");
    assert_eq!(server.clients[1].outbound.as_vec(), &vec![0x81, 0x02, 0x68, 0x69]);
    assert_eq!(server.clients[1].state, ClientState::RunningAndWriting);
    assert!(server.clients[2].outbound.is_empty(), "handshaking clients are skipped");
    assert_eq!(server.clients[2].state, ClientState::AwaitingHandshake);
}

#[test]
fn notify_routes_rearm_and_close() {
    let mut server = Server::new();
    let t = accept_ws(&mut server);
    let action = server.notify(EventMessage::ReArm(t));
    assert_eq!(action, NotifyAction::Rearm(t, Interest { readable: true, writable: false }));
    let action = server.notify(EventMessage::Close(t));
    assert_eq!(action, NotifyAction::Removed(t));
    assert_eq!(server.clients.len(), 0);
    let action = server.notify(EventMessage::Close(t));
    assert_eq!(action, NotifyAction::Nothing);
}

#[test]
fn notify_ping_queues_pong() {
    let mut server = Server::new();
    let t = accept_ws(&mut server);
    complete_handshake(&mut server, 0, "dGhlIHNhbXBsZSBub25jZQ==");
    let ping = ws_chat::frame::Frame {
        fin: true,
        opcode: ws_chat::frame::OpCode::Ping,
        payload: b"z".to_vec(),
    };
    let action = server.notify(EventMessage::Ping(t, ping));
    assert_eq!(action, NotifyAction::Nothing);
    assert_eq!(server.clients[0].outbound.as_vec(), &vec![0x8A, 0x01, b'z']);
    assert_eq!(server.clients[0].state, ClientState::RunningAndWriting);
}

#[test]
fn notify_pong_and_binary_change_nothing() {
    let mut server = Server::new();
    let t = accept_ws(&mut server);
    complete_handshake(&mut server, 0, "dGhlIHNhbXBsZSBub25jZQ==");
    assert_eq!(server.notify(EventMessage::Pong(t, b"z".to_vec())), NotifyAction::Nothing);
    assert_eq!(
        server.notify(EventMessage::BinaryFrame(t, vec![1, 2])),
        NotifyAction::Nothing
    );
    assert!(server.clients[0].outbound.is_empty());
    assert_eq!(server.clients[0].state, ClientState::Running);
}

#[test]
fn chat_scenario_handshake_then_broadcast() {
    let mut server = Server::new();
    let t1 = accept_ws(&mut server);
    let _t2 = accept_ws(&mut server);

    // first client sends its handshake with a known key
    server.clients[0].set_peer_key(String::from("dGhlIHNhbXBsZSBub25jZQ=="));
    let step = server.clients[0].on_upgrade();
    assert!(step.done);
    let expected = "HTTP/1.1 101 Switching Protocols\r\nConnection: Upgrade\r\nSec-WebSocket-Accept: s3pPLMBiTxaQ9kYGzzhZRbK+xOo=\r\nUpgrade: websocket\r\n\r\n";
    assert_eq!(server.clients[0].outbound.as_vec(), &expected.as_bytes().to_vec());
    let len = server.clients[0].outbound.len();
    let step = server.clients[0].handle_writable(WriteOutcome::Wrote(len));
    assert!(step.done);
    assert_eq!(server.clients[0].state, ClientState::Running);

    // second client completes its handshake too
    complete_handshake(&mut server, 1, "x3JJHMbDL1EzLkh9GBhXDw==");

    // the first client sends a masked text frame "hi"
    let mask = [9u8, 7, 5, 3];
    let wire = vec![0x81, 0x82, mask[0], mask[1], mask[2], mask[3], b'h' ^ mask[0], b'i' ^ mask[1]];
    let step = server.clients[0].handle_readable(ReadOutcome::Data(wire));
    assert_eq!(step.messages.len(), 1);

    // the reactor routes the delivered messages
    for message in step.messages {
        let _ = server.notify(message);
    }

    // the second client got a broadcast with "hi"; the sender got no echo
    assert_eq!(server.clients[1].outbound.as_vec(), &vec![0x81, 0x02, b'h', b'i']);
    assert!(server.clients[0].outbound.is_empty());
}
