//! Session state machine tests: handshake, terminality, timeouts.

use lockframe::connection::{
    Connection, ConnectionAction, ConnectionConfig, ConnectionState, ServerConnection,
};
use lockframe::frame::{Frame, FrameHeader, Opcode};

fn config() -> ConnectionConfig {
    ConnectionConfig {
        handshake_timeout_ms: 5000,
        idle_timeout_ms: 10000,
        heartbeat_interval_ms: 3000,
    }
}

fn frame_of(opcode: Opcode, context_id: u64) -> Frame {
    let mut header = FrameHeader::new(opcode);
    header.set_context_id(context_id);
    Frame::new(header, Vec::new())
}

#[test]
fn handshake_reaches_authenticated() {
    let mut conn = Connection::new(0, config());
    assert_eq!(conn.state(), ConnectionState::Init);
    assert_eq!(conn.session_id(), None);

    let action = conn.send_hello(0).expect("hello from init");
    assert!(matches!(action, ConnectionAction::SendFrame(_)));
    assert_eq!(conn.state(), ConnectionState::Pending);

    conn.handle_frame(&frame_of(Opcode::HelloReply, 555), 1).expect("reply accepted");
    assert_eq!(conn.state(), ConnectionState::Authenticated);
    assert_eq!(conn.session_id(), Some(555));
}

#[test]
fn hello_twice_is_rejected() {
    let mut conn = Connection::new(0, config());
    conn.send_hello(0).unwrap();
    assert!(conn.send_hello(1).is_err());
    assert_eq!(conn.state(), ConnectionState::Pending);
}

#[test]
fn session_id_never_changes() {
    let mut conn = Connection::new(0, config());
    conn.send_hello(0).unwrap();
    conn.handle_frame(&frame_of(Opcode::HelloReply, 111), 1).unwrap();
    assert_eq!(conn.session_id(), Some(111));

    // a second reply is a protocol violation and changes nothing
    let result = conn.handle_frame(&frame_of(Opcode::HelloReply, 222), 2);
    assert!(result.is_err());
    assert_eq!(conn.session_id(), Some(111));
}

#[test]
fn closed_is_terminal() {
    let mut conn = Connection::new(0, config());
    conn.close();
    assert_eq!(conn.state(), ConnectionState::Closed);

    assert!(conn.send_hello(1).is_err());
    assert!(conn.handle_frame(&frame_of(Opcode::Hello, 0), 2).is_err());
    let actions = conn.tick(99999);
    assert!(actions.is_empty());
    assert_eq!(conn.state(), ConnectionState::Closed);
}

#[test]
fn ping_gets_pong() {
    let mut conn = Connection::new(0, config());
    conn.send_hello(0).unwrap();
    conn.handle_frame(&frame_of(Opcode::HelloReply, 1), 1).unwrap();

    let actions = conn.handle_frame(&frame_of(Opcode::Ping, 0), 2).unwrap();
    assert_eq!(actions.len(), 1);
    match &actions[0] {
        ConnectionAction::SendFrame(frame) => {
            assert_eq!(frame.header.opcode_enum(), Some(Opcode::Pong));
        },
        _ => panic!("expected a pong frame"),
    }
}

#[test]
fn handshake_timeout_closes() {
    let mut conn = Connection::new(0, config());
    conn.send_hello(0).unwrap();
    assert!(!conn.check_timeout(4999));
    assert!(conn.check_timeout(5000));

    let actions = conn.tick(5000);
    assert!(actions.iter().any(|a| matches!(a, ConnectionAction::Close { .. })));
    assert_eq!(conn.state(), ConnectionState::Closed);
}

#[test]
fn idle_timeout_closes() {
    let mut conn = Connection::new(0, config());
    conn.send_hello(0).unwrap();
    conn.handle_frame(&frame_of(Opcode::HelloReply, 1), 100).unwrap();

    let quiet = conn.tick(100 + 9999);
    assert!(!quiet.iter().any(|a| matches!(a, ConnectionAction::Close { .. })));

    let actions = conn.tick(100 + 10000);
    assert!(actions.iter().any(|a| matches!(a, ConnectionAction::Close { .. })));
    assert_eq!(conn.state(), ConnectionState::Closed);
}

#[test]
fn unknown_opcode_never_panics() {
    let mut conn = Connection::new(0, config());
    conn.send_hello(0).unwrap();
    conn.handle_frame(&frame_of(Opcode::HelloReply, 1), 1).unwrap();

    let mut header = FrameHeader::new(Opcode::AppMessage);
    header.set_room_id(1);
    let mut raw = Frame::new(header, Vec::new());
    // an opcode outside the recognised range is rejected, not a panic
    raw.header = FrameHeader {
        opcode: 999,
        ..raw.header
    };
    let result = conn.handle_frame(&raw, 2);
    assert!(result.is_err());
    assert_eq!(conn.state(), ConnectionState::Authenticated);
}

#[test]
fn reply_before_hello_closes() {
    let mut conn = Connection::new(0, config());
    let result = conn.handle_frame(&frame_of(Opcode::HelloReply, 5), 1);
    assert!(result.is_err());
    assert_eq!(conn.state(), ConnectionState::Closed);
    assert_eq!(conn.session_id(), None);
}

#[test]
fn random_event_sequences_keep_the_session_invariants() {
    // a deterministic spray of event sequences, checking after every step
    // that Closed stays terminal, that Authenticated appears only through
    // the handshake, and that the session id never changes
    let opcodes = [
        Opcode::Hello,
        Opcode::HelloReply,
        Opcode::Ping,
        Opcode::Pong,
        Opcode::Goodbye,
        Opcode::AppMessage,
        Opcode::SyncRequest,
        Opcode::Error,
    ];
    let mut seed: u64 = 0x2468_ace0_1357_9bdf;
    let mut step = move || {
        seed = seed.wrapping_mul(6364136223846793005).wrapping_add(1442695040888963407);
        (seed >> 33) as u32
    };

    for _run in 0..50 {
        let mut conn = Connection::new(0, config());
        let mut now: u64 = 0;
        let mut fixed_session: Option<u64> = None;

        for _event in 0..40 {
            let before = conn.state();
            match step() % 4 {
                0 => {
                    let result = conn.send_hello(now);
                    if before != ConnectionState::Init {
                        assert!(result.is_err());
                    }
                },
                1 => {
                    let opcode = opcodes[(step() % 8) as usize];
                    let _ = conn.handle_frame(&frame_of(opcode, step() as u64), now);
                },
                2 => {
                    now += (step() % 120_000) as u64;
                    let actions = conn.tick(now);
                    for action in actions {
                        if matches!(action, ConnectionAction::Close { .. }) {
                            assert_eq!(conn.state(), ConnectionState::Closed);
                        }
                    }
                },
                _ => {
                    conn.close();
                    assert_eq!(conn.state(), ConnectionState::Closed);
                },
            }

            if before == ConnectionState::Closed {
                assert_eq!(conn.state(), ConnectionState::Closed, "Closed must be terminal");
            }
            if conn.state() == ConnectionState::Authenticated && before != ConnectionState::Authenticated
            {
                assert_eq!(before, ConnectionState::Pending);
            }
            if let Some(session_id) = conn.session_id() {
                match fixed_session {
                    Some(fixed) => assert_eq!(session_id, fixed, "session id changed"),
                    None => fixed_session = Some(session_id),
                }
            }
        }
    }
}

#[test]
fn server_session_answers_hello_with_assigned_id() {
    let mut conn = ServerConnection::new(0, config(), 9001);
    assert_eq!(conn.state(), ConnectionState::Init);
    assert_eq!(conn.session_id(), None);

    let actions = conn.handle_frame(&frame_of(Opcode::Hello, 0), 1).expect("hello accepted");
    assert_eq!(conn.state(), ConnectionState::Authenticated);
    assert_eq!(conn.session_id(), Some(9001));
    assert_eq!(actions.len(), 1);
    match &actions[0] {
        ConnectionAction::SendFrame(frame) => {
            assert_eq!(frame.header.opcode_enum(), Some(Opcode::HelloReply));
            assert_eq!(frame.header.context_id(), 9001);
        },
        _ => panic!("expected the hello reply"),
    }

    // a second hello is rejected and the id never changes
    assert!(conn.handle_frame(&frame_of(Opcode::Hello, 0), 2).is_err());
    assert_eq!(conn.session_id(), Some(9001));
}

#[test]
fn server_session_rejects_anything_before_hello() {
    let mut conn = ServerConnection::new(0, config(), 7);
    let result = conn.handle_frame(&frame_of(Opcode::Ping, 0), 1);
    assert!(result.is_err());
    assert_eq!(conn.state(), ConnectionState::Closed);
    assert_eq!(conn.session_id(), None);
}

#[test]
fn server_session_times_out_and_serves_pings() {
    // a peer that never says hello is closed at the handshake deadline
    let mut quiet = ServerConnection::new(0, config(), 1);
    let actions = quiet.tick(5000);
    assert!(actions.iter().any(|a| matches!(a, ConnectionAction::Close { .. })));
    assert_eq!(quiet.state(), ConnectionState::Closed);

    // an authenticated peer gets pongs until it goes idle
    let mut conn = ServerConnection::new(0, config(), 2);
    conn.handle_frame(&frame_of(Opcode::Hello, 0), 0).unwrap();
    let actions = conn.handle_frame(&frame_of(Opcode::Ping, 0), 100).unwrap();
    assert!(matches!(&actions[0], ConnectionAction::SendFrame(f)
        if f.header.opcode_enum() == Some(Opcode::Pong)));
    let actions = conn.tick(100 + 10000);
    assert!(actions.iter().any(|a| matches!(a, ConnectionAction::Close { .. })));
    assert_eq!(conn.state(), ConnectionState::Closed);
}
