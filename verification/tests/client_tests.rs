//! Client state machine tests, including the end-to-end room scenarios.

use lockframe::client::{Client, ClientAction, ClientError, ClientEvent, ClientIdentity};
use lockframe::env::Environment;
use lockframe::frame::{Frame, FrameHeader, Opcode};
use lockframe::payload::deserialize_encrypted_message;

#[derive(Clone)]
struct TestEnv;

impl Environment for TestEnv {
    fn now_millis(&self) -> u64 {
        0
    }

    fn random_bytes(&self, count: usize) -> Vec<u8> {
        // deterministic for tests
        (0..count).map(|i| i as u8).collect()
    }
}

#[test]
fn create_client() {
    let env = TestEnv;
    let identity = ClientIdentity::new(42);
    let client: Client<TestEnv> = Client::new(env, identity);

    assert_eq!(client.sender_id(), 42);
    assert_eq!(client.room_count(), 0);
}

#[test]
fn create_room() {
    let env = TestEnv;
    let identity = ClientIdentity::new(42);
    let mut client = Client::new(env, identity);

    let room_id = 0x1234_5678_9abc_def0_u128;
    let actions = client.handle(ClientEvent::CreateRoom { room_id }).unwrap();

    assert!(client.is_member(room_id));
    assert_eq!(client.epoch(room_id), Some(0));
    assert!(!actions.is_empty());
    // one send for the group setup and one log entry
    assert_eq!(actions.len(), 2);
    assert!(matches!(actions[0], ClientAction::Send(_)));
    assert!(matches!(actions[1], ClientAction::Log { .. }));
}

#[test]
fn create_duplicate_room_fails() {
    let env = TestEnv;
    let identity = ClientIdentity::new(42);
    let mut client = Client::new(env, identity);

    let room_id = 0x1234_u128;
    client.handle(ClientEvent::CreateRoom { room_id }).unwrap();

    let result = client.handle(ClientEvent::CreateRoom { room_id });
    assert!(matches!(result, Err(ClientError::RoomAlreadyExists { .. })));
    assert_eq!(client.room_count(), 1);
}

#[test]
fn send_message_to_unknown_room_fails() {
    let env = TestEnv;
    let identity = ClientIdentity::new(42);
    let mut client = Client::new(env, identity);

    let result = client.handle(ClientEvent::SendMessage {
        room_id: 0x9999_u128,
        plaintext: b"hello".to_vec(),
    });

    assert!(matches!(result, Err(ClientError::RoomNotFound { .. })));
}

#[test]
fn leave_room() {
    let env = TestEnv;
    let identity = ClientIdentity::new(42);
    let mut client = Client::new(env, identity);

    let room_id = 0x1234_u128;
    client.handle(ClientEvent::CreateRoom { room_id }).unwrap();
    assert!(client.is_member(room_id));

    let actions = client.handle(ClientEvent::LeaveRoom { room_id }).unwrap();
    assert!(!client.is_member(room_id));
    assert!(matches!(actions[0], ClientAction::RoomRemoved { .. }));
}

#[test]
fn leave_unknown_room_fails() {
    let env = TestEnv;
    let identity = ClientIdentity::new(42);
    let mut client = Client::new(env, identity);

    let result = client.handle(ClientEvent::LeaveRoom { room_id: 0x9999_u128 });
    assert!(matches!(result, Err(ClientError::RoomNotFound { .. })));
}

#[test]
fn send_message_produces_encrypted_frame() {
    let env = TestEnv;
    let identity = ClientIdentity::new(42);
    let mut client = Client::new(env, identity);

    let room_id = 0x1234_u128;
    client.handle(ClientEvent::CreateRoom { room_id }).unwrap();

    let actions = client
        .handle(ClientEvent::SendMessage { room_id, plaintext: b"Hello, World!".to_vec() })
        .unwrap();

    // exactly one send action carrying the encrypted frame
    assert_eq!(actions.len(), 1);
    match &actions[0] {
        ClientAction::Send(frame) => {
            assert_eq!(frame.header.opcode_enum(), Some(Opcode::AppMessage));
            assert_eq!(frame.header.room_id(), room_id);
            assert_eq!(frame.header.epoch(), 0);
            // payload is encrypted, not the plaintext
            assert!(!frame.payload.is_empty());
            assert_ne!(frame.payload.as_slice(), b"Hello, World!".as_slice());
            // the payload opens with epoch 0, sender index 0, generation 0
            assert_eq!(&frame.payload[0..8], &0u64.to_be_bytes());
            assert_eq!(&frame.payload[8..12], &0u32.to_be_bytes());
            assert_eq!(&frame.payload[12..16], &0u32.to_be_bytes());
        },
        _ => panic!("Expected Send action"),
    }
    // the own send chain advanced to generation one
    assert_eq!(client.sender_generation(room_id, 0), Some(1));
}

#[test]
fn encrypt_decrypt_roundtrip_same_client() {
    // send and receive chains are separate per member, so a member can
    // decrypt its own frame once the server echoes it back ordered
    let env = TestEnv;
    let identity = ClientIdentity::new(42);
    let mut client = Client::new(env, identity);

    let room_id = 0x1234_u128;
    client.handle(ClientEvent::CreateRoom { room_id }).unwrap();

    let plaintext = b"Secret message";
    let actions = client
        .handle(ClientEvent::SendMessage { room_id, plaintext: plaintext.to_vec() })
        .unwrap();

    let frame = match &actions[0] {
        ClientAction::Send(f) => Frame::decode(&f.encode()).expect("frame round-trips"),
        _ => panic!("Expected Send action"),
    };

    // the encrypted payload deserialises and carries the expected fields
    let encrypted = deserialize_encrypted_message(&frame.payload).unwrap();
    assert_eq!(encrypted.epoch, 0);
    assert_eq!(encrypted.sender_index, 0); // the creator is leaf 0
    assert_eq!(encrypted.generation, 0); // first message
    assert!(!encrypted.ciphertext.is_empty());

    // the sender's ratchet advanced
    assert_eq!(client.sender_generation(room_id, 0), Some(1));

    // the echoed frame decrypts back to the plaintext
    let delivered = client.handle(ClientEvent::FrameReceived(frame)).unwrap();
    assert_eq!(delivered.len(), 1);
    match &delivered[0] {
        ClientAction::DeliverMessage { room_id: rid, sender_id, plaintext: body, .. } => {
            assert_eq!(*rid, room_id);
            assert_eq!(*sender_id, 42);
            assert_eq!(body.as_slice(), plaintext.as_slice());
        },
        _ => panic!("Expected DeliverMessage action"),
    }
}

#[test]
fn epoch_mismatch_is_reported_with_both_epochs() {
    // a frame from a later epoch is rejected recoverably
    let env = TestEnv;
    let identity = ClientIdentity::new(42);
    let mut client = Client::new(env, identity);

    let room_id = 0x1234_u128;
    client.handle(ClientEvent::CreateRoom { room_id }).unwrap();

    let mut header = FrameHeader::new(Opcode::AppMessage);
    header.set_room_id(room_id);
    header.set_sender_id(7);
    header.set_epoch(1);
    let frame = Frame::new(header, vec![0u8; 44]);

    let result = client.handle(ClientEvent::FrameReceived(frame));
    match result {
        Err(ClientError::EpochMismatch { expected, actual }) => {
            assert_eq!(expected, 0);
            assert_eq!(actual, 1);
        },
        other => panic!("expected an epoch mismatch, got {:?}", other.is_ok()),
    }
    let err = ClientError::EpochMismatch { expected: 0, actual: 1 };
    assert!(!err.is_fatal());
}

#[test]
fn join_room_requires_key_packages() {
    let env = TestEnv;
    let identity = ClientIdentity::new(42);
    let mut client = Client::new(env, identity);

    let result = client.handle(ClientEvent::JoinRoom { room_id: 5, welcome: vec![1, 2, 3] });
    assert!(matches!(result, Err(ClientError::InvalidState { .. })));
}

#[test]
fn tick_is_quiet() {
    let env = TestEnv;
    let identity = ClientIdentity::new(42);
    let mut client = Client::new(env, identity);
    let actions = client.handle(ClientEvent::Tick { now: 17 }).unwrap();
    assert!(actions.is_empty());
}

#[test]
fn identical_runs_produce_identical_frames() {
    // determinism: the same seedless environment and the same events give
    // byte-identical output on two independent runs
    let run = || {
        let mut client = Client::new(TestEnv, ClientIdentity::new(42));
        let room_id = 0xabcd_u128;
        client.handle(ClientEvent::CreateRoom { room_id }).unwrap();
        let actions = client
            .handle(ClientEvent::SendMessage { room_id, plaintext: b"same every time".to_vec() })
            .unwrap();
        match &actions[0] {
            ClientAction::Send(frame) => frame.encode(),
            _ => panic!("Expected Send action"),
        }
    };
    let first = run();
    let second = run();
    assert_eq!(first, second);
}

#[test]
fn add_members_emits_commit_and_welcome() {
    let env = TestEnv;
    let mut client = Client::new(env.clone(), ClientIdentity::new(42));
    let room_id = 0x1234_u128;
    client.handle(ClientEvent::CreateRoom { room_id }).unwrap();

    let (key_package, _hash) = lockframe::mls::MlsGroup::generate_key_package(&env, 100);
    let actions = client
        .handle(ClientEvent::AddMembers { room_id, key_packages: vec![key_package] })
        .unwrap();

    assert_eq!(actions.len(), 2);
    let mut opcodes = Vec::new();
    for action in &actions {
        match action {
            ClientAction::Send(frame) => opcodes.push(frame.header.opcode_enum()),
            _ => panic!("staging a commit only sends frames"),
        }
    }
    assert_eq!(opcodes, vec![Some(Opcode::Commit), Some(Opcode::Welcome)]);
}

#[test]
fn peer_commit_advances_client_epoch_and_rekeys() {
    let env = TestEnv;
    // one member stages the commit, the other applies it from the wire
    let mut adder = Client::new(env.clone(), ClientIdentity::new(1));
    let mut watcher = Client::new(env.clone(), ClientIdentity::new(1));
    let room_id = 9u128;
    adder.handle(ClientEvent::CreateRoom { room_id }).unwrap();
    watcher.handle(ClientEvent::CreateRoom { room_id }).unwrap();

    let (key_package, _) = lockframe::mls::MlsGroup::generate_key_package(&env, 2);
    let actions = adder
        .handle(ClientEvent::AddMembers { room_id, key_packages: vec![key_package] })
        .unwrap();
    let commit = match &actions[0] {
        ClientAction::Send(frame) => Frame::decode(&frame.encode()).unwrap(),
        _ => panic!("expected the commit frame"),
    };

    let applied = watcher.handle(ClientEvent::FrameReceived(commit)).unwrap();
    assert_eq!(watcher.epoch(room_id), Some(1));
    // the epoch change is persisted for recovery
    assert!(matches!(applied.last(), Some(ClientAction::PersistRoom(_))));
    // fresh sender keys for the new epoch start at generation zero
    assert_eq!(watcher.sender_generation(room_id, 0), Some(0));
}
