//! Room manager tests: creation, validation, commits and sync.

use lockframe::env::Environment;
use lockframe::frame::{Frame, FrameHeader, Opcode};
use lockframe::mls::{MlsAction, MlsGroup, MlsGroupState};
use lockframe::room_manager::{RoomAction, RoomError, RoomManager};
use lockframe::storage::MemoryStorage;

#[derive(Clone)]
struct TestEnv;

impl Environment for TestEnv {
    fn now_millis(&self) -> u64 {
        0
    }

    fn random_bytes(&self, count: usize) -> Vec<u8> {
        (0..count).map(|i| (i as u8).wrapping_mul(37).wrapping_add(11)).collect()
    }
}

#[test]
fn room_manager_new_has_no_rooms() {
    let manager = RoomManager::new();
    assert!(!manager.has_room(0x1234));
}

#[test]
fn create_room_succeeds_for_new_room() {
    let env = TestEnv;
    let mut manager = RoomManager::new();
    let room_id = 0x1234_5678_90ab_cdef_1234_5678_90ab_cdef;
    let creator = 42;

    let result = manager.create_room(room_id, creator, &env);
    assert!(result.is_ok());
    assert!(manager.has_room(room_id));
}

#[test]
fn create_room_rejects_duplicate() {
    let env = TestEnv;
    let mut manager = RoomManager::new();
    let room_id = 0x1234_5678_90ab_cdef_1234_5678_90ab_cdef;
    let creator = 42;

    manager.create_room(room_id, creator, &env).unwrap();

    let result = manager.create_room(room_id, creator, &env);
    assert!(matches!(result, Err(RoomError::RoomAlreadyExists(_))));
}

#[test]
fn create_room_stores_metadata() {
    let env = TestEnv;
    let mut manager = RoomManager::new();
    let room_id = 0x1234_5678_90ab_cdef_1234_5678_90ab_cdef;
    let creator = 42;

    manager.create_room(room_id, creator, &env).unwrap();

    assert!(manager.has_room(room_id));
    let metadata = manager.metadata(room_id).expect("metadata recorded at creation");
    assert_eq!(metadata.creator, 42);
    assert!(manager.metadata(0x5555).is_none());
}

#[test]
fn create_multiple_rooms() {
    let env = TestEnv;
    let mut manager = RoomManager::new();

    let room1 = 0x1111_1111_1111_1111_1111_1111_1111_1111;
    let room2 = 0x2222_2222_2222_2222_2222_2222_2222_2222;
    let room3 = 0x3333_3333_3333_3333_3333_3333_3333_3333;

    manager.create_room(room1, 1, &env).unwrap();
    manager.create_room(room2, 2, &env).unwrap();
    manager.create_room(room3, 3, &env).unwrap();

    assert!(manager.has_room(room1));
    assert!(manager.has_room(room2));
    assert!(manager.has_room(room3));
}

#[test]
fn process_frame_rejects_unknown_room() {
    let env = TestEnv;
    let mut manager = RoomManager::new();
    let storage = MemoryStorage::new();

    let mut header = FrameHeader::new(Opcode::AppMessage);
    header.set_room_id(0x9999_9999_9999_9999_9999_9999_9999_9999);
    header.set_sender_id(42);
    header.set_epoch(0);
    let frame = Frame::new(header, Vec::new());

    let result = manager.process_frame(frame, &env, &storage);
    assert!(matches!(result, Err(RoomError::RoomNotFound(_))));
}

#[test]
fn process_frame_succeeds_for_valid_frame() {
    let env = TestEnv;
    let mut manager = RoomManager::new();
    let storage = MemoryStorage::new();

    let room_id = 0x1234_5678_90ab_cdef_1234_5678_90ab_cdef;
    let creator = 42;

    manager.create_room(room_id, creator, &env).unwrap();

    let mut header = FrameHeader::new(Opcode::AppMessage);
    header.set_room_id(room_id);
    header.set_sender_id(creator);
    header.set_epoch(0);
    let frame = Frame::new(header, Vec::new());

    let result = manager.process_frame(frame, &env, &storage);
    if let Err(ref e) = result {
        panic!("process_frame failed: {:?}", e);
    }
    assert!(result.is_ok());

    let actions = result.unwrap();
    // accept and store both become persists, then the broadcast
    assert!(!actions.is_empty());
    assert_eq!(actions.len(), 3);
}

#[test]
fn process_frame_returns_correct_action_types() {
    let env = TestEnv;
    let mut manager = RoomManager::new();
    let storage = MemoryStorage::new();

    let room_id = 0x1234_5678_90ab_cdef_1234_5678_90ab_cdef;
    let creator = 42;

    manager.create_room(room_id, creator, &env).unwrap();

    let mut header = FrameHeader::new(Opcode::AppMessage);
    header.set_room_id(room_id);
    header.set_sender_id(creator);
    header.set_epoch(0);
    let frame = Frame::new(header, b"test message".to_vec());

    let result = manager.process_frame(frame, &env, &storage);
    assert!(result.is_ok());

    let actions = result.unwrap();

    assert!(matches!(actions[0], RoomAction::PersistFrame { .. }));
    assert!(matches!(actions[1], RoomAction::PersistFrame { .. }));

    assert!(matches!(actions[2], RoomAction::Broadcast { .. }));
}

#[test]
fn process_frame_rejects_wrong_epoch() {
    let env = TestEnv;
    let mut manager = RoomManager::new();
    let mut storage = MemoryStorage::new();

    let room_id = 0x1234_5678_90ab_cdef_1234_5678_90ab_cdef;
    let creator = 42;

    manager.create_room(room_id, creator, &env).unwrap();

    let mls_state = MlsGroupState::new(room_id, 0, [0u8; 32], vec![creator], vec![]);
    storage.store_mls_state(room_id, &mls_state).unwrap();

    // epoch 5, but the room is at epoch 0
    let mut header = FrameHeader::new(Opcode::AppMessage);
    header.set_room_id(room_id);
    header.set_sender_id(creator);
    header.set_epoch(5);
    let frame = Frame::new(header, Vec::new());

    let result = manager.process_frame(frame, &env, &storage);
    match result {
        Err(RoomError::InvalidEpoch { expected, actual }) => {
            assert_eq!(expected, 0);
            assert_eq!(actual, 5);
        },
        other => panic!("expected an epoch rejection, got {:?}", other),
    }
}

#[test]
fn process_commit_advances_epoch() {
    let env = TestEnv;
    let mut manager = RoomManager::new();
    let mut storage = MemoryStorage::new();

    let room_id = 0x1234_5678_90ab_cdef_1234_5678_90ab_cdef;
    let creator = 42;

    manager.create_room(room_id, creator, &env).unwrap();
    assert_eq!(manager.epoch(room_id), Some(0), "Room should start at epoch 0");

    let mls_state = MlsGroupState::new(room_id, 0, [0u8; 32], vec![creator], vec![]);
    storage.store_mls_state(room_id, &mls_state).unwrap();

    let new_member_id = 100u64;
    let (key_package_bytes, _hash) = MlsGroup::generate_key_package(&env, new_member_id);

    let add_actions =
        manager.add_members(room_id, &vec![key_package_bytes]).expect("add_members should succeed");

    assert_eq!(manager.epoch(room_id), Some(0), "Epoch should be 0 before commit processed");

    let commit_frame = add_actions
        .iter()
        .find_map(|a| match a {
            MlsAction::SendCommit(frame) => Some(Frame::decode(&frame.encode()).unwrap()),
            _ => None,
        })
        .expect("add_members should produce a Commit frame");

    let mut header = commit_frame.header;
    header.set_room_id(room_id);
    header.set_sender_id(creator);
    header.set_epoch(0);
    let commit_frame = Frame::new(header, commit_frame.payload);

    let result = manager.process_frame(commit_frame, &env, &storage);
    assert!(result.is_ok(), "process_frame should succeed");

    assert_eq!(
        manager.epoch(room_id),
        Some(1),
        "Epoch should advance to 1 after processing Commit"
    );

    let mls_state =
        MlsGroupState::new(room_id, 1, [0u8; 32], vec![creator, new_member_id], vec![]);
    storage.store_mls_state(room_id, &mls_state).unwrap();

    let mut header = FrameHeader::new(Opcode::AppMessage);
    header.set_room_id(room_id);
    header.set_sender_id(creator);
    header.set_epoch(1);
    let msg_frame = Frame::new(header, b"message at epoch 1".to_vec());

    let result = manager.process_frame(msg_frame, &env, &storage);

    assert!(
        result.is_ok(),
        "Message at epoch 1 should be accepted after commit. Error: {:?}",
        result.err()
    );

    // the same message at the old epoch is rejected
    let mut header = FrameHeader::new(Opcode::AppMessage);
    header.set_room_id(room_id);
    header.set_sender_id(creator);
    header.set_epoch(0);
    let stale_frame = Frame::new(header, b"message at epoch 1".to_vec());
    match manager.process_frame(stale_frame, &env, &storage) {
        Err(RoomError::InvalidEpoch { expected, actual }) => {
            assert_eq!(expected, 1);
            assert_eq!(actual, 0);
        },
        other => panic!("expected an epoch rejection, got {:?}", other),
    }
}

#[test]
fn handle_sync_request_returns_stored_frames() {
    let env = TestEnv;
    let mut manager = RoomManager::new();
    let mut storage = MemoryStorage::new();

    let room_id = 0x1234_5678_90ab_cdef_1234_5678_90ab_cdef;
    let creator = 42;
    let requester = 100;

    manager.create_room(room_id, creator, &env).unwrap();

    for i in 0..5 {
        let mut header = FrameHeader::new(Opcode::AppMessage);
        header.set_room_id(room_id);
        header.set_sender_id(creator);
        header.set_log_index(i);
        header.set_epoch(0);
        let frame = Frame::new(header, format!("message {i}").into_bytes());
        storage.store_frame(room_id, i, &frame).unwrap();
    }

    let result = manager.handle_sync_request(room_id, requester, 0, 10, &env, &storage);
    assert!(result.is_ok());

    let action = result.unwrap();
    match action {
        RoomAction::SendSyncResponse {
            sender_id,
            room_id: rid,
            frames,
            has_more,
            server_epoch,
            ..
        } => {
            assert_eq!(sender_id, requester);
            assert_eq!(rid, room_id);
            assert_eq!(frames.len(), 5);
            assert!(!has_more);
            assert_eq!(server_epoch, 0);
        },
        _ => panic!("Expected SendSyncResponse action"),
    }
}

#[test]
fn handle_sync_request_paginates_with_limit() {
    let env = TestEnv;
    let mut manager = RoomManager::new();
    let mut storage = MemoryStorage::new();

    let room_id = 0x1234_5678_90ab_cdef_1234_5678_90ab_cdef;
    let creator = 42;

    manager.create_room(room_id, creator, &env).unwrap();

    for i in 0..10 {
        let mut header = FrameHeader::new(Opcode::AppMessage);
        header.set_room_id(room_id);
        header.set_sender_id(creator);
        header.set_log_index(i);
        header.set_epoch(0);
        let frame = Frame::new(header, format!("message {i}").into_bytes());
        storage.store_frame(room_id, i, &frame).unwrap();
    }

    let result = manager.handle_sync_request(room_id, 100, 0, 3, &env, &storage);
    assert!(result.is_ok());

    let action = result.unwrap();
    match action {
        RoomAction::SendSyncResponse { frames, has_more, .. } => {
            assert_eq!(frames.len(), 3);
            assert!(has_more, "Should indicate more frames available");
        },
        _ => panic!("Expected SendSyncResponse action"),
    }

    let result = manager.handle_sync_request(room_id, 100, 3, 3, &env, &storage);
    assert!(result.is_ok());

    let action = result.unwrap();
    match action {
        RoomAction::SendSyncResponse { frames, has_more, .. } => {
            assert_eq!(frames.len(), 3);
            assert!(has_more, "Should still indicate more frames available");
        },
        _ => panic!("Expected SendSyncResponse action"),
    }

    // the final frame arrives alone and ends the pagination
    let result = manager.handle_sync_request(room_id, 100, 9, 3, &env, &storage);
    match result.unwrap() {
        RoomAction::SendSyncResponse { frames, has_more, .. } => {
            assert_eq!(frames.len(), 1);
            assert!(!has_more);
        },
        _ => panic!("Expected SendSyncResponse action"),
    }
}

#[test]
fn handle_sync_request_unknown_room_fails() {
    let env = TestEnv;
    let manager = RoomManager::new();
    let storage = MemoryStorage::new();

    let result = manager.handle_sync_request(
        0x9999_9999_9999_9999_9999_9999_9999_9999,
        100,
        0,
        10,
        &env,
        &storage,
    );

    assert!(matches!(result, Err(RoomError::RoomNotFound(_))));
}

#[test]
fn sync_replays_what_a_connected_client_received() {
    // replaying batches until has_more is false yields the whole log
    let env = TestEnv;
    let mut manager = RoomManager::new();
    let mut storage = MemoryStorage::new();

    let room_id = 7;
    let creator = 42;
    manager.create_room(room_id, creator, &env).unwrap();

    let mut broadcast_encoded: Vec<Vec<u8>> = Vec::new();
    for i in 0..10u64 {
        let mut header = FrameHeader::new(Opcode::AppMessage);
        header.set_room_id(room_id);
        header.set_sender_id(creator);
        header.set_log_index(i);
        header.set_epoch(0);
        let frame = Frame::new(header, format!("ordered {i}").into_bytes());
        broadcast_encoded.push(frame.encode());
        storage.store_frame(room_id, i, &frame).unwrap();
    }

    let mut replayed: Vec<Vec<u8>> = Vec::new();
    let mut from = 0u64;
    loop {
        let action = manager.handle_sync_request(room_id, 9, from, 3, &env, &storage).unwrap();
        match action {
            RoomAction::SendSyncResponse { frames, has_more, .. } => {
                from += frames.len() as u64;
                replayed.extend(frames);
                if !has_more {
                    break;
                }
            },
            _ => panic!("Expected SendSyncResponse action"),
        }
    }
    assert_eq!(replayed, broadcast_encoded);
}

#[derive(Clone)]
struct LateEnv;

impl Environment for LateEnv {
    fn now_millis(&self) -> u64 {
        777
    }

    fn random_bytes(&self, count: usize) -> Vec<u8> {
        (0..count).map(|i| i as u8).collect()
    }
}

#[test]
fn sequenced_frames_carry_the_server_timestamp() {
    let env = LateEnv;
    let mut manager = RoomManager::new();
    let storage = MemoryStorage::new();

    let room_id = 5;
    let creator = 42;
    manager.create_room(room_id, creator, &env).unwrap();

    let mut header = FrameHeader::new(Opcode::AppMessage);
    header.set_room_id(room_id);
    header.set_sender_id(creator);
    header.set_epoch(0);
    // whatever the sender claims, the server stamps its own clock
    header.set_hlc_timestamp(1);
    let frame = Frame::new(header, b"timed".to_vec());

    let actions = manager.process_frame(frame, &env, &storage).unwrap();
    for action in &actions {
        match action {
            RoomAction::PersistFrame { frame, .. } | RoomAction::Broadcast { frame, .. } => {
                assert_eq!(frame.header.hlc_timestamp(), 777);
            },
            _ => {},
        }
    }
}
