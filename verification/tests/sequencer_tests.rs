//! Sequencer tests with oracle checks on the persisted order.

use lockframe::frame::{Frame, FrameHeader, Opcode};
use lockframe::mls::{MlsGroupState, MlsValidator};
use lockframe::sequencer::{Sequencer, SequencerAction};
use lockframe::storage::MemoryStorage;

fn create_test_frame(room_id: u128, sender_id: u64, epoch: u64, payload: &str) -> Frame {
    let mut header = FrameHeader::new(Opcode::AppMessage);
    header.set_room_id(room_id);
    header.set_sender_id(sender_id);
    header.set_epoch(epoch);

    Frame::new(header, payload.as_bytes().to_vec())
}

fn create_test_state(room_id: u128, epoch: u64, members: Vec<u64>) -> MlsGroupState {
    MlsGroupState::new(room_id, epoch, [0u8; 32], members, vec![])
}

fn verify_sequential_indices(storage: &MemoryStorage, room_id: u128, expected_count: usize) {
    let frames = storage.load_frames(room_id, 0, expected_count + 10).expect("load_frames failed");

    assert_eq!(
        frames.len(),
        expected_count,
        "expected {} frames, got {}",
        expected_count,
        frames.len()
    );

    for (i, frame) in frames.iter().enumerate() {
        assert_eq!(
            frame.header.log_index(),
            i as u64,
            "gap detected: expected log_index={}, got={}",
            i,
            frame.header.log_index()
        );
    }
}

fn verify_epoch_consistency(storage: &MemoryStorage, room_id: u128, expected_epoch: u64) {
    let frames = storage.load_frames(room_id, 0, 1000).expect("load_frames failed");

    for frame in frames {
        assert_eq!(
            frame.header.epoch(),
            expected_epoch,
            "frame has wrong epoch: expected {}, got {}",
            expected_epoch,
            frame.header.epoch()
        );
    }
}

#[test]
fn test_single_client_sequencing() {
    let mut sequencer = Sequencer::new();
    let mut storage = MemoryStorage::new();
    let validator = MlsValidator;

    let room_id = 100;
    let sender_id = 200;

    let state = create_test_state(room_id, 0, vec![sender_id]);
    storage.store_mls_state(room_id, &state).expect("store_mls_state failed");

    for i in 0..5 {
        let frame = create_test_frame(room_id, sender_id, 0, &format!("msg-{}", i));
        let actions =
            sequencer.process_frame(frame, &storage, &validator).expect("process_frame failed");

        for action in actions {
            if let SequencerAction::StoreFrame { room_id, log_index, frame } = action {
                storage.store_frame(room_id, log_index, &frame).expect("store_frame failed");
            }
        }
    }

    verify_sequential_indices(&storage, room_id, 5);
    verify_epoch_consistency(&storage, room_id, 0);
}

#[test]
fn test_concurrent_clients() {
    let mut sequencer = Sequencer::new();
    let mut storage = MemoryStorage::new();
    let validator = MlsValidator;

    let room_id = 100;
    let client_a = 200;
    let client_b = 300;

    let state = create_test_state(room_id, 0, vec![client_a, client_b]);
    storage.store_mls_state(room_id, &state).expect("store_mls_state failed");

    let frames = vec![
        (client_a, "a1"),
        (client_b, "b1"),
        (client_a, "a2"),
        (client_b, "b2"),
        (client_a, "a3"),
        (client_b, "b3"),
    ];

    for (sender, payload) in frames {
        let frame = create_test_frame(room_id, sender, 0, payload);
        let actions =
            sequencer.process_frame(frame, &storage, &validator).expect("process_frame failed");

        for action in actions {
            if let SequencerAction::StoreFrame { room_id, log_index, frame } = action {
                storage.store_frame(room_id, log_index, &frame).expect("store_frame failed");
            }
        }
    }

    verify_sequential_indices(&storage, room_id, 6);

    let stored_frames = storage.load_frames(room_id, 0, 10).expect("load_frames failed");
    let payloads: Vec<String> =
        stored_frames.iter().map(|f| String::from_utf8_lossy(&f.payload).to_string()).collect();

    assert_eq!(payloads, vec!["a1", "b1", "a2", "b2", "a3", "b3"]);
}

#[test]
fn test_epoch_boundary() {
    let mut sequencer = Sequencer::new();
    let mut storage = MemoryStorage::new();
    let validator = MlsValidator;

    let room_id = 100;
    let sender_id = 200;

    let state = create_test_state(room_id, 0, vec![sender_id]);
    storage.store_mls_state(room_id, &state).expect("store_mls_state failed");

    for i in 0..3 {
        let frame = create_test_frame(room_id, sender_id, 0, &format!("epoch0-{}", i));
        let actions =
            sequencer.process_frame(frame, &storage, &validator).expect("process_frame failed");

        for action in actions {
            if let SequencerAction::StoreFrame { room_id, log_index, frame } = action {
                storage.store_frame(room_id, log_index, &frame).expect("store_frame failed");
            }
        }
    }

    // the room advances to epoch 1
    let new_state = create_test_state(room_id, 1, vec![sender_id]);
    storage.store_mls_state(room_id, &new_state).expect("store_mls_state failed");

    // a fresh sequencer derives its order from storage
    let mut new_sequencer = Sequencer::new();

    // a frame still at the old epoch is rejected
    let old_epoch_frame = create_test_frame(room_id, sender_id, 0, "stale");
    let actions = new_sequencer
        .process_frame(old_epoch_frame, &storage, &validator)
        .expect("process_frame failed");

    assert_eq!(actions.len(), 1);
    match &actions[0] {
        SequencerAction::RejectFrame { reason, .. } => {
            assert!(reason.contains("epoch mismatch"), "got: {}", reason);
        },
        _ => panic!("expected RejectFrame, got: {:?}", actions[0]),
    }

    // a frame at the new epoch is accepted
    let new_epoch_frame = create_test_frame(room_id, sender_id, 1, "epoch1-0");
    let actions = new_sequencer
        .process_frame(new_epoch_frame, &storage, &validator)
        .expect("process_frame failed");

    for action in actions {
        if let SequencerAction::StoreFrame { room_id, log_index, frame } = action {
            storage.store_frame(room_id, log_index, &frame).expect("store_frame failed");
        }
    }

    verify_sequential_indices(&storage, room_id, 4);
}

#[test]
fn test_sequencer_restart() {
    let mut storage = MemoryStorage::new();
    let validator = MlsValidator;

    let room_id = 100;
    let sender_id = 200;

    let state = create_test_state(room_id, 0, vec![sender_id]);
    storage.store_mls_state(room_id, &state).expect("store_mls_state failed");

    {
        let mut sequencer = Sequencer::new();

        for i in 0..5 {
            let frame = create_test_frame(room_id, sender_id, 0, &format!("msg-{}", i));
            let actions = sequencer
                .process_frame(frame, &storage, &validator)
                .expect("process_frame failed");

            for action in actions {
                if let SequencerAction::StoreFrame { room_id, log_index, frame } = action {
                    storage.store_frame(room_id, log_index, &frame).expect("store_frame failed");
                }
            }
        }
    }  // the sequencer is dropped, as in a crash

    {
        let mut sequencer = Sequencer::new();

        for i in 5..10 {
            let frame = create_test_frame(room_id, sender_id, 0, &format!("msg-{}", i));
            let actions = sequencer
                .process_frame(frame, &storage, &validator)
                .expect("process_frame failed");

            for action in actions {
                if let SequencerAction::StoreFrame { room_id, log_index, frame } = action {
                    storage.store_frame(room_id, log_index, &frame).expect("store_frame failed");
                }
            }
        }
    }

    verify_sequential_indices(&storage, room_id, 10);

    let frames = storage.load_frames(room_id, 0, 20).expect("load_frames failed");
    for window in frames.windows(2) {
        let prev = window[0].header.log_index();
        let next = window[1].header.log_index();
        assert_eq!(next, prev + 1, "non-monotonic sequence: {} -> {}", prev, next);
    }
}

#[test]
fn test_multiple_rooms_isolation() {
    let mut sequencer = Sequencer::new();
    let mut storage = MemoryStorage::new();
    let validator = MlsValidator;

    for room_id in [100, 200] {
        let state = create_test_state(room_id, 0, vec![300]);
        storage.store_mls_state(room_id, &state).expect("store_mls_state failed");
    }

    for i in 0..10 {
        let room_id = if i % 2 == 0 { 100 } else { 200 };
        let frame = create_test_frame(room_id, 300, 0, &format!("room{}-{}", room_id, i));
        let actions =
            sequencer.process_frame(frame, &storage, &validator).expect("process_frame failed");

        for action in actions {
            if let SequencerAction::StoreFrame { room_id, log_index, frame } = action {
                storage.store_frame(room_id, log_index, &frame).expect("store_frame failed");
            }
        }
    }

    verify_sequential_indices(&storage, 100, 5);
    verify_sequential_indices(&storage, 200, 5);

    let room100_frames = storage.load_frames(100, 0, 10).expect("load_frames failed");
    for frame in room100_frames {
        let payload = String::from_utf8_lossy(&frame.payload);
        assert!(payload.contains("room100"), "payload: {}", payload);
    }

    let room200_frames = storage.load_frames(200, 0, 10).expect("load_frames failed");
    for frame in room200_frames {
        let payload = String::from_utf8_lossy(&frame.payload);
        assert!(payload.contains("room200"), "payload: {}", payload);
    }
}

#[test]
fn test_non_member_rejection_total_ordering_preserved() {
    let mut sequencer = Sequencer::new();
    let mut storage = MemoryStorage::new();
    let validator = MlsValidator;

    let room_id = 100;
    let member = 200;
    let non_member = 999;

    let state = create_test_state(room_id, 0, vec![member]);
    storage.store_mls_state(room_id, &state).expect("store_mls_state failed");

    let frames = vec![
        (member, true),
        (non_member, false),
        (member, true),
        (non_member, false),
        (member, true),
    ];

    let mut accepted_count = 0;
    let mut rejected_count = 0;

    for (sender, should_accept) in frames {
        let frame = create_test_frame(room_id, sender, 0, &format!("sender-{}", sender));
        let actions =
            sequencer.process_frame(frame, &storage, &validator).expect("process_frame failed");

        match &actions[0] {
            SequencerAction::AcceptFrame { .. } => {
                assert!(should_accept, "frame from {} should be rejected", sender);
                accepted_count += 1;

                for action in actions {
                    if let SequencerAction::StoreFrame { room_id, log_index, frame } = action {
                        storage
                            .store_frame(room_id, log_index, &frame)
                            .expect("store_frame failed");
                    }
                }
            },
            SequencerAction::RejectFrame { reason, .. } => {
                assert!(!should_accept, "frame from {} should be accepted", sender);
                assert!(reason.contains("not in group"), "unexpected reason: {}", reason);
                rejected_count += 1;
            },
            _ => panic!("unexpected action: {:?}", actions[0]),
        }
    }

    assert_eq!(accepted_count, 3);
    assert_eq!(rejected_count, 2);

    verify_sequential_indices(&storage, room_id, 3);

    let frames = storage.load_frames(room_id, 0, 10).expect("load_frames failed");
    for frame in frames {
        assert_eq!(frame.header.sender_id(), member, "non-member frame was stored!");
    }
}
