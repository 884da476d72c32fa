//! Group adapter tests: commits, rosters, secrets.

use lockframe::env::Environment;
use lockframe::frame::{Frame, Opcode};
use lockframe::mls::{MlsAction, MlsError, MlsGroup};

#[derive(Clone)]
struct TestEnv;

impl Environment for TestEnv {
    fn now_millis(&self) -> u64 {
        0
    }

    fn random_bytes(&self, count: usize) -> Vec<u8> {
        (0..count).map(|i| (i as u8).wrapping_mul(13).wrapping_add(5)).collect()
    }
}

#[test]
fn new_group_starts_at_epoch_zero() {
    let (group, actions) = MlsGroup::new(77, 42);
    assert_eq!(group.epoch(), 0);
    assert_eq!(group.room_id(), 77);
    assert_eq!(group.own_leaf_index(), 0);
    assert_eq!(group.member_leaf_indices(), vec![0]);
    assert_eq!(actions.len(), 1);
    match &actions[0] {
        MlsAction::SendProposal(frame) => {
            assert_eq!(frame.header.opcode_enum(), Some(Opcode::Proposal));
            assert_eq!(frame.header.room_id(), 77);
        },
        _ => panic!("expected the setup proposal"),
    }
}

#[test]
fn add_members_stages_a_commit_and_welcomes() {
    let env = TestEnv;
    let (mut group, _) = MlsGroup::new(77, 42);
    let (kp, _hash) = MlsGroup::generate_key_package(&env, 100);

    assert!(!group.has_pending_commit());
    let actions = group.add_members_from_bytes(&vec![kp]).expect("staging succeeds");
    assert!(group.has_pending_commit());
    assert_eq!(group.epoch(), 0, "staging does not advance the epoch");

    assert_eq!(actions.len(), 2);
    assert!(matches!(&actions[0], MlsAction::SendCommit(_)));
    assert!(matches!(&actions[1], MlsAction::SendWelcome { member_id: 100, .. }));

    // a second add while one is pending is refused
    let (kp2, _) = MlsGroup::generate_key_package(&env, 101);
    assert_eq!(
        group.add_members_from_bytes(&vec![kp2]).unwrap_err(),
        MlsError::PendingCommitExists
    );
}

#[test]
fn merge_pending_commit_advances_exactly_one_epoch() {
    let env = TestEnv;
    let (mut group, _) = MlsGroup::new(77, 42);
    let (kp, _) = MlsGroup::generate_key_package(&env, 100);
    group.add_members_from_bytes(&vec![kp]).unwrap();

    group.merge_pending_commit().expect("merge succeeds");
    assert_eq!(group.epoch(), 1);
    assert!(!group.has_pending_commit());
    assert_eq!(group.member_leaf_indices(), vec![0, 1]);

    assert_eq!(group.merge_pending_commit().unwrap_err(), MlsError::NoPendingCommit);
}

#[test]
fn peer_commit_advances_exactly_one_epoch() {
    let env = TestEnv;
    // two members of the same room track each other's commits
    let (mut adder, _) = MlsGroup::new(9, 1);
    let (mut watcher, _) = MlsGroup::new(9, 1);

    let (kp, _) = MlsGroup::generate_key_package(&env, 2);
    let actions = adder.add_members_from_bytes(&vec![kp]).unwrap();
    let commit = match &actions[0] {
        MlsAction::SendCommit(frame) => Frame::decode(&frame.encode()).unwrap(),
        _ => panic!("expected the commit frame"),
    };

    watcher.process_message(commit).expect("peer commit applies");
    assert_eq!(watcher.epoch(), 1);

    adder.merge_pending_commit().unwrap();
    assert_eq!(adder.epoch(), 1);

    // both sides export the same secret for the same epoch
    let context: Vec<u8> = Vec::new();
    let a = adder.export_secret("kalandra sender keys v1", &context, 32);
    let b = watcher.export_secret("kalandra sender keys v1", &context, 32);
    assert_eq!(a, b);
}

#[test]
fn remove_members_validates_the_roster() {
    let env = TestEnv;
    let (mut group, _) = MlsGroup::new(9, 1);
    let (kp, _) = MlsGroup::generate_key_package(&env, 2);
    group.add_members_from_bytes(&vec![kp]).unwrap();
    group.merge_pending_commit().unwrap();

    assert_eq!(group.remove_members(&vec![1]).unwrap_err(), MlsError::RemoveSelf);
    assert_eq!(
        group.remove_members(&vec![5]).unwrap_err(),
        MlsError::MemberNotFound { member_id: 5 }
    );

    group.remove_members(&vec![2]).unwrap();
    group.merge_pending_commit().unwrap();
    assert_eq!(group.epoch(), 2);
    assert_eq!(group.member_leaf_indices(), vec![0]);
}

#[test]
fn malformed_commit_is_rejected_and_changes_nothing() {
    let (mut group, _) = MlsGroup::new(9, 1);
    let mut header = lockframe::frame::FrameHeader::new(Opcode::Commit);
    header.set_room_id(9);
    let junk = Frame::new(header, vec![0xff, 0x01, 0x02]);
    assert_eq!(group.process_message(junk).unwrap_err(), MlsError::MalformedMessage);
    assert_eq!(group.epoch(), 0);
}

#[test]
fn leave_group_is_a_proposal_not_a_commit() {
    let (group, _) = MlsGroup::new(9, 1);
    let actions = group.leave_group().unwrap();
    assert_eq!(actions.len(), 1);
    assert!(matches!(&actions[0], MlsAction::SendProposal(_)));
    assert_eq!(group.epoch(), 0);
}

#[test]
fn key_packages_carry_their_member() {
    let env = TestEnv;
    let (bytes, hash) = MlsGroup::generate_key_package(&env, 0xabcdef);
    assert_eq!(bytes.len(), 40);
    assert_eq!(&bytes[0..8], &0xabcdefu64.to_be_bytes());
    assert_eq!(hash.len(), 32);
}
