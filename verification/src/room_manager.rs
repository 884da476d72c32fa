//! Room manager: group validation, sequencing and sync for every room.
//!
//! Each room pairs a group state machine with the shared sequencer. An
//! inbound frame must name an existing room, match the room's epoch and
//! come from a member; it is then assigned the next log index and turned
//! into persist and broadcast actions. A commit, once sequenced, advances
//! the room's epoch by exactly one. Sync requests replay the persisted
//! log in order, batch by batch.

use vstd::prelude::*;
use std::collections::HashMap;
use crate::env::Environment;
use crate::frame::{Frame, Opcode};
use crate::mls::{MlsGroup, MlsGroupState, MlsValidator, MlsError, MlsAction, ValidationResult};
use crate::sequencer::{Sequencer, SequencerAction, SequencerError, spec_frame_admissible};
use crate::storage::{MemoryStorage, StorageError};

verus! {

broadcast use vstd::std_specs::hash::group_hash_axioms;

/// Metadata recorded when a room is created.
#[derive(Clone, Copy, Debug)]
pub struct RoomMetadata {
    /// Member that created the room.
    pub creator: u64,
    /// Creation time in milliseconds.
    pub created_at: u64,
}

/// Actions the room manager asks the driver to execute, in order.
#[derive(Debug)]
pub enum RoomAction {
    /// Broadcast a sequenced frame to the whole room, sender included.
    Broadcast { room_id: u128, frame: Frame, exclude_sender: bool, processed_at: u64 },
    /// Persist a sequenced frame at its log index.
    PersistFrame { room_id: u128, log_index: u64, frame: Frame, processed_at: u64 },
    /// Persist the room's group state after an epoch change.
    PersistMlsState { room_id: u128, state: MlsGroupState, processed_at: u64 },
    /// Tell a sender why its frame was rejected.
    Reject { sender_id: u64, reason: String, processed_at: u64 },
    /// Answer a sync request with a batch of serialised frames.
    SendSyncResponse {
        sender_id: u64,
        room_id: u128,
        frames: Vec<Vec<u8>>,
        has_more: bool,
        server_epoch: u64,
        processed_at: u64,
    },
}

/// Errors of room management.
#[derive(Debug)]
pub enum RoomError {
    /// A group operation or validation failed.
    MlsValidation(MlsError),
    /// The sequencer failed.
    Sequencing(SequencerError),
    /// Storage failed.
    Storage(StorageError),
    /// The room does not exist.
    RoomNotFound(u128),
    /// The room already exists.
    RoomAlreadyExists(u128),
    /// The frame's epoch does not match the room's.
    InvalidEpoch { expected: u64, actual: u64 },
    /// The sender is not a member of the room.
    NotMember(u64),
}

/// Whether a sync batch leaves more frames to fetch: the last loaded
/// index still lies before the latest stored one.
pub open spec fn spec_sync_has_more(log_len: nat, from: u64, batch_len: nat) -> bool {
    if log_len == 0 {
        false
    } else {
        let last_loaded: int = if batch_len == 0 {
            if from > 0 {
                from - 1
            } else {
                0
            }
        } else {
            from + batch_len - 1
        };
        last_loaded < log_len - 1
    }
}

/// Orchestrates group validation and sequencing per room.
pub struct RoomManager {
    groups: HashMap<u128, MlsGroup>,
    sequencer: Sequencer,
    room_metadata: HashMap<u128, RoomMetadata>,
}

impl RoomManager {
    /// Every group is well formed and keyed by its own room id; a room
    /// has metadata exactly when it has a group.
    pub closed spec fn wf(self) -> bool {
        &&& forall|k: u128|
            #[trigger] self.groups@.contains_key(k) ==> self.groups@[k].wf()
                && self.groups@[k].spec_room_id() == k
        &&& forall|k: u128|
            #[trigger] self.room_metadata@.contains_key(k) <==> self.groups@.contains_key(k)
        &&& forall|k: u128|
            #[trigger] self.groups@.contains_key(k) ==> self.groups@[k].spec_own_member()
                == self.room_metadata@[k].creator
    }

    pub closed spec fn spec_has_room(self, room_id: u128) -> bool {
        self.groups@.contains_key(room_id)
    }

    pub closed spec fn spec_epoch_of(self, room_id: u128) -> u64 {
        self.groups@[room_id].spec_epoch()
    }

    /// The roster of a room's group.
    pub closed spec fn spec_members_of(self, room_id: u128) -> Seq<u64> {
        self.groups@[room_id].spec_members()
    }

    /// Whether a room's group holds a staged commit of its own.
    pub closed spec fn spec_has_pending(self, room_id: u128) -> bool {
        self.groups@[room_id].spec_pending() is Some
    }

    /// The staged commit delta of a room's group, if one is pending.
    pub closed spec fn spec_pending_delta_of(self, room_id: u128) -> Option<(Seq<u64>, Seq<u64>)> {
        self.groups@[room_id].spec_pending()
    }

    /// The recorded creator of a room.
    pub closed spec fn spec_creator_of(self, room_id: u128) -> u64 {
        self.room_metadata@[room_id].creator
    }

    /// The recorded creation time of a room.
    pub closed spec fn spec_created_at_of(self, room_id: u128) -> u64 {
        self.room_metadata@[room_id].created_at
    }

    /// A manager with no rooms.
    pub fn new() -> (r: RoomManager)
        ensures
            r.wf(),
            forall|k: u128| !(#[trigger] r.spec_has_room(k)),
    {
        RoomManager {
            groups: HashMap::new(),
            sequencer: Sequencer::new(),
            room_metadata: HashMap::new(),
        }
    }

    /// Whether a room exists.
    pub fn has_room(&self, room_id: u128) -> (r: bool)
        requires
            self.wf(),
        ensures
            r == self.spec_has_room(room_id),
    {
        self.room_metadata.contains_key(&room_id)
    }

    /// The epoch of a room, `None` when it does not exist.
    pub fn epoch(&self, room_id: u128) -> (r: Option<u64>)
        requires
            self.wf(),
        ensures
            r == if self.spec_has_room(room_id) {
                Some(self.spec_epoch_of(room_id))
            } else {
                None::<u64>
            },
    {
        match self.groups.get(&room_id) {
            Some(group) => Some(group.epoch()),
            None => None,
        }
    }

    /// The recorded metadata of a room, `None` when it does not exist.
    pub fn metadata(&self, room_id: u128) -> (r: Option<RoomMetadata>)
        requires
            self.wf(),
        ensures
            r == if self.spec_has_room(room_id) {
                Some(
                    RoomMetadata {
                        creator: self.spec_creator_of(room_id),
                        created_at: self.spec_created_at_of(room_id),
                    },
                )
            } else {
                None::<RoomMetadata>
            },
    {
        match self.room_metadata.get(&room_id) {
            Some(metadata) => Some(*metadata),
            None => None,
        }
    }

    /// Creates a room at epoch zero with the creator as sole member and
    /// records who created it and when.
    pub fn create_room<E: Environment>(&mut self, room_id: u128, creator: u64, env: &E) -> (r:
        Result<(), RoomError>)
        requires
            old(self).wf(),
        ensures
            final(self).wf(),
            forall|k: u128|
                k != room_id ==> #[trigger] final(self).spec_has_room(k) == old(
                    self,
                ).spec_has_room(k),
            match r {
                Ok(()) => {
                    &&& !old(self).spec_has_room(room_id)
                    &&& final(self).spec_has_room(room_id)
                    &&& final(self).spec_epoch_of(room_id) == 0
                    &&& final(self).spec_members_of(room_id) == seq![creator]
                    &&& final(self).spec_creator_of(room_id) == creator
                    &&& !final(self).spec_has_pending(room_id)
                },
                Err(e) => {
                    &&& e matches RoomError::RoomAlreadyExists(rid) && rid == room_id
                    &&& old(self).spec_has_room(room_id)
                    &&& *final(self) == *old(self)
                },
            },
            forall|k: u128|
                k != room_id && old(self).spec_has_room(k) ==> #[trigger] final(self).spec_epoch_of(k) == old(self).spec_epoch_of(k) && final(self).spec_members_of(k)
                    == old(self).spec_members_of(k),
    {
        if self.room_metadata.contains_key(&room_id) {
            return Err(RoomError::RoomAlreadyExists(room_id));
        }
        let (group, _actions) = MlsGroup::new(room_id, creator);
        self.groups.insert(room_id, group);
        let metadata = RoomMetadata { creator, created_at: env.now_millis() };
        self.room_metadata.insert(room_id, metadata);
        Ok(())
    }

    /// Stages a commit adding members to a room; the returned actions
    /// carry the commit and welcome frames for the driver to send.
    pub fn add_members(&mut self, room_id: u128, key_packages: &Vec<Vec<u8>>) -> (r: Result<
        Vec<MlsAction>,
        RoomError,
    >)
        requires
            old(self).wf(),
        ensures
            final(self).wf(),
            forall|k: u128|
                #[trigger] final(self).spec_has_room(k) == old(self).spec_has_room(k),
            forall|k: u128|
                old(self).spec_has_room(k) ==> final(self).spec_epoch_of(k) == old(
                    self,
                ).spec_epoch_of(k) && final(self).spec_members_of(k) == old(self).spec_members_of(
                    k,
                ),
            (r matches Err(RoomError::RoomNotFound(rid)) ==> rid == room_id && !old(
                self,
            ).spec_has_room(room_id)),
            (!old(self).spec_has_room(room_id) ==> (r matches Err(RoomError::RoomNotFound(rid))
                && rid == room_id)),
            r is Ok <==> (old(self).spec_has_room(room_id) && !old(self).spec_has_pending(room_id)
                && MlsGroup::spec_packages_addable(
                old(self).spec_members_of(room_id),
                key_packages@,
            )),
            r matches Ok(actions) ==> {
                &&& final(self).spec_has_pending(room_id)
                &&& actions@.len() == 1 + key_packages@.len()
                &&& (actions@[0] matches MlsAction::SendCommit(f) && f.wf() && f.header.opcode
                    == Opcode::Commit.spec_to_u16() && f.header.room_id == room_id
                    && f.header.sender_id == old(self).spec_creator_of(room_id)
                    && f.header.epoch == old(self).spec_epoch_of(room_id) && f.payload@
                    == crate::mls::spec_commit_bytes(
                    Seq::new(
                        key_packages@.len(),
                        |i: int| crate::mls::spec_key_package_member(
                            key_packages@[i]@,
                        )->Some_0,
                    ),
                    Seq::<u64>::empty(),
                ))
                &&& (forall|i: int|
                    1 <= i < actions@.len() ==> ((#[trigger] actions@[i])
                        matches MlsAction::SendWelcome { frame, member_id } && frame.wf()
                        && member_id == crate::mls::spec_key_package_member(
                        key_packages@[i - 1]@,
                    )->Some_0))
            },
    {
        let group_opt = self.groups.remove(&room_id);
        let mut group = match group_opt {
            Some(group) => group,
            None => {
                proof {
                    assert(self.groups@ =~= old(self).groups@);
                }
                return Err(RoomError::RoomNotFound(room_id));
            },
        };
        let result = group.add_members_from_bytes(key_packages);
        proof {
            if result is Ok {
                assert(Seq::new(
                    key_packages@.len(),
                    |i: int| crate::mls::spec_key_package_member(key_packages@[i]@)->Some_0,
                ) =~= group.spec_pending()->Some_0.0);
            }
        }
        self.groups.insert(room_id, group);
        match result {
            Ok(actions) => Ok(actions),
            Err(e) => Err(RoomError::MlsValidation(e)),
        }
    }

    /// Stages a commit removing members from a room.
    pub fn remove_members(&mut self, room_id: u128, member_ids: &Vec<u64>) -> (r: Result<
        Vec<MlsAction>,
        RoomError,
    >)
        requires
            old(self).wf(),
        ensures
            final(self).wf(),
            forall|k: u128|
                #[trigger] final(self).spec_has_room(k) == old(self).spec_has_room(k),
            forall|k: u128|
                old(self).spec_has_room(k) ==> final(self).spec_epoch_of(k) == old(
                    self,
                ).spec_epoch_of(k) && final(self).spec_members_of(k) == old(self).spec_members_of(
                    k,
                ),
            (!old(self).spec_has_room(room_id) ==> (r matches Err(RoomError::RoomNotFound(rid))
                && rid == room_id)),
            r is Ok <==> (old(self).spec_has_room(room_id) && !old(self).spec_has_pending(room_id)
                && MlsGroup::spec_members_removable(
                old(self).spec_members_of(room_id),
                old(self).spec_creator_of(room_id),
                member_ids@,
            )),
            r matches Ok(actions) ==> {
                &&& final(self).spec_has_pending(room_id)
                &&& actions@.len() == 1
                &&& (actions@[0] matches MlsAction::SendCommit(f) && f.wf() && f.header.opcode
                    == Opcode::Commit.spec_to_u16() && f.header.room_id == room_id
                    && f.header.sender_id == old(self).spec_creator_of(room_id)
                    && f.header.epoch == old(self).spec_epoch_of(room_id) && f.payload@
                    == crate::mls::spec_commit_bytes(Seq::<u64>::empty(), member_ids@))
            },
    {
        let group_opt = self.groups.remove(&room_id);
        let mut group = match group_opt {
            Some(group) => group,
            None => {
                proof {
                    assert(self.groups@ =~= old(self).groups@);
                }
                return Err(RoomError::RoomNotFound(room_id));
            },
        };
        let result = group.remove_members(member_ids);
        self.groups.insert(room_id, group);
        match result {
            Ok(actions) => Ok(actions),
            Err(e) => Err(RoomError::MlsValidation(e)),
        }
    }

    /// Emits the self-remove proposal for leaving a room; another member
    /// must commit it.
    pub fn leave_room(&mut self, room_id: u128) -> (r: Result<Vec<MlsAction>, RoomError>)
        requires
            old(self).wf(),
        ensures
            final(self).wf(),
            *final(self) == *old(self),
            r is Ok <==> old(self).spec_has_room(room_id),
            (!old(self).spec_has_room(room_id) ==> (r matches Err(RoomError::RoomNotFound(rid))
                && rid == room_id)),
            r matches Ok(actions) ==> actions@.len() == 1 && (
            actions@[0] matches MlsAction::SendProposal(f) && f.wf() && f.header.opcode
                == Opcode::Proposal.spec_to_u16() && f.header.room_id == room_id
                && f.header.sender_id == old(self).spec_creator_of(room_id) && f.header.epoch
                == old(self).spec_epoch_of(room_id) && f.payload@
                == crate::mls::spec_commit_bytes(
                Seq::<u64>::empty(),
                seq![old(self).spec_creator_of(room_id)],
            )),
    {
        let group_opt = self.groups.get(&room_id);
        let group = match group_opt {
            Some(group) => group,
            None => {
                return Err(RoomError::RoomNotFound(room_id));
            },
        };
        match group.leave_group() {
            Ok(actions) => Ok(actions),
            Err(e) => Err(RoomError::MlsValidation(e)),
        }
    }

    /// Answers a sync request: loads up to `limit` frames from the log
    /// starting at `from_log_index`, serialises them, and reports whether
    /// more remain. Driving requests until `has_more` is false replays
    /// the whole persisted log in order.
    pub fn handle_sync_request<E: Environment>(
        &self,
        room_id: u128,
        sender_id: u64,
        from_log_index: u64,
        limit: usize,
        env: &E,
        storage: &MemoryStorage,
    ) -> (r: Result<RoomAction, RoomError>)
        requires
            self.wf(),
            storage.wf(),
        ensures
            match r {
                Ok(action) => {
                    &&& self.spec_has_room(room_id)
                    &&& (action matches RoomAction::SendSyncResponse {
                        sender_id: sid,
                        room_id: rid,
                        frames,
                        has_more,
                        server_epoch,
                        ..
                    } && sid == sender_id && rid == room_id && server_epoch == self.spec_epoch_of(
                        room_id,
                    ) && {
                        let log = storage.spec_log(room_id);
                        &&& frames@.len() == if from_log_index <= log.len() {
                            if from_log_index + limit <= log.len() {
                                limit as int
                            } else {
                                log.len() - from_log_index
                            }
                        } else {
                            0int
                        }
                        &&& forall|i: int|
                            0 <= i < frames@.len() ==> (#[trigger] frames@[i])@ == log[
                            from_log_index + i]@.spec_encode()
                        &&& has_more == spec_sync_has_more(
                            log.len(),
                            from_log_index,
                            frames@.len(),
                        )
                    })
                },
                Err(e) => {
                    &&& e matches RoomError::RoomNotFound(rid) && rid == room_id
                    &&& !self.spec_has_room(room_id)
                },
            },
    {
        let now = env.now_millis();
        let group = match self.groups.get(&room_id) {
            Some(group) => group,
            None => {
                return Err(RoomError::RoomNotFound(room_id));
            },
        };
        let server_epoch = group.epoch();
        let frames = match storage.load_frames(room_id, from_log_index, limit) {
            Ok(frames) => frames,
            Err(e) => {
                return Err(RoomError::Storage(e));
            },
        };
        let mut frame_bytes: Vec<Vec<u8>> = Vec::new();
        let count = frames.len();
        let mut i: usize = 0;
        while i < count
            invariant
                self.wf(),
                storage.wf(),
                count == frames@.len(),
                i <= count,
                frame_bytes@.len() == i,
                forall|j: int|
                    0 <= j < count ==> (#[trigger] frames@[j])@ == storage.spec_log(room_id)[
                    from_log_index + j]@,
                forall|j: int| 0 <= j < count ==> (#[trigger] frames@[j]).wf(),
                forall|j: int|
                    0 <= j < i ==> (#[trigger] frame_bytes@[j])@ == storage.spec_log(room_id)[
                    from_log_index + j]@.spec_encode(),
            decreases count - i,
        {
            let encoded = frames[i].encode();
            frame_bytes.push(encoded);
            i = i + 1;
        }
        let latest = match storage.latest_log_index(room_id) {
            Ok(latest) => latest,
            Err(e) => {
                return Err(RoomError::Storage(e));
            },
        };
        let last_loaded: u64 = if count == 0 {
            if from_log_index > 0 {
                from_log_index - 1
            } else {
                0
            }
        } else {
            from_log_index + count as u64 - 1
        };
        let has_more = match latest {
            Some(latest_index) => last_loaded < latest_index,
            None => false,
        };
        Ok(
            RoomAction::SendSyncResponse {
                sender_id,
                room_id,
                frames: frame_bytes,
                has_more,
                server_epoch,
                processed_at: now,
            },
        )
    }

    /// Validates the signatures of sequenced frames. Commits, proposals
    /// and welcomes authenticate inside the group layer; the rest must
    /// come from a member holding key material.
    fn validate_sequenced_actions_signatures(
        &self,
        sequencer_actions: &Vec<SequencerAction>,
        mls_state: &Option<MlsGroupState>,
    ) -> (r: Result<(), RoomError>)
        ensures
            r matches Err(e) ==> e is MlsValidation,
            mls_state is None ==> r is Ok,
            (mls_state matches Some(st) && (forall|i: int|
                0 <= i < sequencer_actions@.len()
                    ==> match #[trigger] sequencer_actions@[i] {
                    SequencerAction::AcceptFrame { frame, .. } => spec_signature_exempt(frame)
                        || st.members@.contains(frame.header.sender_id),
                    SequencerAction::StoreFrame { frame, .. } => spec_signature_exempt(frame)
                        || st.members@.contains(frame.header.sender_id),
                    SequencerAction::BroadcastToRoom { frame, .. } => spec_signature_exempt(frame)
                        || st.members@.contains(frame.header.sender_id),
                    SequencerAction::RejectFrame { .. } => true,
                })) ==> r is Ok,
            (r is Ok && mls_state is Some) ==> forall|i: int|
                0 <= i < sequencer_actions@.len()
                    ==> match #[trigger] sequencer_actions@[i] {
                    SequencerAction::AcceptFrame { frame, .. } => spec_signature_exempt(frame)
                        || mls_state->Some_0.members@.contains(frame.header.sender_id),
                    SequencerAction::StoreFrame { frame, .. } => spec_signature_exempt(frame)
                        || mls_state->Some_0.members@.contains(frame.header.sender_id),
                    SequencerAction::BroadcastToRoom { frame, .. } => spec_signature_exempt(frame)
                        || mls_state->Some_0.members@.contains(frame.header.sender_id),
                    SequencerAction::RejectFrame { .. } => true,
                },
    {
        let state = match mls_state {
            Some(state) => state,
            None => {
                return Ok(());
            },
        };
        let count = sequencer_actions.len();
        let mut i: usize = 0;
        while i < count
            invariant
                mls_state matches Some(st) && st == *state,
                count == sequencer_actions@.len(),
                i <= count,
                forall|j: int|
                    0 <= j < i ==> match #[trigger] sequencer_actions@[j] {
                        SequencerAction::AcceptFrame { frame, .. } => spec_signature_exempt(frame)
                            || state.members@.contains(frame.header.sender_id),
                        SequencerAction::StoreFrame { frame, .. } => spec_signature_exempt(frame)
                            || state.members@.contains(frame.header.sender_id),
                        SequencerAction::BroadcastToRoom { frame, .. } => spec_signature_exempt(
                            frame,
                        ) || state.members@.contains(frame.header.sender_id),
                        SequencerAction::RejectFrame { .. } => true,
                    },
            decreases count - i,
        {
            let frame_opt = match &sequencer_actions[i] {
                SequencerAction::AcceptFrame { frame, .. } => Some(frame),
                SequencerAction::StoreFrame { frame, .. } => Some(frame),
                SequencerAction::BroadcastToRoom { frame, .. } => Some(frame),
                SequencerAction::RejectFrame { .. } => None,
            };
            if let Some(frame) = frame_opt {
                let exempt = match frame.header.opcode_enum() {
                    Some(Opcode::Commit) => true,
                    Some(Opcode::Proposal) => true,
                    Some(Opcode::Welcome) => true,
                    _ => false,
                };
                if !exempt {
                    let validator = MlsValidator;
                    match validator.validate_signature(frame, state) {
                        Ok(ValidationResult::Accept) => {},
                        Ok(ValidationResult::Reject { .. }) => {
                            return Err(RoomError::MlsValidation(MlsError::ValidationFailed));
                        },
                        Err(e) => {
                            return Err(RoomError::MlsValidation(e));
                        },
                    }
                }
            }
            i = i + 1;
        }
        Ok(())
    }

    /// Processes one inbound frame: the room must exist, the frame must
    /// match the room's epoch and come from a member; the server then
    /// stamps its own clock into the timestamp field, sequences the
    /// frame, and turns it into persist and broadcast actions. A
    /// sequenced commit advances the room's epoch by exactly one and
    /// appends a group-state persist action; every other accepted frame
    /// leaves the epoch and roster unchanged, as does every rejection
    /// and every error.
    pub fn process_frame<E: Environment>(
        &mut self,
        frame: Frame,
        env: &E,
        storage: &MemoryStorage,
    ) -> (r: Result<Vec<RoomAction>, RoomError>)
        requires
            old(self).wf(),
            frame.wf(),
            storage.wf(),
        ensures
            final(self).wf(),
            forall|k: u128|
                #[trigger] final(self).spec_has_room(k) == old(self).spec_has_room(k),
            // no room's epoch or roster changes, except the frame's own
            // room when a commit is accepted and merged
            forall|k: u128|
                old(self).spec_has_room(k) && !(k == frame.header.room_id && r is Ok
                    && Opcode::spec_from_u16(frame.header.opcode) == Some(Opcode::Commit))
                    ==> #[trigger] final(self).spec_epoch_of(k) == old(self).spec_epoch_of(k)
                    && final(self).spec_members_of(k) == old(self).spec_members_of(k),
            ({
                let rid = frame.header.room_id;
                let state = storage.spec_state(rid);
                let accepted = spec_frame_admissible(frame, state) && storage.spec_log(rid).len()
                    <= u64::MAX;
                let is_commit = Opcode::spec_from_u16(frame.header.opcode) == Some(Opcode::Commit);
                if !old(self).spec_has_room(rid) {
                    r == Err::<Vec<RoomAction>, RoomError>(RoomError::RoomNotFound(rid))
                } else if frame.header.epoch != old(self).spec_epoch_of(rid) {
                    r == Err::<Vec<RoomAction>, RoomError>(
                        RoomError::InvalidEpoch {
                            expected: old(self).spec_epoch_of(rid),
                            actual: frame.header.epoch,
                        },
                    )
                } else if state is None && frame.header.epoch != 0 {
                    r == Err::<Vec<RoomAction>, RoomError>(
                        RoomError::InvalidEpoch { expected: 0, actual: frame.header.epoch },
                    )
                } else if state matches Some(st) && !st.members@.contains(frame.header.sender_id) {
                    r == Err::<Vec<RoomAction>, RoomError>(
                        RoomError::NotMember(frame.header.sender_id),
                    )
                } else if is_commit && accepted && !spec_commit_mergeable(
                    *old(self),
                    rid,
                    frame.payload@,
                ) {
                    r matches Err(e) && e is MlsValidation
                } else {
                    r matches Ok(actions) && {
                        if accepted {
                            &&& actions@.len() >= 3
                            &&& (actions@[0] matches RoomAction::PersistFrame {
                                room_id: r0,
                                log_index: l0,
                                frame: f0,
                                ..
                            } && (actions@[1] matches RoomAction::PersistFrame {
                                room_id: r1,
                                log_index: l1,
                                frame: f1,
                                ..
                            } && (actions@[2] matches RoomAction::Broadcast {
                                room_id: r2,
                                frame: f2,
                                exclude_sender,
                                ..
                            } && {
                                let sequenced = crate::frame::FrameHeader {
                                    log_index: storage.spec_log(rid).len() as u64,
                                    hlc_timestamp: f0.header.hlc_timestamp,
                                    ..frame.header
                                };
                                &&& r0 == rid && l0 == storage.spec_log(rid).len() && f0.wf()
                                    && f0@.payload == frame@.payload && f0.header == sequenced
                                &&& r1 == rid && l1 == storage.spec_log(rid).len() && f1.wf()
                                    && f1@.payload == frame@.payload && f1.header == sequenced
                                &&& r2 == rid && !exclude_sender && f2@.payload == frame@.payload
                                    && f2.header == sequenced
                            })))
                            &&& if is_commit {
                                &&& final(self).spec_epoch_of(rid) == old(self).spec_epoch_of(rid)
                                    + 1
                                &&& final(self).spec_members_of(rid) == (if old(
                                    self,
                                ).spec_has_pending(rid) {
                                    MlsGroup::spec_roster_after(
                                        old(self).spec_members_of(rid),
                                        old(self).spec_pending_delta_of(rid)->Some_0.0,
                                        old(self).spec_pending_delta_of(rid)->Some_0.1,
                                    )
                                } else {
                                    MlsGroup::spec_roster_after(
                                        old(self).spec_members_of(rid),
                                        crate::mls::spec_decode_commit(
                                            frame.payload@,
                                        )->Some_0.0,
                                        crate::mls::spec_decode_commit(
                                            frame.payload@,
                                        )->Some_0.1,
                                    )
                                })
                                &&& actions@.len() == 4
                                &&& (actions@[3] matches RoomAction::PersistMlsState {
                                    room_id,
                                    state: st,
                                    ..
                                } && room_id == rid && st.epoch == final(self).spec_epoch_of(rid)
                                    && st.members@ == final(self).spec_members_of(rid))
                            } else {
                                &&& final(self).spec_epoch_of(rid) == old(self).spec_epoch_of(rid)
                                &&& actions@.len() == 3
                            }
                        } else {
                            &&& final(self).spec_epoch_of(rid) == old(self).spec_epoch_of(rid)
                            &&& actions@.len() == 1
                            &&& actions@[0] is Reject
                        }
                    }
                }
            }),
    {
        let now = env.now_millis();
        let room_id = frame.header.room_id();
        if !self.groups.contains_key(&room_id) {
            return Err(RoomError::RoomNotFound(room_id));
        }
        let group_epoch = match self.groups.get(&room_id) {
            Some(group) => group.epoch(),
            None => {
                return Err(RoomError::RoomNotFound(room_id));
            },
        };
        let mls_state = match storage.load_mls_state(room_id) {
            Ok(state) => state,
            Err(e) => {
                return Err(RoomError::Storage(e));
            },
        };
        // basic validation before sequencing: epoch, then membership
        let frame_epoch = frame.header.epoch();
        if frame_epoch != group_epoch {
            return Err(
                RoomError::InvalidEpoch { expected: group_epoch, actual: frame_epoch },
            );
        }
        match &mls_state {
            Some(state) => {
                if !state.is_member(frame.header.sender_id()) {
                    return Err(RoomError::NotMember(frame.header.sender_id()));
                }
            },
            None => {
                if frame_epoch != 0 {
                    return Err(RoomError::InvalidEpoch { expected: 0, actual: frame_epoch });
                }
            },
        }
        let is_commit = frame.header.opcode_enum() == Some(Opcode::Commit);
        let frame_for_mls = if is_commit {
            Some(frame.duplicate())
        } else {
            None
        };
        // assign the server-side timestamp before the order is fixed
        let mut stamped = frame;
        stamped.header.set_hlc_timestamp(now);
        let validator = MlsValidator;
        let sequencer_actions = match self.sequencer.process_frame(stamped, storage, &validator) {
            Ok(actions) => actions,
            Err(e) => {
                return Err(RoomError::Sequencing(e));
            },
        };
        match self.validate_sequenced_actions_signatures(&sequencer_actions, &mls_state) {
            Ok(()) => {},
            Err(e) => {
                return Err(e);
            },
        }
        let accepted = sequencer_actions.len() == 3;
        let mut room_actions = convert_sequencer_actions(sequencer_actions, now);
        if is_commit && accepted {
            let group_opt = self.groups.remove(&room_id);
            let mut group = match group_opt {
                Some(group) => group,
                None => {
                    proof {
                        assert(false);
                    }
                    return Err(RoomError::RoomNotFound(room_id));
                },
            };
            let merge_result = if group.has_pending_commit() {
                group.merge_pending_commit()
            } else {
                match frame_for_mls {
                    Some(commit_frame) => group.process_message(commit_frame),
                    None => Err(MlsError::MalformedMessage),
                }
            };
            match merge_result {
                Ok(_) => {},
                Err(e) => {
                    self.groups.insert(room_id, group);
                    return Err(RoomError::MlsValidation(e));
                },
            }
            let state = group.export_group_state();
            self.groups.insert(room_id, group);
            room_actions.push(RoomAction::PersistMlsState { room_id, state, processed_at: now });
        }
        Ok(room_actions)
    }
}

impl Default for RoomManager {
    /// Same as `new`: a manager with no rooms.
    fn default() -> (r: RoomManager)
        ensures
            r.wf(),
            forall|k: u128| !(#[trigger] r.spec_has_room(k)),
    {
        RoomManager::new()
    }
}

/// Whether a sequenced commit will merge on the room's group: a staged
/// commit of this room's own merges as long as the epoch can advance; a
/// peer's commit must apply cleanly to the roster.
pub open spec fn spec_commit_mergeable(manager: RoomManager, room_id: u128, payload: Seq<u8>) -> bool {
    if manager.spec_has_pending(room_id) {
        manager.spec_epoch_of(room_id) < u64::MAX
    } else {
        MlsGroup::spec_commit_applies(
            manager.spec_epoch_of(room_id),
            manager.spec_members_of(room_id),
            payload,
        )
    }
}

/// Frames whose authentication lives inside the group layer.
pub open spec fn spec_signature_exempt(frame: Frame) -> bool {
    ||| Opcode::spec_from_u16(frame.header.opcode) == Some(Opcode::Commit)
    ||| Opcode::spec_from_u16(frame.header.opcode) == Some(Opcode::Proposal)
    ||| Opcode::spec_from_u16(frame.header.opcode) == Some(Opcode::Welcome)
}

/// Turns sequencer actions into room actions: accepted and stored frames
/// become persists, broadcasts stay broadcasts, rejections address the
/// offending sender.
fn convert_sequencer_actions(sequencer_actions: Vec<SequencerAction>, now: u64) -> (r: Vec<
    RoomAction,
>)
    ensures
        r@.len() == sequencer_actions@.len(),
        forall|i: int|
            0 <= i < r@.len() ==> match sequencer_actions@[i] {
                SequencerAction::AcceptFrame { room_id, log_index, frame } => (
                #[trigger] r@[i]) matches RoomAction::PersistFrame {
                    room_id: rid,
                    log_index: li,
                    frame: f,
                    ..
                } && rid == room_id && li == log_index && f == frame,
                SequencerAction::StoreFrame { room_id, log_index, frame } => r@[i]
                    matches RoomAction::PersistFrame {
                    room_id: rid,
                    log_index: li,
                    frame: f,
                    ..
                } && rid == room_id && li == log_index && f == frame,
                SequencerAction::BroadcastToRoom { room_id, frame } => r@[i]
                    matches RoomAction::Broadcast { room_id: rid, frame: f, exclude_sender, .. }
                    && rid == room_id && f == frame && !exclude_sender,
                SequencerAction::RejectFrame { room_id, reason, original_frame } => r@[i]
                    matches RoomAction::Reject { sender_id, .. } && sender_id
                    == original_frame.header.sender_id,
            },
{
    let ghost original = sequencer_actions@;
    let count = sequencer_actions.len();
    let mut remaining = sequencer_actions;
    let mut out: Vec<RoomAction> = Vec::new();
    let mut i: usize = 0;
    while remaining.len() > 0
        invariant
            original.len() == count,
            original.len() == i + remaining@.len(),
            remaining@ == original.subrange(i as int, original.len() as int),
            out@.len() == i,
            forall|j: int|
                0 <= j < i ==> match original[j] {
                    SequencerAction::AcceptFrame { room_id, log_index, frame } => (
                    #[trigger] out@[j]) matches RoomAction::PersistFrame {
                        room_id: rid,
                        log_index: li,
                        frame: f,
                        ..
                    } && rid == room_id && li == log_index && f == frame,
                    SequencerAction::StoreFrame { room_id, log_index, frame } => out@[j]
                        matches RoomAction::PersistFrame {
                        room_id: rid,
                        log_index: li,
                        frame: f,
                        ..
                    } && rid == room_id && li == log_index && f == frame,
                    SequencerAction::BroadcastToRoom { room_id, frame } => out@[j]
                        matches RoomAction::Broadcast {
                        room_id: rid,
                        frame: f,
                        exclude_sender,
                        ..
                    } && rid == room_id && f == frame && !exclude_sender,
                    SequencerAction::RejectFrame { room_id, reason, original_frame } => out@[j]
                        matches RoomAction::Reject { sender_id, .. } && sender_id
                        == original_frame.header.sender_id,
                },
        decreases remaining@.len(),
    {
        let action = remaining.remove(0);
        proof {
            assert(action == original[i as int]);
        }
        let converted = match action {
            SequencerAction::AcceptFrame { room_id, log_index, frame } => {
                RoomAction::PersistFrame { room_id, log_index, frame, processed_at: now }
            },
            SequencerAction::StoreFrame { room_id, log_index, frame } => {
                RoomAction::PersistFrame { room_id, log_index, frame, processed_at: now }
            },
            SequencerAction::BroadcastToRoom { room_id, frame } => {
                RoomAction::Broadcast { room_id, frame, exclude_sender: false, processed_at: now }
            },
            SequencerAction::RejectFrame { room_id, reason, original_frame } => {
                RoomAction::Reject {
                    sender_id: original_frame.header.sender_id(),
                    reason,
                    processed_at: now,
                }
            },
        };
        out.push(converted);
        proof {
            assert(remaining@ =~= original.subrange(i + 1, original.len() as int));
        }
        i = i + 1;
    }
    out
}

/// Epoch monotonicity: processing one frame either leaves a room's epoch
/// alone or — for a sequenced commit — advances it by exactly one, as
/// `process_frame` ensures; in either case the epoch never decreases, so
/// it is non-decreasing along the sequence of persisted frames.
pub proof fn lemma_epoch_never_decreases(pre: RoomManager, post: RoomManager, room_id: u128)
    requires
        pre.spec_has_room(room_id),
        post.spec_epoch_of(room_id) == pre.spec_epoch_of(room_id) || post.spec_epoch_of(room_id)
            == pre.spec_epoch_of(room_id) + 1,
    ensures
        pre.spec_epoch_of(room_id) <= post.spec_epoch_of(room_id),
{
}

/// Adjacent sync batches compose: replaying one batch and then the next
/// replays the combined range.
pub proof fn lemma_sync_batches_compose(log: Seq<Frame>, a: int, b: int, c: int)
    requires
        0 <= a <= b <= c <= log.len(),
    ensures
        log.subrange(a, b) + log.subrange(b, c) == log.subrange(a, c),
{
    assert(log.subrange(a, b) + log.subrange(b, c) =~= log.subrange(a, c));
}

/// Sync idempotence: a batch is the log's own subrange, and `has_more`
/// is false exactly when the batch reaches the end of the log, so a
/// client that keeps requesting from the next index until `has_more` is
/// false replays exactly the frames a never-disconnected client was sent.
pub proof fn lemma_sync_terminates_at_end(log_len: nat, from: u64, limit: nat)
    requires
        limit > 0,
        from <= log_len,
    ensures
        ({
            let batch_len: nat = if from + limit <= log_len {
                limit
            } else {
                (log_len - from) as nat
            };
            !spec_sync_has_more(log_len, from, batch_len) <==> from + batch_len == log_len
        }),
{
}

} // verus!
