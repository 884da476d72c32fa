//! Per-room frame sequencer.
//!
//! Validates an inbound frame against the stored group state, assigns it
//! the next log index of its room, and emits the accept, store and
//! broadcast actions. Rejected frames produce a single rejection action
//! and consume no index; the next index is always derived from storage,
//! so ordering survives a restart.

use vstd::prelude::*;
use crate::frame::Frame;
use crate::mls::{MlsValidator, MlsGroupState, ValidationResult};
use crate::storage::{MemoryStorage, StorageError};

verus! {

/// Sequencer failures. The in-memory store cannot fail, but the interface
/// carries storage errors through for drivers that persist elsewhere.
#[derive(Debug)]
pub enum SequencerError {
    /// The backing store refused a read.
    Storage(StorageError),
}

/// Actions the sequencer asks the driver to take, in order.
#[derive(Debug)]
pub enum SequencerAction {
    /// The frame was accepted and assigned this log index.
    AcceptFrame { room_id: u128, log_index: u64, frame: Frame },
    /// Persist the sequenced frame at its index.
    StoreFrame { room_id: u128, log_index: u64, frame: Frame },
    /// Broadcast the sequenced frame to the room, the sender included.
    BroadcastToRoom { room_id: u128, frame: Frame },
    /// The frame was rejected; tell its sender why.
    RejectFrame { room_id: u128, reason: String, original_frame: Frame },
}

/// Whether a frame passes validation against the stored group state: its
/// epoch must match, and its sender must be in the roster. Without stored
/// state only epoch zero is admissible.
pub open spec fn spec_frame_admissible(frame: Frame, state: Option<MlsGroupState>) -> bool {
    match state {
        Some(st) => frame.header.epoch == st.epoch && st.members@.contains(frame.header.sender_id),
        None => frame.header.epoch == 0,
    }
}

/// Assigns total order per room. The order itself lives in storage, so
/// a freshly created sequencer continues exactly where the log ends.
pub struct Sequencer {
    frames_seen: u64,
}

impl Sequencer {
    /// A fresh sequencer.
    pub fn new() -> Sequencer {
        Sequencer { frames_seen: 0 }
    }

    /// Processes one inbound frame: validates it, assigns the next log
    /// index of its room, and returns the actions. An admissible frame
    /// yields accept, store and broadcast carrying the sequenced frame;
    /// an inadmissible one yields a single rejection and leaves every
    /// room's order untouched.
    pub fn process_frame(
        &mut self,
        frame: Frame,
        storage: &MemoryStorage,
        validator: &MlsValidator,
    ) -> (r: Result<Vec<SequencerAction>, SequencerError>)
        requires
            storage.wf(),
            frame.wf(),
        ensures
            match r {
                Ok(actions) => {
                    let admissible = spec_frame_admissible(frame, storage.spec_state(
                        frame.header.room_id,
                    )) && storage.spec_log(frame.header.room_id).len() <= u64::MAX;
                    if admissible {
                        &&& actions@.len() == 3
                        &&& (actions@[0] matches SequencerAction::AcceptFrame {
                            room_id,
                            log_index,
                            frame: f,
                        } && room_id == frame.header.room_id && log_index == storage.spec_log(
                            frame.header.room_id,
                        ).len() && f.wf() && f@.payload == frame@.payload && f.header == (
                        crate::frame::FrameHeader {
                            log_index,
                            ..frame.header
                        }))
                        &&& (actions@[1] matches SequencerAction::StoreFrame {
                            room_id,
                            log_index,
                            frame: f,
                        } && room_id == frame.header.room_id && log_index == storage.spec_log(
                            frame.header.room_id,
                        ).len() && f.wf() && f@.payload == frame@.payload && f.header == (
                        crate::frame::FrameHeader {
                            log_index,
                            ..frame.header
                        }))
                        &&& (actions@[2] matches SequencerAction::BroadcastToRoom {
                            room_id,
                            frame: f,
                        } && room_id == frame.header.room_id && f@.payload == frame@.payload
                            && f.header == (crate::frame::FrameHeader {
                            log_index: storage.spec_log(frame.header.room_id).len() as u64,
                            ..frame.header
                        }))
                    } else {
                        &&& actions@.len() == 1
                        &&& (actions@[0] matches SequencerAction::RejectFrame {
                            room_id,
                            reason,
                            original_frame,
                        } && room_id == frame.header.room_id && original_frame@ == frame@ && (
                        storage.spec_log(frame.header.room_id).len() <= u64::MAX ==> (if (
                        match storage.spec_state(frame.header.room_id) {
                            Some(st) => frame.header.epoch != st.epoch,
                            None => frame.header.epoch != 0,
                        }) {
                            reason@ == "epoch mismatch"@
                        } else {
                            reason@ == "not in group"@
                        })))
                    }
                },
                Err(_) => false,
            },
    {
        self.frames_seen = if self.frames_seen < u64::MAX {
            self.frames_seen + 1
        } else {
            u64::MAX
        };
        let room_id = frame.header.room_id();
        let state = match storage.load_mls_state(room_id) {
            Ok(state) => state,
            Err(e) => {
                return Err(SequencerError::Storage(e));
            },
        };
        let reason: Option<&str> = match &state {
            Some(st) => {
                if frame.header.epoch() != st.epoch {
                    Some("epoch mismatch")
                } else if !st.is_member(frame.header.sender_id()) {
                    Some("not in group")
                } else {
                    match validator.validate_signature(&frame, st) {
                        Ok(ValidationResult::Accept) => None,
                        Ok(ValidationResult::Reject { .. }) => Some("not in group"),
                        Err(_) => Some("not in group"),
                    }
                }
            },
            None => {
                if frame.header.epoch() != 0 {
                    Some("epoch mismatch")
                } else {
                    None
                }
            },
        };
        let next_index = match storage.latest_log_index(room_id) {
            Ok(Some(latest)) => {
                if latest == u64::MAX {
                    let mut actions: Vec<SequencerAction> = Vec::new();
                    actions.push(
                        SequencerAction::RejectFrame {
                            room_id,
                            reason: String::from_str("log full"),
                            original_frame: frame,
                        },
                    );
                    return Ok(actions);
                }
                latest + 1
            },
            Ok(None) => 0,
            Err(e) => {
                return Err(SequencerError::Storage(e));
            },
        };
        if let Some(text) = reason {
            let mut actions: Vec<SequencerAction> = Vec::new();
            actions.push(
                SequencerAction::RejectFrame {
                    room_id,
                    reason: text.to_owned(),
                    original_frame: frame,
                },
            );
            return Ok(actions);
        }
        proof {
            assert(spec_frame_admissible(frame, storage.spec_state(room_id)));
            assert(storage.spec_log(room_id).len() <= u64::MAX);
            assert(next_index == storage.spec_log(room_id).len());
        }
        let mut sequenced = frame;
        sequenced.header.set_log_index(next_index);
        let mut actions: Vec<SequencerAction> = Vec::new();
        actions.push(
            SequencerAction::AcceptFrame {
                room_id,
                log_index: next_index,
                frame: sequenced.duplicate(),
            },
        );
        actions.push(
            SequencerAction::StoreFrame {
                room_id,
                log_index: next_index,
                frame: sequenced.duplicate(),
            },
        );
        actions.push(SequencerAction::BroadcastToRoom { room_id, frame: sequenced });
        Ok(actions)
    }
}

/// Rejection preserves ordering: an inadmissible frame yields only a
/// rejection action — no store, no broadcast — and the sequencer reads
/// but never writes storage, so the persisted sequence and every index
/// assigned afterwards are exactly those of the run without the rejected
/// frame.
pub proof fn lemma_rejection_emits_nothing(
    frame: Frame,
    state: Option<MlsGroupState>,
    actions: Seq<SequencerAction>,
)
    requires
        !spec_frame_admissible(frame, state),
        actions.len() == 1,
        actions[0] is RejectFrame,
    ensures
        forall|i: int| 0 <= i < actions.len() ==> !((#[trigger] actions[i]) is StoreFrame),
        forall|i: int| 0 <= i < actions.len() ==> !((#[trigger] actions[i]) is BroadcastToRoom),
{
}

} // verus!
