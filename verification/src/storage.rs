//! In-memory frame and group-state storage.
//!
//! Each room owns an append-only log of frames; a frame is stored at the
//! index the sequencer assigned, and the store refuses gaps with a
//! conflict, so the persisted indices of every room are exactly
//! 0, 1, 2, … with no gaps and no duplicates.

use vstd::prelude::*;
use std::collections::HashMap;
use crate::frame::Frame;
use crate::mls::MlsGroupState;

verus! {

broadcast use vstd::std_specs::hash::group_hash_axioms;

/// Storage failures.
#[derive(Debug)]
pub enum StorageError {
    /// The store expected the next index but was handed another: the
    /// compare-and-set append refused a gap or a duplicate.
    Conflict {
        /// The index the log would accept next.
        expected: u64,
        /// The index the caller tried to store.
        got: u64,
    },
}

/// In-memory storage: per-room frame logs and the latest group state.
pub struct MemoryStorage {
    frames: HashMap<u128, Vec<Frame>>,
    states: HashMap<u128, MlsGroupState>,
    total: u64,
}

impl MemoryStorage {
    /// Every stored frame is well formed, belongs to its room's log, and
    /// sits at the index recorded in its own header.
    pub closed spec fn wf(self) -> bool {
        forall|room: u128|
            #[trigger] self.frames@.contains_key(room) ==> forall|i: int|
                0 <= i < self.frames@[room]@.len() ==> {
                    &&& (#[trigger] self.frames@[room]@[i]).wf()
                    &&& self.frames@[room]@[i].header.log_index == i
                    &&& self.frames@[room]@[i].header.room_id == room
                }
    }

    /// The log of a room: empty when the room has no frames yet.
    pub closed spec fn spec_log(self, room_id: u128) -> Seq<Frame> {
        if self.frames@.contains_key(room_id) {
            self.frames@[room_id]@
        } else {
            Seq::empty()
        }
    }

    /// The stored group state of a room, if any.
    pub closed spec fn spec_state(self, room_id: u128) -> Option<MlsGroupState> {
        if self.states@.contains_key(room_id) {
            Some(self.states@[room_id])
        } else {
            None
        }
    }

    /// Count of successfully stored frames, saturating.
    pub closed spec fn spec_total(self) -> u64 {
        self.total
    }

    /// How many rooms hold at least one frame.
    pub closed spec fn spec_room_count(self) -> nat {
        self.frames@.len()
    }

    /// An empty store.
    pub fn new() -> (r: MemoryStorage)
        ensures
            r.wf(),
            r.spec_total() == 0,
            r.spec_room_count() == 0,
            forall|room: u128| #[trigger] r.spec_log(room) == Seq::<Frame>::empty(),
            forall|room: u128| #[trigger] r.spec_state(room) is None,
    {
        MemoryStorage { frames: HashMap::new(), states: HashMap::new(), total: 0 }
    }

    /// Appends a frame at the expected index. The append is
    /// compare-and-set: it succeeds exactly when the index is the next
    /// free one, and reports a conflict otherwise.
    pub fn store_frame(&mut self, room_id: u128, log_index: u64, frame: &Frame) -> (r: Result<
        (),
        StorageError,
    >)
        requires
            old(self).wf(),
            frame.wf(),
            frame.header.log_index == log_index,
            frame.header.room_id == room_id,
        ensures
            final(self).wf(),
            forall|room: u128|
                room != room_id ==> #[trigger] final(self).spec_log(room) == old(self).spec_log(
                    room,
                ),
            forall|room: u128|
                #[trigger] final(self).spec_state(room) == old(self).spec_state(room),
            match r {
                Ok(()) => {
                    &&& log_index == old(self).spec_log(room_id).len()
                    &&& final(self).spec_log(room_id).len() == old(self).spec_log(room_id).len()
                        + 1
                    &&& forall|i: int|
                        0 <= i < old(self).spec_log(room_id).len() ==> #[trigger] final(self).spec_log(room_id)[i] == old(self).spec_log(room_id)[i]
                    &&& final(self).spec_log(room_id).last()@ == frame@
                    &&& final(self).spec_total() == if old(self).spec_total() < u64::MAX {
                        old(self).spec_total() + 1
                    } else {
                        u64::MAX as int
                    }
                },
                Err(StorageError::Conflict { expected, got }) => {
                    &&& log_index != old(self).spec_log(room_id).len()
                    &&& expected == old(self).spec_log(room_id).len()
                    &&& got == log_index
                    &&& final(self).spec_log(room_id) == old(self).spec_log(room_id)
                    &&& final(self).spec_total() == old(self).spec_total()
                },
            },
    {
        let log_opt = self.frames.remove(&room_id);
        let mut log = match log_opt {
            Some(log) => log,
            None => Vec::new(),
        };
        proof {
            assert(log@ == old(self).spec_log(room_id));
        }
        let expected = log.len() as u64;
        if log_index != expected {
            let outcome = Err(StorageError::Conflict { expected, got: log_index });
            if log.len() > 0 {
                self.frames.insert(room_id, log);
                proof {
                    assert(self.frames@ =~= old(self).frames@.insert(
                        room_id,
                        old(self).frames@[room_id],
                    ));
                    assert(self.frames@ =~= old(self).frames@);
                }
            } else {
                proof {
                    if old(self).frames@.contains_key(room_id) {
                        assert(old(self).frames@[room_id]@.len() == 0);
                    }
                }
            }
            return outcome;
        }
        log.push(frame.duplicate());
        proof {
            assert(log@[log@.len() - 1]@ == frame@);
            assert(log@[log@.len() - 1].header == frame.header);
        }
        self.frames.insert(room_id, log);
        self.total = if self.total < u64::MAX {
            self.total + 1
        } else {
            u64::MAX
        };
        proof {
            assert(self.frames@[room_id]@.len() == old(self).spec_log(room_id).len() + 1);
            assert(self.spec_log(room_id).last()@ == frame@);
        }
        Ok(())
    }

    /// Loads up to `limit` frames of a room starting at an index, in log
    /// order.
    pub fn load_frames(&self, room_id: u128, from: u64, limit: usize) -> (r: Result<
        Vec<Frame>,
        StorageError,
    >)
        requires
            self.wf(),
        ensures
            r matches Ok(batch) && {
                let log = self.spec_log(room_id);
                let upto = if from + limit <= log.len() {
                    from + limit
                } else {
                    log.len() as int
                };
                &&& batch@.len() == if from <= log.len() {
                    upto - from
                } else {
                    0int
                }
                &&& forall|i: int|
                    0 <= i < batch@.len() ==> (#[trigger] batch@[i])@ == log[from + i]@
                &&& forall|i: int| 0 <= i < batch@.len() ==> (#[trigger] batch@[i]).wf()
            },
    {
        let mut out: Vec<Frame> = Vec::new();
        let log = match self.frames.get(&room_id) {
            Some(log) => log,
            None => {
                return Ok(out);
            },
        };
        let len = log.len();
        if from > len as u64 {
            return Ok(out);
        }
        let start = from as usize;
        let upto = if limit <= len - start {
            start + limit
        } else {
            len
        };
        let mut i: usize = start;
        while i < upto
            invariant
                start <= i <= upto <= len,
                len == log@.len(),
                log@ == self.spec_log(room_id),
                out@.len() == i - start,
                forall|j: int|
                    0 <= j < out@.len() ==> (#[trigger] out@[j])@ == self.spec_log(room_id)[start
                        + j]@,
            decreases upto - i,
        {
            out.push(log[i].duplicate());
            i = i + 1;
        }
        Ok(out)
    }

    /// The highest stored log index of a room, `None` while it is empty.
    pub fn latest_log_index(&self, room_id: u128) -> (r: Result<Option<u64>, StorageError>)
        requires
            self.wf(),
        ensures
            self.spec_log(room_id).len() <= usize::MAX,
            r matches Ok(latest) && latest == if self.spec_log(room_id).len() == 0 {
                None::<u64>
            } else {
                Some((self.spec_log(room_id).len() - 1) as u64)
            },
    {
        match self.frames.get(&room_id) {
            Some(log) => {
                let n = log.len();
                proof {
                    assert(n == log@.len());
                }
                if n == 0 {
                    Ok(None)
                } else {
                    Ok(Some((n - 1) as u64))
                }
            },
            None => Ok(None),
        }
    }

    /// Stores (replaces) the group state of a room.
    pub fn store_mls_state(&mut self, room_id: u128, state: &MlsGroupState) -> (r: Result<
        (),
        StorageError,
    >)
        requires
            old(self).wf(),
        ensures
            final(self).wf(),
            r is Ok,
            forall|room: u128| #[trigger] final(self).spec_log(room) == old(self).spec_log(room),
            final(self).spec_total() == old(self).spec_total(),
            final(self).spec_state(room_id) matches Some(s) && s.room_id == state.room_id
                && s.epoch == state.epoch && s.members@ == state.members@,
            forall|room: u128|
                room != room_id ==> #[trigger] final(self).spec_state(room) == old(
                    self,
                ).spec_state(room),
    {
        self.states.insert(room_id, state.duplicate());
        Ok(())
    }

    /// Loads the stored group state of a room, if any.
    pub fn load_mls_state(&self, room_id: u128) -> (r: Result<Option<MlsGroupState>, StorageError>)
        requires
            self.wf(),
        ensures
            match r {
                Ok(Some(s)) => self.spec_state(room_id) matches Some(st) && s.room_id
                    == st.room_id && s.epoch == st.epoch && s.members@ == st.members@,
                Ok(None) => self.spec_state(room_id) is None,
                Err(_) => false,
            },
    {
        match self.states.get(&room_id) {
            Some(state) => Ok(Some(state.duplicate())),
            None => Ok(None),
        }
    }

    /// How many rooms hold frames.
    pub fn room_count(&self) -> (r: usize)
        ensures
            r == self.spec_room_count(),
    {
        self.frames.len()
    }

    /// How many frames were stored over the store's lifetime.
    pub fn total_frame_count(&self) -> (r: u64)
        ensures
            r == self.spec_total(),
    {
        self.total
    }
}

/// Sequencer monotonicity, as the log records it: in every room the
/// persisted log indices are exactly 0, 1, 2, …, with no gaps and no
/// duplicates, whatever interleaving of accepted and rejected frames
/// produced the log.
pub proof fn lemma_log_indices_consecutive(storage: MemoryStorage, room_id: u128)
    requires
        storage.wf(),
    ensures
        forall|i: int|
            0 <= i < storage.spec_log(room_id).len()
                ==> (#[trigger] storage.spec_log(room_id)[i]).header.log_index == i,
        forall|i: int, j: int|
            0 <= i < j < storage.spec_log(room_id).len() ==> storage.spec_log(
                room_id,
            )[i].header.log_index != storage.spec_log(room_id)[j].header.log_index,
{
}

} // verus!
