//! Reference model for model-based testing.
//!
//! A deliberately simple re-statement of the protocol's logical state
//! transitions, without cryptography: room membership, epochs, and
//! per-room message order. The real state machines are compared against
//! it operation by operation.

use vstd::prelude::*;
use std::collections::HashMap;

verus! {

broadcast use vstd::std_specs::hash::group_hash_axioms;

/// Client identifier in the model.
pub type ClientId = u8;

/// Room identifier in the model; mapped to the wide id in the real
/// system.
pub type ModelRoomId = u8;

/// Operations the model and the real system both consume.
#[derive(Clone, Debug)]
pub enum Operation {
    /// A client creates a room.
    CreateRoom { client_id: ClientId, room_id: ModelRoomId },
    /// A client sends a message to a room.
    SendMessage { client_id: ClientId, room_id: ModelRoomId, content: SmallMessage },
    /// A client leaves a room.
    LeaveRoom { client_id: ClientId, room_id: ModelRoomId },
    /// Simulation time advances.
    AdvanceTime { millis: u16 },
    /// Deliver pending messages; the model delivers instantly.
    DeliverPending,
}

/// Compact message content: a seed and a size class, expanded
/// deterministically.
#[derive(Clone, Copy, Debug)]
pub struct SmallMessage {
    /// Seed the content bytes grow from.
    pub seed: u8,
    /// Length class: empty, small, medium or large.
    pub size_class: u8,
}

/// The expanded length of a size class.
pub open spec fn spec_small_message_len(size_class: u8) -> nat {
    if size_class % 4 == 0 {
        0
    } else if size_class % 4 == 1 {
        8
    } else if size_class % 4 == 2 {
        64
    } else {
        256
    }
}

impl SmallMessage {
    /// Expands the message to its bytes: deterministic from the seed.
    pub fn to_bytes(&self) -> (r: Vec<u8>)
        ensures
            r@.len() == spec_small_message_len(self.size_class),
            forall|i: int|
                0 <= i < r@.len() ==> r@[i] == ((self.seed + i) % 256) as u8,
    {
        let len: usize = if self.size_class % 4 == 0 {
            0
        } else if self.size_class % 4 == 1 {
            8
        } else if self.size_class % 4 == 2 {
            64
        } else {
            256
        };
        let mut out: Vec<u8> = Vec::new();
        let mut i: usize = 0;
        while i < len
            invariant
                i <= len,
                len <= 256,
                out@.len() == i,
                forall|j: int| 0 <= j < i ==> out@[j] == ((self.seed + j) % 256) as u8,
            decreases len - i,
        {
            out.push((((self.seed as u32) + (i as u32)) % 256) as u8);
            i = i + 1;
        }
        out
    }
}

/// Result of applying an operation.
#[derive(Clone, Copy, Debug, PartialEq, Eq, Structural)]
pub enum OperationResult {
    /// The operation succeeded.
    Success,
    /// The operation failed with an expected error.
    Error(OperationError),
}

/// Expected operation failures.
#[derive(Clone, Copy, Debug, PartialEq, Eq, Structural)]
pub enum OperationError {
    /// The room already exists for this client.
    RoomAlreadyExists,
    /// The room does not exist.
    RoomNotFound,
    /// The client is not a member of the room.
    NotMember,
    /// The client id is out of range.
    InvalidClient,
}

impl OperationResult {
    /// Whether the operation succeeded.
    pub fn is_ok(&self) -> (r: bool)
        ensures
            r == (*self == OperationResult::Success),
    {
        matches!(self, OperationResult::Success)
    }

    /// Whether the operation failed.
    pub fn is_err(&self) -> (r: bool)
        ensures
            r == (*self != OperationResult::Success),
    {
        !self.is_ok()
    }
}

/// A message as the model records it.
#[derive(Clone, Debug)]
pub struct ModelMessage {
    /// Sending client.
    pub sender_id: ClientId,
    /// Content bytes.
    pub content: Vec<u8>,
    /// Order the server assigned.
    pub log_index: u64,
}

/// Per-room state of a model client.
struct ModelRoomState {
    epoch: u64,
    messages: Vec<ModelMessage>,
    next_send_index: u64,
}

impl ModelRoomState {
    fn new() -> (r: ModelRoomState)
        ensures
            r.epoch == 0,
            r.messages@.len() == 0,
            r.next_send_index == 0,
    {
        ModelRoomState { epoch: 0, messages: Vec::new(), next_send_index: 0 }
    }
}

/// A client in the model: its rooms, epochs and received messages.
pub struct ModelClient {
    id: ClientId,
    rooms: HashMap<ModelRoomId, ModelRoomState>,
}

impl ModelClient {
    pub closed spec fn spec_id(self) -> ClientId {
        self.id
    }

    pub closed spec fn spec_is_member(self, room_id: ModelRoomId) -> bool {
        self.rooms@.contains_key(room_id)
    }

    pub closed spec fn spec_epoch(self, room_id: ModelRoomId) -> u64 {
        self.rooms@[room_id].epoch
    }

    /// How many messages the client has received in a room.
    pub closed spec fn spec_message_count(self, room_id: ModelRoomId) -> nat {
        self.rooms@[room_id].messages@.len()
    }

    /// The next index the client expects for its own sends in a room.
    pub closed spec fn spec_next_send_index(self, room_id: ModelRoomId) -> u64 {
        self.rooms@[room_id].next_send_index
    }

    /// One received message of a room, by position.
    pub closed spec fn spec_message_at(self, room_id: ModelRoomId, i: int) -> ModelMessage {
        self.rooms@[room_id].messages@[i]
    }

    /// A fresh client with no rooms.
    pub fn new(id: ClientId) -> (r: ModelClient)
        ensures
            r.spec_id() == id,
            forall|k: ModelRoomId| !(#[trigger] r.spec_is_member(k)),
    {
        ModelClient { id, rooms: HashMap::new() }
    }

    /// The client's identifier.
    pub fn id(&self) -> (r: ClientId)
        ensures
            r == self.spec_id(),
    {
        self.id
    }

    /// Whether the client is in a room.
    pub fn is_member(&self, room_id: ModelRoomId) -> (r: bool)
        ensures
            r == self.spec_is_member(room_id),
    {
        self.rooms.contains_key(&room_id)
    }

    /// The client's epoch for a room, `None` when not a member.
    pub fn epoch(&self, room_id: ModelRoomId) -> (r: Option<u64>)
        ensures
            r == if self.spec_is_member(room_id) {
                Some(self.spec_epoch(room_id))
            } else {
                None::<u64>
            },
    {
        match self.rooms.get(&room_id) {
            Some(room) => Some(room.epoch),
            None => None,
        }
    }

    /// The rooms this client is in, in unspecified order.
    pub fn rooms(&self) -> (r: Vec<ModelRoomId>)
        ensures
            forall|k: ModelRoomId| self.spec_is_member(k) <==> r@.contains(k),
    {
        let mut out: Vec<ModelRoomId> = Vec::new();
        let mut candidate: u16 = 0;
        while candidate < 256
            invariant
                candidate <= 256,
                forall|k: ModelRoomId|
                    (k as int) < candidate && self.spec_is_member(k) ==> out@.contains(k),
                forall|j: int| 0 <= j < out@.len() ==> self.spec_is_member(#[trigger] out@[j]),
            decreases 256 - candidate,
        {
            let key = candidate as u8;
            let ghost pre = out@;
            if self.rooms.contains_key(&key) {
                out.push(key);
            }
            proof {
                assert forall|k: ModelRoomId|
                    (k as int) < candidate + 1 && self.spec_is_member(k) implies out@.contains(
                    k,
                ) by {
                    if (k as int) < candidate {
                        assert(pre.contains(k));
                        let j = choose|j: int| 0 <= j < pre.len() && pre[j] == k;
                        assert(out@[j] == k);
                    } else {
                        assert(k == key);
                        assert(out@[out@.len() - 1] == key);
                    }
                }
            }
            candidate = candidate + 1;
        }
        proof {
            assert forall|k: ModelRoomId| self.spec_is_member(k) <==> out@.contains(k) by {
                if out@.contains(k) {
                    let j = choose|j: int| 0 <= j < out@.len() && out@[j] == k;
                    assert(self.spec_is_member(out@[j]));
                }
            }
        }
        out
    }

    /// Messages received in a room, ordered as delivered.
    pub fn messages(&self, room_id: ModelRoomId) -> (r: Option<&Vec<ModelMessage>>)
        ensures
            (r is Some) == self.spec_is_member(room_id),
    {
        match self.rooms.get(&room_id) {
            Some(room) => Some(&room.messages),
            None => None,
        }
    }

    /// Creates a room: the client becomes a member at epoch zero.
    pub fn create_room(&mut self, room_id: ModelRoomId) -> (r: OperationResult)
        ensures
            match r {
                OperationResult::Success => {
                    &&& !old(self).spec_is_member(room_id)
                    &&& final(self).spec_is_member(room_id)
                    &&& final(self).spec_epoch(room_id) == 0
                    &&& final(self).spec_message_count(room_id) == 0
                    &&& final(self).spec_next_send_index(room_id) == 0
                },
                OperationResult::Error(e) => e == OperationError::RoomAlreadyExists && old(
                    self,
                ).spec_is_member(room_id) && *final(self) == *old(self),
            },
            forall|k: ModelRoomId|
                k != room_id ==> #[trigger] final(self).spec_is_member(k) == old(
                    self,
                ).spec_is_member(k),
    {
        if self.rooms.contains_key(&room_id) {
            return OperationResult::Error(OperationError::RoomAlreadyExists);
        }
        self.rooms.insert(room_id, ModelRoomState::new());
        OperationResult::Success
    }

    /// Leaves a room.
    pub fn leave_room(&mut self, room_id: ModelRoomId) -> (r: OperationResult)
        ensures
            match r {
                OperationResult::Success => old(self).spec_is_member(room_id) && !final(self).spec_is_member(room_id),
                OperationResult::Error(e) => e == OperationError::NotMember && !old(
                    self,
                ).spec_is_member(room_id) && !final(self).spec_is_member(room_id),
            },
            forall|k: ModelRoomId|
                k != room_id ==> #[trigger] final(self).spec_is_member(k) == old(
                    self,
                ).spec_is_member(k),
            forall|k: ModelRoomId|
                k != room_id && old(self).spec_is_member(k) ==> #[trigger] final(self).spec_epoch(
                    k,
                ) == old(self).spec_epoch(k) && final(self).spec_message_count(k) == old(
                    self,
                ).spec_message_count(k) && final(self).spec_next_send_index(k) == old(
                    self,
                ).spec_next_send_index(k),
    {
        let removed = self.rooms.remove(&room_id);
        if removed.is_none() {
            return OperationResult::Error(OperationError::NotMember);
        }
        OperationResult::Success
    }

    /// Registers a send: returns the index the client expects the server
    /// to assign next for its own messages.
    pub fn send_message(&mut self, room_id: ModelRoomId) -> (r: Result<u64, OperationError>)
        ensures
            match r {
                Ok(index) => {
                    &&& old(self).spec_is_member(room_id)
                    &&& final(self).spec_is_member(room_id)
                    &&& index == old(self).spec_next_send_index(room_id)
                    &&& old(self).spec_next_send_index(room_id) < u64::MAX ==> final(self).spec_next_send_index(room_id) == index + 1
                },
                Err(e) => e == OperationError::NotMember && !old(self).spec_is_member(room_id),
            },
            forall|k: ModelRoomId|
                #[trigger] final(self).spec_is_member(k) == old(self).spec_is_member(k),
            forall|k: ModelRoomId|
                old(self).spec_is_member(k) ==> #[trigger] final(self).spec_epoch(k) == old(
                    self,
                ).spec_epoch(k) && final(self).spec_message_count(k) == old(
                    self,
                ).spec_message_count(k),
            forall|k: ModelRoomId|
                k != room_id && old(self).spec_is_member(k) ==> #[trigger] final(self).spec_next_send_index(k) == old(self).spec_next_send_index(k),
    {
        let room_opt = self.rooms.remove(&room_id);
        let mut room = match room_opt {
            Some(room) => room,
            None => {
                proof {
                    assert(self.rooms@ =~= old(self).rooms@);
                }
                return Err(OperationError::NotMember);
            },
        };
        let log_index = room.next_send_index;
        room.next_send_index = if room.next_send_index < u64::MAX {
            room.next_send_index + 1
        } else {
            u64::MAX
        };
        self.rooms.insert(room_id, room);
        proof {
            assert forall|k: ModelRoomId|
                #[trigger] self.spec_is_member(k) == old(self).spec_is_member(k) by {}
        }
        Ok(log_index)
    }

    /// Records a delivered message; no-op when not a member.
    pub fn receive_message(&mut self, room_id: ModelRoomId, message: ModelMessage)
        ensures
            forall|k: ModelRoomId|
                #[trigger] final(self).spec_is_member(k) == old(self).spec_is_member(k),
            old(self).spec_is_member(room_id) ==> final(self).spec_message_count(room_id) == old(
                self,
            ).spec_message_count(room_id) + 1,
            // the delivery is an append: older messages stay in place and
            // the new last element is the delivered message
            old(self).spec_is_member(room_id) ==> final(self).spec_message_at(
                room_id,
                old(self).spec_message_count(room_id) as int,
            ) == message,
            forall|i: int|
                old(self).spec_is_member(room_id) && 0 <= i < old(self).spec_message_count(
                    room_id,
                ) ==> #[trigger] final(self).spec_message_at(room_id, i) == old(
                    self,
                ).spec_message_at(room_id, i),
            forall|k: ModelRoomId|
                old(self).spec_is_member(k) ==> #[trigger] final(self).spec_epoch(k) == old(
                    self,
                ).spec_epoch(k) && final(self).spec_next_send_index(k) == old(
                    self,
                ).spec_next_send_index(k),
            forall|k: ModelRoomId|
                k != room_id && old(self).spec_is_member(k) ==> #[trigger] final(self).spec_message_count(k) == old(self).spec_message_count(k),
    {
        let room_opt = self.rooms.remove(&room_id);
        match room_opt {
            Some(mut room) => {
                room.messages.push(message);
                self.rooms.insert(room_id, room);
                proof {
                    assert forall|k: ModelRoomId|
                        #[trigger] self.spec_is_member(k) == old(self).spec_is_member(k) by {}
                }
            },
            None => {
                proof {
                    assert(self.rooms@ =~= old(self).rooms@);
                }
            },
        }
    }

    /// Joins a room another member added this client to.
    pub fn join_room(&mut self, room_id: ModelRoomId) -> (r: OperationResult)
        ensures
            match r {
                OperationResult::Success => {
                    &&& !old(self).spec_is_member(room_id)
                    &&& final(self).spec_is_member(room_id)
                    &&& final(self).spec_epoch(room_id) == 0
                    &&& final(self).spec_message_count(room_id) == 0
                },
                OperationResult::Error(e) => e == OperationError::RoomAlreadyExists && old(
                    self,
                ).spec_is_member(room_id) && *final(self) == *old(self),
            },
            forall|k: ModelRoomId|
                k != room_id ==> #[trigger] final(self).spec_is_member(k) == old(
                    self,
                ).spec_is_member(k),
    {
        if self.rooms.contains_key(&room_id) {
            return OperationResult::Error(OperationError::RoomAlreadyExists);
        }
        self.rooms.insert(room_id, ModelRoomState::new());
        OperationResult::Success
    }

    /// Advances the epoch of a room after a commit; no-op when not a
    /// member.
    pub fn advance_epoch(&mut self, room_id: ModelRoomId)
        ensures
            forall|k: ModelRoomId|
                #[trigger] final(self).spec_is_member(k) == old(self).spec_is_member(k),
            old(self).spec_is_member(room_id) && old(self).spec_epoch(room_id) < u64::MAX ==>
                final(self).spec_epoch(room_id) == old(self).spec_epoch(room_id) + 1,
            old(self).spec_is_member(room_id) ==> final(self).spec_message_count(room_id) == old(
                self,
            ).spec_message_count(room_id) && final(self).spec_next_send_index(room_id) == old(
                self,
            ).spec_next_send_index(room_id),
            forall|k: ModelRoomId|
                k != room_id && old(self).spec_is_member(k) ==> #[trigger] final(self).spec_epoch(
                    k,
                ) == old(self).spec_epoch(k) && final(self).spec_message_count(k) == old(
                    self,
                ).spec_message_count(k) && final(self).spec_next_send_index(k) == old(
                    self,
                ).spec_next_send_index(k),
            // a non-member call changes nothing observable
            !old(self).spec_is_member(room_id) ==> forall|k: ModelRoomId|
                old(self).spec_is_member(k) ==> #[trigger] final(self).spec_epoch(k) == old(
                    self,
                ).spec_epoch(k) && final(self).spec_message_count(k) == old(
                    self,
                ).spec_message_count(k),
    {
        let room_opt = self.rooms.remove(&room_id);
        match room_opt {
            Some(mut room) => {
                room.epoch = if room.epoch < u64::MAX {
                    room.epoch + 1
                } else {
                    u64::MAX
                };
                self.rooms.insert(room_id, room);
                proof {
                    assert forall|k: ModelRoomId|
                        #[trigger] self.spec_is_member(k) == old(self).spec_is_member(k) by {}
                }
            },
            None => {
                proof {
                    assert(self.rooms@ =~= old(self).rooms@);
                }
            },
        }
    }
}

/// Per-room state of the model server.
struct ModelServerRoom {
    members: Vec<ClientId>,
    messages: Vec<ModelMessage>,
    epoch: u64,
    next_log_index: u64,
}

/// The model server: membership, order and epoch per room.
pub struct ModelServer {
    rooms: HashMap<ModelRoomId, ModelServerRoom>,
}

impl ModelServer {
    pub closed spec fn spec_has_room(self, room_id: ModelRoomId) -> bool {
        self.rooms@.contains_key(room_id)
    }

    /// The epoch of a room the server holds.
    pub closed spec fn spec_epoch_of(self, room_id: ModelRoomId) -> u64 {
        self.rooms@[room_id].epoch
    }

    /// Whether a client is a member of a room the server holds.
    pub closed spec fn spec_member(self, room_id: ModelRoomId, client_id: ClientId) -> bool {
        self.rooms@[room_id].members@.contains(client_id)
    }

    /// How many messages a room's order holds.
    pub closed spec fn spec_message_count(self, room_id: ModelRoomId) -> nat {
        self.rooms@[room_id].messages@.len()
    }

    /// The next log index a room will assign.
    pub closed spec fn spec_next_index(self, room_id: ModelRoomId) -> u64 {
        self.rooms@[room_id].next_log_index
    }

    /// One sequenced message of a room, by position.
    pub closed spec fn spec_message_at(self, room_id: ModelRoomId, i: int) -> ModelMessage {
        self.rooms@[room_id].messages@[i]
    }

    /// Rooms the call does not name keep every observable.
    pub open spec fn spec_other_rooms_kept(pre: ModelServer, post: ModelServer, room_id: ModelRoomId) -> bool {
        &&& (forall|k: ModelRoomId|
            k != room_id ==> #[trigger] post.spec_has_room(k) == pre.spec_has_room(k))
        &&& (forall|k: ModelRoomId|
            k != room_id && pre.spec_has_room(k) ==> #[trigger] post.spec_epoch_of(k)
                == pre.spec_epoch_of(k) && post.spec_message_count(k) == pre.spec_message_count(
                k,
            ) && post.spec_next_index(k) == pre.spec_next_index(k))
        &&& (forall|k: ModelRoomId, c: ClientId|
            k != room_id && pre.spec_has_room(k) ==> #[trigger] post.spec_member(k, c)
                == pre.spec_member(k, c))
    }

    /// A server with no rooms.
    pub fn new() -> (r: ModelServer)
        ensures
            forall|k: ModelRoomId| !(#[trigger] r.spec_has_room(k)),
    {
        ModelServer { rooms: HashMap::new() }
    }

    /// Creates a room: empty, at epoch zero, with nothing sequenced.
    pub fn create_room(&mut self, room_id: ModelRoomId, _creator: ClientId) -> (r: OperationResult)
        ensures
            final(self).spec_has_room(room_id),
            r == OperationResult::Success <==> !old(self).spec_has_room(room_id),
            r == OperationResult::Success ==> {
                &&& final(self).spec_epoch_of(room_id) == 0
                &&& final(self).spec_message_count(room_id) == 0
                &&& final(self).spec_next_index(room_id) == 0
                &&& forall|c: ClientId| !(#[trigger] final(self).spec_member(room_id, c))
            },
            r != OperationResult::Success ==> *final(self) == *old(self),
            ModelServer::spec_other_rooms_kept(*old(self), *final(self), room_id),
    {
        if self.rooms.contains_key(&room_id) {
            return OperationResult::Error(OperationError::RoomAlreadyExists);
        }
        let room = ModelServerRoom {
            members: Vec::new(),
            messages: Vec::new(),
            epoch: 0,
            next_log_index: 0,
        };
        self.rooms.insert(room_id, room);
        OperationResult::Success
    }

    /// Adds a member to a room; a no-op when the room is unknown or the
    /// client is already in it.
    pub fn add_member(&mut self, room_id: ModelRoomId, client_id: ClientId)
        ensures
            final(self).spec_has_room(room_id) == old(self).spec_has_room(room_id),
            old(self).spec_has_room(room_id) ==> {
                &&& final(self).spec_member(room_id, client_id)
                &&& forall|c: ClientId|
                    c != client_id ==> #[trigger] final(self).spec_member(room_id, c) == old(
                        self,
                    ).spec_member(room_id, c)
                &&& final(self).spec_epoch_of(room_id) == old(self).spec_epoch_of(room_id)
                &&& final(self).spec_message_count(room_id) == old(self).spec_message_count(
                    room_id,
                )
                &&& final(self).spec_next_index(room_id) == old(self).spec_next_index(room_id)
            },
            ModelServer::spec_other_rooms_kept(*old(self), *final(self), room_id),
    {
        let room_opt = self.rooms.remove(&room_id);
        if let Some(mut room) = room_opt {
            let ghost pre = room.members@;
            if !contains_client(&room.members, client_id) {
                room.members.push(client_id);
                proof {
                    assert(room.members@[pre.len() as int] == client_id);
                    assert forall|c: ClientId|
                        c != client_id implies room.members@.contains(c) == pre.contains(c) by {
                        if room.members@.contains(c) {
                            let j = choose|j: int|
                                0 <= j < room.members@.len() && room.members@[j] == c;
                            assert(pre[j] == c);
                        }
                        if pre.contains(c) {
                            let j = choose|j: int| 0 <= j < pre.len() && pre[j] == c;
                            assert(room.members@[j] == c);
                        }
                    }
                }
            }
            self.rooms.insert(room_id, room);
        } else {
            proof {
                assert(self.rooms@ =~= old(self).rooms@);
            }
        }
    }

    /// Removes a member from a room; a no-op when the room is unknown.
    pub fn remove_member(&mut self, room_id: ModelRoomId, client_id: ClientId)
        ensures
            final(self).spec_has_room(room_id) == old(self).spec_has_room(room_id),
            old(self).spec_has_room(room_id) ==> {
                &&& forall|c: ClientId|
                    #[trigger] final(self).spec_member(room_id, c) == (old(self).spec_member(
                        room_id,
                        c,
                    ) && c != client_id)
                &&& final(self).spec_epoch_of(room_id) == old(self).spec_epoch_of(room_id)
                &&& final(self).spec_message_count(room_id) == old(self).spec_message_count(
                    room_id,
                )
                &&& final(self).spec_next_index(room_id) == old(self).spec_next_index(room_id)
            },
            ModelServer::spec_other_rooms_kept(*old(self), *final(self), room_id),
    {
        let room_opt = self.rooms.remove(&room_id);
        if let Some(mut room) = room_opt {
            let ghost pre = room.members@;
            let mut kept: Vec<ClientId> = Vec::new();
            let n = room.members.len();
            let mut i: usize = 0;
            while i < n
                invariant
                    n == room.members@.len(),
                    room.members@ == pre,
                    i <= n,
                    forall|j: int|
                        0 <= j < i && (#[trigger] pre[j]) != client_id ==> kept@.contains(pre[j]),
                    forall|c: ClientId|
                        #[trigger] kept@.contains(c) ==> c != client_id && pre.contains(c),
                decreases n - i,
            {
                if room.members[i] != client_id {
                    let ghost prek = kept@;
                    kept.push(room.members[i]);
                    proof {
                        assert(kept@[prek.len() as int] == pre[i as int]);
                        assert forall|j: int|
                            0 <= j < i + 1 && (#[trigger] pre[j]) != client_id implies kept@.contains(
                            pre[j],
                        ) by {
                            if j < i {
                                let k = choose|k: int| 0 <= k < prek.len() && prek[k] == pre[j];
                                assert(kept@[k] == pre[j]);
                            }
                        }
                        assert forall|c: ClientId|
                            #[trigger] kept@.contains(c) implies c != client_id && pre.contains(
                            c,
                        ) by {
                            let k = choose|k: int| 0 <= k < kept@.len() && kept@[k] == c;
                            if k < prek.len() {
                                assert(kept@[k] == prek[k]);
                                assert(prek.contains(c));
                            } else {
                                assert(kept@[k] == pre[i as int]);
                                assert(pre.contains(c)) by {
                                    assert(pre[i as int] == c);
                                }
                            }
                        }
                    }
                }
                i = i + 1;
            }
            room.members = kept;
            proof {
                assert forall|c: ClientId|
                    #[trigger] room.members@.contains(c) == (pre.contains(c) && c
                        != client_id) by {
                    if pre.contains(c) && c != client_id {
                        let j = choose|j: int| 0 <= j < pre.len() && pre[j] == c;
                    }
                }
            }
            self.rooms.insert(room_id, room);
        } else {
            proof {
                assert(self.rooms@ =~= old(self).rooms@);
            }
        }
    }

    /// Advances the epoch of a room by one; a no-op when unknown.
    pub fn advance_epoch(&mut self, room_id: ModelRoomId)
        ensures
            final(self).spec_has_room(room_id) == old(self).spec_has_room(room_id),
            old(self).spec_has_room(room_id) ==> {
                &&& old(self).spec_epoch_of(room_id) < u64::MAX ==> final(self).spec_epoch_of(
                    room_id,
                ) == old(self).spec_epoch_of(room_id) + 1
                &&& final(self).spec_message_count(room_id) == old(self).spec_message_count(
                    room_id,
                )
                &&& final(self).spec_next_index(room_id) == old(self).spec_next_index(room_id)
                &&& forall|c: ClientId|
                    #[trigger] final(self).spec_member(room_id, c) == old(self).spec_member(
                        room_id,
                        c,
                    )
            },
            ModelServer::spec_other_rooms_kept(*old(self), *final(self), room_id),
    {
        let room_opt = self.rooms.remove(&room_id);
        if let Some(mut room) = room_opt {
            room.epoch = if room.epoch < u64::MAX {
                room.epoch + 1
            } else {
                u64::MAX
            };
            self.rooms.insert(room_id, room);
        } else {
            proof {
                assert(self.rooms@ =~= old(self).rooms@);
            }
        }
    }

    /// The epoch of a room.
    pub fn epoch(&self, room_id: ModelRoomId) -> (r: Option<u64>)
        ensures
            r == if self.spec_has_room(room_id) {
                Some(self.spec_epoch_of(room_id))
            } else {
                None::<u64>
            },
    {
        match self.rooms.get(&room_id) {
            Some(room) => Some(room.epoch),
            None => None,
        }
    }

    /// The members of a room.
    pub fn members(&self, room_id: ModelRoomId) -> (r: Option<Vec<ClientId>>)
        ensures
            (r is Some) == self.spec_has_room(room_id),
            r matches Some(roster) ==> forall|c: ClientId|
                #[trigger] roster@.contains(c) == self.spec_member(room_id, c),
    {
        match self.rooms.get(&room_id) {
            Some(room) => Some(copy_clients(&room.members)),
            None => None,
        }
    }

    /// The ordered messages of a room.
    pub fn messages(&self, room_id: ModelRoomId) -> (r: Option<&Vec<ModelMessage>>)
        ensures
            (r is Some) == self.spec_has_room(room_id),
            r matches Some(messages) ==> messages@.len() == self.spec_message_count(room_id)
                && (forall|i: int|
                0 <= i < messages@.len() ==> #[trigger] messages@[i] == self.spec_message_at(
                    room_id,
                    i,
                )),
    {
        match self.rooms.get(&room_id) {
            Some(room) => Some(&room.messages),
            None => None,
        }
    }

    /// Sequences one message from a member: assigns the next log index
    /// and appends the message to the room's order.
    pub fn process_message(&mut self, room_id: ModelRoomId, client_id: ClientId, content: Vec<u8>)
        -> (r: Result<u64, OperationError>)
        ensures
            final(self).spec_has_room(room_id) == old(self).spec_has_room(room_id),
            ModelServer::spec_other_rooms_kept(*old(self), *final(self), room_id),
            match r {
                Ok(index) => {
                    &&& old(self).spec_has_room(room_id)
                    &&& old(self).spec_member(room_id, client_id)
                    &&& index == old(self).spec_next_index(room_id)
                    &&& old(self).spec_next_index(room_id) < u64::MAX ==> final(self).spec_next_index(room_id) == index + 1
                    &&& final(self).spec_message_count(room_id) == old(self).spec_message_count(
                        room_id,
                    ) + 1
                    &&& final(self).spec_message_at(
                        room_id,
                        old(self).spec_message_count(room_id) as int,
                    ) == (ModelMessage { sender_id: client_id, content, log_index: index })
                    &&& (forall|i: int|
                        0 <= i < old(self).spec_message_count(room_id) ==> #[trigger] final(self).spec_message_at(room_id, i) == old(self).spec_message_at(room_id, i))
                    &&& final(self).spec_epoch_of(room_id) == old(self).spec_epoch_of(room_id)
                    &&& (forall|c: ClientId|
                        #[trigger] final(self).spec_member(room_id, c) == old(self).spec_member(
                            room_id,
                            c,
                        ))
                },
                Err(OperationError::RoomNotFound) => !old(self).spec_has_room(room_id),
                Err(OperationError::NotMember) => old(self).spec_has_room(room_id) && !old(
                    self,
                ).spec_member(room_id, client_id),
                Err(_) => false,
            },
    {
        let room_opt = self.rooms.remove(&room_id);
        let mut room = match room_opt {
            Some(room) => room,
            None => {
                proof {
                    assert(self.rooms@ =~= old(self).rooms@);
                }
                return Err(OperationError::RoomNotFound);
            },
        };
        if !contains_client(&room.members, client_id) {
            self.rooms.insert(room_id, room);
            return Err(OperationError::NotMember);
        }
        let log_index = room.next_log_index;
        room.next_log_index = if room.next_log_index < u64::MAX {
            room.next_log_index + 1
        } else {
            u64::MAX
        };
        room.messages.push(ModelMessage { sender_id: client_id, content, log_index });
        self.rooms.insert(room_id, room);
        Ok(log_index)
    }
}

/// Whether a client id appears in a roster.
fn contains_client(ids: &Vec<ClientId>, x: ClientId) -> (r: bool)
    ensures
        r == ids@.contains(x),
{
    let n = ids.len();
    let mut i: usize = 0;
    while i < n
        invariant
            n == ids@.len(),
            i <= n,
            forall|j: int| 0 <= j < i ==> ids@[j] != x,
        decreases n - i,
    {
        if ids[i] == x {
            return true;
        }
        i = i + 1;
    }
    false
}

/// Copies a roster.
fn copy_clients(ids: &Vec<ClientId>) -> (r: Vec<ClientId>)
    ensures
        r@ == ids@,
{
    vstd::slice::slice_to_vec(ids.as_slice())
}

/// The whole model: clients and the server, the oracle the real system
/// is compared against.
pub struct ModelWorld {
    clients: Vec<ModelClient>,
    server: ModelServer,
}

impl ModelWorld {
    /// Every membership a reachable client holds is mirrored on the
    /// server: the room exists there and lists the client. Operations
    /// address clients by eight-bit id, so only the first 256 slots are
    /// reachable.
    pub closed spec fn wf(self) -> bool {
        forall|c: int, r: ModelRoomId|
            0 <= c < self.clients@.len() && c < 256 && #[trigger] self.clients@[c].spec_is_member(
                r,
            ) ==> self.server.spec_has_room(r) && self.server.spec_member(r, c as u8)
    }

    /// A world of the given number of clients.
    pub fn new(num_clients: usize) -> (r: ModelWorld)
        ensures
            r.wf(),
            r.spec_num_clients() == num_clients,
            forall|c: ClientId, k: ModelRoomId|
                c < num_clients ==> !(#[trigger] r.spec_client_member(c, k)),
    {
        let mut clients: Vec<ModelClient> = Vec::new();
        let mut i: usize = 0;
        while i < num_clients
            invariant
                i <= num_clients,
                num_clients <= usize::MAX,
                clients@.len() == i,
                forall|c: int, k: ModelRoomId|
                    0 <= c < i ==> !(#[trigger] clients@[c].spec_is_member(k)),
            decreases num_clients - i,
        {
            clients.push(ModelClient::new((i % 256) as u8));
            i = i + 1;
        }
        ModelWorld { clients, server: ModelServer::new() }
    }

    pub closed spec fn spec_num_clients(self) -> nat {
        self.clients@.len()
    }

    /// Whether a client is in a room, as the client itself records it.
    pub closed spec fn spec_client_member(self, client_id: ClientId, room_id: ModelRoomId) -> bool {
        self.clients@[client_id as int].spec_is_member(room_id)
    }

    /// How many clients the world holds.
    pub fn num_clients(&self) -> (r: usize)
        ensures
            r == self.spec_num_clients(),
    {
        self.clients.len()
    }

    /// A client by id.
    pub fn client(&self, id: ClientId) -> (r: Option<&ModelClient>)
        ensures
            (r is Some) == (id < self.spec_num_clients()),
    {
        if (id as usize) < self.clients.len() {
            Some(&self.clients[id as usize])
        } else {
            None
        }
    }

    /// The model server.
    pub fn server(&self) -> (r: &ModelServer) {
        &self.server
    }

    /// Applies one operation; the result must match what the real system
    /// returns for the same operation.
    pub fn apply(&mut self, op: &Operation) -> (r: OperationResult)
        requires
            old(self).wf(),
        ensures
            final(self).wf(),
            final(self).spec_num_clients() == old(self).spec_num_clients(),
            match *op {
                Operation::CreateRoom { client_id, room_id } => {
                    if client_id as int >= old(self).spec_num_clients() {
                        r == OperationResult::Error(OperationError::InvalidClient)
                    } else if old(self).spec_client_member(client_id, room_id) {
                        r == OperationResult::Error(OperationError::RoomAlreadyExists)
                    } else {
                        r == OperationResult::Success && final(self).spec_client_member(
                            client_id,
                            room_id,
                        )
                    }
                },
                Operation::SendMessage { client_id, room_id, .. } => {
                    if client_id as int >= old(self).spec_num_clients() {
                        r == OperationResult::Error(OperationError::InvalidClient)
                    } else if !old(self).spec_client_member(client_id, room_id) {
                        r == OperationResult::Error(OperationError::NotMember)
                    } else {
                        r == OperationResult::Success
                    }
                },
                Operation::LeaveRoom { client_id, room_id } => {
                    if client_id as int >= old(self).spec_num_clients() {
                        r == OperationResult::Error(OperationError::InvalidClient)
                    } else if !old(self).spec_client_member(client_id, room_id) {
                        r == OperationResult::Error(OperationError::NotMember)
                    } else {
                        r == OperationResult::Success && !final(self).spec_client_member(
                            client_id,
                            room_id,
                        )
                    }
                },
                Operation::AdvanceTime { .. } => r == OperationResult::Success,
                Operation::DeliverPending => r == OperationResult::Success,
            },
    {
        match op {
            Operation::CreateRoom { client_id, room_id } => {
                self.apply_create_room(*client_id, *room_id)
            },
            Operation::SendMessage { client_id, room_id, content } => {
                let bytes = content.to_bytes();
                self.apply_send_message(*client_id, *room_id, bytes)
            },
            Operation::LeaveRoom { client_id, room_id } => {
                self.apply_leave_room(*client_id, *room_id)
            },
            Operation::AdvanceTime { .. } => OperationResult::Success,
            Operation::DeliverPending => OperationResult::Success,
        }
    }

    fn apply_create_room(&mut self, client_id: ClientId, room_id: ModelRoomId) -> (r:
        OperationResult)
        requires
            old(self).wf(),
        ensures
            final(self).wf(),
            final(self).spec_num_clients() == old(self).spec_num_clients(),
            if client_id as int >= old(self).spec_num_clients() {
                r == OperationResult::Error(OperationError::InvalidClient)
            } else if old(self).spec_client_member(client_id, room_id) {
                r == OperationResult::Error(OperationError::RoomAlreadyExists)
            } else {
                r == OperationResult::Success && final(self).spec_client_member(
                    client_id,
                    room_id,
                )
            },
    {
        if (client_id as usize) >= self.clients.len() {
            return OperationResult::Error(OperationError::InvalidClient);
        }
        let ghost clients0 = self.clients@;
        let mut client = self.clients.remove(client_id as usize);
        let result = client.create_room(room_id);
        self.clients.insert(client_id as usize, client);
        proof {
            assert(self.clients@ =~= clients0.update(client_id as int, self.clients@[
            client_id as int]));
        }
        if result.is_err() {
            proof {
                assert forall|c: int, k: ModelRoomId|
                    0 <= c < self.clients@.len() implies #[trigger] self.clients@[
                c].spec_is_member(k) == old(self).clients@[c].spec_is_member(k) by {
                    if c != client_id as int {
                        assert(self.clients@[c] == clients0[c]);
                    }
                }
            }
            return result;
        }
        let _ = self.server.create_room(room_id, client_id);
        self.server.add_member(room_id, client_id);
        proof {
            assert(self.server.spec_has_room(room_id));
            assert(self.server.spec_member(room_id, client_id));
            assert forall|c: int, k: ModelRoomId|
                0 <= c < self.clients@.len() && c < 256 && #[trigger] self.clients@[
            c].spec_is_member(k) implies self.server.spec_has_room(k) && self.server.spec_member(
                k,
                c as u8,
            ) by {
                if c == client_id as int && k == room_id {
                } else {
                    if c != client_id as int {
                        assert(self.clients@[c] == clients0[c]);
                    }
                    assert(old(self).clients@[c].spec_is_member(k));
                    assert(old(self).server.spec_has_room(k));
                    assert(old(self).server.spec_member(k, c as u8));
                }
            }
        }
        OperationResult::Success
    }

    fn apply_send_message(
        &mut self,
        client_id: ClientId,
        room_id: ModelRoomId,
        content: Vec<u8>,
    ) -> (r: OperationResult)
        requires
            old(self).wf(),
        ensures
            final(self).wf(),
            final(self).spec_num_clients() == old(self).spec_num_clients(),
            if client_id as int >= old(self).spec_num_clients() {
                r == OperationResult::Error(OperationError::InvalidClient)
            } else if !old(self).spec_client_member(client_id, room_id) {
                r == OperationResult::Error(OperationError::NotMember)
            } else {
                r == OperationResult::Success
            },
    {
        if (client_id as usize) >= self.clients.len() {
            return OperationResult::Error(OperationError::InvalidClient);
        }
        if !self.clients[client_id as usize].is_member(room_id) {
            return OperationResult::Error(OperationError::NotMember);
        }
        proof {
            assert(old(self).server.spec_has_room(room_id));
            assert(old(self).server.spec_member(room_id, client_id));
        }
        let outcome = self.server.process_message(room_id, client_id, content);
        let message_content = match outcome {
            Ok(log_index) => {
                match self.server.messages(room_id) {
                    Some(messages) => {
                        if messages.len() > 0 {
                            copy_message(&messages[messages.len() - 1])
                        } else {
                            ModelMessage { sender_id: client_id, content: Vec::new(), log_index }
                        }
                    },
                    None => ModelMessage { sender_id: client_id, content: Vec::new(), log_index },
                }
            },
            Err(e) => {
                return OperationResult::Error(e);
            },
        };
        // deliver to every member, the sender included
        let members = match self.server.members(room_id) {
            Some(members) => members,
            None => {
                return OperationResult::Success;
            },
        };
        let ghost server0 = self.server;
        let n = members.len();
        let mut i: usize = 0;
        while i < n
            invariant
                old(self).wf(),
                n == members@.len(),
                i <= n,
                self.server == server0,
                self.clients@.len() == old(self).clients@.len(),
                forall|c: int, k: ModelRoomId|
                    0 <= c < self.clients@.len() ==> #[trigger] self.clients@[c].spec_is_member(
                        k,
                    ) == old(self).clients@[c].spec_is_member(k),
                forall|c: int, k: ModelRoomId|
                    0 <= c < old(self).clients@.len() && c < 256 && #[trigger] old(
                        self,
                    ).clients@[c].spec_is_member(k) ==> server0.spec_has_room(k)
                        && server0.spec_member(k, c as u8),
            decreases n - i,
        {
            let member = members[i];
            if (member as usize) < self.clients.len() {
                let ghost clients_pre = self.clients@;
                let mut client = self.clients.remove(member as usize);
                client.receive_message(room_id, copy_message(&message_content));
                self.clients.insert(member as usize, client);
                proof {
                    assert(self.clients@ =~= clients_pre.update(member as int, self.clients@[
                    member as int]));
                    assert forall|c: int, k: ModelRoomId|
                        0 <= c < self.clients@.len() implies #[trigger] self.clients@[
                    c].spec_is_member(k) == old(self).clients@[c].spec_is_member(k) by {
                        if c != member as int {
                            assert(self.clients@[c] == clients_pre[c]);
                        }
                    }
                }
            }
            i = i + 1;
        }
        OperationResult::Success
    }

    fn apply_leave_room(&mut self, client_id: ClientId, room_id: ModelRoomId) -> (r:
        OperationResult)
        requires
            old(self).wf(),
        ensures
            final(self).wf(),
            final(self).spec_num_clients() == old(self).spec_num_clients(),
            if client_id as int >= old(self).spec_num_clients() {
                r == OperationResult::Error(OperationError::InvalidClient)
            } else if !old(self).spec_client_member(client_id, room_id) {
                r == OperationResult::Error(OperationError::NotMember)
            } else {
                r == OperationResult::Success && !final(self).spec_client_member(
                    client_id,
                    room_id,
                )
            },
    {
        if (client_id as usize) >= self.clients.len() {
            return OperationResult::Error(OperationError::InvalidClient);
        }
        let ghost clients0 = self.clients@;
        let mut client = self.clients.remove(client_id as usize);
        let result = client.leave_room(room_id);
        self.clients.insert(client_id as usize, client);
        proof {
            assert(self.clients@ =~= clients0.update(client_id as int, self.clients@[
            client_id as int]));
        }
        if result.is_err() {
            proof {
                assert forall|c: int, k: ModelRoomId|
                    0 <= c < self.clients@.len() implies #[trigger] self.clients@[
                c].spec_is_member(k) == old(self).clients@[c].spec_is_member(k) by {
                    if c != client_id as int {
                        assert(self.clients@[c] == clients0[c]);
                    }
                }
            }
            return result;
        }
        self.server.remove_member(room_id, client_id);
        self.server.advance_epoch(room_id);
        proof {
            assert forall|c: int, k: ModelRoomId|
                0 <= c < self.clients@.len() && c < 256 && #[trigger] self.clients@[
            c].spec_is_member(k) implies self.server.spec_has_room(k) && self.server.spec_member(
                k,
                c as u8,
            ) by {
                if c != client_id as int {
                    assert(self.clients@[c] == clients0[c]);
                }
                assert(old(self).clients@[c].spec_is_member(k));
                assert(old(self).server.spec_has_room(k));
                assert(old(self).server.spec_member(k, c as u8));
                if k == room_id {
                    assert(c as u8 != client_id);
                }
            }
        }
        let ghost server1 = self.server;
        let count = self.clients.len();
        let mut i: usize = 0;
        while i < count
            invariant
                count == self.clients@.len(),
                i <= count,
                self.server == server1,
                (client_id as int) < count,
                forall|c: int, k: ModelRoomId|
                    0 <= c < self.clients@.len() && c < 256 && #[trigger] self.clients@[
                c].spec_is_member(k) ==> server1.spec_has_room(k) && server1.spec_member(
                        k,
                        c as u8,
                    ),
                !self.clients@[client_id as int].spec_is_member(room_id),
            decreases count - i,
        {
            let ghost clients_pre = self.clients@;
            let mut other = self.clients.remove(i);
            if other.is_member(room_id) {
                other.advance_epoch(room_id);
            }
            self.clients.insert(i, other);
            proof {
                assert(self.clients@ =~= clients_pre.update(i as int, self.clients@[i as int]));
                assert forall|c: int, k: ModelRoomId|
                    0 <= c < self.clients@.len() && c < 256 && #[trigger] self.clients@[
                c].spec_is_member(k) implies server1.spec_has_room(k) && server1.spec_member(
                    k,
                    c as u8,
                ) by {
                    if c != i as int {
                        assert(self.clients@[c] == clients_pre[c]);
                    }
                    assert(clients_pre[c].spec_is_member(k));
                }
                assert(!self.clients@[client_id as int].spec_is_member(room_id)) by {
                    if client_id as int != i as int {
                        assert(self.clients@[client_id as int] == clients_pre[client_id as int]);
                    }
                }
            }
            i = i + 1;
        }
        OperationResult::Success
    }

    /// Messages a client has received in a room.
    pub fn client_messages(&self, client_id: ClientId, room_id: ModelRoomId) -> (r: Option<&Vec<
        ModelMessage,
    >>)
        ensures
            (r is Some) == ((client_id as int) < self.spec_num_clients()
                && self.spec_client_member(client_id, room_id)),
    {
        if (client_id as usize) < self.clients.len() {
            self.clients[client_id as usize].messages(room_id)
        } else {
            None
        }
    }

    /// The rooms a client is in.
    pub fn client_rooms(&self, client_id: ClientId) -> (r: Vec<ModelRoomId>)
        ensures
            forall|k: ModelRoomId|
                #[trigger] r@.contains(k) <==> ((client_id as int) < self.spec_num_clients()
                    && self.spec_client_member(client_id, k)),
    {
        if (client_id as usize) < self.clients.len() {
            self.clients[client_id as usize].rooms()
        } else {
            Vec::new()
        }
    }
}

/// Copies a model message.
fn copy_message(message: &ModelMessage) -> (r: ModelMessage)
    ensures
        r.sender_id == message.sender_id,
        r.content@ == message.content@,
        r.log_index == message.log_index,
{
    ModelMessage {
        sender_id: message.sender_id,
        content: vstd::slice::slice_to_vec(message.content.as_slice()),
        log_index: message.log_index,
    }
}

} // verus!
