//! Client state machine.
//!
//! Manages this member's rooms: creating and leaving rooms, staging member
//! additions, encrypting outgoing application messages on the own send
//! chain, and turning received frames into decrypted deliveries and epoch
//! changes. A pure state machine: events in, actions out, the driver does
//! the sending.

use vstd::prelude::*;
use vstd::string::StringSliceAdditionalSpecFns;
use std::collections::HashMap;
use crate::env::Environment;
use crate::frame::{Frame, FrameHeader, Opcode, MAX_PAYLOAD};
use crate::mls::{MlsGroup, MlsAction, MlsError, RoomId, MemberId, spec_welcome_bytes};
use crate::payload::{serialize_encrypted_message, deserialize_encrypted_message, spec_decode_encrypted};
use crate::ratchet::{SenderKeyError, spec_sealed, NONCE_RANDOM_SIZE, NONCE_SIZE, KEY_SIZE, SKIP_WINDOW};
use crate::sender_keys::SenderKeyStore;
use crate::strfmt::{append_dec_u64, spec_dec_digits};
use crate::crypto::{hkdf_expand_bytes, xchacha_seal};
use crate::ratchet::{spec_sender_seed, spec_message_key_at, spec_aad, spec_nonce};
use crate::mls::spec_epoch_secret;

verus! {

broadcast use vstd::std_specs::hash::group_hash_axioms;

/// The sender-key secret of a room at an epoch: the group's exported
/// secret under the sender-key label and an empty context.
pub open spec fn spec_room_secret(room_id: RoomId, epoch: u64) -> Seq<u8> {
    hkdf_expand_bytes(
        spec_epoch_secret(room_id, epoch),
        "kalandra sender keys v1".spec_bytes() + Seq::<u8>::empty(),
        KEY_SIZE as nat,
    )
}

/// Client identity: the stable sender id written into frame headers.
pub struct ClientIdentity {
    /// Stable sender id used in frame headers.
    pub sender_id: u64,
}

impl ClientIdentity {
    /// Creates an identity from a sender id.
    pub fn new(sender_id: u64) -> (r: ClientIdentity)
        ensures
            r.sender_id == sender_id,
    {
        ClientIdentity { sender_id }
    }
}

/// Events the application and the transport feed into the client.
pub enum ClientEvent {
    /// Create a room with this client as sole member.
    CreateRoom { room_id: RoomId },
    /// Join a room from a welcome message.
    JoinRoom { room_id: RoomId, welcome: Vec<u8> },
    /// Stage a commit adding the members behind these key packages.
    AddMembers { room_id: RoomId, key_packages: Vec<Vec<u8>> },
    /// Encrypt and send an application message.
    SendMessage { room_id: RoomId, plaintext: Vec<u8> },
    /// Leave a room.
    LeaveRoom { room_id: RoomId },
    /// An ordered frame arrived from the server.
    FrameReceived(Frame),
    /// Time passed; check timeouts.
    Tick { now: u64 },
}

/// Actions the client asks the driver to take.
pub enum ClientAction {
    /// Send this frame to the server.
    Send(Frame),
    /// Hand a decrypted message to the application.
    DeliverMessage {
        room_id: RoomId,
        sender_id: u64,
        plaintext: Vec<u8>,
        log_index: u64,
        timestamp: u64,
    },
    /// The room is gone from local state.
    RoomRemoved { room_id: RoomId, reason: String },
    /// Persist a room snapshot for crash recovery.
    PersistRoom(RoomStateSnapshot),
    /// Diagnostic text for the driver's log.
    Log { message: String },
}

/// What the client persists about a room after an epoch change.
pub struct RoomStateSnapshot {
    /// Room the snapshot belongs to.
    pub room_id: RoomId,
    /// Epoch of the snapshot.
    pub epoch: u64,
    /// Canonical serialisation of the group state.
    pub mls_state: Vec<u8>,
    /// This member's leaf index at that epoch.
    pub my_leaf_index: u32,
}

/// Errors from client operations.
#[derive(Debug)]
pub enum ClientError {
    /// The room is not in the client's state.
    RoomNotFound { room_id: RoomId },
    /// A frame's epoch does not match the room's; recover by syncing.
    EpochMismatch { expected: u64, actual: u64 },
    /// The room already exists locally.
    RoomAlreadyExists { room_id: RoomId },
    /// A group operation failed.
    Mls(MlsError),
    /// A ratchet operation failed.
    SenderKey(SenderKeyError),
    /// The frame or its payload is malformed.
    InvalidFrame { reason: String },
    /// The operation needs state the client does not hold.
    InvalidState { reason: String },
    /// The room is behind and must sync to the target epoch.
    SyncRequired { room_id: RoomId, target_epoch: u64 },
}

impl ClientError {
    /// Whether the error is unrecoverable. Transient errors resolve by
    /// syncing or retrying.
    pub fn is_fatal(&self) -> (r: bool)
        ensures
            r == match self {
                ClientError::InvalidFrame { .. } => true,
                ClientError::InvalidState { .. } => true,
                ClientError::Mls(_) => true,
                ClientError::SenderKey(e) => (*e == SenderKeyError::AeadFailed || *e
                    == SenderKeyError::UnknownSender),
                _ => false,
            },
    {
        match self {
            ClientError::InvalidFrame { .. } | ClientError::InvalidState { .. }
                | ClientError::Mls(_) => true,
            ClientError::SenderKey(e) => e.is_fatal(),
            ClientError::RoomNotFound { .. } | ClientError::RoomAlreadyExists { .. }
                | ClientError::EpochMismatch { .. } | ClientError::SyncRequired { .. } => false,
        }
    }

    /// A human-readable description of the error.
    pub fn message(&self) -> (r: String)
        ensures
            (self matches ClientError::EpochMismatch { expected, actual } ==> r@
                == "epoch mismatch: expected "@ + spec_dec_digits(expected as nat) + ", got "@
                + spec_dec_digits(actual as nat)),
    {
        match self {
            ClientError::EpochMismatch { expected, actual } => {
                let mut out = String::from_str("epoch mismatch: expected ");
                append_dec_u64(&mut out, *expected);
                out.append(", got ");
                append_dec_u64(&mut out, *actual);
                out
            },
            ClientError::RoomNotFound { .. } => String::from_str("room not found"),
            ClientError::RoomAlreadyExists { .. } => String::from_str("room already exists"),
            ClientError::Mls(_) => String::from_str("group operation failed"),
            ClientError::SenderKey(_) => String::from_str("sender key operation failed"),
            ClientError::InvalidFrame { .. } => String::from_str("invalid frame"),
            ClientError::InvalidState { .. } => String::from_str("invalid state"),
            ClientError::SyncRequired { .. } => String::from_str("sync required"),
        }
    }
}

/// What a sent AppMessage payload holds: the serialised encryption of the
/// plaintext on the member's own send chain, at the chain's current
/// generation and the room's epoch, under some sixteen fresh random
/// bytes; the send chain advances by exactly one generation.
pub open spec fn spec_sent_payload<E: Environment>(
    pre: Client<E>,
    post: Client<E>,
    room_id: RoomId,
    plaintext: Seq<u8>,
    payload: Seq<u8>,
) -> bool {
    exists|rnd: Seq<u8>|
        {
            &&& rnd.len() == NONCE_RANDOM_SIZE
            &&& spec_decode_encrypted(payload) matches Ok(em) && {
                let epoch = pre.spec_epoch_of(room_id);
                let leaf = pre.spec_own_leaf(room_id);
                &&& em.epoch == epoch
                &&& em.sender_index == leaf
                &&& pre.spec_generation_of(room_id, leaf) == Some(em.generation)
                &&& post.spec_generation_of(room_id, leaf) == Some((em.generation + 1) as u32)
                &&& em.nonce == spec_nonce(em.generation, rnd)
                &&& em.ciphertext == spec_sealed(
                    spec_sender_seed(spec_room_secret(room_id, epoch), leaf),
                    epoch,
                    leaf,
                    em.generation,
                    rnd,
                    plaintext,
                )
            }
        }
}

/// Whether a send into a room must succeed: the client is in the room,
/// its own send chain exists with generations left, and the plaintext
/// plus the payload framing and the cipher tag fit the payload limit.
pub open spec fn spec_send_succeeds<E: Environment>(
    pre: Client<E>,
    room_id: RoomId,
    plaintext: Seq<u8>,
) -> bool {
    &&& pre.spec_has_room(room_id)
    &&& (pre.spec_generation_of(room_id, pre.spec_own_leaf(room_id)) matches Some(g) && g
        < 0xffff_ffffu32)
    &&& plaintext.len() + 60 <= MAX_PAYLOAD
}

/// Whether a received AppMessage is owed a successful delivery: the
/// client is in the room at the frame's epoch, the payload decodes, the
/// sender's mirror chain exists, the generation is still available
/// within the skip window, and the ciphertext is an authentic seal under
/// the derived message key.
pub open spec fn spec_app_message_deliverable<E: Environment>(pre: Client<E>, frame: Frame) -> bool {
    let rid = frame.header.room_id;
    let decoded = spec_decode_encrypted(frame.payload@);
    &&& pre.spec_has_room(rid)
    &&& frame.header.epoch == pre.spec_epoch_of(rid)
    &&& decoded is Ok
    &&& {
        let em = decoded->Ok_0;
        &&& em.epoch == pre.spec_epoch_of(rid)
        &&& em.nonce.len() == NONCE_SIZE
        &&& pre.spec_has_receiver_of(rid, em.sender_index)
        &&& (if em.generation < pre.spec_recv_next_of(rid, em.sender_index) {
            pre.spec_recv_cached_of(rid, em.sender_index, em.generation)
        } else {
            em.generation != 0xffff_ffffu32 && em.generation < pre.spec_recv_next_of(
                rid,
                em.sender_index,
            ) + SKIP_WINDOW
        })
        &&& (exists|p: Seq<u8>|
            p.len() <= u32::MAX && em.ciphertext == xchacha_seal(
                spec_message_key_at(
                    spec_sender_seed(
                        spec_room_secret(rid, pre.spec_epoch_of(rid)),
                        em.sender_index,
                    ),
                    em.generation as nat,
                ),
                em.nonce,
                spec_aad(em.epoch, em.sender_index, em.generation),
                p,
            ))
    }
}

/// Whether a received AppMessage names a generation whose key is already
/// spent: used once, or pruned past the skip window. Forward secrecy
/// means such a message can never be decrypted again.
pub open spec fn spec_app_message_generation_spent<E: Environment>(
    pre: Client<E>,
    frame: Frame,
) -> bool {
    let rid = frame.header.room_id;
    let decoded = spec_decode_encrypted(frame.payload@);
    &&& pre.spec_has_room(rid)
    &&& frame.header.epoch == pre.spec_epoch_of(rid)
    &&& decoded is Ok
    &&& {
        let em = decoded->Ok_0;
        &&& em.epoch == pre.spec_epoch_of(rid)
        &&& em.nonce.len() == NONCE_SIZE
        &&& pre.spec_has_receiver_of(rid, em.sender_index)
        &&& em.generation < pre.spec_recv_next_of(rid, em.sender_index)
        &&& !pre.spec_recv_cached_of(rid, em.sender_index, em.generation)
    }
}

/// Two clients in the same state agree on every observable: identity,
/// rooms, epochs, leaves and generations.
pub proof fn lemma_same_state_observables<E: Environment>(a: Client<E>, b: Client<E>)
    requires
        a.same_state(b),
    ensures
        a.spec_sender_id() == b.spec_sender_id(),
        forall|k: u128| #[trigger] a.spec_has_room(k) == b.spec_has_room(k),
        forall|k: u128|
            #[trigger] a.spec_has_room(k) ==> a.spec_epoch_of(k) == b.spec_epoch_of(k)
                && a.spec_own_leaf(k) == b.spec_own_leaf(k) && a.spec_members_of(k)
                == b.spec_members_of(k),
        forall|k: u128, m: u32|
            a.spec_has_room(k) ==> #[trigger] a.spec_generation_of(k, m) == b.spec_generation_of(
                k,
                m,
            ),
{
}

/// Per-room state: the group, the sender keys of its current epoch, and
/// this member's leaf index.
struct RoomState {
    mls_group: MlsGroup,
    sender_keys: SenderKeyStore,
    my_leaf_index: u32,
}

impl RoomState {
    /// The group is well formed, belongs to the room, carries the client's
    /// member id, and the sender keys are those of the group's epoch.
    spec fn wf(self, room_id: RoomId, member_id: MemberId) -> bool {
        &&& self.mls_group.wf()
        &&& self.mls_group.spec_room_id() == room_id
        &&& self.mls_group.spec_own_member() == member_id
        &&& self.sender_keys.wf()
        &&& self.sender_keys.spec_epoch() == self.mls_group.spec_epoch()
        &&& self.sender_keys.spec_secret() == spec_room_secret(
            room_id,
            self.mls_group.spec_epoch(),
        )
        &&& (self.mls_group.spec_members().contains(member_id)
            ==> self.sender_keys.has_sender(self.my_leaf_index))
    }
}

/// Client state machine over an environment.
pub struct Client<E: Environment> {
    identity: ClientIdentity,
    rooms: HashMap<u128, RoomState>,
    env: E,
}

impl<E: Environment> Client<E> {
    /// Every room's state is well formed for its key and this identity.
    pub closed spec fn wf(self) -> bool {
        forall|k: u128|
            #[trigger] self.rooms@.contains_key(k) ==> self.rooms@[k].wf(
                k,
                self.identity.sender_id,
            )
    }

    pub closed spec fn spec_sender_id(self) -> u64 {
        self.identity.sender_id
    }

    pub closed spec fn spec_has_room(self, room_id: RoomId) -> bool {
        self.rooms@.contains_key(room_id)
    }

    pub closed spec fn spec_room_count(self) -> nat {
        self.rooms@.len()
    }

    /// The epoch of a room the client is in.
    pub closed spec fn spec_epoch_of(self, room_id: RoomId) -> u64 {
        self.rooms@[room_id].mls_group.spec_epoch()
    }

    /// A member's send-chain generation in a room.
    pub closed spec fn spec_generation_of(self, room_id: RoomId, leaf_index: u32) -> Option<u32> {
        self.rooms@[room_id].sender_keys.spec_generation(leaf_index)
    }

    /// This member's leaf index in a room it is in.
    pub closed spec fn spec_own_leaf(self, room_id: RoomId) -> u32 {
        self.rooms@[room_id].my_leaf_index
    }

    /// The roster of a room the client is in.
    pub closed spec fn spec_members_of(self, room_id: RoomId) -> Seq<MemberId> {
        self.rooms@[room_id].mls_group.spec_members()
    }

    /// Whether a room holds a receive chain for a sender's leaf index.
    pub closed spec fn spec_has_receiver_of(self, room_id: RoomId, leaf_index: u32) -> bool {
        self.rooms@[room_id].sender_keys.has_receiver(leaf_index)
    }

    /// The next expected generation on a room's receive chain for a
    /// sender.
    pub closed spec fn spec_recv_next_of(self, room_id: RoomId, leaf_index: u32) -> u32 {
        self.rooms@[room_id].sender_keys.spec_recv_next(leaf_index)
    }

    /// Whether a skipped message key is still cached for a sender in a
    /// room.
    pub closed spec fn spec_recv_cached_of(
        self,
        room_id: RoomId,
        leaf_index: u32,
        generation: u32,
    ) -> bool {
        self.rooms@[room_id].sender_keys.spec_recv_cached(leaf_index, generation)
    }

    /// Whether a room's group holds a staged commit of its own.
    pub closed spec fn spec_has_pending_of(self, room_id: RoomId) -> bool {
        self.rooms@[room_id].mls_group.spec_pending() is Some
    }

    /// Two client values with the same identity and the same room states.
    pub closed spec fn same_state(self, other: Client<E>) -> bool {
        self.identity == other.identity && self.rooms@ == other.rooms@
    }

    /// Creates a client around an identity and an environment.
    pub fn new(env: E, identity: ClientIdentity) -> (r: Client<E>)
        ensures
            r.wf(),
            r.spec_sender_id() == identity.sender_id,
            r.spec_room_count() == 0,
            forall|k: u128| !(#[trigger] r.spec_has_room(k)),
    {
        let rooms: HashMap<u128, RoomState> = HashMap::new();
        Client { identity, rooms, env }
    }

    /// The client's stable sender id.
    pub fn sender_id(&self) -> (r: u64)
        ensures
            r == self.spec_sender_id(),
    {
        self.identity.sender_id
    }

    /// How many rooms the client is in.
    pub fn room_count(&self) -> (r: usize)
        ensures
            r == self.spec_room_count(),
    {
        self.rooms.len()
    }

    /// Whether the client is in a room.
    pub fn is_member(&self, room_id: RoomId) -> (r: bool)
        ensures
            r == self.spec_has_room(room_id),
    {
        self.rooms.contains_key(&room_id)
    }

    /// The epoch of a room, `None` when the client is not in it.
    pub fn epoch(&self, room_id: RoomId) -> (r: Option<u64>)
        ensures
            r == if self.spec_has_room(room_id) {
                Some(self.spec_epoch_of(room_id))
            } else {
                None::<u64>
            },
    {
        match self.rooms.get(&room_id) {
            Some(room) => Some(room.mls_group.epoch()),
            None => None,
        }
    }

    /// A member's send-chain generation in a room, `None` when the client
    /// is not in the room or the member has no chain.
    pub fn sender_generation(&self, room_id: RoomId, leaf_index: u32) -> (r: Option<u32>)
        requires
            self.wf(),
        ensures
            r == if self.spec_has_room(room_id) {
                self.spec_generation_of(room_id, leaf_index)
            } else {
                None::<u32>
            },
    {
        match self.rooms.get(&room_id) {
            Some(room) => room.sender_keys.generation(leaf_index),
            None => None,
        }
    }

    /// Processes one event and returns the actions to execute.
    pub fn handle(&mut self, event: ClientEvent) -> (r: Result<Vec<ClientAction>, ClientError>)
        requires
            old(self).wf(),
        ensures
            final(self).wf(),
            final(self).spec_sender_id() == old(self).spec_sender_id(),
            match event {
                ClientEvent::CreateRoom { room_id } => match r {
                    Ok(actions) => {
                        &&& !old(self).spec_has_room(room_id)
                        &&& final(self).spec_has_room(room_id)
                        &&& final(self).spec_epoch_of(room_id) == 0
                        &&& final(self).spec_members_of(room_id) == seq![
                            old(self).spec_sender_id(),
                        ]
                        &&& final(self).spec_own_leaf(room_id) == 0
                        &&& final(self).spec_generation_of(room_id, 0) == Some(0u32)
                        &&& final(self).spec_room_count() == old(self).spec_room_count() + 1
                        &&& actions@.len() == 2
                        &&& actions@[0] is Send
                        &&& actions@[1] is Log
                    },
                    Err(e) => {
                        &&& e matches ClientError::RoomAlreadyExists { room_id: rid }
                            && rid == room_id
                        &&& old(self).spec_has_room(room_id)
                        &&& *final(self) == *old(self)
                    },
                },
                ClientEvent::SendMessage { room_id, plaintext } => {
                    &&& match r {
                        Ok(actions) => {
                            &&& old(self).spec_has_room(room_id)
                            &&& final(self).spec_has_room(room_id)
                            &&& final(self).spec_epoch_of(room_id) == old(self).spec_epoch_of(
                                room_id,
                            )
                            &&& actions@.len() == 1
                            &&& (actions@[0] matches ClientAction::Send(f) && f.header.opcode
                                == Opcode::AppMessage.spec_to_u16() && f.header.room_id == room_id
                                && f.header.sender_id == old(self).spec_sender_id()
                                && f.header.epoch == old(self).spec_epoch_of(room_id)
                                && f.header.log_index == 0 && spec_sent_payload(
                                *old(self),
                                *final(self),
                                room_id,
                                plaintext@,
                                f@.payload,
                            ))
                        },
                        Err(ClientError::RoomNotFound { room_id: rid }) => rid == room_id && !old(
                            self,
                        ).spec_has_room(room_id) && final(self).same_state(*old(self)),
                        Err(ClientError::SenderKey(_)) => old(self).spec_has_room(room_id),
                        Err(_) => false,
                    }
                    &&& (forall|k: u128|
                        #[trigger] final(self).spec_has_room(k) == old(self).spec_has_room(k))
                    &&& (forall|k: u128|
                        old(self).spec_has_room(k) ==> #[trigger] final(self).spec_epoch_of(k)
                            == old(self).spec_epoch_of(k) && final(self).spec_members_of(k)
                            == old(self).spec_members_of(k))
                    &&& (forall|k: u128, m: u32|
                        k != room_id && old(self).spec_has_room(k) ==> #[trigger] final(self).spec_generation_of(k, m) == old(self).spec_generation_of(k, m))
                    &&& (forall|m: u32|
                        old(self).spec_has_room(room_id) && m != old(self).spec_own_leaf(room_id)
                            ==> #[trigger] final(self).spec_generation_of(room_id, m) == old(
                            self,
                        ).spec_generation_of(room_id, m))
                    &&& (spec_send_succeeds(*old(self), room_id, plaintext@) ==> r is Ok)
                },
                ClientEvent::LeaveRoom { room_id } => match r {
                    Ok(actions) => {
                        &&& old(self).spec_has_room(room_id)
                        &&& !final(self).spec_has_room(room_id)
                        &&& final(self).spec_room_count() + 1 == old(self).spec_room_count()
                        &&& actions@.len() == 1
                        &&& (actions@[0] matches ClientAction::RoomRemoved { room_id: rid, .. }
                            && rid == room_id)
                    },
                    Err(e) => {
                        &&& e matches ClientError::RoomNotFound { room_id: rid } && rid == room_id
                        &&& !old(self).spec_has_room(room_id)
                        &&& final(self).same_state(*old(self))
                    },
                },
                ClientEvent::Tick { .. } => r matches Ok(actions) && actions@.len() == 0 && *final(self) == *old(self),
                ClientEvent::JoinRoom { .. } => r matches Err(e) && e is InvalidState && *final(self) == *old(self),
                ClientEvent::FrameReceived(frame) => {
                    &&& (Opcode::spec_from_u16(frame.header.opcode) == Some(Opcode::AppMessage)
                        && spec_app_message_deliverable(*old(self), frame)) ==> r is Ok
                    &&& (Opcode::spec_from_u16(frame.header.opcode) == Some(Opcode::AppMessage)
                        && spec_app_message_generation_spent(*old(self), frame)) ==> r is Err
                    &&& (old(self).spec_has_room(frame.header.room_id)
                        && MlsGroup::spec_commit_applies(
                        old(self).spec_epoch_of(frame.header.room_id),
                        old(self).spec_members_of(frame.header.room_id),
                        frame.payload@,
                    ) && Opcode::spec_from_u16(frame.header.opcode) == Some(Opcode::Commit)) ==> r
                        is Ok
                    &&& (Opcode::spec_from_u16(frame.header.opcode) is None ==> (r
                        matches Err(e) && e is InvalidFrame && *final(self) == *old(self)))
                    &&& (Opcode::spec_from_u16(frame.header.opcode) == Some(Opcode::Welcome) ==> (
                    r matches Err(e) && e is InvalidState && *final(self) == *old(self)))
                    &&& match r {
                    Ok(actions) => {
                        if Opcode::spec_from_u16(frame.header.opcode) == Some(Opcode::AppMessage) {
                            &&& old(self).spec_has_room(frame.header.room_id)
                            &&& frame.header.epoch == old(self).spec_epoch_of(
                                frame.header.room_id,
                            )
                            &&& final(self).spec_epoch_of(frame.header.room_id) == old(
                                self,
                            ).spec_epoch_of(frame.header.room_id)
                            &&& actions@.len() == 1
                            &&& (actions@[0] matches ClientAction::DeliverMessage {
                                room_id,
                                sender_id,
                                log_index,
                                timestamp,
                                ..
                            } && room_id == frame.header.room_id && sender_id
                                == frame.header.sender_id && log_index == frame.header.log_index
                                && timestamp == frame.header.hlc_timestamp)
                        } else if Opcode::spec_from_u16(frame.header.opcode) == Some(
                            Opcode::Commit,
                        ) {
                            &&& old(self).spec_has_room(frame.header.room_id)
                            &&& final(self).spec_has_room(frame.header.room_id)
                            &&& final(self).spec_epoch_of(frame.header.room_id) == old(
                                self,
                            ).spec_epoch_of(frame.header.room_id) + 1
                            &&& actions@.len() >= 1
                            &&& (actions@[actions@.len() - 1]
                                matches ClientAction::PersistRoom(s) && s.room_id
                                == frame.header.room_id && s.epoch == final(self).spec_epoch_of(
                                frame.header.room_id,
                            ) && s.my_leaf_index == final(self).spec_own_leaf(
                                frame.header.room_id,
                            ) && s.mls_state@ == spec_welcome_bytes(
                                frame.header.room_id,
                                final(self).spec_epoch_of(frame.header.room_id),
                                final(self).spec_members_of(frame.header.room_id),
                            ))
                        } else {
                            true
                        }
                    },
                    Err(e) => {
                        if Opcode::spec_from_u16(frame.header.opcode) == Some(Opcode::AppMessage)
                            && old(self).spec_has_room(frame.header.room_id)
                            && frame.header.epoch != old(self).spec_epoch_of(
                            frame.header.room_id,
                        ) {
                            e matches ClientError::EpochMismatch { expected, actual } && expected
                                == old(self).spec_epoch_of(frame.header.room_id) && actual
                                == frame.header.epoch && final(self).same_state(*old(self))
                        } else {
                            true
                        }
                    },
                }
                },
                ClientEvent::AddMembers { room_id, key_packages } => {
                    &&& (forall|k: u128|
                        #[trigger] final(self).spec_has_room(k) == old(self).spec_has_room(k))
                    &&& (forall|k: u128|
                        old(self).spec_has_room(k) ==> #[trigger] final(self).spec_epoch_of(k)
                            == old(self).spec_epoch_of(k))
                    &&& (r is Ok <==> (old(self).spec_has_room(room_id) && !old(
                        self,
                    ).spec_has_pending_of(room_id) && MlsGroup::spec_packages_addable(
                        old(self).spec_members_of(room_id),
                        key_packages@,
                    )))
                    &&& (r matches Ok(actions) ==> actions@.len() == 1 + key_packages@.len()
                        && (forall|i: int|
                        0 <= i < actions@.len() ==> (#[trigger] actions@[i]) is Send))
                },
            },
    {
        match event {
            ClientEvent::CreateRoom { room_id } => self.handle_create_room(room_id),
            ClientEvent::SendMessage { room_id, plaintext } => self.handle_send_message(
                room_id,
                &plaintext,
            ),
            ClientEvent::FrameReceived(frame) => self.handle_frame(frame),
            ClientEvent::Tick { now } => self.handle_tick(now),
            ClientEvent::LeaveRoom { room_id } => self.handle_leave_room(room_id),
            ClientEvent::JoinRoom { room_id, welcome } => self.handle_join_room(room_id, &welcome),
            ClientEvent::AddMembers { room_id, key_packages } => self.handle_add_members(
                room_id,
                &key_packages,
            ),
        }
    }

    /// Creates a room with this client as the sole member at epoch zero.
    fn handle_create_room(&mut self, room_id: RoomId) -> (r: Result<
        Vec<ClientAction>,
        ClientError,
    >)
        requires
            old(self).wf(),
        ensures
            final(self).wf(),
            final(self).spec_sender_id() == old(self).spec_sender_id(),
            match r {
                Ok(actions) => {
                    &&& !old(self).spec_has_room(room_id)
                    &&& final(self).spec_has_room(room_id)
                    &&& final(self).spec_epoch_of(room_id) == 0
                    &&& final(self).spec_members_of(room_id) == seq![old(self).spec_sender_id()]
                    &&& final(self).spec_own_leaf(room_id) == 0
                    &&& final(self).spec_generation_of(room_id, 0) == Some(0u32)
                    &&& final(self).spec_room_count() == old(self).spec_room_count() + 1
                    &&& actions@.len() == 2
                    &&& actions@[0] is Send
                    &&& actions@[1] is Log
                },
                Err(e) => {
                    &&& e matches ClientError::RoomAlreadyExists { room_id: rid } && rid == room_id
                    &&& old(self).spec_has_room(room_id)
                    &&& *final(self) == *old(self)
                },
            },
    {
        if self.rooms.contains_key(&room_id) {
            return Err(ClientError::RoomAlreadyExists { room_id });
        }
        let member_id = self.identity.sender_id;
        let (mls_group, mls_actions) = MlsGroup::new(room_id, member_id);
        let sender_keys = initialize_sender_keys(&mls_group);
        let my_leaf_index = mls_group.own_leaf_index();
        let room_state = RoomState { mls_group, sender_keys, my_leaf_index };
        proof {
            assert(room_state.mls_group.spec_members().contains(member_id)) by {
                assert(room_state.mls_group.spec_members()[0] == member_id);
            }
        }
        self.rooms.insert(room_id, room_state);
        let mut actions = convert_mls_actions(mls_actions);
        proof {
            assert(actions@.len() == 1);
            assert(actions@[0] is Send);
        }
        actions.push(ClientAction::Log { message: String::from_str("created room at epoch 0") });
        Ok(actions)
    }

    /// Encrypts a message on the own send chain and emits the frame to
    /// send. The server assigns the log index later; it is zero here.
    fn handle_send_message(&mut self, room_id: RoomId, plaintext: &Vec<u8>) -> (r: Result<
        Vec<ClientAction>,
        ClientError,
    >)
        requires
            old(self).wf(),
        ensures
            final(self).wf(),
            final(self).spec_sender_id() == old(self).spec_sender_id(),
            match r {
                Ok(actions) => {
                    &&& old(self).spec_has_room(room_id)
                    &&& final(self).spec_has_room(room_id)
                    &&& final(self).spec_epoch_of(room_id) == old(self).spec_epoch_of(room_id)
                    &&& actions@.len() == 1
                    &&& (actions@[0] matches ClientAction::Send(f) && f.header.opcode
                        == Opcode::AppMessage.spec_to_u16() && f.header.room_id == room_id
                        && f.header.sender_id == old(self).spec_sender_id() && f.header.epoch
                        == old(self).spec_epoch_of(room_id) && f.header.log_index == 0
                        && spec_sent_payload(
                        *old(self),
                        *final(self),
                        room_id,
                        plaintext@,
                        f@.payload,
                    ))
                },
                Err(ClientError::RoomNotFound { room_id: rid }) => rid == room_id && !old(
                    self,
                ).spec_has_room(room_id) && final(self).same_state(*old(self)),
                Err(ClientError::SenderKey(e)) => {
                    &&& old(self).spec_has_room(room_id)
                    &&& (e == SenderKeyError::UnknownSender || e == SenderKeyError::GenerationGap
                        || e == SenderKeyError::AeadFailed)
                    &&& (e == SenderKeyError::UnknownSender ==> old(self).spec_generation_of(
                        room_id,
                        old(self).spec_own_leaf(room_id),
                    ) is None)
                    &&& (e == SenderKeyError::GenerationGap ==> old(self).spec_generation_of(
                        room_id,
                        old(self).spec_own_leaf(room_id),
                    ) == Some(0xffff_ffffu32))
                    &&& (e == SenderKeyError::AeadFailed ==> plaintext@.len() + 60 > MAX_PAYLOAD)
                },
                Err(_) => false,
            },
            forall|k: u128| #[trigger] final(self).spec_has_room(k) == old(self).spec_has_room(k),
            forall|k: u128|
                old(self).spec_has_room(k) ==> #[trigger] final(self).spec_epoch_of(k) == old(
                    self,
                ).spec_epoch_of(k) && final(self).spec_members_of(k) == old(self).spec_members_of(
                    k,
                ),
            // only the sending room's own chain moves
            forall|k: u128, m: u32|
                k != room_id && old(self).spec_has_room(k) ==> #[trigger] final(self).spec_generation_of(k, m) == old(self).spec_generation_of(k, m),
            forall|m: u32|
                old(self).spec_has_room(room_id) && m != old(self).spec_own_leaf(room_id)
                    ==> #[trigger] final(self).spec_generation_of(room_id, m) == old(
                    self,
                ).spec_generation_of(room_id, m),
            spec_send_succeeds(*old(self), room_id, plaintext@) ==> r is Ok,
    {
        let room_opt = self.rooms.remove(&room_id);
        let mut room = match room_opt {
            Some(room) => room,
            None => {
                proof {
                    assert(self.rooms@ =~= old(self).rooms@);
                }
                return Err(ClientError::RoomNotFound { room_id });
            },
        };
        let random = self.env.random_bytes(NONCE_RANDOM_SIZE);
        let result = room.sender_keys.encrypt(room.my_leaf_index, plaintext, &random);
        let epoch = room.mls_group.epoch();
        let sender_id = self.identity.sender_id;
        let outcome = match result {
            Ok(encrypted) => {
                if encrypted.ciphertext.len() > MAX_PAYLOAD as usize - 44 {
                    Err(ClientError::SenderKey(SenderKeyError::AeadFailed))
                } else {
                    proof {
                        crate::wire::lemma_u64_be_bytes();
                        assert(encrypted.nonce@.len() == 24);
                    }
                    let payload = serialize_encrypted_message(&encrypted);
                    proof {
                        crate::payload::lemma_encrypted_message_round_trip(encrypted@);
                    }
                    let mut header = FrameHeader::new(Opcode::AppMessage);
                    header.set_room_id(room_id);
                    header.set_sender_id(sender_id);
                    header.set_epoch(epoch);
                    let frame = Frame::new(header, payload);
                    let mut actions: Vec<ClientAction> = Vec::new();
                    actions.push(ClientAction::Send(frame));
                    Ok(actions)
                }
            },
            Err(e) => Err(ClientError::SenderKey(e)),
        };
        self.rooms.insert(room_id, room);
        proof {
            old(self).rooms@[room_id].sender_keys.lemma_generation_tracks_sender(
                old(self).rooms@[room_id].my_leaf_index,
            );
            assert forall|k: u128| #[trigger]
                self.spec_has_room(k) == old(self).spec_has_room(k) by {}
            assert forall|k: u128|
                old(self).spec_has_room(k) implies #[trigger] self.spec_epoch_of(k) == old(
                self,
            ).spec_epoch_of(k) by {
                if k != room_id {
                    assert(self.rooms@[k] == old(self).rooms@[k]);
                }
            }
            if outcome is Ok {
                assert(spec_sent_payload(
                    *old(self),
                    *self,
                    room_id,
                    plaintext@,
                    (outcome->Ok_0)@[0]->Send_0@.payload,
                )) by {
                    let f = (outcome->Ok_0)@[0]->Send_0;
                    let rnd = random@;
                    assert({
                        &&& rnd.len() == NONCE_RANDOM_SIZE
                        &&& spec_decode_encrypted(f@.payload) matches Ok(em) && {
                            let ep = old(self).spec_epoch_of(room_id);
                            let leaf = old(self).spec_own_leaf(room_id);
                            &&& em.epoch == ep
                            &&& em.sender_index == leaf
                            &&& old(self).spec_generation_of(room_id, leaf) == Some(em.generation)
                            &&& self.spec_generation_of(room_id, leaf) == Some(
                                (em.generation + 1) as u32,
                            )
                            &&& em.nonce == spec_nonce(em.generation, rnd)
                            &&& em.ciphertext == spec_sealed(
                                spec_sender_seed(spec_room_secret(room_id, ep), leaf),
                                ep,
                                leaf,
                                em.generation,
                                rnd,
                                plaintext@,
                            )
                        }
                    });
                }
            }
        }
        outcome
    }

    /// Dispatches a received frame on its opcode.
    fn handle_frame(&mut self, frame: Frame) -> (r: Result<Vec<ClientAction>, ClientError>)
        requires
            old(self).wf(),
        ensures
            final(self).wf(),
            final(self).spec_sender_id() == old(self).spec_sender_id(),
            match r {
                Ok(actions) => {
                    if Opcode::spec_from_u16(frame.header.opcode) == Some(Opcode::AppMessage) {
                        &&& old(self).spec_has_room(frame.header.room_id)
                        &&& frame.header.epoch == old(self).spec_epoch_of(frame.header.room_id)
                        &&& final(self).spec_epoch_of(frame.header.room_id) == old(
                            self,
                        ).spec_epoch_of(frame.header.room_id)
                        &&& actions@.len() == 1
                        &&& (actions@[0] matches ClientAction::DeliverMessage {
                            room_id,
                            sender_id,
                            log_index,
                            timestamp,
                            ..
                        } && room_id == frame.header.room_id && sender_id
                            == frame.header.sender_id && log_index == frame.header.log_index
                            && timestamp == frame.header.hlc_timestamp)
                    } else if Opcode::spec_from_u16(frame.header.opcode) == Some(Opcode::Commit) {
                        &&& old(self).spec_has_room(frame.header.room_id)
                        &&& final(self).spec_has_room(frame.header.room_id)
                        &&& final(self).spec_epoch_of(frame.header.room_id) == old(
                            self,
                        ).spec_epoch_of(frame.header.room_id) + 1
                        &&& actions@.len() >= 1
                        &&& (actions@[actions@.len() - 1] matches ClientAction::PersistRoom(s)
                            && s.room_id == frame.header.room_id && s.epoch == final(self).spec_epoch_of(frame.header.room_id) && s.my_leaf_index == final(self).spec_own_leaf(frame.header.room_id) && s.mls_state@
                            == spec_welcome_bytes(
                            frame.header.room_id,
                            final(self).spec_epoch_of(frame.header.room_id),
                            final(self).spec_members_of(frame.header.room_id),
                        ))
                    } else {
                        true
                    }
                },
                Err(e) => {
                    if Opcode::spec_from_u16(frame.header.opcode) == Some(Opcode::AppMessage)
                        && old(self).spec_has_room(frame.header.room_id) && frame.header.epoch
                        != old(self).spec_epoch_of(frame.header.room_id) {
                        e matches ClientError::EpochMismatch { expected, actual } && expected
                            == old(self).spec_epoch_of(frame.header.room_id) && actual
                            == frame.header.epoch && final(self).same_state(*old(self))
                    } else {
                        true
                    }
                },
            },
            (Opcode::spec_from_u16(frame.header.opcode) == Some(Opcode::AppMessage)
                && spec_app_message_deliverable(*old(self), frame)) ==> r is Ok,
            (Opcode::spec_from_u16(frame.header.opcode) == Some(Opcode::AppMessage)
                && spec_app_message_generation_spent(*old(self), frame)) ==> r is Err,
            Opcode::spec_from_u16(frame.header.opcode) == Some(Opcode::AppMessage) ==> ((r
                matches Err(ClientError::InvalidFrame { .. })) <==> (old(self).spec_has_room(
                frame.header.room_id,
            ) && frame.header.epoch == old(self).spec_epoch_of(frame.header.room_id)
                && spec_decode_encrypted(frame.payload@) is Err)),
            Opcode::spec_from_u16(frame.header.opcode) is None ==> (r matches Err(e) && e
                is InvalidFrame && *final(self) == *old(self)),
            Opcode::spec_from_u16(frame.header.opcode) == Some(Opcode::Welcome) ==> (r
                matches Err(e) && e is InvalidState && *final(self) == *old(self)),
            (old(self).spec_has_room(frame.header.room_id) && MlsGroup::spec_commit_applies(
                old(self).spec_epoch_of(frame.header.room_id),
                old(self).spec_members_of(frame.header.room_id),
                frame.payload@,
            ) && Opcode::spec_from_u16(frame.header.opcode) == Some(Opcode::Commit)) ==> r is Ok,
    {
        let room_id = frame.header.room_id();
        let opcode = match frame.header.opcode_enum() {
            Some(op) => op,
            None => {
                return Err(
                    ClientError::InvalidFrame { reason: String::from_str("unknown opcode") },
                );
            },
        };
        match opcode {
            Opcode::AppMessage => self.handle_app_message(room_id, frame),
            Opcode::Commit => self.handle_commit(room_id, frame),
            Opcode::Welcome => self.handle_welcome(room_id, frame),
            _ => {
                let room_opt = self.rooms.remove(&room_id);
                let mut room = match room_opt {
                    Some(room) => room,
                    None => {
                        return Err(ClientError::RoomNotFound { room_id });
                    },
                };
                let result = room.mls_group.process_message(frame);
                let outcome = match result {
                    Ok(mls_actions) => Ok(convert_mls_actions(mls_actions)),
                    Err(e) => Err(ClientError::Mls(e)),
                };
                proof {
                    if outcome is Ok {
                        assert(room.mls_group.spec_epoch() == old(self).rooms@[
                        room_id].mls_group.spec_epoch());
                    }
                }
                match outcome {
                    Ok(actions) => {
                        self.rooms.insert(room_id, room);
                        proof {
                            assert(self.rooms@[room_id].wf(room_id, self.identity.sender_id));
                        }
                        Ok(actions)
                    },
                    Err(e) => {
                        self.rooms.insert(room_id, room);
                        Err(e)
                    },
                }
            },
        }
    }

    /// Decrypts an ordered application message and delivers its plaintext
    /// with the order and time the sequencer assigned.
    fn handle_app_message(&mut self, room_id: RoomId, frame: Frame) -> (r: Result<
        Vec<ClientAction>,
        ClientError,
    >)
        requires
            old(self).wf(),
            Opcode::spec_from_u16(frame.header.opcode) == Some(Opcode::AppMessage),
            frame.header.room_id == room_id,
        ensures
            final(self).wf(),
            final(self).spec_sender_id() == old(self).spec_sender_id(),
            match r {
                Ok(actions) => {
                    &&& old(self).spec_has_room(room_id)
                    &&& frame.header.epoch == old(self).spec_epoch_of(room_id)
                    &&& final(self).spec_has_room(room_id)
                    &&& final(self).spec_epoch_of(room_id) == old(self).spec_epoch_of(room_id)
                    &&& actions@.len() == 1
                    &&& (actions@[0] matches ClientAction::DeliverMessage {
                        room_id: rid,
                        sender_id,
                        plaintext,
                        log_index,
                        timestamp,
                    } && rid == room_id && sender_id == frame.header.sender_id && log_index
                        == frame.header.log_index && timestamp == frame.header.hlc_timestamp && (
                    spec_decode_encrypted(frame.payload@) matches Ok(em) && em.ciphertext
                        == xchacha_seal(
                        spec_message_key_at(
                            spec_sender_seed(
                                spec_room_secret(room_id, old(self).spec_epoch_of(room_id)),
                                em.sender_index,
                            ),
                            em.generation as nat,
                        ),
                        em.nonce,
                        spec_aad(em.epoch, em.sender_index, em.generation),
                        plaintext@,
                    )))
                },
                Err(e) => {
                    if old(self).spec_has_room(room_id) && frame.header.epoch != old(
                        self,
                    ).spec_epoch_of(room_id) {
                        e matches ClientError::EpochMismatch { expected, actual } && expected
                            == old(self).spec_epoch_of(room_id) && actual == frame.header.epoch
                            && final(self).same_state(*old(self))
                    } else {
                        true
                    }
                },
            },
            spec_app_message_deliverable(*old(self), frame) ==> r is Ok,
            spec_app_message_generation_spent(*old(self), frame) ==> r is Err,
            (r matches Err(ClientError::InvalidFrame { .. })) <==> (old(self).spec_has_room(
                room_id,
            ) && frame.header.epoch == old(self).spec_epoch_of(room_id) && spec_decode_encrypted(
                frame.payload@,
            ) is Err),
    {
        let room_opt = self.rooms.remove(&room_id);
        let mut room = match room_opt {
            Some(room) => room,
            None => {
                proof {
                    assert(self.rooms@ =~= old(self).rooms@);
                }
                return Err(ClientError::RoomNotFound { room_id });
            },
        };
        let frame_epoch = frame.header.epoch();
        let room_epoch = room.mls_group.epoch();
        if frame_epoch != room_epoch {
            self.rooms.insert(room_id, room);
            proof {
                assert(self.rooms@ =~= old(self).rooms@);
            }
            return Err(ClientError::EpochMismatch { expected: room_epoch, actual: frame_epoch });
        }
        let encrypted = match deserialize_encrypted_message(frame.payload.as_slice()) {
            Ok(encrypted) => encrypted,
            Err(_) => {
                self.rooms.insert(room_id, room);
                return Err(
                    ClientError::InvalidFrame {
                        reason: String::from_str("malformed encrypted message"),
                    },
                );
            },
        };
        let result = room.sender_keys.decrypt(&encrypted);
        let sender_id = frame.header.sender_id();
        let log_index = frame.header.log_index();
        let timestamp = frame.header.hlc_timestamp();
        let outcome = match result {
            Ok(plaintext) => {
                let mut actions: Vec<ClientAction> = Vec::new();
                actions.push(
                    ClientAction::DeliverMessage {
                        room_id,
                        sender_id,
                        plaintext,
                        log_index,
                        timestamp,
                    },
                );
                Ok(actions)
            },
            Err(e) => Err(ClientError::SenderKey(e)),
        };
        self.rooms.insert(room_id, room);
        outcome
    }

    /// Applies a commit: the group advances one epoch, the sender keys are
    /// re-derived from the new exported secret, and the room snapshot is
    /// persisted.
    fn handle_commit(&mut self, room_id: RoomId, frame: Frame) -> (r: Result<
        Vec<ClientAction>,
        ClientError,
    >)
        requires
            old(self).wf(),
            Opcode::spec_from_u16(frame.header.opcode) == Some(Opcode::Commit),
            frame.header.room_id == room_id,
        ensures
            final(self).wf(),
            final(self).spec_sender_id() == old(self).spec_sender_id(),
            match r {
                Ok(actions) => {
                    &&& old(self).spec_has_room(room_id)
                    &&& final(self).spec_has_room(room_id)
                    &&& final(self).spec_epoch_of(room_id) == old(self).spec_epoch_of(room_id) + 1
                    &&& actions@.len() >= 1
                    &&& (actions@[actions@.len() - 1] matches ClientAction::PersistRoom(s)
                        && s.room_id == room_id && s.epoch == final(self).spec_epoch_of(room_id)
                        && s.my_leaf_index == final(self).spec_own_leaf(room_id) && s.mls_state@
                        == spec_welcome_bytes(
                        room_id,
                        final(self).spec_epoch_of(room_id),
                        final(self).spec_members_of(room_id),
                    ))
                },
                Err(_) => true,
            },
            (old(self).spec_has_room(room_id) && MlsGroup::spec_commit_applies(
                old(self).spec_epoch_of(room_id),
                old(self).spec_members_of(room_id),
                frame.payload@,
            )) ==> r is Ok,
    {
        let room_opt = self.rooms.remove(&room_id);
        let mut room = match room_opt {
            Some(room) => room,
            None => {
                return Err(ClientError::RoomNotFound { room_id });
            },
        };
        let result = room.mls_group.process_message(frame);
        let mut actions = match result {
            Ok(mls_actions) => convert_mls_actions(mls_actions),
            Err(e) => {
                self.rooms.insert(room_id, room);
                return Err(ClientError::Mls(e));
            },
        };
        room.sender_keys = initialize_sender_keys(&room.mls_group);
        room.my_leaf_index = room.mls_group.own_leaf_index();
        let epoch = room.mls_group.epoch();
        let mls_state = room.mls_group.serialized_state();
        let my_leaf_index = room.my_leaf_index;
        proof {
            if room.mls_group.spec_members().contains(room.mls_group.spec_own_member()) {
                assert(room.sender_keys.has_sender(room.my_leaf_index));
            }
        }
        self.rooms.insert(room_id, room);
        actions.push(
            ClientAction::PersistRoom(
                RoomStateSnapshot { room_id, epoch, mls_state, my_leaf_index },
            ),
        );
        Ok(actions)
    }

    /// Welcome frames need pre-shared key package state, which the client
    /// does not hold yet.
    fn handle_welcome(&mut self, _room_id: RoomId, _frame: Frame) -> (r: Result<
        Vec<ClientAction>,
        ClientError,
    >)
        requires
            old(self).wf(),
        ensures
            final(self).wf(),
            final(self).spec_sender_id() == old(self).spec_sender_id(),
            *final(self) == *old(self),
            r matches Err(e) && e is InvalidState,
    {
        Err(
            ClientError::InvalidState {
                reason: String::from_str("welcome processing requires key package state"),
            },
        )
    }

    /// Joining a room needs pre-shared key package state, which the client
    /// does not hold yet.
    fn handle_join_room(&mut self, _room_id: RoomId, _welcome: &Vec<u8>) -> (r: Result<
        Vec<ClientAction>,
        ClientError,
    >)
        requires
            old(self).wf(),
        ensures
            final(self).wf(),
            final(self).spec_sender_id() == old(self).spec_sender_id(),
            *final(self) == *old(self),
            r matches Err(e) && e is InvalidState,
    {
        Err(
            ClientError::InvalidState {
                reason: String::from_str("joining requires key package state"),
            },
        )
    }

    /// Stages a commit adding members from their key packages; the commit
    /// and welcome frames come back as send actions.
    fn handle_add_members(&mut self, room_id: RoomId, key_packages: &Vec<Vec<u8>>) -> (r: Result<
        Vec<ClientAction>,
        ClientError,
    >)
        requires
            old(self).wf(),
        ensures
            final(self).wf(),
            final(self).spec_sender_id() == old(self).spec_sender_id(),
            forall|k: u128| #[trigger] final(self).spec_has_room(k) == old(self).spec_has_room(k),
            forall|k: u128|
                old(self).spec_has_room(k) ==> #[trigger] final(self).spec_epoch_of(k) == old(
                    self,
                ).spec_epoch_of(k) && final(self).spec_members_of(k) == old(self).spec_members_of(
                    k,
                ),
            r is Ok <==> (old(self).spec_has_room(room_id) && !old(self).spec_has_pending_of(
                room_id,
            ) && MlsGroup::spec_packages_addable(
                old(self).spec_members_of(room_id),
                key_packages@,
            )),
            r matches Ok(actions) ==> {
                &&& final(self).spec_has_pending_of(room_id)
                &&& actions@.len() == 1 + key_packages@.len()
                &&& (forall|i: int| 0 <= i < actions@.len() ==> (#[trigger] actions@[i]) is Send)
            },
    {
        let room_opt = self.rooms.remove(&room_id);
        let mut room = match room_opt {
            Some(room) => room,
            None => {
                return Err(ClientError::RoomNotFound { room_id });
            },
        };
        let result = room.mls_group.add_members_from_bytes(key_packages);
        let outcome = match result {
            Ok(mls_actions) => Ok(convert_mls_actions(mls_actions)),
            Err(e) => Err(ClientError::Mls(e)),
        };
        self.rooms.insert(room_id, room);
        outcome
    }

    /// Nothing to do on a tick yet; heartbeats live in the session layer.
    fn handle_tick(&mut self, _now: u64) -> (r: Result<Vec<ClientAction>, ClientError>)
        requires
            old(self).wf(),
        ensures
            final(self).wf(),
            final(self).spec_sender_id() == old(self).spec_sender_id(),
            *final(self) == *old(self),
            r matches Ok(actions) && actions@.len() == 0,
    {
        Ok(Vec::new())
    }

    /// Removes a room from local state.
    fn handle_leave_room(&mut self, room_id: RoomId) -> (r: Result<Vec<ClientAction>, ClientError>)
        requires
            old(self).wf(),
        ensures
            final(self).wf(),
            final(self).spec_sender_id() == old(self).spec_sender_id(),
            match r {
                Ok(actions) => {
                    &&& old(self).spec_has_room(room_id)
                    &&& !final(self).spec_has_room(room_id)
                    &&& final(self).spec_room_count() + 1 == old(self).spec_room_count()
                    &&& actions@.len() == 1
                    &&& (actions@[0] matches ClientAction::RoomRemoved { room_id: rid, .. } && rid
                        == room_id)
                },
                Err(e) => {
                    &&& e matches ClientError::RoomNotFound { room_id: rid } && rid == room_id
                    &&& !old(self).spec_has_room(room_id)
                    &&& final(self).same_state(*old(self))
                },
            },
    {
        let removed = self.rooms.remove(&room_id);
        if removed.is_none() {
            proof {
                assert(self.rooms@ =~= old(self).rooms@);
            }
            return Err(ClientError::RoomNotFound { room_id });
        }
        let mut actions: Vec<ClientAction> = Vec::new();
        actions.push(
            ClientAction::RoomRemoved { room_id, reason: String::from_str("left room") },
        );
        Ok(actions)
    }
}

/// Derives the sender key store of a group's current epoch from its
/// exported secret.
fn initialize_sender_keys(mls_group: &MlsGroup) -> (r: SenderKeyStore)
    requires
        mls_group.wf(),
    ensures
        r.wf(),
        r.spec_epoch() == mls_group.spec_epoch(),
        r.spec_secret() == spec_room_secret(mls_group.spec_room_id(), mls_group.spec_epoch()),
        forall|m: u32|
            0 <= m < mls_group.spec_members().len() ==> #[trigger] r.has_sender(m)
                && r.has_receiver(m),
        forall|m: u32|
            0 <= m < mls_group.spec_members().len() ==> #[trigger] r.spec_generation(m) == Some(
                0u32,
            ),
{
    let context: Vec<u8> = Vec::new();
    let epoch_secret = mls_group.export_secret("kalandra sender keys v1", &context, KEY_SIZE);
    let member_indices = mls_group.member_leaf_indices();
    let store = SenderKeyStore::initialize_epoch(
        &epoch_secret,
        mls_group.epoch(),
        &member_indices,
    );
    proof {
        assert(epoch_secret@ == spec_room_secret(
            mls_group.spec_room_id(),
            mls_group.spec_epoch(),
        )) by {
            assert("kalandra sender keys v1".spec_bytes() + Seq::<u8>::empty()
                =~= "kalandra sender keys v1".spec_bytes() + context@);
        }
        assert forall|m: u32|
            0 <= m < mls_group.spec_members().len() implies #[trigger] store.has_sender(m)
            && store.has_receiver(m) by {
            assert(member_indices@[m as int] == m);
            assert(member_indices@.contains(m));
        }
        assert forall|m: u32|
            0 <= m < mls_group.spec_members().len() implies #[trigger] store.spec_generation(m)
            == Some(0u32) by {
            assert(member_indices@[m as int] == m);
            assert(member_indices@.contains(m));
        }
    }
    store
}

/// How one group-layer action maps to a client action: frames become
/// sends of the same frame; deliveries, removals and log lines keep
/// their room and content.
pub open spec fn spec_converted_action(a: MlsAction, b: ClientAction) -> bool {
    match a {
        MlsAction::SendCommit(f) => b == ClientAction::Send(f),
        MlsAction::SendProposal(f) => b == ClientAction::Send(f),
        MlsAction::SendMessage(f) => b == ClientAction::Send(f),
        MlsAction::SendWelcome { frame, .. } => b == ClientAction::Send(frame),
        MlsAction::DeliverMessage { room_id, sender, plaintext } => b
            == (ClientAction::DeliverMessage {
            room_id,
            sender_id: sender,
            plaintext,
            log_index: 0,
            timestamp: 0,
        }),
        MlsAction::RemoveGroup { room_id, reason } => b == (ClientAction::RoomRemoved {
            room_id,
            reason,
        }),
        MlsAction::Log { message } => b == (ClientAction::Log { message }),
    }
}

/// Turns group-layer actions into client actions: an order-preserving,
/// one-to-one map as `spec_converted_action` says.
fn convert_mls_actions(mls_actions: Vec<MlsAction>) -> (r: Vec<ClientAction>)
    ensures
        r@.len() == mls_actions@.len(),
        forall|i: int|
            0 <= i < r@.len() ==> spec_converted_action(mls_actions@[i], #[trigger] r@[i]),
{
    let count = mls_actions.len();
    let ghost original = mls_actions@;
    let mut remaining = mls_actions;
    proof {
        assert(original.len() == count);
    }
    let mut out: Vec<ClientAction> = Vec::new();
    let mut i: usize = 0;
    while remaining.len() > 0
        invariant
            original.len() <= usize::MAX,
            original.len() == i + remaining@.len(),
            remaining@ == original.subrange(i as int, original.len() as int),
            out@.len() == i,
            forall|j: int|
                0 <= j < i ==> spec_converted_action(original[j], #[trigger] out@[j]),
        decreases remaining@.len(),
    {
        let action = remaining.remove(0);
        proof {
            assert(action == original[i as int]);
        }
        let converted = match action {
            MlsAction::SendCommit(frame) => ClientAction::Send(frame),
            MlsAction::SendProposal(frame) => ClientAction::Send(frame),
            MlsAction::SendMessage(frame) => ClientAction::Send(frame),
            MlsAction::SendWelcome { frame, .. } => ClientAction::Send(frame),
            MlsAction::DeliverMessage { room_id, sender, plaintext } => {
                ClientAction::DeliverMessage {
                    room_id,
                    sender_id: sender,
                    plaintext,
                    log_index: 0,
                    timestamp: 0,
                }
            },
            MlsAction::RemoveGroup { room_id, reason } => {
                ClientAction::RoomRemoved { room_id, reason }
            },
            MlsAction::Log { message } => ClientAction::Log { message },
        };
        out.push(converted);
        proof {
            assert(remaining@ =~= original.subrange(i + 1, original.len() as int));
        }
        i = i + 1;
    }
    out
}

} // verus!
