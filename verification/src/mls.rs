//! Group state adapter.
//!
//! Models the group primitive the protocol engine drives: a room-scoped
//! group with an epoch counter, an ordered member roster (a member's leaf
//! index is its position), pending commits, and an exported per-epoch
//! secret from which the sender keys are derived. Commits are the only
//! operation that advances the epoch, and each merged commit advances it
//! by exactly one.

use vstd::prelude::*;
use vstd::slice::{slice_subrange, slice_to_vec};
use vstd::string::StringSliceAdditionalSpecFns;
use crate::crypto::{hkdf_expand_bytes, hkdf_expand, MAX_HKDF_OUTPUT};
use crate::env::Environment;
use crate::frame::{Frame, FrameHeader, Opcode};
use crate::ratchet::KEY_SIZE;
use crate::wire::{
    spec_u64_to_be_bytes,
    spec_u64_from_be_bytes,
    spec_u32_to_be_bytes,
    spec_u32_from_be_bytes,
    u64_to_be_bytes,
    u64_from_be_bytes,
    u32_to_be_bytes,
    u32_from_be_bytes,
    lemma_u32_be_bytes,
    lemma_u64_be_bytes,
    push_zero_bytes,
};
use vstd::bytes::{spec_u128_to_le_bytes, u128_to_le_bytes, lemma_auto_spec_u128_to_from_le_bytes};

verus! {

/// 128-bit room identifier.
pub type RoomId = u128;

/// 64-bit stable member identifier.
pub type MemberId = u64;

/// Size in bytes of an encoded key package: member id plus key material.
pub const KEY_PACKAGE_SIZE: usize = 40;

/// Errors of the group adapter.
#[derive(Clone, Debug, PartialEq, Eq)]
pub enum MlsError {
    /// A referenced member is not in the roster.
    MemberNotFound { member_id: MemberId },
    /// An added member is already in the roster.
    AlreadyMember { member_id: MemberId },
    /// A key package did not parse.
    InvalidKeyPackage,
    /// A group message payload did not parse or does not apply.
    MalformedMessage,
    /// No commit of our own is pending.
    NoPendingCommit,
    /// A commit of our own is already pending and must merge first.
    PendingCommitExists,
    /// Members leave through a proposal, not by removing themselves.
    RemoveSelf,
    /// The epoch counter cannot advance further.
    EpochOverflow,
    /// The roster would outgrow what a frame payload can carry.
    RosterTooLarge,
    /// Validation of a frame against the group state failed.
    ValidationFailed,
}

/// Actions the adapter asks the driver to take. Frames carry their room in
/// the header; the other variants name the room explicitly.
#[derive(Clone, Debug)]
pub enum MlsAction {
    /// Send a commit frame to the sequencer.
    SendCommit(Frame),
    /// Send a proposal frame to the sequencer.
    SendProposal(Frame),
    /// Send an ordinary group frame.
    SendMessage(Frame),
    /// Send a welcome frame to one newly added member.
    SendWelcome { frame: Frame, member_id: MemberId },
    /// Hand a group-layer plaintext up to the application.
    DeliverMessage { room_id: RoomId, sender: MemberId, plaintext: Vec<u8> },
    /// The local member is no longer in the group.
    RemoveGroup { room_id: RoomId, reason: String },
    /// Diagnostic text for the driver's log.
    Log { message: String },
}

/// Outcome of validating a frame against the replicated group state.
#[derive(Clone, Debug)]
pub enum ValidationResult {
    /// The frame is consistent with the group state.
    Accept,
    /// The frame must be rejected.
    Reject { reason: String },
}

// ---------------------------------------------------------------------
// Identifier-list codec: the commit and welcome bodies carry rosters as
// big-endian 64-bit identifiers, length-prefixed.
// ---------------------------------------------------------------------

/// The bytes of a list of identifiers, each big-endian.
pub open spec fn spec_ids_bytes(ids: Seq<MemberId>) -> Seq<u8>
    decreases ids.len(),
{
    if ids.len() == 0 {
        Seq::empty()
    } else {
        spec_u64_to_be_bytes(ids[0]) + spec_ids_bytes(ids.skip(1))
    }
}

/// The identifiers read back from a byte string of whole 8-byte groups.
pub open spec fn spec_ids_of(s: Seq<u8>) -> Seq<MemberId> {
    Seq::new((s.len() / 8) as nat, |i: int| spec_u64_from_be_bytes(s.subrange(8 * i, 8 * i + 8)))
}

proof fn lemma_ids_bytes_len(ids: Seq<MemberId>)
    ensures
        spec_ids_bytes(ids).len() == 8 * ids.len(),
    decreases ids.len(),
{
    lemma_u64_be_bytes();
    if ids.len() > 0 {
        lemma_ids_bytes_len(ids.skip(1));
    }
}

proof fn lemma_ids_bytes_index(ids: Seq<MemberId>, i: int)
    requires
        0 <= i < ids.len(),
    ensures
        spec_ids_bytes(ids).subrange(8 * i, 8 * i + 8) == spec_u64_to_be_bytes(ids[i]),
    decreases i,
{
    lemma_u64_be_bytes();
    lemma_ids_bytes_len(ids);
    lemma_ids_bytes_len(ids.skip(1));
    if i == 0 {
        assert(spec_ids_bytes(ids).subrange(0, 8) =~= spec_u64_to_be_bytes(ids[0]));
    } else {
        lemma_ids_bytes_index(ids.skip(1), i - 1);
        assert(spec_ids_bytes(ids).subrange(8 * i, 8 * i + 8) =~= spec_ids_bytes(
            ids.skip(1),
        ).subrange(8 * (i - 1), 8 * (i - 1) + 8));
        assert(ids.skip(1)[i - 1] == ids[i]);
    }
}

/// Reading an encoded identifier list back yields the list.
pub proof fn lemma_ids_round_trip(ids: Seq<MemberId>)
    ensures
        spec_ids_bytes(ids).len() == 8 * ids.len(),
        spec_ids_of(spec_ids_bytes(ids)) == ids,
{
    lemma_u64_be_bytes();
    lemma_ids_bytes_len(ids);
    assert forall|i: int|
        0 <= i < ids.len() implies spec_ids_of(spec_ids_bytes(ids))[i] == ids[i] by {
        lemma_ids_bytes_index(ids, i);
    }
    assert(spec_ids_of(spec_ids_bytes(ids)) =~= ids);
}

/// Appending one identifier appends its eight bytes.
proof fn lemma_ids_bytes_snoc(ids: Seq<MemberId>, x: MemberId)
    ensures
        spec_ids_bytes(ids.push(x)) == spec_ids_bytes(ids) + spec_u64_to_be_bytes(x),
    decreases ids.len(),
{
    lemma_u64_be_bytes();
    if ids.len() == 0 {
        assert(ids.push(x)[0] == x);
        assert(ids.push(x).skip(1) =~= Seq::<MemberId>::empty());
        assert(spec_ids_bytes(ids.push(x)) == spec_u64_to_be_bytes(x) + spec_ids_bytes(
            Seq::<MemberId>::empty(),
        ));
        assert(spec_ids_bytes(Seq::<MemberId>::empty()) == Seq::<u8>::empty());
        assert(spec_u64_to_be_bytes(x) + Seq::<u8>::empty() =~= spec_u64_to_be_bytes(x));
        assert(spec_ids_bytes(ids) + spec_u64_to_be_bytes(x) =~= spec_u64_to_be_bytes(x));
    } else {
        assert(ids.push(x)[0] == ids[0]);
        assert(ids.push(x).skip(1) =~= ids.skip(1).push(x));
        lemma_ids_bytes_snoc(ids.skip(1), x);
        assert(spec_ids_bytes(ids.push(x)) == spec_u64_to_be_bytes(ids[0]) + (spec_ids_bytes(
            ids.skip(1),
        ) + spec_u64_to_be_bytes(x)));
        assert(spec_u64_to_be_bytes(ids[0]) + (spec_ids_bytes(ids.skip(1))
            + spec_u64_to_be_bytes(x)) =~= (spec_u64_to_be_bytes(ids[0]) + spec_ids_bytes(
            ids.skip(1),
        )) + spec_u64_to_be_bytes(x));
    }
}

/// Encodes a list of identifiers.
fn encode_ids(ids: &Vec<MemberId>) -> (r: Vec<u8>)
    ensures
        r@ == spec_ids_bytes(ids@),
        r@.len() == 8 * ids@.len(),
{
    proof {
        lemma_ids_bytes_len(ids@);
    }
    let mut out: Vec<u8> = Vec::new();
    let n = ids.len();
    let mut i: usize = 0;
    proof {
        assert(ids@.subrange(0, 0) =~= Seq::<MemberId>::empty());
    }
    while i < n
        invariant
            n == ids@.len(),
            i <= n,
            out@ == spec_ids_bytes(ids@.subrange(0, i as int)),
        decreases n - i,
    {
        let mut part = u64_to_be_bytes(ids[i]);
        out.append(&mut part);
        proof {
            lemma_ids_bytes_snoc(ids@.subrange(0, i as int), ids@[i as int]);
            assert(ids@.subrange(0, i + 1) =~= ids@.subrange(0, i as int).push(ids@[i as int]));
        }
        i = i + 1;
    }
    proof {
        assert(ids@.subrange(0, n as int) =~= ids@);
        lemma_ids_bytes_len(ids@);
    }
    out
}

/// Decodes a list of identifiers from whole 8-byte groups.
fn decode_ids(data: &[u8]) -> (r: Vec<MemberId>)
    requires
        data@.len() % 8 == 0,
    ensures
        r@ == spec_ids_of(data@),
{
    let n = data.len() / 8;
    let mut out: Vec<MemberId> = Vec::new();
    let mut i: usize = 0;
    while i < n
        invariant
            data@.len() == 8 * n,
            data@.len() <= usize::MAX,
            i <= n,
            out@.len() == i,
            forall|j: int|
                0 <= j < i ==> out@[j] == spec_u64_from_be_bytes(
                    data@.subrange(8 * j, 8 * j + 8),
                ),
        decreases n - i,
    {
        let id = u64_from_be_bytes(slice_subrange(data, 8 * i, 8 * i + 8));
        out.push(id);
        i = i + 1;
    }
    proof {
        assert(out@ =~= spec_ids_of(data@));
    }
    out
}

// ---------------------------------------------------------------------
// Commit body codec: added members, then removed members.
// ---------------------------------------------------------------------

/// The bytes of a commit body: both rosters length-prefixed.
pub open spec fn spec_commit_bytes(adds: Seq<MemberId>, removes: Seq<MemberId>) -> Seq<u8> {
    spec_u32_to_be_bytes(adds.len() as u32) + spec_ids_bytes(adds) + spec_u32_to_be_bytes(
        removes.len() as u32,
    ) + spec_ids_bytes(removes)
}

/// The total decode function for commit bodies.
pub open spec fn spec_decode_commit(s: Seq<u8>) -> Option<(Seq<MemberId>, Seq<MemberId>)> {
    if s.len() < 4 {
        None
    } else {
        let na = spec_u32_from_be_bytes(s.subrange(0, 4)) as int;
        if s.len() < 4 + 8 * na {
            None
        } else {
            let p = 4 + 8 * na;
            if s.len() < p + 4 {
                None
            } else {
                let nr = spec_u32_from_be_bytes(s.subrange(p, p + 4)) as int;
                if s.len() != p + 4 + 8 * nr {
                    None
                } else {
                    Some(
                        (
                            spec_ids_of(s.subrange(4, p)),
                            spec_ids_of(s.subrange(p + 4, s.len() as int)),
                        ),
                    )
                }
            }
        }
    }
}

/// Commit codec round trip.
pub proof fn lemma_commit_round_trip(adds: Seq<MemberId>, removes: Seq<MemberId>)
    requires
        adds.len() <= u32::MAX,
        removes.len() <= u32::MAX,
    ensures
        spec_decode_commit(spec_commit_bytes(adds, removes)) == Some((adds, removes)),
{
    lemma_u32_be_bytes();
    lemma_ids_round_trip(adds);
    lemma_ids_round_trip(removes);
    let s = spec_commit_bytes(adds, removes);
    let p = 4 + 8 * adds.len() as int;
    assert(s.subrange(0, 4) =~= spec_u32_to_be_bytes(adds.len() as u32));
    assert(s.subrange(4, p) =~= spec_ids_bytes(adds));
    assert(s.subrange(p, p + 4) =~= spec_u32_to_be_bytes(removes.len() as u32));
    assert(s.subrange(p + 4, s.len() as int) =~= spec_ids_bytes(removes));
    assert(spec_decode_commit(s) == Some((adds, removes)));
}

/// Encodes a commit body.
fn encode_commit(adds: &Vec<MemberId>, removes: &Vec<MemberId>) -> (r: Vec<u8>)
    requires
        adds@.len() <= u32::MAX,
        removes@.len() <= u32::MAX,
    ensures
        r@ == spec_commit_bytes(adds@, removes@),
{
    let mut out = u32_to_be_bytes(adds.len() as u32);
    let mut part = encode_ids(adds);
    out.append(&mut part);
    let mut part = u32_to_be_bytes(removes.len() as u32);
    out.append(&mut part);
    let mut part = encode_ids(removes);
    out.append(&mut part);
    out
}

/// Decodes a commit body; `None` when the bytes do not form one.
fn decode_commit(data: &[u8]) -> (r: Option<(Vec<MemberId>, Vec<MemberId>)>)
    ensures
        match r {
            Some((adds, removes)) => spec_decode_commit(data@) == Some((adds@, removes@)),
            None => spec_decode_commit(data@) is None,
        },
{
    proof {
        lemma_u32_be_bytes();
    }
    if data.len() < 4 {
        return None;
    }
    let na = u32_from_be_bytes(slice_subrange(data, 0, 4)) as usize;
    if (data.len() - 4) / 8 < na {
        return None;
    }
    let p = 4 + 8 * na;
    if data.len() - p < 4 {
        return None;
    }
    let nr = u32_from_be_bytes(slice_subrange(data, p, p + 4)) as usize;
    if (data.len() - p - 4) / 8 < nr || data.len() - p - 4 != 8 * nr {
        return None;
    }
    let adds = decode_ids(slice_subrange(data, 4, p));
    let removes = decode_ids(slice_subrange(data, p + 4, data.len()));
    Some((adds, removes))
}

// ---------------------------------------------------------------------
// Key packages and the welcome body.
// ---------------------------------------------------------------------

/// The bytes of a key package: the member id, then 32 bytes of public key
/// material.
pub open spec fn spec_key_package_bytes(member_id: MemberId, key: Seq<u8>) -> Seq<u8> {
    spec_u64_to_be_bytes(member_id) + key
}

/// The member a key package belongs to, when it parses.
pub open spec fn spec_key_package_member(s: Seq<u8>) -> Option<MemberId> {
    if s.len() == KEY_PACKAGE_SIZE {
        Some(spec_u64_from_be_bytes(s.subrange(0, 8)))
    } else {
        None
    }
}

/// The bytes of a welcome body: room, epoch after the commit, roster.
pub open spec fn spec_welcome_bytes(room_id: RoomId, epoch: u64, roster: Seq<MemberId>) -> Seq<
    u8,
> {
    spec_u128_to_le_bytes(room_id) + spec_u64_to_be_bytes(epoch) + spec_ids_bytes(roster)
}

// ---------------------------------------------------------------------
// The epoch secret model.
// ---------------------------------------------------------------------

/// The keying material a room's secrets grow from: the room id padded to
/// one key length.
pub open spec fn spec_group_seed(room_id: RoomId) -> Seq<u8> {
    spec_u128_to_le_bytes(room_id) + Seq::new(16, |i: int| 0u8)
}

/// The exporter secret of an epoch.
pub open spec fn spec_epoch_secret(room_id: RoomId, epoch: u64) -> Seq<u8> {
    hkdf_expand_bytes(
        spec_group_seed(room_id),
        "epoch-secret".spec_bytes() + spec_u64_to_be_bytes(epoch),
        KEY_SIZE as nat,
    )
}

/// Derives the exporter secret of an epoch.
fn derive_epoch_secret(room_id: RoomId, epoch: u64) -> (r: Vec<u8>)
    ensures
        r@ == spec_epoch_secret(room_id, epoch),
        r@.len() == KEY_SIZE,
{
    proof {
        lemma_auto_spec_u128_to_from_le_bytes();
    }
    let mut seed = u128_to_le_bytes(room_id);
    push_zero_bytes(&mut seed, 16);
    let mut info = slice_to_vec("epoch-secret".as_bytes());
    let mut e = u64_to_be_bytes(epoch);
    info.append(&mut e);
    hkdf_expand(&seed, &info, KEY_SIZE)
}

// ---------------------------------------------------------------------
// Roster arithmetic.
// ---------------------------------------------------------------------

/// No identifier appears twice.
pub open spec fn distinct_ids(s: Seq<MemberId>) -> bool {
    forall|i: int, j: int| 0 <= i < j < s.len() ==> s[i] != s[j]
}

/// The roster with the removed members taken out, order kept.
pub open spec fn spec_keep(members: Seq<MemberId>, removes: Seq<MemberId>) -> Seq<MemberId>
    decreases members.len(),
{
    if members.len() == 0 {
        Seq::empty()
    } else {
        let rest = spec_keep(members.skip(1), removes);
        if removes.contains(members[0]) {
            rest
        } else {
            seq![members[0]] + rest
        }
    }
}

/// What survives the removal: exactly the members not removed.
pub proof fn lemma_keep_membership(members: Seq<MemberId>, removes: Seq<MemberId>, x: MemberId)
    ensures
        spec_keep(members, removes).contains(x) <==> (members.contains(x) && !removes.contains(
            x,
        )),
    decreases members.len(),
{
    let kept = spec_keep(members, removes);
    if members.len() > 0 {
        lemma_keep_membership(members.skip(1), removes, x);
        let rest = spec_keep(members.skip(1), removes);
        if members.contains(x) && !removes.contains(x) {
            if members[0] == x {
                assert(kept[0] == x);
                assert(kept.contains(x));
            } else {
                let i = choose|i: int| 0 <= i < members.len() && members[i] == x;
                assert(members.skip(1)[i - 1] == x);
                assert(members.skip(1).contains(x));
                let j = choose|j: int| 0 <= j < rest.len() && rest[j] == x;
                if removes.contains(members[0]) {
                    assert(kept.contains(x));
                } else {
                    assert(kept[j + 1] == x);
                    assert(kept.contains(x));
                }
            }
        }
        if kept.contains(x) {
            let j = choose|j: int| 0 <= j < kept.len() && kept[j] == x;
            if removes.contains(members[0]) {
                assert(rest.contains(x));
                assert(members.skip(1).contains(x));
                let i = choose|i: int| 0 <= i < members.skip(1).len() && members.skip(1)[i] == x;
                assert(members[i + 1] == x);
            } else {
                if j == 0 {
                    assert(members[0] == x);
                } else {
                    assert(rest[j - 1] == x);
                    assert(rest.contains(x));
                    let i = choose|i: int|
                        0 <= i < members.skip(1).len() && members.skip(1)[i] == x;
                    assert(members[i + 1] == x);
                }
            }
        }
    }
}

/// Removal keeps the roster free of duplicates.
proof fn lemma_keep_distinct(members: Seq<MemberId>, removes: Seq<MemberId>)
    requires
        distinct_ids(members),
    ensures
        distinct_ids(spec_keep(members, removes)),
    decreases members.len(),
{
    if members.len() > 0 {
        assert(distinct_ids(members.skip(1))) by {
            assert forall|i: int, j: int|
                0 <= i < j < members.skip(1).len() implies members.skip(1)[i] != members.skip(
                1,
            )[j] by {
                assert(members[i + 1] != members[j + 1]);
            }
        }
        lemma_keep_distinct(members.skip(1), removes);
        let rest = spec_keep(members.skip(1), removes);
        if !removes.contains(members[0]) {
            assert forall|i: int, j: int|
                0 <= i < j < spec_keep(members, removes).len() implies spec_keep(
                members,
                removes,
            )[i] != spec_keep(members, removes)[j] by {
                if i == 0 {
                    assert(spec_keep(members, removes)[j] == rest[j - 1]);
                    assert(rest.contains(rest[j - 1]));
                    lemma_keep_membership(members.skip(1), removes, rest[j - 1]);
                    if members[0] == rest[j - 1] {
                        let k = choose|k: int|
                            0 <= k < members.skip(1).len() && members.skip(1)[k] == members[0];
                        assert(members[k + 1] == members[0]);
                    }
                } else {
                    assert(spec_keep(members, removes)[i] == rest[i - 1]);
                    assert(spec_keep(members, removes)[j] == rest[j - 1]);
                }
            }
        }
    }
}

/// Checks whether a roster contains an identifier.
fn contains_id(ids: &Vec<MemberId>, x: MemberId) -> (r: bool)
    ensures
        r == ids@.contains(x),
{
    let n = ids.len();
    let mut i: usize = 0;
    while i < n
        invariant
            n == ids@.len(),
            i <= n,
            forall|j: int| 0 <= j < i ==> ids@[j] != x,
        decreases n - i,
    {
        if ids[i] == x {
            return true;
        }
        i = i + 1;
    }
    false
}

/// Builds the roster that survives a removal list.
fn keep_members(members: &Vec<MemberId>, removes: &Vec<MemberId>) -> (r: Vec<MemberId>)
    ensures
        r@ == spec_keep(members@, removes@),
{
    let mut out: Vec<MemberId> = Vec::new();
    let n = members.len();
    let mut i: usize = 0;
    proof {
        assert(members@.subrange(0, 0) =~= Seq::<MemberId>::empty());
    }
    while i < n
        invariant
            n == members@.len(),
            i <= n,
            out@ == spec_keep(members@.subrange(0, i as int), removes@),
        decreases n - i,
    {
        let m = members[i];
        if !contains_id(removes, m) {
            out.push(m);
        }
        proof {
            lemma_keep_snoc(members@.subrange(0, i as int), removes@, members@[i as int]);
            assert(members@.subrange(0, i + 1) =~= members@.subrange(0, i as int).push(
                members@[i as int],
            ));
        }
        i = i + 1;
    }
    proof {
        assert(members@.subrange(0, n as int) =~= members@);
    }
    out
}

/// Appending a member before removal appends it after, unless removed.
proof fn lemma_keep_snoc(members: Seq<MemberId>, removes: Seq<MemberId>, x: MemberId)
    ensures
        spec_keep(members.push(x), removes) == if removes.contains(x) {
            spec_keep(members, removes)
        } else {
            spec_keep(members, removes).push(x)
        },
    decreases members.len(),
{
    if members.len() == 0 {
        assert(members.push(x)[0] == x);
        assert(members.push(x).skip(1) =~= Seq::<MemberId>::empty());
        assert(spec_keep(Seq::<MemberId>::empty(), removes) == Seq::<MemberId>::empty());
        if removes.contains(x) {
            assert(spec_keep(members.push(x), removes) == spec_keep(
                Seq::<MemberId>::empty(),
                removes,
            ));
            assert(spec_keep(members.push(x), removes) =~= spec_keep(members, removes));
        } else {
            assert(spec_keep(members.push(x), removes) == seq![x] + spec_keep(
                Seq::<MemberId>::empty(),
                removes,
            ));
            assert(seq![x] + Seq::<MemberId>::empty() =~= Seq::<MemberId>::empty().push(x));
            assert(spec_keep(members.push(x), removes) =~= spec_keep(members, removes).push(x));
        }
    } else {
        assert(members.push(x).skip(1) =~= members.skip(1).push(x));
        lemma_keep_snoc(members.skip(1), removes, x);
        assert(members.push(x)[0] == members[0]);
        let rest_push = spec_keep(members.skip(1).push(x), removes);
        let rest = spec_keep(members.skip(1), removes);
        if removes.contains(x) {
            assert(rest_push == rest);
            if removes.contains(members[0]) {
                assert(spec_keep(members.push(x), removes) == rest_push);
                assert(spec_keep(members, removes) == rest);
            } else {
                assert(spec_keep(members.push(x), removes) == seq![members[0]] + rest_push);
                assert(spec_keep(members, removes) == seq![members[0]] + rest);
            }
            assert(spec_keep(members.push(x), removes) =~= spec_keep(members, removes));
        } else {
            assert(rest_push == rest.push(x));
            if removes.contains(members[0]) {
                assert(spec_keep(members.push(x), removes) == rest_push);
                assert(spec_keep(members, removes) == rest);
            } else {
                assert(spec_keep(members.push(x), removes) == seq![members[0]] + rest.push(x));
                assert(spec_keep(members, removes) == seq![members[0]] + rest);
                assert(seq![members[0]] + rest.push(x) =~= (seq![members[0]] + rest).push(x));
            }
            assert(spec_keep(members.push(x), removes) =~= spec_keep(members, removes).push(x));
        }
    }
}


// ---------------------------------------------------------------------
// The replicated group state, the validator, and the group itself.
// ---------------------------------------------------------------------

/// Most members a room may hold; keeps every commit and welcome body
/// within the frame payload limit.
pub const ROSTER_LIMIT: usize = 65535;

/// The server's replicated view of a group: what frame validation needs.
#[derive(Debug)]
pub struct MlsGroupState {
    /// Room this state belongs to.
    pub room_id: RoomId,
    /// Epoch the state describes.
    pub epoch: u64,
    /// Hash of the group tree at this epoch, carried opaquely.
    pub tree_hash: [u8; 32],
    /// Ordered member roster.
    pub members: Vec<MemberId>,
    /// Opaque public key material of the roster.
    pub key_material: Vec<u8>,
}

impl MlsGroupState {
    /// Assembles a group state value.
    pub fn new(
        room_id: RoomId,
        epoch: u64,
        tree_hash: [u8; 32],
        members: Vec<MemberId>,
        key_material: Vec<u8>,
    ) -> (r: MlsGroupState)
        ensures
            r.room_id == room_id,
            r.epoch == epoch,
            r.tree_hash == tree_hash,
            r.members@ == members@,
            r.key_material@ == key_material@,
    {
        MlsGroupState { room_id, epoch, tree_hash, members, key_material }
    }

    /// Whether a member id is in the roster.
    pub fn is_member(&self, member_id: MemberId) -> (r: bool)
        ensures
            r == self.members@.contains(member_id),
    {
        contains_id(&self.members, member_id)
    }

    /// The stored key material for a member: present exactly for roster
    /// members.
    pub fn member_key(&self, member_id: MemberId) -> (r: Option<&Vec<u8>>)
        ensures
            r is Some <==> self.members@.contains(member_id),
    {
        if contains_id(&self.members, member_id) {
            Some(&self.key_material)
        } else {
            None
        }
    }

    /// A field-for-field copy.
    pub fn duplicate(&self) -> (r: MlsGroupState)
        ensures
            r.room_id == self.room_id,
            r.epoch == self.epoch,
            r.tree_hash == self.tree_hash,
            r.members@ == self.members@,
            r.key_material@ == self.key_material@,
    {
        MlsGroupState {
            room_id: self.room_id,
            epoch: self.epoch,
            tree_hash: self.tree_hash,
            members: slice_to_vec(self.members.as_slice()),
            key_material: slice_to_vec(self.key_material.as_slice()),
        }
    }
}

/// Validates frames against the replicated group state.
pub struct MlsValidator;

impl MlsValidator {
    /// A frame's sender must hold key material in the replicated state;
    /// this membership check stands in for the cryptographic signature
    /// verification a full group implementation performs with that key.
    /// Commits and the other group messages authenticate themselves
    /// inside the group layer and are accepted here.
    pub fn validate_signature(&self, frame: &Frame, state: &MlsGroupState) -> (r: Result<
        ValidationResult,
        MlsError,
    >)
        ensures
            r is Ok,
            (r matches Ok(v) ==> (v is Accept <==> state.members@.contains(
                frame.header.sender_id,
            ))),
    {
        if state.is_member(frame.header.sender_id) {
            Ok(ValidationResult::Accept)
        } else {
            Ok(
                ValidationResult::Reject {
                    reason: String::from_str("sender holds no key in the group state"),
                },
            )
        }
    }
}

/// A member's view of one room's group.
pub struct MlsGroup {
    room_id: RoomId,
    epoch: u64,
    members: Vec<MemberId>,
    own_member_id: MemberId,
    epoch_secret: Vec<u8>,
    pending: Option<(Vec<MemberId>, Vec<MemberId>)>,
}

impl MlsGroup {
    /// Roster distinct and bounded; the secret matches room and epoch; a
    /// pending commit only adds absent members and removes present ones,
    /// never the local member, within the roster bound.
    pub closed spec fn wf(self) -> bool {
        &&& distinct_ids(self.members@)
        &&& self.members@.len() <= ROSTER_LIMIT
        &&& self.epoch_secret@ == spec_epoch_secret(self.room_id, self.epoch)
        &&& self.epoch_secret@.len() == KEY_SIZE
        &&& match self.pending {
            Some((adds, removes)) => {
                &&& distinct_ids(adds@)
                &&& distinct_ids(removes@)
                &&& forall|i: int| 0 <= i < adds@.len() ==> !self.members@.contains(#[trigger] adds@[i])
                &&& forall|i: int|
                    0 <= i < removes@.len() ==> self.members@.contains(#[trigger] removes@[i])
                &&& adds@.len() <= u32::MAX
                &&& removes@.len() <= u32::MAX
                &&& self.members@.len() + adds@.len() <= ROSTER_LIMIT
            },
            None => true,
        }
    }

    pub closed spec fn spec_room_id(self) -> RoomId {
        self.room_id
    }

    pub closed spec fn spec_epoch(self) -> u64 {
        self.epoch
    }

    pub closed spec fn spec_members(self) -> Seq<MemberId> {
        self.members@
    }

    pub closed spec fn spec_own_member(self) -> MemberId {
        self.own_member_id
    }

    pub closed spec fn spec_pending(self) -> Option<(Seq<MemberId>, Seq<MemberId>)> {
        match self.pending {
            Some((adds, removes)) => Some((adds@, removes@)),
            None => None,
        }
    }

    /// The roster after a commit delta is merged.
    pub open spec fn spec_roster_after(
        members: Seq<MemberId>,
        adds: Seq<MemberId>,
        removes: Seq<MemberId>,
    ) -> Seq<MemberId> {
        spec_keep(members, removes) + adds
    }

    /// Whether a commit body applies cleanly to a roster at an epoch:
    /// the body decodes, every added member is fresh and distinct, and
    /// the grown roster stays within the limit.
    pub open spec fn spec_commit_applies(
        epoch: u64,
        members: Seq<MemberId>,
        payload: Seq<u8>,
    ) -> bool {
        let decoded = spec_decode_commit(payload);
        &&& epoch < u64::MAX
        &&& decoded is Some
        &&& distinct_ids(decoded->Some_0.0)
        &&& (forall|i: int|
            0 <= i < decoded->Some_0.0.len() ==> !members.contains(
                #[trigger] decoded->Some_0.0[i],
            ))
        &&& members.len() + decoded->Some_0.0.len() <= ROSTER_LIMIT
    }

    /// Whether these key packages can all be staged: each parses, names a
    /// fresh member, no two name the same member, and the grown roster
    /// stays within the limit.
    pub open spec fn spec_packages_addable(
        members: Seq<MemberId>,
        key_packages: Seq<Vec<u8>>,
    ) -> bool {
        &&& (forall|i: int|
            0 <= i < key_packages.len() ==> (#[trigger] spec_key_package_member(
                key_packages[i]@,
            )) is Some)
        &&& (forall|i: int|
            0 <= i < key_packages.len() ==> !members.contains(
                (#[trigger] spec_key_package_member(key_packages[i]@))->Some_0,
            ))
        &&& (forall|i: int, j: int|
            0 <= i < j < key_packages.len() ==> (#[trigger] spec_key_package_member(
                key_packages[i]@,
            ))->Some_0 != (#[trigger] spec_key_package_member(key_packages[j]@))->Some_0)
        &&& members.len() + key_packages.len() <= ROSTER_LIMIT
    }

    /// Whether these members can all be removed: each is in the roster,
    /// none is the local member, none repeats, and the list fits the
    /// roster limit.
    pub open spec fn spec_members_removable(
        members: Seq<MemberId>,
        own: MemberId,
        ids: Seq<MemberId>,
    ) -> bool {
        &&& (forall|i: int| 0 <= i < ids.len() ==> members.contains(#[trigger] ids[i]))
        &&& (forall|i: int| 0 <= i < ids.len() ==> (#[trigger] ids[i]) != own)
        &&& distinct_ids(ids)
        &&& ids.len() <= ROSTER_LIMIT
    }

    /// Creates a group for a room at epoch zero with the creator as the
    /// sole member, and yields the setup frame to send.
    pub fn new(room_id: RoomId, creator: MemberId) -> (r: (MlsGroup, Vec<MlsAction>))
        ensures
            r.0.wf(),
            r.0.spec_room_id() == room_id,
            r.0.spec_epoch() == 0,
            r.0.spec_members() == seq![creator],
            r.0.spec_own_member() == creator,
            r.0.spec_pending() is None,
            r.1@.len() == 1,
            (r.1@[0] matches MlsAction::SendProposal(f) && f.wf() && f.header.opcode
                == Opcode::Proposal.spec_to_u16() && f.header.room_id == room_id
                && f.header.sender_id == creator && f.header.epoch == 0),
    {
        let secret = derive_epoch_secret(room_id, 0);
        let mut members: Vec<MemberId> = Vec::new();
        members.push(creator);
        let group = MlsGroup {
            room_id,
            epoch: 0,
            members,
            own_member_id: creator,
            epoch_secret: secret,
            pending: None,
        };
        let mut roster: Vec<MemberId> = Vec::new();
        roster.push(creator);
        let body = encode_ids(&roster);
        let mut header = FrameHeader::new(Opcode::Proposal);
        header.set_room_id(room_id);
        header.set_sender_id(creator);
        proof {
            lemma_ids_bytes_len(roster@);
        }
        let frame = Frame::new(header, body);
        let mut actions: Vec<MlsAction> = Vec::new();
        actions.push(MlsAction::SendProposal(frame));
        proof {
            assert(group.spec_members() =~= seq![creator]);
        }
        (group, actions)
    }

    /// Produces a key package other members can use to add this member:
    /// the member id followed by fresh public key material, plus a short
    /// hash of that material.
    pub fn generate_key_package<E: Environment>(env: &E, member_id: MemberId) -> (r: (
        Vec<u8>,
        Vec<u8>,
    ))
        ensures
            r.0@.len() == KEY_PACKAGE_SIZE,
            spec_key_package_member(r.0@) == Some(member_id),
    {
        proof {
            lemma_u64_be_bytes();
        }
        let key_material = env.random_bytes(KEY_SIZE);
        let mut bytes = u64_to_be_bytes(member_id);
        let mut km = slice_to_vec(key_material.as_slice());
        bytes.append(&mut km);
        let info = slice_to_vec("key-package-hash".as_bytes());
        let hash = hkdf_expand(&key_material, &info, KEY_SIZE);
        proof {
            assert(bytes@.subrange(0, 8) =~= spec_u64_to_be_bytes(member_id));
        }
        (bytes, hash)
    }

    pub fn epoch(&self) -> (r: u64)
        ensures
            r == self.spec_epoch(),
    {
        self.epoch
    }

    pub fn room_id(&self) -> (r: RoomId)
        ensures
            r == self.spec_room_id(),
    {
        self.room_id
    }

    /// The leaf indices of the current roster: consecutive from zero.
    pub fn member_leaf_indices(&self) -> (r: Vec<u32>)
        requires
            self.wf(),
        ensures
            r@.len() == self.spec_members().len(),
            forall|i: int| 0 <= i < r@.len() ==> r@[i] == i,
    {
        let n = self.members.len();
        let mut out: Vec<u32> = Vec::new();
        let mut i: usize = 0;
        while i < n
            invariant
                n <= ROSTER_LIMIT,
                i <= n,
                out@.len() == i,
                forall|j: int| 0 <= j < i ==> out@[j] == j,
            decreases n - i,
        {
            out.push(i as u32);
            i = i + 1;
        }
        out
    }

    /// The local member's leaf index: its position in the roster, or zero
    /// when the local member has been removed.
    pub fn own_leaf_index(&self) -> (r: u32)
        requires
            self.wf(),
        ensures
            self.spec_members().contains(self.spec_own_member()) ==> r < self.spec_members().len()
                && self.spec_members()[r as int] == self.spec_own_member(),
            !self.spec_members().contains(self.spec_own_member()) ==> r == 0,
    {
        let n = self.members.len();
        let mut i: usize = 0;
        while i < n
            invariant
                self.wf(),
                n == self.members@.len(),
                i <= n,
                forall|j: int| 0 <= j < i ==> self.members@[j] != self.own_member_id,
            decreases n - i,
        {
            if self.members[i] == self.own_member_id {
                return i as u32;
            }
            i = i + 1;
        }
        proof {
            if self.spec_members().contains(self.spec_own_member()) {
                let j = choose|j: int|
                    0 <= j < self.members@.len() && self.members@[j] == self.own_member_id;
            }
        }
        0
    }

    /// Whether a commit created locally awaits sequencing.
    pub fn has_pending_commit(&self) -> (r: bool)
        ensures
            r == (self.spec_pending() is Some),
    {
        self.pending.is_some()
    }

    /// Exports a secret tied to the current epoch under a label and
    /// context, as the sender-key derivation requires.
    pub fn export_secret(&self, label: &str, context: &Vec<u8>, length: usize) -> (r: Vec<u8>)
        requires
            self.wf(),
            length <= MAX_HKDF_OUTPUT,
        ensures
            r@ == hkdf_expand_bytes(
                spec_epoch_secret(self.spec_room_id(), self.spec_epoch()),
                label.spec_bytes() + context@,
                length as nat,
            ),
            r@.len() == length,
    {
        let mut info = slice_to_vec(label.as_bytes());
        let mut ctx = slice_to_vec(context.as_slice());
        info.append(&mut ctx);
        hkdf_expand(&self.epoch_secret, &info, length)
    }

    /// Canonical byte serialisation of the group state, for crash
    /// recovery: the room, the epoch, and the roster.
    pub fn serialized_state(&self) -> (r: Vec<u8>)
        requires
            self.wf(),
        ensures
            r@ == spec_welcome_bytes(self.spec_room_id(), self.spec_epoch(), self.spec_members()),
    {
        proof {
            lemma_auto_spec_u128_to_from_le_bytes();
            lemma_u64_be_bytes();
        }
        let mut body = u128_to_le_bytes(self.room_id);
        let mut e = u64_to_be_bytes(self.epoch);
        body.append(&mut e);
        let roster = slice_to_vec(self.members.as_slice());
        let mut ids = encode_ids(&roster);
        body.append(&mut ids);
        body
    }

    /// The replicated state this group would hand the server.
    pub fn export_group_state(&self) -> (r: MlsGroupState)
        ensures
            r.room_id == self.spec_room_id(),
            r.epoch == self.spec_epoch(),
            r.members@ == self.spec_members(),
    {
        MlsGroupState {
            room_id: self.room_id,
            epoch: self.epoch,
            tree_hash: [0u8; 32],
            members: slice_to_vec(self.members.as_slice()),
            key_material: Vec::new(),
        }
    }

    /// Stages a commit adding the members whose key packages are given,
    /// and yields the commit frame plus one welcome per invitee.
    pub fn add_members_from_bytes(&mut self, key_packages: &Vec<Vec<u8>>) -> (r: Result<
        Vec<MlsAction>,
        MlsError,
    >)
        requires
            old(self).wf(),
        ensures
            final(self).wf(),
            final(self).spec_room_id() == old(self).spec_room_id(),
            final(self).spec_own_member() == old(self).spec_own_member(),
            final(self).spec_epoch() == old(self).spec_epoch(),
            final(self).spec_members() == old(self).spec_members(),
            r is Ok <==> (old(self).spec_pending() is None
                && MlsGroup::spec_packages_addable(old(self).spec_members(), key_packages@)),
            match r {
                Ok(actions) => {
                    &&& old(self).spec_pending() is None
                    &&& final(self).spec_pending() matches Some((adds, removes))
                        && adds.len() == key_packages@.len() && removes.len() == 0
                    &&& (forall|i: int|
                        0 <= i < key_packages@.len() ==> final(self).spec_pending()->Some_0.0[i]
                            == (#[trigger] spec_key_package_member(
                            key_packages@[i]@,
                        ))->Some_0)
                    &&& actions@.len() == 1 + key_packages@.len()
                    &&& (forall|i: int|
                        1 <= i < actions@.len() ==> ((#[trigger] actions@[i])
                            matches MlsAction::SendWelcome { frame, member_id } && frame.wf()
                            && member_id == spec_key_package_member(
                            key_packages@[i - 1]@,
                        )->Some_0))
                    &&& (actions@[0] matches MlsAction::SendCommit(f) && f.wf() && f.header.opcode
                        == Opcode::Commit.spec_to_u16() && f.header.room_id == old(
                        self,
                    ).spec_room_id() && f.header.epoch == old(self).spec_epoch()
                        && f.header.sender_id == old(self).spec_own_member() && f.payload@
                        == spec_commit_bytes(
                        final(self).spec_pending()->Some_0.0,
                        Seq::<MemberId>::empty(),
                    ))
                },
                Err(MlsError::PendingCommitExists) => old(self).spec_pending() is Some && *final(self) == *old(self),
                Err(_) => *final(self) == *old(self),
            },
    {
        if self.pending.is_some() {
            return Err(MlsError::PendingCommitExists);
        }
        let count = key_packages.len();
        if count > ROSTER_LIMIT || self.members.len() > ROSTER_LIMIT - count {
            return Err(MlsError::RosterTooLarge);
        }
        let mut adds: Vec<MemberId> = Vec::new();
        let mut i: usize = 0;
        while i < count
            invariant
                *self == *old(self),
                old(self).wf(),
                old(self).spec_pending() is None,
                self.members@.len() + count <= ROSTER_LIMIT,
                count == key_packages@.len(),
                i <= count,
                adds@.len() == i,
                forall|j: int|
                    0 <= j < i ==> Some(#[trigger] adds@[j]) == spec_key_package_member(
                        key_packages@[j]@,
                    ),
                forall|j: int| 0 <= j < i ==> !self.members@.contains(#[trigger] adds@[j]),
                distinct_ids(adds@),
            decreases count - i,
        {
            let kp = &key_packages[i];
            if kp.len() != KEY_PACKAGE_SIZE {
                proof {
                    assert(spec_key_package_member(key_packages@[i as int]@) is None);
                    assert(!MlsGroup::spec_packages_addable(
                        old(self).spec_members(),
                        key_packages@,
                    ));
                }
                return Err(MlsError::InvalidKeyPackage);
            }
            let member_id = u64_from_be_bytes(slice_subrange(kp.as_slice(), 0, 8));
            proof {
                assert(kp@.subrange(0, 8) == key_packages@[i as int]@.subrange(0, 8));
                assert(spec_key_package_member(key_packages@[i as int]@) == Some(member_id));
            }
            if contains_id(&self.members, member_id) {
                proof {
                    assert(!MlsGroup::spec_packages_addable(
                        old(self).spec_members(),
                        key_packages@,
                    ));
                }
                return Err(MlsError::AlreadyMember { member_id });
            }
            if contains_id(&adds, member_id) {
                proof {
                    let j = choose|j: int| 0 <= j < adds@.len() && adds@[j] == member_id;
                    assert(spec_key_package_member(key_packages@[j]@) == Some(member_id));
                    assert(!MlsGroup::spec_packages_addable(
                        old(self).spec_members(),
                        key_packages@,
                    ));
                }
                return Err(MlsError::AlreadyMember { member_id });
            }
            adds.push(member_id);
            i = i + 1;
        }
        proof {
            assert forall|j: int|
                0 <= j < key_packages@.len() implies (#[trigger] spec_key_package_member(
                key_packages@[j]@,
            )) is Some by {
                assert(Some(adds@[j]) == spec_key_package_member(key_packages@[j]@));
            }
            assert forall|j: int|
                0 <= j < key_packages@.len() implies !old(self).spec_members().contains(
                (#[trigger] spec_key_package_member(key_packages@[j]@))->Some_0,
            ) by {
                assert(Some(adds@[j]) == spec_key_package_member(key_packages@[j]@));
                assert(!self.members@.contains(adds@[j]));
            }
            assert forall|j: int, k: int|
                0 <= j < k < key_packages@.len() implies (#[trigger] spec_key_package_member(
                key_packages@[j]@,
            ))->Some_0 != (#[trigger] spec_key_package_member(key_packages@[k]@))->Some_0 by {
                assert(Some(adds@[j]) == spec_key_package_member(key_packages@[j]@));
                assert(Some(adds@[k]) == spec_key_package_member(key_packages@[k]@));
                assert(adds@[j] != adds@[k]);
            }
            assert(MlsGroup::spec_packages_addable(old(self).spec_members(), key_packages@));
        }
        let removes: Vec<MemberId> = Vec::new();
        let body = encode_commit(&adds, &removes);
        proof {
            lemma_ids_bytes_len(adds@);
            lemma_ids_bytes_len(removes@);
            lemma_u32_be_bytes();
        }
        let mut header = FrameHeader::new(Opcode::Commit);
        header.set_room_id(self.room_id);
        header.set_sender_id(self.own_member_id);
        header.set_epoch(self.epoch);
        let commit_frame = Frame::new(header, body);
        let mut actions: Vec<MlsAction> = Vec::new();
        actions.push(MlsAction::SendCommit(commit_frame));
        let ghost commit_action = actions@[0];
        let mut j: usize = 0;
        while j < count
            invariant
                *self == *old(self),
                old(self).wf(),
                old(self).spec_pending() is None,
                count == adds@.len(),
                count == key_packages@.len(),
                j <= count,
                actions@.len() == 1 + j,
                actions@[0] == commit_action,
                forall|k: int|
                    1 <= k < actions@.len() ==> ((#[trigger] actions@[k])
                        matches MlsAction::SendWelcome { frame, member_id } && frame.wf()
                        && member_id == adds@[k - 1]),
                forall|k: int|
                    0 <= k < count ==> Some(#[trigger] adds@[k]) == spec_key_package_member(
                        key_packages@[k]@,
                    ),
                self.members@.len() + count <= ROSTER_LIMIT,
                forall|k: int| 0 <= k < count ==> !self.members@.contains(#[trigger] adds@[k]),
                distinct_ids(adds@),
                count <= u32::MAX,
            decreases count - j,
        {
            let welcome = self.build_welcome(&adds, adds[j]);
            actions.push(welcome);
            j = j + 1;
        }
        self.pending = Some((adds, removes));
        Ok(actions)
    }

    /// Builds the welcome action for one invitee: the roster after the
    /// pending commit and the epoch it will create.
    fn build_welcome(&self, adds: &Vec<MemberId>, member_id: MemberId) -> (r: MlsAction)
        requires
            self.members@.len() + adds@.len() <= ROSTER_LIMIT,
        ensures
            r matches MlsAction::SendWelcome { frame, member_id: m } && frame.wf() && m
                == member_id && frame.header.opcode == Opcode::Welcome.spec_to_u16()
                && frame.header.room_id == self.spec_room_id(),
    {
        proof {
            lemma_auto_spec_u128_to_from_le_bytes();
            lemma_u64_be_bytes();
        }
        let mut roster = slice_to_vec(self.members.as_slice());
        let mut added = slice_to_vec(adds.as_slice());
        roster.append(&mut added);
        let mut body = u128_to_le_bytes(self.room_id);
        let next_epoch = if self.epoch == u64::MAX {
            u64::MAX
        } else {
            self.epoch + 1
        };
        let mut e = u64_to_be_bytes(next_epoch);
        body.append(&mut e);
        let mut ids = encode_ids(&roster);
        proof {
            lemma_ids_bytes_len(roster@);
        }
        body.append(&mut ids);
        let mut header = FrameHeader::new(Opcode::Welcome);
        header.set_room_id(self.room_id);
        header.set_sender_id(self.own_member_id);
        header.set_epoch(self.epoch);
        let frame = Frame::new(header, body);
        MlsAction::SendWelcome { frame, member_id }
    }

    /// Stages a commit removing members. The local member cannot remove
    /// itself; it leaves through a proposal instead.
    pub fn remove_members(&mut self, member_ids: &Vec<MemberId>) -> (r: Result<
        Vec<MlsAction>,
        MlsError,
    >)
        requires
            old(self).wf(),
        ensures
            final(self).wf(),
            final(self).spec_room_id() == old(self).spec_room_id(),
            final(self).spec_own_member() == old(self).spec_own_member(),
            final(self).spec_epoch() == old(self).spec_epoch(),
            final(self).spec_members() == old(self).spec_members(),
            r is Ok <==> (old(self).spec_pending() is None
                && MlsGroup::spec_members_removable(
                old(self).spec_members(),
                old(self).spec_own_member(),
                member_ids@,
            )),
            match r {
                Ok(actions) => {
                    &&& old(self).spec_pending() is None
                    &&& final(self).spec_pending() matches Some((adds, removes))
                        && adds.len() == 0 && removes == member_ids@
                    &&& actions@.len() == 1
                    &&& (actions@[0] matches MlsAction::SendCommit(f) && f.wf()
                        && f.header.opcode == Opcode::Commit.spec_to_u16() && f.header.room_id
                        == old(self).spec_room_id() && f.header.sender_id == old(
                        self,
                    ).spec_own_member() && f.header.epoch == old(self).spec_epoch() && f.payload@
                        == spec_commit_bytes(Seq::<MemberId>::empty(), member_ids@))
                },
                Err(MlsError::PendingCommitExists) => old(self).spec_pending() is Some && *final(self) == *old(self),
                Err(_) => *final(self) == *old(self),
            },
    {
        if self.pending.is_some() {
            return Err(MlsError::PendingCommitExists);
        }
        let count = member_ids.len();
        if count > ROSTER_LIMIT {
            return Err(MlsError::RosterTooLarge);
        }
        let mut i: usize = 0;
        while i < count
            invariant
                *self == *old(self),
                old(self).wf(),
                old(self).spec_pending() is None,
                count <= ROSTER_LIMIT,
                count == member_ids@.len(),
                i <= count,
                forall|j: int| 0 <= j < i ==> self.members@.contains(#[trigger] member_ids@[j]),
                forall|j: int| 0 <= j < i ==> member_ids@[j] != self.own_member_id,
                forall|j: int, k: int| 0 <= j < k < i ==> member_ids@[j] != member_ids@[k],
            decreases count - i,
        {
            let m = member_ids[i];
            if m == self.own_member_id {
                proof {
                    assert(!MlsGroup::spec_members_removable(
                        old(self).spec_members(),
                        old(self).spec_own_member(),
                        member_ids@,
                    ));
                }
                return Err(MlsError::RemoveSelf);
            }
            if !contains_id(&self.members, m) {
                proof {
                    assert(!MlsGroup::spec_members_removable(
                        old(self).spec_members(),
                        old(self).spec_own_member(),
                        member_ids@,
                    ));
                }
                return Err(MlsError::MemberNotFound { member_id: m });
            }
            let mut k: usize = 0;
            while k < i
                invariant
                    *self == *old(self),
                    old(self).wf(),
                    old(self).spec_pending() is None,
                    i < count,
                    count == member_ids@.len(),
                    k <= i,
                    m == member_ids@[i as int],
                    forall|j: int| 0 <= j < k ==> member_ids@[j] != m,
                decreases i - k,
            {
                if member_ids[k] == m {
                    proof {
                        assert(member_ids@[k as int] == member_ids@[i as int]);
                        assert(!distinct_ids(member_ids@));
                        assert(!MlsGroup::spec_members_removable(
                            old(self).spec_members(),
                            old(self).spec_own_member(),
                            member_ids@,
                        ));
                    }
                    return Err(MlsError::MalformedMessage);
                }
                k = k + 1;
            }
            i = i + 1;
        }
        proof {
            assert(MlsGroup::spec_members_removable(
                old(self).spec_members(),
                old(self).spec_own_member(),
                member_ids@,
            ));
        }
        let adds: Vec<MemberId> = Vec::new();
        let removes = slice_to_vec(member_ids.as_slice());
        let body = encode_commit(&adds, &removes);
        proof {
            lemma_ids_bytes_len(adds@);
            lemma_ids_bytes_len(removes@);
            lemma_u32_be_bytes();
        }
        let mut header = FrameHeader::new(Opcode::Commit);
        header.set_room_id(self.room_id);
        header.set_sender_id(self.own_member_id);
        header.set_epoch(self.epoch);
        let commit_frame = Frame::new(header, body);
        let mut actions: Vec<MlsAction> = Vec::new();
        actions.push(MlsAction::SendCommit(commit_frame));
        self.pending = Some((adds, removes));
        Ok(actions)
    }

    /// Emits a self-remove proposal; the group state is untouched, since
    /// another member must commit the removal.
    pub fn leave_group(&self) -> (r: Result<Vec<MlsAction>, MlsError>)
        requires
            self.wf(),
        ensures
            r matches Ok(actions) && actions@.len() == 1 && (
            actions@[0] matches MlsAction::SendProposal(f) && f.wf() && f.header.opcode
                == Opcode::Proposal.spec_to_u16() && f.header.room_id == self.spec_room_id()
                && f.header.sender_id == self.spec_own_member() && f.header.epoch
                == self.spec_epoch() && f.payload@ == spec_commit_bytes(
                Seq::<MemberId>::empty(),
                seq![self.spec_own_member()],
            )),
    {
        let adds: Vec<MemberId> = Vec::new();
        let mut removes: Vec<MemberId> = Vec::new();
        removes.push(self.own_member_id);
        let body = encode_commit(&adds, &removes);
        proof {
            lemma_ids_bytes_len(adds@);
            lemma_ids_bytes_len(removes@);
            lemma_u32_be_bytes();
        }
        let mut header = FrameHeader::new(Opcode::Proposal);
        header.set_room_id(self.room_id);
        header.set_sender_id(self.own_member_id);
        header.set_epoch(self.epoch);
        let frame = Frame::new(header, body);
        let mut actions: Vec<MlsAction> = Vec::new();
        actions.push(MlsAction::SendProposal(frame));
        Ok(actions)
    }

    /// Applies a commit delta: removals first, then additions; the epoch
    /// advances by one and the epoch secret is re-derived.
    fn apply_delta(&mut self, adds: &Vec<MemberId>, removes: &Vec<MemberId>)
        requires
            old(self).wf(),
            old(self).spec_epoch() < u64::MAX,
            distinct_ids(adds@),
            forall|i: int| 0 <= i < adds@.len() ==> !old(self).spec_members().contains(#[trigger] adds@[i]),
            old(self).spec_members().len() + adds@.len() <= ROSTER_LIMIT,
        ensures
            final(self).wf(),
            final(self).spec_room_id() == old(self).spec_room_id(),
            final(self).spec_own_member() == old(self).spec_own_member(),
            final(self).spec_epoch() == old(self).spec_epoch() + 1,
            final(self).spec_members() == MlsGroup::spec_roster_after(
                old(self).spec_members(),
                adds@,
                removes@,
            ),
            final(self).spec_pending() is None,
    {
        let mut roster = keep_members(&self.members, removes);
        let mut added = slice_to_vec(adds.as_slice());
        proof {
            lemma_keep_distinct(self.members@, removes@);
            assert forall|x: MemberId| #[trigger]
                spec_keep(self.members@, removes@).contains(x) implies self.members@.contains(
                x,
            ) by {
                lemma_keep_membership(self.members@, removes@, x);
            }
            assert(spec_keep(self.members@, removes@).len() <= self.members@.len()) by {
                lemma_keep_len(self.members@, removes@);
            }
        }
        roster.append(&mut added);
        let next_epoch = self.epoch + 1;
        let secret = derive_epoch_secret(self.room_id, next_epoch);
        proof {
            let kept = spec_keep(old(self).members@, removes@);
            assert forall|i: int, j: int|
                0 <= i < j < roster@.len() implies roster@[i] != roster@[j] by {
                if i < kept.len() && j >= kept.len() {
                    assert(kept.contains(kept[i]));
                    lemma_keep_membership(old(self).members@, removes@, kept[i]);
                    assert(roster@[j] == adds@[j - kept.len()]);
                }
                if i >= kept.len() {
                    assert(roster@[i] == adds@[i - kept.len()]);
                    assert(roster@[j] == adds@[j - kept.len()]);
                }
            }
        }
        self.members = roster;
        self.epoch = next_epoch;
        self.epoch_secret = secret;
        self.pending = None;
    }

    /// Consumes a group frame. A commit advances the epoch by exactly
    /// one and rewrites the roster; a proposal changes nothing yet; a
    /// welcome cannot be processed without pre-shared key package state.
    pub fn process_message(&mut self, frame: Frame) -> (r: Result<Vec<MlsAction>, MlsError>)
        requires
            old(self).wf(),
        ensures
            final(self).wf(),
            final(self).spec_room_id() == old(self).spec_room_id(),
            final(self).spec_own_member() == old(self).spec_own_member(),
            match r {
                Ok(actions) => {
                    if Opcode::spec_from_u16(frame.header.opcode) == Some(Opcode::Commit) {
                        &&& spec_decode_commit(frame.payload@) matches Some((adds, removes))
                        &&& final(self).spec_epoch() == old(self).spec_epoch() + 1
                        &&& final(self).spec_members() == MlsGroup::spec_roster_after(
                            old(self).spec_members(),
                            spec_decode_commit(frame.payload@)->Some_0.0,
                            spec_decode_commit(frame.payload@)->Some_0.1,
                        )
                    } else {
                        Opcode::spec_from_u16(frame.header.opcode) == Some(Opcode::Proposal)
                            && *final(self) == *old(self)
                    }
                },
                Err(_) => *final(self) == *old(self),
            },
            Opcode::spec_from_u16(frame.header.opcode) == Some(Opcode::Commit) ==> (r is Ok
                <==> MlsGroup::spec_commit_applies(
                old(self).spec_epoch(),
                old(self).spec_members(),
                frame.payload@,
            )),
            Opcode::spec_from_u16(frame.header.opcode) == Some(Opcode::Proposal) ==> r is Ok,
            (Opcode::spec_from_u16(frame.header.opcode) != Some(Opcode::Commit)
                && Opcode::spec_from_u16(frame.header.opcode) != Some(Opcode::Proposal)) ==> r
                is Err,
    {
        let opcode = frame.header.opcode_enum();
        match opcode {
            Some(Opcode::Commit) => {
                if self.epoch == u64::MAX {
                    return Err(MlsError::EpochOverflow);
                }
                let decoded = decode_commit(frame.payload.as_slice());
                let (adds, removes) = match decoded {
                    Some(pair) => pair,
                    None => {
                        return Err(MlsError::MalformedMessage);
                    },
                };
                // the delta must apply cleanly to the roster
                let na = adds.len();
                if na > ROSTER_LIMIT || self.members.len() > ROSTER_LIMIT - na {
                    return Err(MlsError::RosterTooLarge);
                }
                let mut i: usize = 0;
                while i < na
                    invariant
                        *self == *old(self),
                        old(self).wf(),
                        Opcode::spec_from_u16(frame.header.opcode) == Some(Opcode::Commit),
                        spec_decode_commit(frame.payload@) == Some((adds@, removes@)),
                        old(self).spec_epoch() < u64::MAX,
                        self.members@.len() + na <= ROSTER_LIMIT,
                        na == adds@.len(),
                        i <= na,
                        forall|j: int|
                            0 <= j < i ==> !self.members@.contains(#[trigger] adds@[j]),
                        forall|j: int, k: int| 0 <= j < k < i ==> adds@[j] != adds@[k],
                    decreases na - i,
                {
                    let m = adds[i];
                    if contains_id(&self.members, m) {
                        proof {
                            assert(spec_decode_commit(frame.payload@)->Some_0.0[i as int] == m);
                            assert(!MlsGroup::spec_commit_applies(
                                old(self).spec_epoch(),
                                old(self).spec_members(),
                                frame.payload@,
                            ));
                        }
                        return Err(MlsError::AlreadyMember { member_id: m });
                    }
                    let mut k: usize = 0;
                    while k < i
                        invariant
                            *self == *old(self),
                            old(self).wf(),
                            Opcode::spec_from_u16(frame.header.opcode) == Some(Opcode::Commit),
                            spec_decode_commit(frame.payload@) == Some((adds@, removes@)),
                            old(self).spec_epoch() < u64::MAX,
                            i < na,
                            na == adds@.len(),
                            k <= i,
                            m == adds@[i as int],
                            forall|j: int| 0 <= j < k ==> adds@[j] != m,
                        decreases i - k,
                    {
                        if adds[k] == m {
                            proof {
                                assert(spec_decode_commit(frame.payload@)->Some_0.0[k as int]
                                    == spec_decode_commit(frame.payload@)->Some_0.0[i as int]);
                                assert(!distinct_ids(spec_decode_commit(
                                    frame.payload@,
                                )->Some_0.0));
                                assert(!MlsGroup::spec_commit_applies(
                                    old(self).spec_epoch(),
                                    old(self).spec_members(),
                                    frame.payload@,
                                ));
                            }
                            return Err(MlsError::MalformedMessage);
                        }
                        k = k + 1;
                    }
                    i = i + 1;
                }
                proof {
                    assert(MlsGroup::spec_commit_applies(
                        old(self).spec_epoch(),
                        old(self).spec_members(),
                        frame.payload@,
                    ));
                }
                let was_member = contains_id(&self.members, self.own_member_id);
                self.apply_delta(&adds, &removes);
                let mut actions: Vec<MlsAction> = Vec::new();
                if was_member && !contains_id(&self.members, self.own_member_id) {
                    actions.push(
                        MlsAction::RemoveGroup {
                            room_id: self.room_id,
                            reason: String::from_str("removed by commit"),
                        },
                    );
                }
                Ok(actions)
            },
            Some(Opcode::Proposal) => Ok(Vec::new()),
            Some(Opcode::Welcome) => Err(MlsError::ValidationFailed),
            _ => Err(MlsError::MalformedMessage),
        }
    }

    /// Merges the commit this member staged once the sequencer accepted
    /// it: the epoch advances by exactly one.
    pub fn merge_pending_commit(&mut self) -> (r: Result<Vec<MlsAction>, MlsError>)
        requires
            old(self).wf(),
        ensures
            final(self).wf(),
            final(self).spec_room_id() == old(self).spec_room_id(),
            final(self).spec_own_member() == old(self).spec_own_member(),
            match r {
                Ok(actions) => {
                    &&& old(self).spec_pending() matches Some((adds, removes))
                    &&& final(self).spec_epoch() == old(self).spec_epoch() + 1
                    &&& final(self).spec_members() == MlsGroup::spec_roster_after(
                        old(self).spec_members(),
                        old(self).spec_pending()->Some_0.0,
                        old(self).spec_pending()->Some_0.1,
                    )
                    &&& final(self).spec_pending() is None
                    &&& actions@.len() == 0
                },
                Err(MlsError::NoPendingCommit) => old(self).spec_pending() is None && *final(self)
                    == *old(self),
                Err(MlsError::EpochOverflow) => old(self).spec_epoch() == u64::MAX && *final(self)
                    == *old(self),
                Err(_) => false,
            },
    {
        if self.pending.is_none() {
            return Err(MlsError::NoPendingCommit);
        }
        if self.epoch == u64::MAX {
            return Err(MlsError::EpochOverflow);
        }
        let taken = self.pending.take();
        let (adds, removes) = match taken {
            Some(pair) => pair,
            None => {
                return Err(MlsError::NoPendingCommit);
            },
        };
        self.apply_delta(&adds, &removes);
        Ok(Vec::new())
    }
}

/// Removal never lengthens a roster.
proof fn lemma_keep_len(members: Seq<MemberId>, removes: Seq<MemberId>)
    ensures
        spec_keep(members, removes).len() <= members.len(),
    decreases members.len(),
{
    if members.len() > 0 {
        lemma_keep_len(members.skip(1), removes);
    }
}

} // verus!