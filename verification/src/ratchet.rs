//! Per-sender symmetric ratchet.
//!
//! Each member of a room holds, per epoch, one send chain and one mirror
//! receive chain per sender. A chain starts from a seed derived from the
//! epoch secret and the sender's leaf index; every step derives a message
//! key and the next chain key, and discards the old chain key. The receive
//! side may fast-forward over skipped generations, caching their message
//! keys up to a fixed window; a used or pruned key is gone for good, which
//! is what gives the scheme forward secrecy.

use vstd::prelude::*;
use vstd::slice::slice_to_vec;
use vstd::string::StringSliceAdditionalSpecFns;
use crate::crypto::{hkdf_expand_bytes, hkdf_expand, xchacha_seal, aead_seal};
use crate::wire::{
    spec_u64_to_be_bytes,
    spec_u32_to_be_bytes,
    u64_to_be_bytes,
    u32_to_be_bytes,
    lemma_u64_be_bytes,
    lemma_u64_be_bytes_injective,
};

verus! {

/// Bytes of caller-supplied randomness in each nonce.
pub const NONCE_RANDOM_SIZE: usize = 16;

/// Full nonce size: an 8-byte generation counter plus the random part.
pub const NONCE_SIZE: usize = 24;

/// Size of chain keys and message keys.
pub const KEY_SIZE: usize = 32;

/// How many generations a receiver will fast-forward over, and how long a
/// skipped message key is kept.
pub const SKIP_WINDOW: u32 = 1024;

/// Info string for deriving a message key from a chain key.
pub open spec fn msg_key_info() -> Seq<u8> {
    "msg-key".spec_bytes()
}

/// Info string for stepping a chain key.
pub open spec fn chain_info() -> Seq<u8> {
    "chain".spec_bytes()
}

/// Info prefix for deriving a sender's initial chain key from the epoch
/// secret.
pub open spec fn sender_key_info() -> Seq<u8> {
    "sender-key".spec_bytes()
}

/// Initial chain key for the sender at a leaf index, from the epoch secret.
pub open spec fn spec_sender_seed(secret: Seq<u8>, leaf_index: u32) -> Seq<u8> {
    hkdf_expand_bytes(secret, sender_key_info() + spec_u32_to_be_bytes(leaf_index), KEY_SIZE as nat)
}

/// The chain key after `generation` steps from a seed.
pub open spec fn spec_chain_at(seed: Seq<u8>, generation: nat) -> Seq<u8>
    decreases generation,
{
    if generation == 0 {
        seed
    } else {
        hkdf_expand_bytes(spec_chain_at(seed, (generation - 1) as nat), chain_info(), KEY_SIZE as nat)
    }
}

/// The message key of a generation.
pub open spec fn spec_message_key_at(seed: Seq<u8>, generation: nat) -> Seq<u8> {
    hkdf_expand_bytes(spec_chain_at(seed, generation), msg_key_info(), KEY_SIZE as nat)
}

/// The nonce of a generation: the counter big-endian, then the random part.
pub open spec fn spec_nonce(generation: u32, random: Seq<u8>) -> Seq<u8> {
    spec_u64_to_be_bytes(generation as u64) + random
}

/// Associated data authenticated with each ciphertext: it binds the
/// ciphertext to the epoch, the sender's leaf index and the generation.
/// The raw header bytes cannot serve here, because the sequencer assigns
/// the log index and the timestamp only after encryption; these three
/// fields are the header content that survives sequencing unchanged.
pub open spec fn spec_aad(epoch: u64, sender_index: u32, generation: u32) -> Seq<u8> {
    spec_u64_to_be_bytes(epoch) + spec_u32_to_be_bytes(sender_index) + spec_u32_to_be_bytes(
        generation,
    )
}

/// The ciphertext the ratchet produces for given chain seed, frame
/// coordinates, randomness and plaintext.
pub open spec fn spec_sealed(
    seed: Seq<u8>,
    epoch: u64,
    sender_index: u32,
    generation: u32,
    random: Seq<u8>,
    plaintext: Seq<u8>,
) -> Seq<u8> {
    xchacha_seal(
        spec_message_key_at(seed, generation as nat),
        spec_nonce(generation, random),
        spec_aad(epoch, sender_index, generation),
        plaintext,
    )
}

/// Distinct generations give distinct nonces, whatever the random parts
/// are: the first eight nonce bytes are the generation counter. Together
/// with a send chain's strictly increasing generation this means a
/// (message key, nonce) pair is never reused for two plaintexts.
pub proof fn lemma_nonce_unique_per_generation(g1: u32, g2: u32, r1: Seq<u8>, r2: Seq<u8>)
    requires
        g1 != g2,
    ensures
        spec_nonce(g1, r1) != spec_nonce(g2, r2),
{
    lemma_u64_be_bytes();
    lemma_u64_be_bytes_injective(g1 as u64, g2 as u64);
    let n1 = spec_nonce(g1, r1);
    let n2 = spec_nonce(g2, r2);
    if n1 == n2 {
        assert(n1.subrange(0, 8) =~= spec_u64_to_be_bytes(g1 as u64));
        assert(n2.subrange(0, 8) =~= spec_u64_to_be_bytes(g2 as u64));
    }
}

/// Errors of the ratchet. AEAD failures and unknown senders are fatal; the
/// generation errors are recoverable by syncing.
#[derive(Clone, Copy, Debug, PartialEq, Eq, Structural)]
pub enum SenderKeyError {
    /// The message key of this generation was already used or fell out of
    /// the skip window.
    TooOldGeneration,
    /// The generation is further ahead than the skip window allows.
    GenerationGap,
    /// Authenticated decryption failed, or encryption was refused.
    AeadFailed,
    /// No chain exists for this sender index.
    UnknownSender,
    /// The message's epoch is not the epoch this store holds keys for.
    NoKeyForEpoch,
}

impl SenderKeyError {
    /// Whether the error is unrecoverable; generation errors can be
    /// resolved by requesting sync.
    pub fn is_fatal(&self) -> (r: bool)
        ensures
            r == (*self == SenderKeyError::AeadFailed || *self == SenderKeyError::UnknownSender),
    {
        match self {
            SenderKeyError::AeadFailed | SenderKeyError::UnknownSender => true,
            _ => false,
        }
    }
}

/// An encrypted application message, ready to be serialised into an
/// AppMessage payload.
#[derive(Clone, Debug)]
pub struct EncryptedMessage {
    pub epoch: u64,
    pub sender_index: u32,
    pub generation: u32,
    pub nonce: Vec<u8>,
    pub ciphertext: Vec<u8>,
}

/// A send chain: the current chain key and the generation it belongs to.
pub struct SymmetricRatchet {
    chain_key: Vec<u8>,
    generation: u32,
    seed: Ghost<Seq<u8>>,
}

impl SymmetricRatchet {
    /// The chain key matches the seed and generation, and has key size.
    pub closed spec fn wf(self) -> bool {
        &&& self.chain_key@ == spec_chain_at(self.seed@, self.generation as nat)
        &&& self.chain_key@.len() == KEY_SIZE
    }

    pub closed spec fn spec_generation(self) -> u32 {
        self.generation
    }

    pub closed spec fn spec_seed(self) -> Seq<u8> {
        self.seed@
    }

    /// Starts a chain at generation zero from a 32-byte seed.
    pub fn new(seed: Vec<u8>) -> (r: SymmetricRatchet)
        requires
            seed@.len() == KEY_SIZE,
        ensures
            r.wf(),
            r.spec_generation() == 0,
            r.spec_seed() == seed@,
    {
        let ghost s = seed@;
        SymmetricRatchet { chain_key: seed, generation: 0, seed: Ghost(s) }
    }

    pub fn generation(&self) -> (r: u32)
        ensures
            r == self.spec_generation(),
    {
        self.generation
    }

    /// Encrypts one message and advances the chain by one generation. The
    /// old chain key is dropped as soon as the next one is derived. Fails
    /// only if the cipher refuses; the chain is unchanged then.
    pub fn encrypt(
        &mut self,
        epoch: u64,
        sender_index: u32,
        plaintext: &Vec<u8>,
        random: &Vec<u8>,
    ) -> (r: Result<EncryptedMessage, SenderKeyError>)
        requires
            old(self).wf(),
            old(self).spec_generation() < 0xffff_ffffu32,
            random@.len() == NONCE_RANDOM_SIZE,
        ensures
            final(self).wf(),
            final(self).spec_seed() == old(self).spec_seed(),
            match r {
                Ok(em) => {
                    &&& final(self).spec_generation() == old(self).spec_generation() + 1
                    &&& em.epoch == epoch
                    &&& em.sender_index == sender_index
                    &&& em.generation == old(self).spec_generation()
                    &&& em.nonce@ == spec_nonce(em.generation, random@)
                    &&& em.ciphertext@.len() == plaintext@.len() + 16
                    &&& em.ciphertext@ == spec_sealed(
                        old(self).spec_seed(),
                        epoch,
                        sender_index,
                        em.generation,
                        random@,
                        plaintext@,
                    )
                },
                Err(e) => e == SenderKeyError::AeadFailed && *final(self) == *old(self)
                    && plaintext@.len() > u32::MAX,
            },
            plaintext@.len() <= u32::MAX ==> r is Ok,
    {
        let generation = self.generation;
        let message_key = derive_message_key(&self.chain_key);
        let nonce = build_nonce(generation, random);
        let aad = build_aad(epoch, self.generation, sender_index);
        match aead_seal(&message_key, &nonce, &aad, plaintext) {
            Some(ciphertext) => {
                let next = derive_next_chain_key(&self.chain_key);
                self.chain_key = next;
                self.generation = generation + 1;
                Ok(
                    EncryptedMessage {
                        epoch,
                        sender_index,
                        generation,
                        nonce,
                        ciphertext,
                    },
                )
            },
            None => Err(SenderKeyError::AeadFailed),
        }
    }
}

/// Whether an association list of cached keys holds an entry for a
/// generation.
pub open spec fn cached_in(s: Seq<(u32, Vec<u8>)>, generation: u32) -> bool {
    exists|k: int| 0 <= k < s.len() && (#[trigger] s[k]).0 == generation
}

/// Pushing an entry caches exactly its generation in addition.
proof fn lemma_cached_in_push(s: Seq<(u32, Vec<u8>)>, e: (u32, Vec<u8>), g: u32)
    ensures
        cached_in(s.push(e), g) <==> (cached_in(s, g) || e.0 == g),
{
    if cached_in(s, g) {
        let k = choose|k: int| 0 <= k < s.len() && (#[trigger] s[k]).0 == g;
        assert(s.push(e)[k].0 == g);
    }
    if e.0 == g {
        assert(s.push(e)[s.len() as int].0 == g);
    }
    if cached_in(s.push(e), g) && e.0 != g {
        let k = choose|k: int| 0 <= k < s.push(e).len() && (#[trigger] s.push(e)[k]).0 == g;
        assert(0 <= k < s.len());
        assert(s[k].0 == g);
    }
}

/// Removing the only entry of a generation uncaches it and nothing else.
proof fn lemma_cached_in_remove(s: Seq<(u32, Vec<u8>)>, i: int, g: u32)
    requires
        0 <= i < s.len(),
    ensures
        cached_in(s, g) <== cached_in(s.remove(i), g),
        cached_in(s, g) && s[i].0 != g ==> cached_in(s.remove(i), g),
{
    if cached_in(s.remove(i), g) {
        let k = choose|k: int| 0 <= k < s.remove(i).len() && (#[trigger] s.remove(i)[k]).0 == g;
        if k < i {
            assert(s[k].0 == g);
        } else {
            assert(s[k + 1].0 == g);
        }
    }
    if cached_in(s, g) && s[i].0 != g {
        let k = choose|k: int| 0 <= k < s.len() && (#[trigger] s[k]).0 == g;
        if k < i {
            assert(s.remove(i)[k].0 == g);
        } else {
            assert(k > i);
            assert(s.remove(i)[k - 1].0 == g);
        }
    }
}

/// A receive chain mirroring one sender: the chain key at the next unseen
/// generation, plus message keys cached for generations that were skipped.
pub struct ReceiverChain {
    chain_key: Vec<u8>,
    next_generation: u32,
    skipped: Vec<(u32, Vec<u8>)>,
    seed: Ghost<Seq<u8>>,
}

impl ReceiverChain {
    /// The cached entries hold the message keys of their generations, all
    /// below the next one and pairwise distinct.
    spec fn entries_sound(self) -> bool {
        &&& forall|k: int|
            0 <= k < self.skipped@.len() ==> {
                &&& (#[trigger] self.skipped@[k]).0 < self.next_generation
                &&& self.skipped@[k].1@ == spec_message_key_at(
                    self.seed@,
                    self.skipped@[k].0 as nat,
                )
                &&& self.skipped@[k].1@.len() == KEY_SIZE
            }
        &&& forall|k: int, k2: int|
            0 <= k < k2 < self.skipped@.len() ==> (#[trigger] self.skipped@[k]).0 != (
            #[trigger] self.skipped@[k2]).0
    }

    /// The chain key matches the seed at `next_generation`; every cached
    /// key is sound and lies inside the skip window.
    pub closed spec fn wf(self) -> bool {
        &&& self.chain_key@ == spec_chain_at(self.seed@, self.next_generation as nat)
        &&& self.chain_key@.len() == KEY_SIZE
        &&& self.entries_sound()
        &&& forall|k: int|
            0 <= k < self.skipped@.len() ==> (#[trigger] self.skipped@[k]).0 + SKIP_WINDOW
                >= self.next_generation
    }

    pub closed spec fn spec_next_generation(self) -> u32 {
        self.next_generation
    }

    pub closed spec fn spec_seed(self) -> Seq<u8> {
        self.seed@
    }

    /// Whether a message key for this generation is still cached.
    pub closed spec fn has_cached(self, generation: u32) -> bool {
        cached_in(self.skipped@, generation)
    }

    /// No key outside the skip window is ever retained: everything the
    /// chain holds after any sequence of operations can only produce
    /// message keys of generations at least `next_generation`, or cached
    /// generations, and no cached generation lies more than a window back.
    pub proof fn lemma_forward_secrecy(self, generation: u32)
        requires
            self.wf(),
            generation + SKIP_WINDOW < self.spec_next_generation(),
        ensures
            !self.has_cached(generation),
    {
    }

    /// Starts a receive chain at generation zero from a 32-byte seed.
    pub fn new(seed: Vec<u8>) -> (r: ReceiverChain)
        requires
            seed@.len() == KEY_SIZE,
        ensures
            r.wf(),
            r.spec_next_generation() == 0,
            r.spec_seed() == seed@,
            forall|g: u32| !r.has_cached(g),
    {
        let ghost s = seed@;
        ReceiverChain { chain_key: seed, next_generation: 0, skipped: Vec::new(), seed: Ghost(s) }
    }

    pub fn next_generation(&self) -> (r: u32)
        ensures
            r == self.spec_next_generation(),
    {
        self.next_generation
    }

    /// Takes the message key of a generation out of the chain. Skipped
    /// generations up to the window are fast-forwarded over and their keys
    /// cached; a cached key is removed when taken. The attempt consumes the
    /// key whether or not the caller's decryption then succeeds.
    pub fn take_message_key(&mut self, generation: u32) -> (r: Result<Vec<u8>, SenderKeyError>)
        requires
            old(self).wf(),
        ensures
            final(self).wf(),
            final(self).spec_seed() == old(self).spec_seed(),
            // a used or pruned generation can never be taken again
            (generation < old(self).spec_next_generation() && !old(self).has_cached(generation))
                ==> r is Err,
            match r {
                Ok(k) => {
                    &&& k@ == spec_message_key_at(old(self).spec_seed(), generation as nat)
                    &&& k@.len() == KEY_SIZE
                    &&& final(self).spec_next_generation() == if generation >= old(
                        self,
                    ).spec_next_generation() {
                        generation + 1
                    } else {
                        old(self).spec_next_generation() as int
                    }
                    &&& !final(self).has_cached(generation)
                    &&& forall|g2: u32|
                        #[trigger] final(self).has_cached(g2) ==> g2 != generation && (old(
                            self,
                        ).has_cached(g2) || (old(self).spec_next_generation() <= g2 < generation))
                    &&& forall|g2: u32|
                        (old(self).spec_next_generation() <= g2 < generation) ==> (
                        #[trigger] final(self).has_cached(g2))
                    &&& forall|g2: u32|
                        old(self).has_cached(g2) && g2 != generation && g2 + SKIP_WINDOW >= final(self).spec_next_generation() ==> #[trigger] final(self).has_cached(g2)
                },
                Err(e) => {
                    &&& *final(self) == *old(self)
                    &&& (e == SenderKeyError::TooOldGeneration || e
                        == SenderKeyError::GenerationGap)
                    &&& (e == SenderKeyError::TooOldGeneration <==> generation < old(
                        self,
                    ).spec_next_generation() && !old(self).has_cached(generation))
                    &&& (e == SenderKeyError::GenerationGap <==> generation >= old(
                        self,
                    ).spec_next_generation() && (generation == 0xffff_ffffu32 || generation >= old(
                        self,
                    ).spec_next_generation() + SKIP_WINDOW))
                },
            },
    {
        if generation < self.next_generation {
            let n = self.skipped.len();
            let mut i: usize = 0;
            while i < n
                invariant
                    *self == *old(self),
                    old(self).wf(),
                    generation < old(self).spec_next_generation(),
                    n == self.skipped@.len(),
                    i <= n,
                    forall|j: int| 0 <= j < i ==> (#[trigger] self.skipped@[j]).0 != generation,
                decreases n - i,
            {
                if self.skipped[i].0 == generation {
                    let key = slice_to_vec(self.skipped[i].1.as_slice());
                    let ghost pre = self.skipped@;
                    self.skipped.remove(i);
                    proof {
                        assert(pre == old(self).skipped@);
                        assert(self.skipped@ == pre.remove(i as int));
                        pre.remove_ensures(i as int);
                        assert forall|k: int|
                            0 <= k < self.skipped@.len() implies (#[trigger] self.skipped@[k])
                            == if k < i {
                            pre[k]
                        } else {
                            pre[k + 1]
                        } by {
                            if k < i {
                                assert(pre.remove(i as int)[k] == pre[k]);
                            } else {
                                assert(pre.remove(i as int)[k] == pre[k + 1]);
                            }
                        }
                        assert forall|g2: u32| #[trigger]
                            cached_in(self.skipped@, g2) implies cached_in(pre, g2) && g2
                            != generation by {
                            lemma_cached_in_remove(pre, i as int, g2);
                            let k = choose|k: int|
                                0 <= k < self.skipped@.len() && (#[trigger] self.skipped@[k]).0
                                    == g2;
                            if g2 == generation {
                                if k < i {
                                    assert(old(self).skipped@[k].0 == generation);
                                } else {
                                    assert(old(self).skipped@[k + 1].0 == generation);
                                    assert(old(self).skipped@[i as int].0 == generation);
                                    assert(i < k + 1);
                                }
                                assert(false);
                            }
                        }
                        assert forall|k: int, k2: int|
                            0 <= k < k2 < self.skipped@.len() implies (
                        #[trigger] self.skipped@[k]).0 != (#[trigger] self.skipped@[k2]).0 by {
                            let j: int = if k < i {
                                k
                            } else {
                                k + 1
                            };
                            let j2: int = if k2 < i {
                                k2
                            } else {
                                k2 + 1
                            };
                            assert(old(self).skipped@[j].0 == self.skipped@[k].0);
                            assert(old(self).skipped@[j2].0 == self.skipped@[k2].0);
                        }
                        assert forall|g2: u32|
                            cached_in(pre, g2) && g2 != generation implies #[trigger] cached_in(
                            self.skipped@,
                            g2,
                        ) by {
                            assert(pre[i as int].0 == generation);
                            lemma_cached_in_remove(pre, i as int, g2);
                        }
                    }
                    return Ok(key);
                }
                i = i + 1;
            }
            Err(SenderKeyError::TooOldGeneration)
        } else if generation == 0xffff_ffffu32 || generation - self.next_generation >= SKIP_WINDOW {
            Err(SenderKeyError::GenerationGap)
        } else {
            while self.next_generation < generation
                invariant
                    self.chain_key@ == spec_chain_at(self.seed@, self.next_generation as nat),
                    self.chain_key@.len() == KEY_SIZE,
                    self.entries_sound(),
                    self.seed@ == old(self).spec_seed(),
                    old(self).spec_next_generation() <= self.next_generation <= generation,
                    generation < 0xffff_ffffu32,
                    forall|g2: u32|
                        #[trigger] cached_in(self.skipped@, g2) ==> old(self).has_cached(g2) || (
                        old(self).spec_next_generation() <= g2 < self.next_generation),
                    forall|g2: u32|
                        (old(self).spec_next_generation() <= g2 < self.next_generation) ==> (
                        #[trigger] cached_in(self.skipped@, g2)),
                    forall|g2: u32|
                        old(self).has_cached(g2) ==> #[trigger] cached_in(self.skipped@, g2),
                decreases generation - self.next_generation,
            {
                let mk = derive_message_key(&self.chain_key);
                let g_now = self.next_generation;
                let ghost pre = self.skipped@;
                self.skipped.push((g_now, mk));
                proof {
                    assert forall|g2: u32| #[trigger]
                        cached_in(self.skipped@, g2) == (cached_in(pre, g2) || g_now == g2) by {
                        lemma_cached_in_push(pre, self.skipped@[pre.len() as int], g2);
                        assert(self.skipped@ == pre.push(self.skipped@[pre.len() as int]));
                    }
                }
                let next = derive_next_chain_key(&self.chain_key);
                self.chain_key = next;
                self.next_generation = g_now + 1;
            }
            let mk = derive_message_key(&self.chain_key);
            let next = derive_next_chain_key(&self.chain_key);
            self.chain_key = next;
            self.next_generation = generation + 1;
            let ghost pre = *self;
            self.prune_window();
            proof {
                assert forall|g2: u32| #[trigger]
                    final(self).has_cached(g2) implies g2 != generation && (old(self).has_cached(
                    g2,
                ) || (old(self).spec_next_generation() <= g2 < generation)) by {
                    assert(pre.has_cached(g2));
                }
                assert forall|g2: u32|
                    (old(self).spec_next_generation() <= g2 < generation) implies (
                #[trigger] final(self).has_cached(g2)) by {
                    assert(pre.has_cached(g2));
                    assert(g2 + SKIP_WINDOW >= pre.spec_next_generation());
                }
                assert forall|g2: u32|
                    old(self).has_cached(g2) && g2 != generation && g2 + SKIP_WINDOW >= final(self).spec_next_generation() implies #[trigger] final(self).has_cached(g2) by {
                    assert(pre.has_cached(g2));
                }
            }
            Ok(mk)
        }
    }

    /// Drops cached keys that fell out of the skip window.
    fn prune_window(&mut self)
        requires
            old(self).chain_key@ == spec_chain_at(
                old(self).seed@,
                old(self).next_generation as nat,
            ),
            old(self).chain_key@.len() == KEY_SIZE,
            old(self).entries_sound(),
        ensures
            final(self).wf(),
            final(self).spec_seed() == old(self).spec_seed(),
            final(self).spec_next_generation() == old(self).spec_next_generation(),
            forall|g2: u32|
                #[trigger] final(self).has_cached(g2) <==> (old(self).has_cached(g2) && g2
                    + SKIP_WINDOW >= old(self).spec_next_generation()),
    {
        let mut kept: Vec<(u32, Vec<u8>)> = Vec::new();
        let n = self.skipped.len();
        let mut i: usize = 0;
        while i < n
            invariant
                *self == *old(self),
                n == self.skipped@.len(),
                i <= n,
                old(self).entries_sound(),
                forall|k: int|
                    0 <= k < kept@.len() ==> {
                        &&& (#[trigger] kept@[k]).0 < old(self).next_generation
                        &&& kept@[k].0 + SKIP_WINDOW >= old(self).next_generation
                        &&& kept@[k].1@ == spec_message_key_at(
                            old(self).seed@,
                            kept@[k].0 as nat,
                        )
                        &&& kept@[k].1@.len() == KEY_SIZE
                    },
                forall|k: int, k2: int|
                    0 <= k < k2 < kept@.len() ==> (#[trigger] kept@[k]).0 != (
                    #[trigger] kept@[k2]).0,
                forall|k: int|
                    0 <= k < kept@.len() ==> exists|j: int|
                        0 <= j < i && (#[trigger] kept@[k]).0 == old(self).skipped@[j].0,
                forall|g2: u32|
                    #[trigger] cached_in(kept@, g2) ==> cached_in(self.skipped@, g2) && g2
                        + SKIP_WINDOW >= old(self).next_generation,
                forall|j: int|
                    0 <= j < i && (#[trigger] self.skipped@[j]).0 + SKIP_WINDOW >= old(
                        self,
                    ).next_generation ==> cached_in(kept@, self.skipped@[j].0),
            decreases n - i,
        {
            let g2 = self.skipped[i].0;
            assert(g2 < self.next_generation);
            if self.next_generation - g2 <= SKIP_WINDOW {
                let key = slice_to_vec(self.skipped[i].1.as_slice());
                let ghost prek = kept@;
                kept.push((g2, key));
                proof {
                    assert(kept@ == prek.push(kept@[prek.len() as int]));
                    assert(kept@[prek.len() as int].0 == g2);
                    assert(kept@[prek.len() as int].1@ == old(self).skipped@[i as int].1@);
                    assert forall|g3: u32| #[trigger]
                        cached_in(kept@, g3) == (cached_in(prek, g3) || g3 == g2) by {
                        lemma_cached_in_push(prek, kept@[prek.len() as int], g3);
                    }
                    assert(cached_in(self.skipped@, g2)) by {
                        assert(self.skipped@[i as int].0 == g2);
                    }
                    assert forall|k: int| 0 <= k < prek.len() implies (#[trigger] prek[k]).0
                        != g2 by {
                        let j = choose|j: int|
                            0 <= j < i && (#[trigger] prek[k]).0 == old(self).skipped@[j].0;
                        assert(old(self).skipped@[j].0 != old(self).skipped@[i as int].0);
                    }
                    assert(forall|k: int|
                        0 <= k < prek.len() ==> #[trigger] kept@[k] == prek[k]);
                }
            }
            i = i + 1;
        }
        self.skipped = kept;
        proof {
            assert forall|g2: u32|
                old(self).has_cached(g2) && g2 + SKIP_WINDOW >= old(
                    self,
                ).next_generation implies #[trigger] final(self).has_cached(g2) by {
                let j = choose|j: int|
                    0 <= j < old(self).skipped@.len() && (#[trigger] old(self).skipped@[j]).0
                        == g2;
            }
        }
    }
}


/// Derives the message key of the current chain key.
fn derive_message_key(chain_key: &Vec<u8>) -> (r: Vec<u8>)
    requires
        chain_key@.len() == KEY_SIZE,
    ensures
        r@ == hkdf_expand_bytes(chain_key@, msg_key_info(), KEY_SIZE as nat),
        r@.len() == KEY_SIZE,
{
    let info = slice_to_vec("msg-key".as_bytes());
    hkdf_expand(chain_key, &info, KEY_SIZE)
}

/// Steps the chain: the next chain key replaces the current one.
fn derive_next_chain_key(chain_key: &Vec<u8>) -> (r: Vec<u8>)
    requires
        chain_key@.len() == KEY_SIZE,
    ensures
        r@ == hkdf_expand_bytes(chain_key@, chain_info(), KEY_SIZE as nat),
        r@.len() == KEY_SIZE,
{
    let info = slice_to_vec("chain".as_bytes());
    hkdf_expand(chain_key, &info, KEY_SIZE)
}

/// Initial chain key for a sender: HKDF of the epoch secret under the
/// sender-key label and the leaf index.
pub fn derive_sender_key_seed(epoch_secret: &Vec<u8>, leaf_index: u32) -> (r: Vec<u8>)
    requires
        epoch_secret@.len() >= KEY_SIZE,
    ensures
        r@ == spec_sender_seed(epoch_secret@, leaf_index),
        r@.len() == KEY_SIZE,
{
    let mut info = slice_to_vec("sender-key".as_bytes());
    let mut leaf = u32_to_be_bytes(leaf_index);
    info.append(&mut leaf);
    hkdf_expand(epoch_secret, &info, KEY_SIZE)
}

/// Builds the 24-byte nonce: generation counter big-endian, then the
/// caller's random bytes.
fn build_nonce(generation: u32, random: &Vec<u8>) -> (r: Vec<u8>)
    requires
        random@.len() == NONCE_RANDOM_SIZE,
    ensures
        r@ == spec_nonce(generation, random@),
        r@.len() == NONCE_SIZE,
{
    proof {
        lemma_u64_be_bytes();
    }
    let mut nonce = u64_to_be_bytes(generation as u64);
    let mut rnd = slice_to_vec(random.as_slice());
    nonce.append(&mut rnd);
    nonce
}

/// Builds the associated data for a message's coordinates.
fn build_aad(epoch: u64, generation: u32, sender_index: u32) -> (r: Vec<u8>)
    ensures
        r@ == spec_aad(epoch, sender_index, generation),
{
    let mut aad = u64_to_be_bytes(epoch);
    let mut s = u32_to_be_bytes(sender_index);
    aad.append(&mut s);
    let mut g = u32_to_be_bytes(generation);
    aad.append(&mut g);
    aad
}

} // verus!
