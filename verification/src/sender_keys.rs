//! Per-room sender key store.
//!
//! Holds, for the current epoch of one room, a send chain for every member
//! and an independent receive chain per member. Keeping send and receive
//! state separate lets a member decrypt its own frames when the server
//! echoes them back ordered.

use vstd::prelude::*;
use crate::ratchet::{
    SymmetricRatchet,
    ReceiverChain,
    EncryptedMessage,
    SenderKeyError,
    derive_sender_key_seed,
    spec_sender_seed,
    spec_sealed,
    spec_message_key_at,
    spec_nonce,
    spec_aad,
    KEY_SIZE,
    NONCE_SIZE,
    NONCE_RANDOM_SIZE,
    SKIP_WINDOW,
};
use crate::crypto::{aead_open, xchacha_seal};
use crate::wire::{u64_to_be_bytes, u32_to_be_bytes};

verus! {

/// Sender keys of one room at one epoch.
pub struct SenderKeyStore {
    epoch: u64,
    send: Vec<(u32, SymmetricRatchet)>,
    recv: Vec<(u32, ReceiverChain)>,
    secret: Ghost<Seq<u8>>,
}

impl SenderKeyStore {
    /// Every chain is well formed and seeded from the epoch secret under
    /// its member's leaf index; no leaf index appears twice.
    pub closed spec fn wf(self) -> bool {
        &&& forall|i: int|
            0 <= i < self.send@.len() ==> {
                &&& (#[trigger] self.send@[i]).1.wf()
                &&& self.send@[i].1.spec_seed() == spec_sender_seed(
                    self.secret@,
                    self.send@[i].0,
                )
            }
        &&& forall|i: int, j: int|
            0 <= i < j < self.send@.len() ==> (#[trigger] self.send@[i]).0 != (
            #[trigger] self.send@[j]).0
        &&& forall|i: int|
            0 <= i < self.recv@.len() ==> {
                &&& (#[trigger] self.recv@[i]).1.wf()
                &&& self.recv@[i].1.spec_seed() == spec_sender_seed(
                    self.secret@,
                    self.recv@[i].0,
                )
            }
        &&& forall|i: int, j: int|
            0 <= i < j < self.recv@.len() ==> (#[trigger] self.recv@[i]).0 != (
            #[trigger] self.recv@[j]).0
    }

    pub closed spec fn spec_epoch(self) -> u64 {
        self.epoch
    }

    pub closed spec fn spec_secret(self) -> Seq<u8> {
        self.secret@
    }

    pub closed spec fn has_sender(self, leaf_index: u32) -> bool {
        exists|i: int| 0 <= i < self.send@.len() && (#[trigger] self.send@[i]).0 == leaf_index
    }

    pub closed spec fn has_receiver(self, leaf_index: u32) -> bool {
        exists|i: int| 0 <= i < self.recv@.len() && (#[trigger] self.recv@[i]).0 == leaf_index
    }

    /// The send-chain generation of a member, `None` when unknown.
    pub closed spec fn spec_generation(self, leaf_index: u32) -> Option<u32> {
        if self.has_sender(leaf_index) {
            let i = choose|i: int|
                0 <= i < self.send@.len() && (#[trigger] self.send@[i]).0 == leaf_index;
            Some(self.send@[i].1.spec_generation())
        } else {
            None
        }
    }

    /// The next expected generation on a member's receive chain;
    /// meaningful when the member has one.
    pub closed spec fn spec_recv_next(self, leaf_index: u32) -> u32 {
        let i = choose|i: int|
            0 <= i < self.recv@.len() && (#[trigger] self.recv@[i]).0 == leaf_index;
        self.recv@[i].1.spec_next_generation()
    }

    /// Whether a skipped message key for this generation is still cached
    /// on a member's receive chain.
    pub closed spec fn spec_recv_cached(self, leaf_index: u32, generation: u32) -> bool {
        let i = choose|i: int|
            0 <= i < self.recv@.len() && (#[trigger] self.recv@[i]).0 == leaf_index;
        self.recv@[i].1.has_cached(generation)
    }

    /// A member has a send-chain generation exactly when it has a send
    /// chain.
    pub proof fn lemma_generation_tracks_sender(self, leaf_index: u32)
        ensures
            self.spec_generation(leaf_index) is Some <==> self.has_sender(leaf_index),
    {
    }

    /// Initialises the store for an epoch: one fresh send chain and one
    /// fresh receive chain per member leaf index, all at generation zero.
    pub fn initialize_epoch(epoch_secret: &Vec<u8>, epoch: u64, member_indices: &Vec<u32>) -> (r:
        SenderKeyStore)
        requires
            epoch_secret@.len() == KEY_SIZE,
            forall|i: int, j: int|
                0 <= i < j < member_indices@.len() ==> member_indices@[i] != member_indices@[j],
        ensures
            r.wf(),
            r.spec_epoch() == epoch,
            r.spec_secret() == epoch_secret@,
            forall|m: u32|
                #[trigger] r.has_sender(m) <==> member_indices@.contains(m),
            forall|m: u32|
                #[trigger] r.has_receiver(m) <==> member_indices@.contains(m),
            forall|m: u32|
                member_indices@.contains(m) ==> #[trigger] r.spec_generation(m) == Some(0u32),
    {
        let ghost secret = epoch_secret@;
        let mut send: Vec<(u32, SymmetricRatchet)> = Vec::new();
        let mut recv: Vec<(u32, ReceiverChain)> = Vec::new();
        let n = member_indices.len();
        let mut i: usize = 0;
        while i < n
            invariant
                n == member_indices@.len(),
                i <= n,
                epoch_secret@ == secret,
                epoch_secret@.len() == KEY_SIZE,
                forall|a: int, b: int|
                    0 <= a < b < member_indices@.len() ==> member_indices@[a]
                        != member_indices@[b],
                send@.len() == i,
                recv@.len() == i,
                forall|k: int|
                    0 <= k < i ==> {
                        &&& (#[trigger] send@[k]).0 == member_indices@[k]
                        &&& send@[k].1.wf()
                        &&& send@[k].1.spec_seed() == spec_sender_seed(secret, send@[k].0)
                        &&& send@[k].1.spec_generation() == 0
                    },
                forall|k: int|
                    0 <= k < i ==> {
                        &&& (#[trigger] recv@[k]).0 == member_indices@[k]
                        &&& recv@[k].1.wf()
                        &&& recv@[k].1.spec_seed() == spec_sender_seed(secret, recv@[k].0)
                    },
            decreases n - i,
        {
            let leaf = member_indices[i];
            let seed_s = derive_sender_key_seed(epoch_secret, leaf);
            let seed_r = derive_sender_key_seed(epoch_secret, leaf);
            send.push((leaf, SymmetricRatchet::new(seed_s)));
            recv.push((leaf, ReceiverChain::new(seed_r)));
            i = i + 1;
        }
        let r = SenderKeyStore { epoch, send, recv, secret: Ghost(secret) };
        proof {
            assert forall|m: u32| #[trigger] r.has_sender(m) implies member_indices@.contains(
                m,
            ) by {
                let k = choose|k: int|
                    0 <= k < r.send@.len() && (#[trigger] r.send@[k]).0 == m;
                assert(member_indices@[k] == m);
            }
            assert forall|m: u32| member_indices@.contains(m) implies #[trigger] r.has_sender(
                m,
            ) by {
                let k = choose|k: int|
                    0 <= k < member_indices@.len() && member_indices@[k] == m;
                assert(r.send@[k].0 == m);
            }
            assert forall|m: u32| #[trigger] r.has_receiver(m) implies member_indices@.contains(
                m,
            ) by {
                let k = choose|k: int|
                    0 <= k < r.recv@.len() && (#[trigger] r.recv@[k]).0 == m;
                assert(member_indices@[k] == m);
            }
            assert forall|m: u32| member_indices@.contains(m) implies #[trigger] r.has_receiver(
                m,
            ) by {
                let k = choose|k: int|
                    0 <= k < member_indices@.len() && member_indices@[k] == m;
                assert(r.recv@[k].0 == m);
            }
            assert forall|m: u32| member_indices@.contains(m) implies #[trigger] r.spec_generation(
                m,
            ) == Some(0u32) by {
                let k = choose|k: int|
                    0 <= k < r.send@.len() && (#[trigger] r.send@[k]).0 == m;
            }
        }
        r
    }

    pub fn epoch(&self) -> (r: u64)
        ensures
            r == self.spec_epoch(),
    {
        self.epoch
    }

    /// The current send generation for a member's leaf index.
    pub fn generation(&self, leaf_index: u32) -> (r: Option<u32>)
        requires
            self.wf(),
        ensures
            r == self.spec_generation(leaf_index),
    {
        let n = self.send.len();
        let mut i: usize = 0;
        while i < n
            invariant
                self.wf(),
                n == self.send@.len(),
                i <= n,
                forall|j: int| 0 <= j < i ==> (#[trigger] self.send@[j]).0 != leaf_index,
            decreases n - i,
        {
            if self.send[i].0 == leaf_index {
                proof {
                    assert(self.has_sender(leaf_index));
                    let k = choose|k: int|
                        0 <= k < self.send@.len() && (#[trigger] self.send@[k]).0 == leaf_index;
                    if k != i {
                        assert((#[trigger] self.send@[k]).0 != (#[trigger] self.send@[
                        i as int]).0);
                    }
                }
                return Some(self.send[i].1.generation());
            }
            i = i + 1;
        }
        proof {
            if self.has_sender(leaf_index) {
                let k = choose|k: int|
                    0 <= k < self.send@.len() && (#[trigger] self.send@[k]).0 == leaf_index;
            }
        }
        None
    }

    /// Encrypts a message on the member's own send chain, advancing it by
    /// one generation.
    pub fn encrypt(&mut self, leaf_index: u32, plaintext: &Vec<u8>, random: &Vec<u8>) -> (r: Result<
        EncryptedMessage,
        SenderKeyError,
    >)
        requires
            old(self).wf(),
            random@.len() == NONCE_RANDOM_SIZE,
        ensures
            final(self).wf(),
            final(self).spec_epoch() == old(self).spec_epoch(),
            final(self).spec_secret() == old(self).spec_secret(),
            forall|m: u32| #[trigger] final(self).has_sender(m) == old(self).has_sender(m),
            forall|m: u32| #[trigger] final(self).has_receiver(m) == old(self).has_receiver(m),
            forall|m: u32|
                m != leaf_index ==> #[trigger] final(self).spec_generation(m) == old(
                    self,
                ).spec_generation(m),
            match r {
                Ok(em) => {
                    &&& old(self).has_sender(leaf_index)
                    &&& old(self).spec_generation(leaf_index) == Some(em.generation)
                    &&& final(self).spec_generation(leaf_index) == Some(
                        (em.generation + 1) as u32,
                    )
                    &&& em.epoch == old(self).spec_epoch()
                    &&& em.sender_index == leaf_index
                    &&& em.nonce@ == spec_nonce(em.generation, random@)
                    &&& em.ciphertext@.len() == plaintext@.len() + 16
                    &&& em.ciphertext@ == spec_sealed(
                        spec_sender_seed(old(self).spec_secret(), leaf_index),
                        old(self).spec_epoch(),
                        leaf_index,
                        em.generation,
                        random@,
                        plaintext@,
                    )
                },
                Err(SenderKeyError::UnknownSender) => !old(self).has_sender(leaf_index) && *final(self) == *old(self),
                Err(SenderKeyError::GenerationGap) => old(self).spec_generation(leaf_index)
                    == Some(0xffff_ffffu32) && *final(self) == *old(self),
                Err(SenderKeyError::AeadFailed) => plaintext@.len() > u32::MAX,
                Err(_) => false,
            },
            (old(self).spec_generation(leaf_index) matches Some(g) && g < 0xffff_ffffu32
                && plaintext@.len() <= u32::MAX) ==> r is Ok,
    {
        let n = self.send.len();
        let mut i: usize = 0;
        while i < n
            invariant
                *self == *old(self),
                old(self).wf(),
                random@.len() == NONCE_RANDOM_SIZE,
                n == self.send@.len(),
                i <= n,
                forall|j: int| 0 <= j < i ==> (#[trigger] self.send@[j]).0 != leaf_index,
            decreases n - i,
        {
            if self.send[i].0 == leaf_index {
                proof {
                    assert(self.send@[i as int].1.wf());
                    assert(old(self).has_sender(leaf_index));
                    let kx = choose|k: int|
                        0 <= k < self.send@.len() && (#[trigger] self.send@[k]).0 == leaf_index;
                    if kx != i {
                        if kx < i {
                            assert(self.send@[kx].0 != self.send@[i as int].0);
                        } else {
                            assert(self.send@[i as int].0 != self.send@[kx].0);
                        }
                    }
                    assert(old(self).spec_generation(leaf_index) == Some(
                        self.send@[i as int].1.spec_generation(),
                    ));
                }
                if self.send[i].1.generation() == 0xffff_ffffu32 {
                    return Err(SenderKeyError::GenerationGap);
                }
                let (leaf, mut chain) = self.send.remove(i);
                let result = chain.encrypt(self.epoch, leaf_index, plaintext, random);
                self.send.insert(i, (leaf, chain));
                proof {
                    let pre = old(self).send@;
                    assert(self.send@ =~= pre.update(i as int, self.send@[i as int]));
                    assert(self.send@[i as int].0 == leaf_index);
                    assert forall|k: int|
                        0 <= k < self.send@.len() implies {
                        &&& (#[trigger] self.send@[k]).1.wf()
                        &&& self.send@[k].1.spec_seed() == spec_sender_seed(
                            self.secret@,
                            self.send@[k].0,
                        )
                    } by {
                        if k != i {
                            assert(self.send@[k] == pre[k]);
                        }
                    }
                    assert(self.has_sender(leaf_index)) by {
                        assert(self.send@[i as int].0 == leaf_index);
                    }
                    assert forall|k: int|
                        0 <= k < self.send@.len() && (#[trigger] self.send@[k]).0
                            == leaf_index implies k == i by {
                        if k != i {
                            assert(self.send@[k] == pre[k]);
                            assert(pre[k].0 != pre[i as int].0);
                        }
                    }
                    let kx = choose|k: int|
                        0 <= k < old(self).send@.len() && (#[trigger] old(self).send@[k]).0
                            == leaf_index;
                    assert(kx == i);
                    assert forall|m: u32| #[trigger]
                        self.has_sender(m) == old(self).has_sender(m) by {
                        if self.has_sender(m) {
                            let k = choose|k: int|
                                0 <= k < self.send@.len() && (#[trigger] self.send@[k]).0 == m;
                            assert(old(self).send@[k].0 == m);
                        }
                        if old(self).has_sender(m) {
                            let k = choose|k: int|
                                0 <= k < old(self).send@.len() && (#[trigger] old(
                                    self,
                                ).send@[k]).0 == m;
                            assert(self.send@[k].0 == m);
                        }
                    }
                    assert forall|m: u32| #[trigger]
                        self.has_receiver(m) == old(self).has_receiver(m) by {
                        assert(self.recv@ == old(self).recv@);
                        if self.has_receiver(m) {
                            let k = choose|k: int|
                                0 <= k < self.recv@.len() && (#[trigger] self.recv@[k]).0 == m;
                            assert(old(self).recv@[k].0 == m);
                        }
                        if old(self).has_receiver(m) {
                            let k = choose|k: int|
                                0 <= k < old(self).recv@.len() && (#[trigger] old(
                                    self,
                                ).recv@[k]).0 == m;
                            assert(self.recv@[k].0 == m);
                        }
                    }
                    assert forall|m: u32|
                        m != leaf_index implies #[trigger] self.spec_generation(m) == old(
                        self,
                    ).spec_generation(m) by {
                        if old(self).has_sender(m) {
                            let k = choose|k: int|
                                0 <= k < old(self).send@.len() && (#[trigger] old(
                                    self,
                                ).send@[k]).0 == m;
                            assert(k != i);
                            assert(self.send@[k] == pre[k]);
                            let k2 = choose|k2: int|
                                0 <= k2 < self.send@.len() && (#[trigger] self.send@[k2]).0 == m;
                            if k2 != k {
                                if k2 != i {
                                    assert(self.send@[k2] == pre[k2]);
                                }
                                if k2 < k {
                                    assert(old(self).send@[k2].0 != old(self).send@[k].0);
                                } else {
                                    assert(old(self).send@[k].0 != old(self).send@[k2].0);
                                }
                            }
                        }
                    }
                }
                return match result {
                    Ok(em) => Ok(em),
                    Err(e) => Err(e),
                };
            }
            i = i + 1;
        }
        proof {
            if old(self).has_sender(leaf_index) {
                let k = choose|k: int|
                    0 <= k < self.send@.len() && (#[trigger] self.send@[k]).0 == leaf_index;
            }
        }
        Err(SenderKeyError::UnknownSender)
    }

    /// Decrypts a received message on the mirror chain of its sender. On
    /// success the message's key is consumed; skipped generations stay
    /// available inside the window.
    pub fn decrypt(&mut self, message: &EncryptedMessage) -> (r: Result<Vec<u8>, SenderKeyError>)
        requires
            old(self).wf(),
        ensures
            final(self).wf(),
            final(self).spec_epoch() == old(self).spec_epoch(),
            final(self).spec_secret() == old(self).spec_secret(),
            forall|m: u32| #[trigger] final(self).has_sender(m) == old(self).has_sender(m),
            forall|m: u32| #[trigger] final(self).has_receiver(m) == old(self).has_receiver(m),
            forall|m: u32|
                #[trigger] final(self).spec_generation(m) == old(self).spec_generation(m),
            match r {
                Ok(p) => message.ciphertext@ == xchacha_seal(
                    spec_message_key_at(
                        spec_sender_seed(old(self).spec_secret(), message.sender_index),
                        message.generation as nat,
                    ),
                    message.nonce@,
                    spec_aad(message.epoch, message.sender_index, message.generation),
                    p@,
                ),
                Err(SenderKeyError::NoKeyForEpoch) => message.epoch != old(self).spec_epoch()
                    && *final(self) == *old(self),
                Err(SenderKeyError::UnknownSender) => message.epoch == old(self).spec_epoch()
                    && message.nonce@.len() == NONCE_SIZE && !old(self).has_receiver(
                    message.sender_index,
                ) && *final(self) == *old(self),
                Err(SenderKeyError::TooOldGeneration) => {
                    &&& message.epoch == old(self).spec_epoch()
                    &&& message.nonce@.len() == NONCE_SIZE
                    &&& old(self).has_receiver(message.sender_index)
                    &&& message.generation < old(self).spec_recv_next(message.sender_index)
                    &&& !old(self).spec_recv_cached(message.sender_index, message.generation)
                },
                Err(SenderKeyError::GenerationGap) => {
                    &&& message.epoch == old(self).spec_epoch()
                    &&& message.nonce@.len() == NONCE_SIZE
                    &&& old(self).has_receiver(message.sender_index)
                    &&& message.generation >= old(self).spec_recv_next(message.sender_index)
                    &&& (message.generation == 0xffff_ffffu32 || message.generation >= old(
                        self,
                    ).spec_recv_next(message.sender_index) + SKIP_WINDOW)
                },
                Err(SenderKeyError::AeadFailed) => message.epoch == old(self).spec_epoch(),
            },
            // a consumed or pruned generation can never decrypt again
            (message.epoch == old(self).spec_epoch() && message.nonce@.len() == NONCE_SIZE && old(
                self,
            ).has_receiver(message.sender_index) && message.generation < old(self).spec_recv_next(
                message.sender_index,
            ) && !old(self).spec_recv_cached(message.sender_index, message.generation)) ==> r
                is Err,
            // an authentic message whose generation is still available is
            // owed a successful decryption
            (message.epoch == old(self).spec_epoch() && message.nonce@.len() == NONCE_SIZE && old(
                self,
            ).has_receiver(message.sender_index) && (if message.generation < old(
                self,
            ).spec_recv_next(message.sender_index) {
                old(self).spec_recv_cached(message.sender_index, message.generation)
            } else {
                message.generation != 0xffff_ffffu32 && message.generation < old(
                    self,
                ).spec_recv_next(message.sender_index) + SKIP_WINDOW
            }) && (exists|p: Seq<u8>|
                p.len() <= u32::MAX && message.ciphertext@ == xchacha_seal(
                    spec_message_key_at(
                        spec_sender_seed(old(self).spec_secret(), message.sender_index),
                        message.generation as nat,
                    ),
                    message.nonce@,
                    spec_aad(message.epoch, message.sender_index, message.generation),
                    p,
                ))) ==> r is Ok,
    {
        if message.epoch != self.epoch {
            return Err(SenderKeyError::NoKeyForEpoch);
        }
        if message.nonce.len() != NONCE_SIZE {
            return Err(SenderKeyError::AeadFailed);
        }
        let n = self.recv.len();
        let mut i: usize = 0;
        while i < n
            invariant
                *self == *old(self),
                old(self).wf(),
                n == self.recv@.len(),
                i <= n,
                message.nonce@.len() == NONCE_SIZE,
                message.epoch == self.epoch,
                forall|j: int| 0 <= j < i ==> (#[trigger] self.recv@[j]).0 != message.sender_index,
            decreases n - i,
        {
            if self.recv[i].0 == message.sender_index {
                proof {
                    assert(self.recv@[i as int].1.wf());
                    assert(old(self).has_receiver(message.sender_index));
                    let kx = choose|k: int|
                        0 <= k < self.recv@.len() && (#[trigger] self.recv@[k]).0
                            == message.sender_index;
                    if kx != i {
                        if kx < i {
                            assert(self.recv@[kx].0 != self.recv@[i as int].0);
                        } else {
                            assert(self.recv@[i as int].0 != self.recv@[kx].0);
                        }
                    }
                    assert(old(self).spec_recv_next(message.sender_index) == self.recv@[
                    i as int].1.spec_next_generation());
                    assert(old(self).spec_recv_cached(message.sender_index, message.generation)
                        == self.recv@[i as int].1.has_cached(message.generation));
                }
                let (leaf, mut chain) = self.recv.remove(i);
                proof {
                    assert(leaf == message.sender_index);
                    assert(chain.wf());
                    assert(chain.spec_seed() == spec_sender_seed(
                        old(self).spec_secret(),
                        message.sender_index,
                    ));
                }
                let ghost seed = chain.spec_seed();
                let taken = chain.take_message_key(message.generation);
                let outcome = match taken {
                    Ok(message_key) => {
                        proof {
                            assert(message_key@ == spec_message_key_at(
                                seed,
                                message.generation as nat,
                            ));
                            assert(message_key@.len() == KEY_SIZE);
                        }
                        let aad = build_aad_bytes(
                            message.epoch,
                            message.sender_index,
                            message.generation,
                        );
                        match aead_open(&message_key, &message.nonce, &aad, &message.ciphertext) {
                            Some(plaintext) => {
                                proof {
                                    assert(message.ciphertext@ == xchacha_seal(
                                        spec_message_key_at(seed, message.generation as nat),
                                        message.nonce@,
                                        spec_aad(
                                            message.epoch,
                                            message.sender_index,
                                            message.generation,
                                        ),
                                        plaintext@,
                                    ));
                                }
                                Ok(plaintext)
                            },
                            None => Err(SenderKeyError::AeadFailed),
                        }
                    },
                    Err(e) => Err(e),
                };
                self.recv.insert(i, (leaf, chain));
                proof {
                    let pre = old(self).recv@;
                    assert(self.recv@ =~= pre.update(i as int, self.recv@[i as int]));
                    assert forall|k: int|
                        0 <= k < self.recv@.len() implies {
                        &&& (#[trigger] self.recv@[k]).1.wf()
                        &&& self.recv@[k].1.spec_seed() == spec_sender_seed(
                            self.secret@,
                            self.recv@[k].0,
                        )
                    } by {
                        if k != i {
                            assert(self.recv@[k] == pre[k]);
                        }
                    }
                    assert forall|m: u32| #[trigger]
                        self.has_receiver(m) == old(self).has_receiver(m) by {
                        if self.has_receiver(m) {
                            let k = choose|k: int|
                                0 <= k < self.recv@.len() && (#[trigger] self.recv@[k]).0 == m;
                            assert(old(self).recv@[k].0 == m);
                        }
                        if old(self).has_receiver(m) {
                            let k = choose|k: int|
                                0 <= k < old(self).recv@.len() && (#[trigger] old(
                                    self,
                                ).recv@[k]).0 == m;
                            assert(self.recv@[k].0 == m);
                        }
                    }
                    assert(self.send@ == old(self).send@);
                    assert forall|m: u32| #[trigger]
                        self.has_sender(m) == old(self).has_sender(m) by {
                        if self.has_sender(m) {
                            let k = choose|k: int|
                                0 <= k < self.send@.len() && (#[trigger] self.send@[k]).0 == m;
                            assert(old(self).send@[k].0 == m);
                        }
                        if old(self).has_sender(m) {
                            let k = choose|k: int|
                                0 <= k < old(self).send@.len() && (#[trigger] old(
                                    self,
                                ).send@[k]).0 == m;
                            assert(self.send@[k].0 == m);
                        }
                    }
                    assert forall|m: u32| #[trigger]
                        self.spec_generation(m) == old(self).spec_generation(m) by {
                        assert(self.has_sender(m) == old(self).has_sender(m));
                    }
                }
                return outcome;
            }
            i = i + 1;
        }
        proof {
            if old(self).has_receiver(message.sender_index) {
                let k = choose|k: int|
                    0 <= k < self.recv@.len() && (#[trigger] self.recv@[k]).0
                        == message.sender_index;
            }
        }
        Err(SenderKeyError::UnknownSender)
    }
}

/// Builds the associated data bytes for a message's coordinates.
fn build_aad_bytes(epoch: u64, sender_index: u32, generation: u32) -> (r: Vec<u8>)
    ensures
        r@ == spec_aad(epoch, sender_index, generation),
{
    let mut aad = u64_to_be_bytes(epoch);
    let mut s = u32_to_be_bytes(sender_index);
    aad.append(&mut s);
    let mut g = u32_to_be_bytes(generation);
    aad.append(&mut g);
    aad
}

} // verus!
