//! Binary codec for the AppMessage payload.
//!
//! Layout, all integers big-endian: epoch (8) ‖ sender_index (4) ‖
//! generation (4) ‖ nonce (24) ‖ ciphertext length (4) ‖ ciphertext.
//! The minimum size is 44 bytes. The decoder is total and tolerates
//! trailing bytes beyond the ciphertext.

use vstd::prelude::*;
use vstd::slice::{slice_subrange, slice_to_vec};
use crate::ratchet::{EncryptedMessage, NONCE_SIZE};
use crate::wire::{
    spec_u64_to_be_bytes,
    spec_u64_from_be_bytes,
    spec_u32_to_be_bytes,
    spec_u32_from_be_bytes,
    u64_to_be_bytes,
    u64_from_be_bytes,
    u32_to_be_bytes,
    u32_from_be_bytes,
    lemma_u32_be_bytes,
    lemma_u64_be_bytes,
};

verus! {

/// Bytes before the ciphertext: 8 + 4 + 4 + 24 + 4.
pub const ENCRYPTED_MESSAGE_MIN_SIZE: usize = 44;

/// Why an AppMessage payload failed to parse.
#[derive(Clone, Copy, Debug, PartialEq, Eq, Structural)]
pub enum PayloadError {
    /// Fewer bytes than the fixed fields need.
    TooShort,
    /// The recorded ciphertext length exceeds the bytes present.
    Truncated,
}

/// Mathematical value of an encrypted message.
pub ghost struct EncryptedMessageModel {
    pub epoch: u64,
    pub sender_index: u32,
    pub generation: u32,
    pub nonce: Seq<u8>,
    pub ciphertext: Seq<u8>,
}

impl View for EncryptedMessage {
    type V = EncryptedMessageModel;

    open spec fn view(&self) -> EncryptedMessageModel {
        EncryptedMessageModel {
            epoch: self.epoch,
            sender_index: self.sender_index,
            generation: self.generation,
            nonce: self.nonce@,
            ciphertext: self.ciphertext@,
        }
    }
}

impl EncryptedMessageModel {
    /// A message is encodable when its nonce has nonce size and its
    /// ciphertext length fits the 32-bit length field.
    pub open spec fn wf(self) -> bool {
        &&& self.nonce.len() == NONCE_SIZE
        &&& self.ciphertext.len() <= u32::MAX
    }

    /// The payload bytes this message encodes to.
    pub open spec fn spec_encode(self) -> Seq<u8> {
        spec_u64_to_be_bytes(self.epoch) + spec_u32_to_be_bytes(self.sender_index)
            + spec_u32_to_be_bytes(self.generation) + self.nonce + spec_u32_to_be_bytes(
            self.ciphertext.len() as u32,
        ) + self.ciphertext
    }
}

/// The total decode function for AppMessage payloads.
pub open spec fn spec_decode_encrypted(s: Seq<u8>) -> Result<EncryptedMessageModel, PayloadError> {
    if s.len() < 44 {
        Err(PayloadError::TooShort)
    } else {
        let ct_len = spec_u32_from_be_bytes(s.subrange(40, 44));
        if s.len() < 44 + ct_len {
            Err(PayloadError::Truncated)
        } else {
            Ok(
                EncryptedMessageModel {
                    epoch: spec_u64_from_be_bytes(s.subrange(0, 8)),
                    sender_index: spec_u32_from_be_bytes(s.subrange(8, 12)),
                    generation: spec_u32_from_be_bytes(s.subrange(12, 16)),
                    nonce: s.subrange(16, 40),
                    ciphertext: s.subrange(44, 44 + ct_len),
                },
            )
        }
    }
}

/// Serialises an encrypted message into AppMessage payload bytes.
pub fn serialize_encrypted_message(message: &EncryptedMessage) -> (r: Vec<u8>)
    requires
        message@.wf(),
    ensures
        r@ == message@.spec_encode(),
        r@.len() == 44 + message@.ciphertext.len(),
{
    proof {
        lemma_u32_be_bytes();
        lemma_u64_be_bytes();
    }
    let mut out = u64_to_be_bytes(message.epoch);
    let mut part = u32_to_be_bytes(message.sender_index);
    out.append(&mut part);
    let mut part = u32_to_be_bytes(message.generation);
    out.append(&mut part);
    let mut nonce = slice_to_vec(message.nonce.as_slice());
    out.append(&mut nonce);
    let mut part = u32_to_be_bytes(message.ciphertext.len() as u32);
    out.append(&mut part);
    let mut body = slice_to_vec(message.ciphertext.as_slice());
    out.append(&mut body);
    out
}

/// Parses AppMessage payload bytes back into an encrypted message, exactly
/// as `spec_decode_encrypted` says; arbitrary bytes never make it panic.
pub fn deserialize_encrypted_message(data: &[u8]) -> (r: Result<EncryptedMessage, PayloadError>)
    ensures
        match r {
            Ok(m) => spec_decode_encrypted(data@) == Ok::<EncryptedMessageModel, PayloadError>(m@)
                && m@.wf(),
            Err(e) => spec_decode_encrypted(data@) == Err::<EncryptedMessageModel, PayloadError>(
                e,
            ),
        },
{
    proof {
        lemma_u32_be_bytes();
    }
    if data.len() < 44 {
        return Err(PayloadError::TooShort);
    }
    let ct_len = u32_from_be_bytes(slice_subrange(data, 40, 44)) as usize;
    if data.len() < 44 || data.len() - 44 < ct_len {
        return Err(PayloadError::Truncated);
    }
    let epoch = u64_from_be_bytes(slice_subrange(data, 0, 8));
    let sender_index = u32_from_be_bytes(slice_subrange(data, 8, 12));
    let generation = u32_from_be_bytes(slice_subrange(data, 12, 16));
    let nonce = slice_to_vec(slice_subrange(data, 16, 40));
    let ciphertext = slice_to_vec(slice_subrange(data, 44, 44 + ct_len));
    let message = EncryptedMessage { epoch, sender_index, generation, nonce, ciphertext };
    Ok(message)
}

/// Payload codec round trip: decoding the encoding of any well-formed
/// encrypted message yields exactly that message.
pub proof fn lemma_encrypted_message_round_trip(m: EncryptedMessageModel)
    requires
        m.wf(),
    ensures
        spec_decode_encrypted(m.spec_encode()) == Ok::<EncryptedMessageModel, PayloadError>(m),
{
    lemma_u32_be_bytes();
    lemma_u64_be_bytes();
    let s = m.spec_encode();
    assert(s.subrange(0, 8) =~= spec_u64_to_be_bytes(m.epoch));
    assert(s.subrange(8, 12) =~= spec_u32_to_be_bytes(m.sender_index));
    assert(s.subrange(12, 16) =~= spec_u32_to_be_bytes(m.generation));
    assert(s.subrange(16, 40) =~= m.nonce);
    assert(s.subrange(40, 44) =~= spec_u32_to_be_bytes(m.ciphertext.len() as u32));
    assert(s.subrange(44, 44 + m.ciphertext.len() as int) =~= m.ciphertext);
    assert(spec_decode_encrypted(s) == Ok::<EncryptedMessageModel, PayloadError>(m));
}

} // verus!
