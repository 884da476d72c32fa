//! Wire frame codec.
//!
//! A frame is a fixed 128-byte little-endian header followed by an opaque
//! payload. The decoder is total: on arbitrary bytes it returns either a
//! frame or a typed error, and `lemma_frame_round_trip` shows that decoding
//! an encoded well-formed frame gives the frame back.

use vstd::prelude::*;
use vstd::bytes::*;
use vstd::slice::{slice_subrange, slice_to_vec};

verus! {

/// Marker at offset 0 of every encoded header.
pub const FRAME_MAGIC: u32 = 0x4c46524d;

/// The only protocol version this codec accepts.
pub const PROTOCOL_VERSION: u16 = 1;

/// Fixed size in bytes of the encoded header.
pub const HEADER_LEN: usize = 128;

/// Largest payload the codec accepts, one mebibyte.
pub const MAX_PAYLOAD: u32 = 1048576;

/// Frame kinds carried in the header's opcode field.
#[derive(Clone, Copy, Debug, PartialEq, Eq, Structural)]
pub enum Opcode {
    Hello,
    HelloReply,
    Ping,
    Pong,
    Goodbye,
    AppMessage,
    Commit,
    Proposal,
    Welcome,
    SyncRequest,
    SyncResponse,
    Error,
}

impl Opcode {
    /// The wire value of each opcode.
    pub open spec fn spec_to_u16(self) -> u16 {
        match self {
            Opcode::Hello => 1,
            Opcode::HelloReply => 2,
            Opcode::Ping => 3,
            Opcode::Pong => 4,
            Opcode::Goodbye => 5,
            Opcode::AppMessage => 6,
            Opcode::Commit => 7,
            Opcode::Proposal => 8,
            Opcode::Welcome => 9,
            Opcode::SyncRequest => 10,
            Opcode::SyncResponse => 11,
            Opcode::Error => 12,
        }
    }

    /// The opcode a wire value stands for, if any.
    pub open spec fn spec_from_u16(value: u16) -> Option<Opcode> {
        if value == 1 {
            Some(Opcode::Hello)
        } else if value == 2 {
            Some(Opcode::HelloReply)
        } else if value == 3 {
            Some(Opcode::Ping)
        } else if value == 4 {
            Some(Opcode::Pong)
        } else if value == 5 {
            Some(Opcode::Goodbye)
        } else if value == 6 {
            Some(Opcode::AppMessage)
        } else if value == 7 {
            Some(Opcode::Commit)
        } else if value == 8 {
            Some(Opcode::Proposal)
        } else if value == 9 {
            Some(Opcode::Welcome)
        } else if value == 10 {
            Some(Opcode::SyncRequest)
        } else if value == 11 {
            Some(Opcode::SyncResponse)
        } else if value == 12 {
            Some(Opcode::Error)
        } else {
            None
        }
    }

    pub fn to_u16(self) -> (r: u16)
        ensures
            r == self.spec_to_u16(),
    {
        match self {
            Opcode::Hello => 1,
            Opcode::HelloReply => 2,
            Opcode::Ping => 3,
            Opcode::Pong => 4,
            Opcode::Goodbye => 5,
            Opcode::AppMessage => 6,
            Opcode::Commit => 7,
            Opcode::Proposal => 8,
            Opcode::Welcome => 9,
            Opcode::SyncRequest => 10,
            Opcode::SyncResponse => 11,
            Opcode::Error => 12,
        }
    }

    pub fn from_u16(value: u16) -> (r: Option<Opcode>)
        ensures
            r == Opcode::spec_from_u16(value),
    {
        if value == 1 {
            Some(Opcode::Hello)
        } else if value == 2 {
            Some(Opcode::HelloReply)
        } else if value == 3 {
            Some(Opcode::Ping)
        } else if value == 4 {
            Some(Opcode::Pong)
        } else if value == 5 {
            Some(Opcode::Goodbye)
        } else if value == 6 {
            Some(Opcode::AppMessage)
        } else if value == 7 {
            Some(Opcode::Commit)
        } else if value == 8 {
            Some(Opcode::Proposal)
        } else if value == 9 {
            Some(Opcode::Welcome)
        } else if value == 10 {
            Some(Opcode::SyncRequest)
        } else if value == 11 {
            Some(Opcode::SyncResponse)
        } else if value == 12 {
            Some(Opcode::Error)
        } else {
            None
        }
    }
}

/// The two opcode maps invert each other.
pub proof fn lemma_opcode_round_trip()
    ensures
        forall|op: Opcode| Opcode::spec_from_u16(#[trigger] op.spec_to_u16()) == Some(op),
        forall|v: u16|
            (#[trigger] Opcode::spec_from_u16(v)) is Some ==> Opcode::spec_from_u16(
                v,
            )->Some_0.spec_to_u16() == v,
{
}

/// Fixed-size frame header. All fields are plain integers; the encoded form
/// is little-endian at fixed offsets.
#[derive(Clone, Copy, Debug, PartialEq, Eq, Structural)]
pub struct FrameHeader {
    pub version: u16,
    pub opcode: u16,
    pub room_id: u128,
    pub sender_id: u64,
    pub epoch: u64,
    pub log_index: u64,
    pub payload_size: u32,
    pub hlc_timestamp: u64,
    pub context_id: u64,
}

impl FrameHeader {
    /// A fresh header for the given opcode; every other field starts at zero.
    pub fn new(op: Opcode) -> (r: FrameHeader)
        ensures
            r == (FrameHeader {
                version: PROTOCOL_VERSION,
                opcode: op.spec_to_u16(),
                room_id: 0,
                sender_id: 0,
                epoch: 0,
                log_index: 0,
                payload_size: 0,
                hlc_timestamp: 0,
                context_id: 0,
            }),
    {
        FrameHeader {
            version: PROTOCOL_VERSION,
            opcode: op.to_u16(),
            room_id: 0,
            sender_id: 0,
            epoch: 0,
            log_index: 0,
            payload_size: 0,
            hlc_timestamp: 0,
            context_id: 0,
        }
    }

    pub fn opcode(&self) -> (r: u16)
        ensures
            r == self.opcode,
    {
        self.opcode
    }

    /// The opcode as an enum, `None` when the wire value is unknown.
    pub fn opcode_enum(&self) -> (r: Option<Opcode>)
        ensures
            r == Opcode::spec_from_u16(self.opcode),
    {
        Opcode::from_u16(self.opcode)
    }

    pub fn version(&self) -> (r: u16)
        ensures
            r == self.version,
    {
        self.version
    }

    pub fn room_id(&self) -> (r: u128)
        ensures
            r == self.room_id,
    {
        self.room_id
    }

    pub fn set_room_id(&mut self, room_id: u128)
        ensures
            *final(self) == (FrameHeader { room_id, ..*old(self) }),
    {
        self.room_id = room_id;
    }

    pub fn sender_id(&self) -> (r: u64)
        ensures
            r == self.sender_id,
    {
        self.sender_id
    }

    pub fn set_sender_id(&mut self, sender_id: u64)
        ensures
            *final(self) == (FrameHeader { sender_id, ..*old(self) }),
    {
        self.sender_id = sender_id;
    }

    pub fn epoch(&self) -> (r: u64)
        ensures
            r == self.epoch,
    {
        self.epoch
    }

    pub fn set_epoch(&mut self, epoch: u64)
        ensures
            *final(self) == (FrameHeader { epoch, ..*old(self) }),
    {
        self.epoch = epoch;
    }

    pub fn log_index(&self) -> (r: u64)
        ensures
            r == self.log_index,
    {
        self.log_index
    }

    pub fn set_log_index(&mut self, log_index: u64)
        ensures
            *final(self) == (FrameHeader { log_index, ..*old(self) }),
    {
        self.log_index = log_index;
    }

    pub fn payload_size(&self) -> (r: u32)
        ensures
            r == self.payload_size,
    {
        self.payload_size
    }

    pub fn hlc_timestamp(&self) -> (r: u64)
        ensures
            r == self.hlc_timestamp,
    {
        self.hlc_timestamp
    }

    pub fn set_hlc_timestamp(&mut self, hlc_timestamp: u64)
        ensures
            *final(self) == (FrameHeader { hlc_timestamp, ..*old(self) }),
    {
        self.hlc_timestamp = hlc_timestamp;
    }

    pub fn context_id(&self) -> (r: u64)
        ensures
            r == self.context_id,
    {
        self.context_id
    }

    pub fn set_context_id(&mut self, context_id: u64)
        ensures
            *final(self) == (FrameHeader { context_id, ..*old(self) }),
    {
        self.context_id = context_id;
    }

    /// The 128 bytes this header encodes to.
    pub open spec fn spec_encode(self) -> Seq<u8> {
        spec_u32_to_le_bytes(FRAME_MAGIC) + spec_u16_to_le_bytes(self.version)
            + spec_u16_to_le_bytes(self.opcode) + spec_u128_to_le_bytes(self.room_id)
            + spec_u64_to_le_bytes(self.sender_id) + spec_u64_to_le_bytes(self.epoch)
            + spec_u64_to_le_bytes(self.log_index) + spec_u32_to_le_bytes(self.payload_size)
            + spec_u64_to_le_bytes(self.hlc_timestamp) + spec_u64_to_le_bytes(self.context_id)
            + Seq::new(60, |i: int| 0u8)
    }

    /// The header read back from 128 bytes; reserved bytes are ignored.
    pub open spec fn spec_from_bytes(s: Seq<u8>) -> FrameHeader {
        FrameHeader {
            version: spec_u16_from_le_bytes(s.subrange(4, 6)),
            opcode: spec_u16_from_le_bytes(s.subrange(6, 8)),
            room_id: spec_u128_from_le_bytes(s.subrange(8, 24)),
            sender_id: spec_u64_from_le_bytes(s.subrange(24, 32)),
            epoch: spec_u64_from_le_bytes(s.subrange(32, 40)),
            log_index: spec_u64_from_le_bytes(s.subrange(40, 48)),
            payload_size: spec_u32_from_le_bytes(s.subrange(48, 52)),
            hlc_timestamp: spec_u64_from_le_bytes(s.subrange(52, 60)),
            context_id: spec_u64_from_le_bytes(s.subrange(60, 68)),
        }
    }

    /// Length of the encoded header.
    pub proof fn lemma_encode_len(self)
        ensures
            self.spec_encode().len() == 128,
    {
        lemma_auto_spec_u16_to_from_le_bytes();
        lemma_auto_spec_u32_to_from_le_bytes();
        lemma_auto_spec_u64_to_from_le_bytes();
        lemma_auto_spec_u128_to_from_le_bytes();
    }

    /// Reading the encoded bytes back gives the header.
    pub proof fn lemma_header_round_trip(self)
        ensures
            Self::spec_from_bytes(self.spec_encode()) == self,
            spec_u32_from_le_bytes(self.spec_encode().subrange(0, 4)) == FRAME_MAGIC,
    {
        lemma_auto_spec_u16_to_from_le_bytes();
        lemma_auto_spec_u32_to_from_le_bytes();
        lemma_auto_spec_u64_to_from_le_bytes();
        lemma_auto_spec_u128_to_from_le_bytes();
        let b = self.spec_encode();
        assert(b.subrange(0, 4) =~= spec_u32_to_le_bytes(FRAME_MAGIC));
        assert(b.subrange(4, 6) =~= spec_u16_to_le_bytes(self.version));
        assert(b.subrange(6, 8) =~= spec_u16_to_le_bytes(self.opcode));
        assert(b.subrange(8, 24) =~= spec_u128_to_le_bytes(self.room_id));
        assert(b.subrange(24, 32) =~= spec_u64_to_le_bytes(self.sender_id));
        assert(b.subrange(32, 40) =~= spec_u64_to_le_bytes(self.epoch));
        assert(b.subrange(40, 48) =~= spec_u64_to_le_bytes(self.log_index));
        assert(b.subrange(48, 52) =~= spec_u32_to_le_bytes(self.payload_size));
        assert(b.subrange(52, 60) =~= spec_u64_to_le_bytes(self.hlc_timestamp));
        assert(b.subrange(60, 68) =~= spec_u64_to_le_bytes(self.context_id));
    }

    /// Appends the 128 encoded header bytes to `out`.
    pub fn encode_into(&self, out: &mut Vec<u8>)
        ensures
            final(out)@ == old(out)@ + self.spec_encode(),
    {
        let mut b = u32_to_le_bytes(FRAME_MAGIC);
        let mut part = u16_to_le_bytes(self.version);
        b.append(&mut part);
        let mut part = u16_to_le_bytes(self.opcode);
        b.append(&mut part);
        let mut part = u128_to_le_bytes(self.room_id);
        b.append(&mut part);
        let mut part = u64_to_le_bytes(self.sender_id);
        b.append(&mut part);
        let mut part = u64_to_le_bytes(self.epoch);
        b.append(&mut part);
        let mut part = u64_to_le_bytes(self.log_index);
        b.append(&mut part);
        let mut part = u32_to_le_bytes(self.payload_size);
        b.append(&mut part);
        let mut part = u64_to_le_bytes(self.hlc_timestamp);
        b.append(&mut part);
        let mut part = u64_to_le_bytes(self.context_id);
        b.append(&mut part);
        crate::wire::push_zero_bytes(&mut b, 60);
        assert(b@ =~= self.spec_encode());
        out.append(&mut b);
    }
}

/// Decode failures; the decoder never panics, it reports one of these.
#[derive(Clone, Copy, Debug, PartialEq, Eq, Structural)]
pub enum FrameError {
    /// Fewer bytes than a header needs.
    TooShort,
    /// The magic marker did not match.
    BadMagic,
    /// A protocol version this codec does not speak.
    BadVersion,
    /// An opcode value outside the recognised set.
    UnknownOpcode,
    /// A payload size above `MAX_PAYLOAD`.
    PayloadTooLarge,
    /// The buffer length does not equal header length plus payload size.
    LengthMismatch,
}

/// A complete wire frame: header plus payload bytes.
#[derive(Clone, Debug)]
pub struct Frame {
    pub header: FrameHeader,
    pub payload: Vec<u8>,
}

/// Mathematical value of a frame: the header and the payload bytes.
pub ghost struct FrameModel {
    pub header: FrameHeader,
    pub payload: Seq<u8>,
}

impl View for Frame {
    type V = FrameModel;

    open spec fn view(&self) -> FrameModel {
        FrameModel { header: self.header, payload: self.payload@ }
    }
}

impl FrameModel {
    /// A frame is well formed when its version and opcode are recognised and
    /// the recorded payload size matches the payload and fits the limit.
    pub open spec fn wf(self) -> bool {
        &&& self.header.version == PROTOCOL_VERSION
        &&& Opcode::spec_from_u16(self.header.opcode) is Some
        &&& self.header.payload_size == self.payload.len()
        &&& self.payload.len() <= MAX_PAYLOAD
    }

    /// The bytes a well-formed frame encodes to.
    pub open spec fn spec_encode(self) -> Seq<u8> {
        self.header.spec_encode() + self.payload
    }
}

/// The total decode function: what any byte string means.
pub open spec fn spec_decode_frame(s: Seq<u8>) -> Result<FrameModel, FrameError> {
    if s.len() < 128 {
        Err(FrameError::TooShort)
    } else {
        let h = FrameHeader::spec_from_bytes(s.subrange(0, 128));
        if spec_u32_from_le_bytes(s.subrange(0, 4)) != FRAME_MAGIC {
            Err(FrameError::BadMagic)
        } else if h.version != PROTOCOL_VERSION {
            Err(FrameError::BadVersion)
        } else if Opcode::spec_from_u16(h.opcode) is None {
            Err(FrameError::UnknownOpcode)
        } else if h.payload_size > MAX_PAYLOAD {
            Err(FrameError::PayloadTooLarge)
        } else if s.len() != 128 + h.payload_size {
            Err(FrameError::LengthMismatch)
        } else {
            Ok(FrameModel { header: h, payload: s.subrange(128, s.len() as int) })
        }
    }
}

impl Frame {
    /// Builds a frame, recording the payload length in the header.
    pub fn new(header: FrameHeader, payload: Vec<u8>) -> (r: Frame)
        requires
            payload@.len() <= MAX_PAYLOAD,
        ensures
            r@.header == (FrameHeader { payload_size: payload@.len() as u32, ..header }),
            r@.payload == payload@,
    {
        let mut h = header;
        h.payload_size = payload.len() as u32;
        Frame { header: h, payload }
    }

    /// A frame is well formed when its model is.
    pub open spec fn wf(self) -> bool {
        self@.wf()
    }

    /// A field-for-field copy of the frame.
    pub fn duplicate(&self) -> (r: Frame)
        ensures
            r@ == self@,
    {
        Frame { header: self.header, payload: slice_to_vec(self.payload.as_slice()) }
    }

    /// Encodes the frame: header bytes followed by the payload.
    pub fn encode(&self) -> (r: Vec<u8>)
        requires
            self.wf(),
        ensures
            r@ == self@.spec_encode(),
            r@.len() == 128 + self@.payload.len(),
    {
        proof {
            self.header.lemma_encode_len();
        }
        let mut out: Vec<u8> = Vec::new();
        self.header.encode_into(&mut out);
        let mut body = slice_to_vec(self.payload.as_slice());
        out.append(&mut body);
        out
    }

    /// Decodes a frame from bytes. Total: every input yields a frame or a
    /// typed error, exactly as `spec_decode_frame` says.
    pub fn decode(data: &[u8]) -> (r: Result<Frame, FrameError>)
        ensures
            match r {
                Ok(f) => spec_decode_frame(data@) == Ok::<FrameModel, FrameError>(f@) && f.wf(),
                Err(e) => spec_decode_frame(data@) == Err::<FrameModel, FrameError>(e),
            },
    {
        if data.len() < 128 {
            return Err(FrameError::TooShort);
        }
        let head = slice_subrange(data, 0, 128);
        let magic = u32_from_le_bytes(slice_subrange(head, 0, 4));
        let version = u16_from_le_bytes(slice_subrange(head, 4, 6));
        let opcode = u16_from_le_bytes(slice_subrange(head, 6, 8));
        let room_id = u128_from_le_bytes(slice_subrange(head, 8, 24));
        let sender_id = u64_from_le_bytes(slice_subrange(head, 24, 32));
        let epoch = u64_from_le_bytes(slice_subrange(head, 32, 40));
        let log_index = u64_from_le_bytes(slice_subrange(head, 40, 48));
        let payload_size = u32_from_le_bytes(slice_subrange(head, 48, 52));
        let hlc_timestamp = u64_from_le_bytes(slice_subrange(head, 52, 60));
        let context_id = u64_from_le_bytes(slice_subrange(head, 60, 68));
        let header = FrameHeader {
            version,
            opcode,
            room_id,
            sender_id,
            epoch,
            log_index,
            payload_size,
            hlc_timestamp,
            context_id,
        };
        proof {
            assert(head@ =~= data@.subrange(0, 128));
            assert(head@.subrange(0, 4) =~= data@.subrange(0, 128).subrange(0, 4));
            assert(head@.subrange(0, 4) =~= data@.subrange(0, 4));
            assert(header == FrameHeader::spec_from_bytes(data@.subrange(0, 128)));
        }
        if magic != FRAME_MAGIC {
            return Err(FrameError::BadMagic);
        }
        if version != PROTOCOL_VERSION {
            return Err(FrameError::BadVersion);
        }
        if Opcode::from_u16(opcode).is_none() {
            return Err(FrameError::UnknownOpcode);
        }
        if payload_size > MAX_PAYLOAD {
            return Err(FrameError::PayloadTooLarge);
        }
        if data.len() - 128 != payload_size as usize {
            return Err(FrameError::LengthMismatch);
        }
        let payload = slice_to_vec(slice_subrange(data, 128, data.len()));
        let frame = Frame { header, payload };
        proof {
            assert(frame@.payload =~= data@.subrange(128, data@.len() as int));
        }
        Ok(frame)
    }
}

/// Codec round trip: decoding the encoding of any well-formed frame yields
/// exactly that frame.
pub proof fn lemma_frame_round_trip(f: FrameModel)
    requires
        f.wf(),
    ensures
        spec_decode_frame(f.spec_encode()) == Ok::<FrameModel, FrameError>(f),
{
    lemma_auto_spec_u32_to_from_le_bytes();
    f.header.lemma_encode_len();
    f.header.lemma_header_round_trip();
    let s = f.spec_encode();
    assert(s.subrange(0, 128) =~= f.header.spec_encode());
    assert(s.subrange(0, 4) =~= f.header.spec_encode().subrange(0, 4));
    assert(s.subrange(128, s.len() as int) =~= f.payload);
    assert(spec_decode_frame(s) == Ok::<FrameModel, FrameError>(f));
}

} // verus!
