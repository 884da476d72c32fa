//! Session control payloads and their binary codec.
//!
//! The handshake, disconnect and sync payloads are encoded in a small
//! deterministic subset of CBOR: each payload is an array of its fields,
//! integers use minimal-length heads, strings are text items, byte
//! strings are byte items, and optional fields are the value or null.
//! The decoder accepts exactly the canonical form: whatever it returns
//! re-encodes to the input bytes.

use vstd::prelude::*;
use vstd::slice::{slice_subrange, slice_to_vec};
use vstd::string::StringSliceAdditionalSpecFns;
use vstd::utf8::encode_utf8;
use crate::wire::{
    spec_u32_to_be_bytes,
    spec_u64_to_be_bytes,
    u32_to_be_bytes,
    u64_to_be_bytes,
    u32_from_be_bytes,
    u64_from_be_bytes,
    lemma_u32_be_bytes,
    lemma_u64_be_bytes,
};

verus! {

/// Default number of frames a sync request asks for.
pub fn default_limit() -> (r: u64)
    ensures
        r == 100,
{
    100
}

/// Initial client handshake. Authentication tokens must never appear in
/// diagnostic output; render this type through `summary` instead.
#[derive(Clone, PartialEq, Eq)]
pub struct Hello {
    /// Protocol version.
    pub version: u8,
    /// Client capability names.
    pub capabilities: Vec<String>,
    /// Optional authentication token.
    pub auth_token: Option<Vec<u8>>,
}

impl Hello {
    /// A rendering safe for logs: the token is reduced to its presence.
    pub fn summary(&self) -> (r: &'static str)
        ensures
            (self.auth_token is Some) ==> r@ == "hello with token"@,
            (self.auth_token is None) ==> r@ == "hello"@,
    {
        match self.auth_token {
            Some(_) => "hello with token",
            None => "hello",
        }
    }
}

/// Server response to the hello. Challenges must never appear in
/// diagnostic output; render this type through `summary` instead.
#[derive(Clone, PartialEq, Eq)]
pub struct HelloReply {
    /// Session id the server assigned.
    pub session_id: u64,
    /// Server capability names.
    pub capabilities: Vec<String>,
    /// Optional authentication challenge.
    pub challenge: Option<Vec<u8>>,
}

impl HelloReply {
    /// A rendering safe for logs: the challenge is reduced to its
    /// presence.
    pub fn summary(&self) -> (r: &'static str)
        ensures
            (self.challenge is Some) ==> r@ == "hello reply with challenge"@,
            (self.challenge is None) ==> r@ == "hello reply"@,
    {
        match self.challenge {
            Some(_) => "hello reply with challenge",
            None => "hello reply",
        }
    }
}

/// Graceful disconnect.
#[derive(Clone, Debug, PartialEq, Eq)]
pub struct Goodbye {
    /// Reason for the disconnect, for the peer's log.
    pub reason: String,
}

/// Request for missing frames, sent when a client falls behind.
#[derive(Clone, Copy, Debug, PartialEq, Eq, Structural)]
pub struct SyncRequest {
    /// First log index to replay, inclusive.
    pub from_log_index: u64,
    /// Most frames to return in one batch.
    pub limit: u64,
}

/// A batch of frames answering a sync request.
#[derive(Clone, Debug, PartialEq, Eq)]
pub struct SyncResponse {
    /// Serialised frames in log order.
    pub frames: Vec<Vec<u8>>,
    /// Whether more frames follow this batch.
    pub has_more: bool,
    /// The server's current epoch for the room.
    pub server_epoch: u64,
}

// ---------------------------------------------------------------------
// The head codec: a major type and a minimally encoded value.
// ---------------------------------------------------------------------

/// The head bytes of an item: major type and value, minimal length.
pub open spec fn spec_head(major: u8, value: u64) -> Seq<u8>
    recommends
        major < 8,
{
    if value < 24 {
        seq![(major * 32 + value) as u8]
    } else if value < 256 {
        seq![(major * 32 + 24) as u8, value as u8]
    } else if value < 65536 {
        seq![(major * 32 + 25) as u8, (value / 256) as u8, (value % 256) as u8]
    } else if value <= u32::MAX {
        seq![(major * 32 + 26) as u8] + spec_u32_to_be_bytes(value as u32)
    } else {
        seq![(major * 32 + 27) as u8] + spec_u64_to_be_bytes(value)
    }
}

/// Appends the head of an item.
fn push_head(out: &mut Vec<u8>, major: u8, value: u64)
    requires
        major < 8,
    ensures
        final(out)@ == old(out)@ + spec_head(major, value),
{
    if value < 24 {
        out.push(major * 32 + value as u8);
        proof {
            assert(out@ =~= old(out)@ + spec_head(major, value));
        }
    } else if value < 256 {
        out.push(major * 32 + 24);
        out.push(value as u8);
        proof {
            assert(out@ =~= old(out)@ + spec_head(major, value));
        }
    } else if value < 65536 {
        out.push(major * 32 + 25);
        out.push((value / 256) as u8);
        out.push((value % 256) as u8);
        proof {
            assert(out@ =~= old(out)@ + spec_head(major, value));
        }
    } else if value <= u32::MAX as u64 {
        out.push(major * 32 + 26);
        let mut be = u32_to_be_bytes(value as u32);
        out.append(&mut be);
        proof {
            assert(out@ =~= old(out)@ + spec_head(major, value));
        }
    } else {
        out.push(major * 32 + 27);
        let mut be = u64_to_be_bytes(value);
        out.append(&mut be);
        proof {
            assert(out@ =~= old(out)@ + spec_head(major, value));
        }
    }
}

/// Parses a head at a position: returns the major type, the value and
/// the position after the head. Only the canonical minimal encoding is
/// accepted, so the consumed bytes are exactly `spec_head`.
fn parse_head(data: &[u8], pos: usize) -> (r: Option<(u8, u64, usize)>)
    ensures
        r matches Some((major, value, end)) ==> {
            &&& major < 8
            &&& pos < end <= data@.len()
            &&& data@.subrange(pos as int, end as int) == spec_head(major, value)
        },
{
    proof {
        lemma_u32_be_bytes();
        lemma_u64_be_bytes();
    }
    if pos >= data.len() {
        return None;
    }
    let b = data[pos];
    let major = b / 32;
    let add = b % 32;
    proof {
        assert(major * 32 + add == b) by (nonlinear_arith)
            requires
                major == b / 32,
                add == b % 32,
        ;
        assert(major < 8) by (nonlinear_arith)
            requires
                major == b / 32,
        ;
    }
    if add < 24 {
        let value = add as u64;
        proof {
            assert(data@.subrange(pos as int, pos + 1) =~= spec_head(major, value));
        }
        Some((major, add as u64, pos + 1))
    } else if add == 24 {
        if data.len() - pos < 2 {
            return None;
        }
        let value = data[pos + 1] as u64;
        if value < 24 {
            return None;
        }
        proof {
            assert(data@.subrange(pos as int, pos + 2) =~= spec_head(major, value));
        }
        Some((major, value, pos + 2))
    } else if add == 25 {
        if data.len() - pos < 3 {
            return None;
        }
        let value = (data[pos + 1] as u64) * 256 + (data[pos + 2] as u64);
        if value < 256 {
            return None;
        }
        proof {
            assert((value / 256) as u8 == data@[pos + 1] && (value % 256) as u8 == data@[pos + 2])
                by (nonlinear_arith)
                requires
                    value == (data@[pos + 1] as u64) * 256 + (data@[pos + 2] as u64),
                    data@[pos + 1] < 256,
                    data@[pos + 2] < 256,
            ;
            assert(data@.subrange(pos as int, pos + 3) =~= spec_head(major, value));
        }
        Some((major, value, pos + 3))
    } else if add == 26 {
        if data.len() - pos < 5 {
            return None;
        }
        let value = u32_from_be_bytes(slice_subrange(data, pos + 1, pos + 5)) as u64;
        if value < 65536 {
            return None;
        }
        proof {
            assert(spec_u32_to_be_bytes(value as u32) =~= data@.subrange(pos + 1, pos + 5));
            assert(data@.subrange(pos as int, pos + 5) =~= spec_head(major, value));
        }
        Some((major, value, pos + 5))
    } else if add == 27 {
        if data.len() - pos < 9 {
            return None;
        }
        let value = u64_from_be_bytes(slice_subrange(data, pos + 1, pos + 9));
        if value <= u32::MAX as u64 {
            return None;
        }
        proof {
            assert(spec_u64_to_be_bytes(value) =~= data@.subrange(pos + 1, pos + 9));
            assert(data@.subrange(pos as int, pos + 9) =~= spec_head(major, value));
        }
        Some((major, value, pos + 9))
    } else {
        None
    }
}

// ---------------------------------------------------------------------
// Item encoders.
// ---------------------------------------------------------------------

/// Bytes of an unsigned integer item.
pub open spec fn spec_uint_item(value: u64) -> Seq<u8> {
    spec_head(0, value)
}

/// Bytes of a byte-string item.
pub open spec fn spec_bytes_item(bytes: Seq<u8>) -> Seq<u8> {
    spec_head(2, bytes.len() as u64)
        + bytes
}

/// Bytes of a text item.
pub open spec fn spec_text_item(text_bytes: Seq<u8>) -> Seq<u8> {
    spec_head(3, text_bytes.len() as u64) + text_bytes
}

/// Bytes of a boolean item.
pub open spec fn spec_bool_item(value: bool) -> Seq<u8> {
    if value {
        seq![245u8]
    } else {
        seq![244u8]
    }
}

/// Bytes of the null item.
pub open spec fn spec_null_item() -> Seq<u8> {
    seq![246u8]
}

/// Appends an unsigned integer item.
fn push_uint(out: &mut Vec<u8>, value: u64)
    ensures
        final(out)@ == old(out)@ + spec_uint_item(value),
{
    push_head(out, 0, value);
}

/// Appends a byte-string item.
fn push_bytes(out: &mut Vec<u8>, bytes: &Vec<u8>)
    requires
        bytes@.len() <= u64::MAX,
    ensures
        final(out)@ == old(out)@ + spec_bytes_item(bytes@),
{
    push_head(out, 2, bytes.len() as u64);
    let mut body = slice_to_vec(bytes.as_slice());
    out.append(&mut body);
    proof {
        assert(out@ =~= old(out)@ + spec_bytes_item(bytes@));
    }
}

/// Appends a text item.
fn push_text(out: &mut Vec<u8>, text: &String)
    ensures
        final(out)@ == old(out)@ + spec_text_item(encode_utf8(text@)),
{
    let bytes = text.as_str().as_bytes();
    let n = bytes.len();
    push_head(out, 3, n as u64);
    let mut body = slice_to_vec(bytes);
    out.append(&mut body);
    proof {
        assert(out@ =~= old(out)@ + spec_text_item(encode_utf8(text@)));
    }
}

/// Appends a boolean item.
fn push_bool(out: &mut Vec<u8>, value: bool)
    ensures
        final(out)@ == old(out)@ + spec_bool_item(value),
{
    if value {
        out.push(245u8);
    } else {
        out.push(244u8);
    }
    proof {
        assert(out@ =~= old(out)@ + spec_bool_item(value));
    }
}

/// Appends the null item.
fn push_null(out: &mut Vec<u8>)
    ensures
        final(out)@ == old(out)@ + spec_null_item(),
{
    out.push(246u8);
    proof {
        assert(out@ =~= old(out)@ + spec_null_item());
    }
}

// ---------------------------------------------------------------------
// Payload encoders and decoders.
// ---------------------------------------------------------------------

/// Bytes of a list of text items.
pub open spec fn spec_text_list(items: Seq<Seq<u8>>) -> Seq<u8>
    decreases items.len(),
{
    if items.len() == 0 {
        Seq::empty()
    } else {
        spec_text_item(items[0]) + spec_text_list(items.skip(1))
    }
}

proof fn lemma_text_list_snoc(items: Seq<Seq<u8>>, x: Seq<u8>)
    ensures
        spec_text_list(items.push(x)) == spec_text_list(items) + spec_text_item(x),
    decreases items.len(),
{
    if items.len() == 0 {
        assert(items.push(x)[0] == x);
        assert(items.push(x).skip(1) =~= Seq::<Seq<u8>>::empty());
        assert(spec_text_list(Seq::<Seq<u8>>::empty()) == Seq::<u8>::empty());
        assert(spec_text_item(x) + Seq::<u8>::empty() =~= spec_text_item(x));
        assert(spec_text_list(items) + spec_text_item(x) =~= spec_text_item(x));
    } else {
        assert(items.push(x)[0] == items[0]);
        assert(items.push(x).skip(1) =~= items.skip(1).push(x));
        lemma_text_list_snoc(items.skip(1), x);
        assert(spec_text_item(items[0]) + (spec_text_list(items.skip(1)) + spec_text_item(x)) =~= (
        spec_text_item(items[0]) + spec_text_list(items.skip(1))) + spec_text_item(x));
    }
}

/// The byte views of a list of strings.
pub open spec fn spec_strings_bytes(items: Seq<String>) -> Seq<Seq<u8>> {
    items.map(|i: int, s: String| encode_utf8(s@))
}

/// Appends a capability list: an array head, then one text per entry.
fn push_string_list(out: &mut Vec<u8>, items: &Vec<String>)
    requires
        items@.len() <= u64::MAX,
    ensures
        final(out)@ == old(out)@ + spec_head(4, items@.len() as u64) + spec_text_list(
            spec_strings_bytes(items@),
        ),
{
    push_head(out, 4, items.len() as u64);
    let n = items.len();
    let mut i: usize = 0;
    proof {
        assert(spec_strings_bytes(items@.subrange(0, 0)) =~= Seq::<Seq<u8>>::empty());
    }
    while i < n
        invariant
            n == items@.len(),
            i <= n,
            out@ == old(out)@ + spec_head(4, items@.len() as u64) + spec_text_list(
                spec_strings_bytes(items@.subrange(0, i as int)),
            ),
        decreases n - i,
    {
        push_text(out, &items[i]);
        proof {
            lemma_text_list_snoc(
                spec_strings_bytes(items@.subrange(0, i as int)),
                encode_utf8(items@[i as int]@),
            );
            assert(spec_strings_bytes(items@.subrange(0, i + 1)) =~= spec_strings_bytes(
                items@.subrange(0, i as int),
            ).push(encode_utf8(items@[i as int]@)));
        }
        i = i + 1;
    }
    proof {
        assert(items@.subrange(0, n as int) =~= items@);
    }
}

/// Mathematical value of a hello payload.
pub ghost struct HelloModel {
    pub version: u8,
    pub capabilities: Seq<Seq<u8>>,
    pub auth_token: Option<Seq<u8>>,
}

impl View for Hello {
    type V = HelloModel;

    open spec fn view(&self) -> HelloModel {
        HelloModel {
            version: self.version,
            capabilities: spec_strings_bytes(self.capabilities@),
            auth_token: match self.auth_token {
                Some(t) => Some(t@),
                None => None,
            },
        }
    }
}

impl HelloModel {
    /// The payload bytes: an array of version, capabilities and token.
    pub open spec fn spec_encode(self) -> Seq<u8> {
        spec_head(4, 3) + spec_uint_item(self.version as u64) + spec_head(
            4,
            self.capabilities.len() as u64,
        ) + spec_text_list(self.capabilities) + (match self.auth_token {
            Some(t) => spec_bytes_item(t),
            None => spec_null_item(),
        })
    }
}

impl Hello {
    /// Encodes the hello payload.
    pub fn encode(&self) -> (r: Vec<u8>)
        requires
            self.capabilities@.len() <= u64::MAX,
            self.auth_token matches Some(t) ==> t@.len() <= u64::MAX,
        ensures
            r@ == self@.spec_encode(),
    {
        let mut out: Vec<u8> = Vec::new();
        push_head(&mut out, 4, 3);
        push_uint(&mut out, self.version as u64);
        push_string_list(&mut out, &self.capabilities);
        match &self.auth_token {
            Some(token) => push_bytes(&mut out, token),
            None => push_null(&mut out),
        }
        proof {
            assert(out@ =~= self@.spec_encode());
        }
        out
    }
}

/// Mathematical value of a hello reply payload.
pub ghost struct HelloReplyModel {
    pub session_id: u64,
    pub capabilities: Seq<Seq<u8>>,
    pub challenge: Option<Seq<u8>>,
}

impl View for HelloReply {
    type V = HelloReplyModel;

    open spec fn view(&self) -> HelloReplyModel {
        HelloReplyModel {
            session_id: self.session_id,
            capabilities: spec_strings_bytes(self.capabilities@),
            challenge: match self.challenge {
                Some(t) => Some(t@),
                None => None,
            },
        }
    }
}

impl HelloReplyModel {
    /// The payload bytes: an array of session id, capabilities and
    /// challenge.
    pub open spec fn spec_encode(self) -> Seq<u8> {
        spec_head(4, 3) + spec_uint_item(self.session_id) + spec_head(
            4,
            self.capabilities.len() as u64,
        ) + spec_text_list(self.capabilities) + (match self.challenge {
            Some(t) => spec_bytes_item(t),
            None => spec_null_item(),
        })
    }
}

impl HelloReply {
    /// Encodes the hello reply payload.
    pub fn encode(&self) -> (r: Vec<u8>)
        requires
            self.capabilities@.len() <= u64::MAX,
            self.challenge matches Some(t) ==> t@.len() <= u64::MAX,
        ensures
            r@ == self@.spec_encode(),
    {
        let mut out: Vec<u8> = Vec::new();
        push_head(&mut out, 4, 3);
        push_uint(&mut out, self.session_id);
        push_string_list(&mut out, &self.capabilities);
        match &self.challenge {
            Some(challenge) => push_bytes(&mut out, challenge),
            None => push_null(&mut out),
        }
        proof {
            assert(out@ =~= self@.spec_encode());
        }
        out
    }
}

/// The goodbye payload bytes: a one-element array holding the reason.
pub open spec fn spec_encode_goodbye(reason_bytes: Seq<u8>) -> Seq<u8> {
    spec_head(4, 1) + spec_text_item(reason_bytes)
}

impl Goodbye {
    /// Encodes the goodbye payload.
    pub fn encode(&self) -> (r: Vec<u8>)
        ensures
            r@ == spec_encode_goodbye(encode_utf8(self.reason@)),
    {
        let mut out: Vec<u8> = Vec::new();
        push_head(&mut out, 4, 1);
        push_text(&mut out, &self.reason);
        proof {
            assert(out@ =~= spec_encode_goodbye(encode_utf8(self.reason@)));
        }
        out
    }
}

/// The sync request payload bytes: an array of the start index and the
/// limit.
pub open spec fn spec_encode_sync_request(from_log_index: u64, limit: u64) -> Seq<u8> {
    spec_head(4, 2) + spec_uint_item(from_log_index) + spec_uint_item(limit)
}

impl SyncRequest {
    /// Encodes the sync request payload.
    pub fn encode(&self) -> (r: Vec<u8>)
        ensures
            r@ == spec_encode_sync_request(self.from_log_index, self.limit),
    {
        let mut out: Vec<u8> = Vec::new();
        push_head(&mut out, 4, 2);
        push_uint(&mut out, self.from_log_index);
        push_uint(&mut out, self.limit);
        proof {
            assert(out@ =~= spec_encode_sync_request(self.from_log_index, self.limit));
        }
        out
    }

    /// Decodes a sync request. The canonical two-field form re-encodes to
    /// exactly the input bytes; a one-field form carrying only the start
    /// index is accepted with the limit defaulted to one hundred.
    pub fn decode(data: &[u8]) -> (r: Option<SyncRequest>)
        ensures
            r matches Some(request) ==> (data@ == spec_encode_sync_request(
                request.from_log_index,
                request.limit,
            ) || (request.limit == 100 && data@ == spec_head(4, 1) + spec_uint_item(
                request.from_log_index,
            ))),
    {
        let head = parse_head(data, 0);
        let (major, count, pos) = match head {
            Some(h) => h,
            None => {
                return None;
            },
        };
        if major != 4 || (count != 1 && count != 2) {
            return None;
        }
        let first = parse_head(data, pos);
        let (major1, from_log_index, pos1) = match first {
            Some(h) => h,
            None => {
                return None;
            },
        };
        if major1 != 0 {
            return None;
        }
        if count == 1 {
            // the limit field is absent; the batch size defaults
            if pos1 != data.len() {
                return None;
            }
            proof {
                assert(data@ =~= data@.subrange(0, pos as int) + data@.subrange(
                    pos as int,
                    pos1 as int,
                ));
            }
            return Some(SyncRequest { from_log_index, limit: default_limit() });
        }
        let second = parse_head(data, pos1);
        let (major2, limit, pos2) = match second {
            Some(h) => h,
            None => {
                return None;
            },
        };
        if major2 != 0 || pos2 != data.len() {
            return None;
        }
        proof {
            assert(data@ =~= data@.subrange(0, pos as int) + data@.subrange(pos as int, pos1 as int)
                + data@.subrange(pos1 as int, pos2 as int));
        }
        Some(SyncRequest { from_log_index, limit })
    }
}

/// Bytes of a list of byte-string items.
pub open spec fn spec_bytes_list(items: Seq<Seq<u8>>) -> Seq<u8>
    decreases items.len(),
{
    if items.len() == 0 {
        Seq::empty()
    } else {
        spec_bytes_item(items[0]) + spec_bytes_list(items.skip(1))
    }
}

proof fn lemma_bytes_list_snoc(items: Seq<Seq<u8>>, x: Seq<u8>)
    ensures
        spec_bytes_list(items.push(x)) == spec_bytes_list(items) + spec_bytes_item(x),
    decreases items.len(),
{
    if items.len() == 0 {
        assert(items.push(x)[0] == x);
        assert(items.push(x).skip(1) =~= Seq::<Seq<u8>>::empty());
        assert(spec_bytes_list(Seq::<Seq<u8>>::empty()) == Seq::<u8>::empty());
        assert(spec_bytes_item(x) + Seq::<u8>::empty() =~= spec_bytes_item(x));
        assert(spec_bytes_list(items) + spec_bytes_item(x) =~= spec_bytes_item(x));
    } else {
        assert(items.push(x)[0] == items[0]);
        assert(items.push(x).skip(1) =~= items.skip(1).push(x));
        lemma_bytes_list_snoc(items.skip(1), x);
        assert(spec_bytes_item(items[0]) + (spec_bytes_list(items.skip(1)) + spec_bytes_item(x))
            =~= (spec_bytes_item(items[0]) + spec_bytes_list(items.skip(1))) + spec_bytes_item(x));
    }
}

/// The sync response payload bytes: an array of the frame list, the
/// continuation flag and the server epoch.
pub open spec fn spec_encode_sync_response(
    frames: Seq<Seq<u8>>,
    has_more: bool,
    server_epoch: u64,
) -> Seq<u8> {
    spec_head(4, 3) + spec_head(4, frames.len() as u64) + spec_bytes_list(frames) + spec_bool_item(
        has_more,
    ) + spec_uint_item(server_epoch)
}

impl SyncResponse {
    /// Decodes a sync response. Canonical: a returned value re-encodes to
    /// exactly the input bytes.
    pub fn decode(data: &[u8]) -> (r: Option<SyncResponse>)
        ensures
            r matches Some(response) ==> data@ == spec_encode_sync_response(
                response.frames@.map(|i: int, f: Vec<u8>| f@),
                response.has_more,
                response.server_epoch,
            ),
    {
        let outer = parse_head(data, 0);
        let (major, arity, pos) = match outer {
            Some(h) => h,
            None => {
                return None;
            },
        };
        if major != 4 || arity != 3 {
            return None;
        }
        let list = parse_head(data, pos);
        let (major_list, count, list_pos) = match list {
            Some(h) => h,
            None => {
                return None;
            },
        };
        if major_list != 4 {
            return None;
        }
        let mut frames: Vec<Vec<u8>> = Vec::new();
        let mut p: usize = list_pos;
        let mut i: u64 = 0;
        proof {
            assert(data@.subrange(list_pos as int, list_pos as int) =~= spec_bytes_list(
                frames@.map(|k: int, f: Vec<u8>| f@),
            ));
        }
        while i < count
            invariant
                i <= count,
                list_pos <= p <= data@.len(),
                frames@.len() == i,
                data@.subrange(list_pos as int, p as int) == spec_bytes_list(
                    frames@.map(|k: int, f: Vec<u8>| f@),
                ),
            decreases count - i,
        {
            let item = parse_head(data, p);
            let (major_item, length, body_pos) = match item {
                Some(h) => h,
                None => {
                    return None;
                },
            };
            if major_item != 2 {
                return None;
            }
            if length > (data.len() - body_pos) as u64 {
                return None;
            }
            let body_end = body_pos + length as usize;
            let body = slice_to_vec(slice_subrange(data, body_pos, body_end));
            let ghost pre = frames@.map(|k: int, f: Vec<u8>| f@);
            frames.push(body);
            proof {
                lemma_bytes_list_snoc(pre, data@.subrange(body_pos as int, body_end as int));
                assert(frames@.map(|k: int, f: Vec<u8>| f@) =~= pre.push(
                    data@.subrange(body_pos as int, body_end as int),
                ));
                assert(data@.subrange(p as int, body_end as int) =~= spec_bytes_item(
                    data@.subrange(body_pos as int, body_end as int),
                ));
                assert(data@.subrange(list_pos as int, body_end as int) =~= data@.subrange(
                    list_pos as int,
                    p as int,
                ) + data@.subrange(p as int, body_end as int));
            }
            p = body_end;
            i = i + 1;
        }
        if p >= data.len() {
            return None;
        }
        let has_more = if data[p] == 245u8 {
            true
        } else if data[p] == 244u8 {
            false
        } else {
            return None;
        };
        proof {
            assert(data@.subrange(p as int, p + 1) =~= spec_bool_item(data@[p as int] == 245));
        }
        let bool_end = p + 1;
        let tail = parse_head(data, bool_end);
        let (major_epoch, server_epoch, end) = match tail {
            Some(h) => h,
            None => {
                return None;
            },
        };
        if major_epoch != 0 || end != data.len() {
            return None;
        }
        let response = SyncResponse { frames, has_more, server_epoch };
        proof {
            assert(data@ =~= data@.subrange(0, pos as int) + data@.subrange(
                pos as int,
                list_pos as int,
            ) + data@.subrange(list_pos as int, p as int) + data@.subrange(p as int, bool_end as int)
                + data@.subrange(bool_end as int, end as int));
        }
        Some(response)
    }

    /// Encodes the sync response payload.
    pub fn encode(&self) -> (r: Vec<u8>)
        requires
            self.frames@.len() <= u64::MAX,
            forall|i: int| 0 <= i < self.frames@.len() ==> (#[trigger] self.frames@[i])@.len()
                <= u64::MAX,
        ensures
            r@ == spec_encode_sync_response(
                self.frames@.map(|i: int, f: Vec<u8>| f@),
                self.has_more,
                self.server_epoch,
            ),
    {
        let mut out: Vec<u8> = Vec::new();
        push_head(&mut out, 4, 3);
        push_head(&mut out, 4, self.frames.len() as u64);
        let n = self.frames.len();
        let mut i: usize = 0;
        let ghost views = self.frames@.map(|k: int, f: Vec<u8>| f@);
        proof {
            assert(self.frames@.subrange(0, 0).map(|k: int, f: Vec<u8>| f@)
                =~= Seq::<Seq<u8>>::empty());
        }
        while i < n
            invariant
                n == self.frames@.len(),
                i <= n,
                forall|k: int| 0 <= k < n ==> (#[trigger] self.frames@[k])@.len() <= u64::MAX,
                out@ == spec_head(4, 3) + spec_head(4, self.frames@.len() as u64)
                    + spec_bytes_list(
                    self.frames@.subrange(0, i as int).map(|k: int, f: Vec<u8>| f@),
                ),
            decreases n - i,
        {
            push_bytes(&mut out, &self.frames[i]);
            proof {
                lemma_bytes_list_snoc(
                    self.frames@.subrange(0, i as int).map(|k: int, f: Vec<u8>| f@),
                    self.frames@[i as int]@,
                );
                assert(self.frames@.subrange(0, i + 1).map(|k: int, f: Vec<u8>| f@)
                    =~= self.frames@.subrange(0, i as int).map(|k: int, f: Vec<u8>| f@).push(
                    self.frames@[i as int]@,
                ));
            }
            i = i + 1;
        }
        push_bool(&mut out, self.has_more);
        push_uint(&mut out, self.server_epoch);
        proof {
            assert(self.frames@.subrange(0, n as int) =~= self.frames@);
            assert(out@ =~= spec_encode_sync_response(views, self.has_more, self.server_epoch));
        }
        out
    }
}

} // verus!
