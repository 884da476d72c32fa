//! Frame codec round-trip and rejection tests.

use lockframe::frame::{Frame, FrameHeader, FrameError, Opcode, HEADER_LEN, MAX_PAYLOAD};

fn sample_header() -> FrameHeader {
    let mut header = FrameHeader::new(Opcode::AppMessage);
    header.set_room_id(0x1234_5678_90ab_cdef_1234_5678_90ab_cdef);
    header.set_sender_id(42);
    header.set_epoch(7);
    header.set_log_index(99);
    header.set_hlc_timestamp(123456789);
    header.set_context_id(0xdead);
    header
}

#[test]
fn encode_decode_round_trip() {
    let payload: Vec<u8> = vec![1, 2, 3, 4, 5];
    let frame = Frame::new(sample_header(), payload.clone());
    let encoded = frame.encode();
    assert_eq!(encoded.len(), HEADER_LEN + payload.len());

    let decoded = Frame::decode(&encoded).expect("decode should succeed");
    assert_eq!(decoded.header, frame.header);
    assert_eq!(decoded.payload, payload);
}

#[test]
fn empty_payload_round_trip() {
    let frame = Frame::new(sample_header(), Vec::new());
    let encoded = frame.encode();
    let decoded = Frame::decode(&encoded).expect("decode should succeed");
    assert_eq!(decoded.header, frame.header);
    assert!(decoded.payload.is_empty());
}

#[test]
fn decode_rejects_short_input() {
    let data: Vec<u8> = vec![0u8; 17];
    assert!(matches!(Frame::decode(&data), Err(FrameError::TooShort)));
}

#[test]
fn decode_rejects_bad_magic() {
    let frame = Frame::new(sample_header(), Vec::new());
    let mut encoded = frame.encode();
    encoded[0] ^= 0xff;
    assert!(matches!(Frame::decode(&encoded), Err(FrameError::BadMagic)));
}

#[test]
fn decode_rejects_bad_version() {
    let frame = Frame::new(sample_header(), Vec::new());
    let mut encoded = frame.encode();
    encoded[4] = 0x7f;
    assert!(matches!(Frame::decode(&encoded), Err(FrameError::BadVersion)));
}

#[test]
fn decode_rejects_unknown_opcode() {
    let frame = Frame::new(sample_header(), Vec::new());
    let mut encoded = frame.encode();
    encoded[6] = 0xee;
    encoded[7] = 0x05;
    assert!(matches!(Frame::decode(&encoded), Err(FrameError::UnknownOpcode)));
}

#[test]
fn decode_rejects_length_mismatch() {
    let frame = Frame::new(sample_header(), vec![9, 9, 9]);
    let mut encoded = frame.encode();
    encoded.pop();
    assert!(matches!(Frame::decode(&encoded), Err(FrameError::LengthMismatch)));
}

#[test]
fn decode_rejects_oversized_payload_field() {
    let frame = Frame::new(sample_header(), Vec::new());
    let mut encoded = frame.encode();
    let huge = (MAX_PAYLOAD + 1).to_le_bytes();
    encoded[48..52].copy_from_slice(&huge);
    assert!(matches!(Frame::decode(&encoded), Err(FrameError::PayloadTooLarge)));
}

#[test]
fn decode_never_panics_on_arbitrary_bytes() {
    // a deterministic spray of byte strings, all either decoded or rejected
    let mut seed: u32 = 0x1357_9bdf;
    for len in 0..300usize {
        let mut data: Vec<u8> = Vec::with_capacity(len);
        for _ in 0..len {
            seed = seed.wrapping_mul(1664525).wrapping_add(1013904223);
            data.push((seed >> 24) as u8);
        }
        match Frame::decode(&data) {
            Ok(frame) => {
                let encoded = frame.encode();
                let again = Frame::decode(&encoded).expect("re-decode should succeed");
                assert_eq!(again.header, frame.header);
            },
            Err(_) => {},
        }
    }
}

#[test]
fn opcode_values_round_trip() {
    let all = [
        Opcode::Hello,
        Opcode::HelloReply,
        Opcode::Ping,
        Opcode::Pong,
        Opcode::Goodbye,
        Opcode::AppMessage,
        Opcode::Commit,
        Opcode::Proposal,
        Opcode::Welcome,
        Opcode::SyncRequest,
        Opcode::SyncResponse,
        Opcode::Error,
    ];
    for op in all {
        assert_eq!(Opcode::from_u16(op.to_u16()), Some(op));
    }
    assert_eq!(Opcode::from_u16(0), None);
    assert_eq!(Opcode::from_u16(13), None);
    assert_eq!(Opcode::from_u16(u16::MAX), None);
}

#[test]
fn header_layout_matches_the_wire_offsets() {
    let mut header = FrameHeader::new(Opcode::Ping);
    header.set_room_id(0x0102030405060708090a0b0c0d0e0f10);
    header.set_sender_id(0x1122334455667788);
    header.set_epoch(3);
    header.set_log_index(9);
    header.set_hlc_timestamp(0xa1a2a3a4a5a6a7a8);
    header.set_context_id(0xb1b2b3b4b5b6b7b8);
    let frame = Frame::new(header, vec![0xCC; 5]);
    let bytes = frame.encode();

    // all header fields are little-endian at fixed offsets
    assert_eq!(&bytes[4..6], &1u16.to_le_bytes(), "version");
    assert_eq!(&bytes[6..8], &Opcode::Ping.to_u16().to_le_bytes(), "opcode");
    assert_eq!(&bytes[8..24], &0x0102030405060708090a0b0c0d0e0f10u128.to_le_bytes(), "room");
    assert_eq!(&bytes[24..32], &0x1122334455667788u64.to_le_bytes(), "sender");
    assert_eq!(&bytes[32..40], &3u64.to_le_bytes(), "epoch");
    assert_eq!(&bytes[40..48], &9u64.to_le_bytes(), "log index");
    assert_eq!(&bytes[48..52], &5u32.to_le_bytes(), "payload size");
    assert_eq!(&bytes[52..60], &0xa1a2a3a4a5a6a7a8u64.to_le_bytes(), "timestamp");
    assert_eq!(&bytes[60..68], &0xb1b2b3b4b5b6b7b8u64.to_le_bytes(), "context");
    assert!(bytes[68..128].iter().all(|&b| b == 0), "reserved bytes are zero");
    assert_eq!(&bytes[128..], &[0xCC; 5], "payload follows the header");
}
