//! Ratchet and sender-key store tests: round trips, windows, key loss.

use lockframe::payload::{deserialize_encrypted_message, serialize_encrypted_message};
use lockframe::ratchet::{SenderKeyError, NONCE_RANDOM_SIZE};
use lockframe::sender_keys::SenderKeyStore;

fn secret() -> Vec<u8> {
    (0u8..32).collect()
}

fn random16(tag: u8) -> Vec<u8> {
    (0..NONCE_RANDOM_SIZE).map(|i| tag.wrapping_add(i as u8)).collect()
}

fn two_stores() -> (SenderKeyStore, SenderKeyStore) {
    let members = vec![0u32, 1u32];
    let sender = SenderKeyStore::initialize_epoch(&secret(), 0, &members);
    let receiver = SenderKeyStore::initialize_epoch(&secret(), 0, &members);
    (sender, receiver)
}

#[test]
fn encrypt_decrypt_across_members() {
    let (mut alice, mut bob) = two_stores();

    let plaintext = b"the quick brown fox".to_vec();
    let message = alice.encrypt(0, &plaintext, &random16(1)).expect("encrypt");
    assert_eq!(message.epoch, 0);
    assert_eq!(message.sender_index, 0);
    assert_eq!(message.generation, 0);
    assert_ne!(message.ciphertext, plaintext);

    let opened = bob.decrypt(&message).expect("decrypt");
    assert_eq!(opened, plaintext);
}

#[test]
fn generations_advance_per_message() {
    let (mut alice, mut bob) = two_stores();

    for expected_generation in 0u32..5 {
        let body = vec![expected_generation as u8; 10];
        let message = alice.encrypt(0, &body, &random16(expected_generation as u8)).unwrap();
        assert_eq!(message.generation, expected_generation);
        let opened = bob.decrypt(&message).unwrap();
        assert_eq!(opened, body);
    }
    assert_eq!(alice.generation(0), Some(5));
}

#[test]
fn used_key_is_deleted() {
    let (mut alice, mut bob) = two_stores();

    let message = alice.encrypt(0, &b"once".to_vec(), &random16(3)).unwrap();
    let first = bob.decrypt(&message);
    assert!(first.is_ok());

    // the same generation cannot be opened twice: its key is gone
    let again = bob.decrypt(&message);
    assert_eq!(again.unwrap_err(), SenderKeyError::TooOldGeneration);
}

#[test]
fn skipped_generations_are_cached_within_window() {
    let (mut alice, mut bob) = two_stores();

    let first = alice.encrypt(0, &b"first".to_vec(), &random16(1)).unwrap();
    let second = alice.encrypt(0, &b"second".to_vec(), &random16(2)).unwrap();
    let third = alice.encrypt(0, &b"third".to_vec(), &random16(3)).unwrap();

    // deliver out of order: the chain fast-forwards and caches the keys
    assert_eq!(bob.decrypt(&third).unwrap(), b"third".to_vec());
    assert_eq!(bob.decrypt(&first).unwrap(), b"first".to_vec());
    assert_eq!(bob.decrypt(&second).unwrap(), b"second".to_vec());
}

#[test]
fn far_ahead_generation_is_a_gap() {
    let (mut alice, mut bob) = two_stores();

    // advance the sender a long way without delivering
    let mut far = alice.encrypt(0, &b"x".to_vec(), &random16(0)).unwrap();
    for i in 0..1100u32 {
        far = alice.encrypt(0, &b"x".to_vec(), &random16(i as u8)).unwrap();
    }
    let result = bob.decrypt(&far);
    assert_eq!(result.unwrap_err(), SenderKeyError::GenerationGap);
}

#[test]
fn unknown_sender_is_rejected() {
    let (mut alice, mut bob) = two_stores();
    let mut message = alice.encrypt(0, &b"hi".to_vec(), &random16(1)).unwrap();
    message.sender_index = 9;
    assert_eq!(bob.decrypt(&message).unwrap_err(), SenderKeyError::UnknownSender);
}

#[test]
fn wrong_epoch_is_rejected() {
    let (mut alice, mut bob) = two_stores();
    let mut message = alice.encrypt(0, &b"hi".to_vec(), &random16(1)).unwrap();
    message.epoch = 3;
    assert_eq!(bob.decrypt(&message).unwrap_err(), SenderKeyError::NoKeyForEpoch);
}

#[test]
fn tampered_ciphertext_fails_authentication() {
    let (mut alice, mut bob) = two_stores();
    let mut message = alice.encrypt(0, &b"authentic".to_vec(), &random16(1)).unwrap();
    let last = message.ciphertext.len() - 1;
    message.ciphertext[last] ^= 0x01;
    assert_eq!(bob.decrypt(&message).unwrap_err(), SenderKeyError::AeadFailed);
}

#[test]
fn nonces_differ_across_generations() {
    let (mut alice, _) = two_stores();
    // same randomness on purpose: the counter part still distinguishes
    let first = alice.encrypt(0, &b"a".to_vec(), &random16(7)).unwrap();
    let second = alice.encrypt(0, &b"b".to_vec(), &random16(7)).unwrap();
    assert_ne!(first.nonce, second.nonce);
    assert_eq!(&first.nonce[8..], &second.nonce[8..]);
    assert_ne!(&first.nonce[0..8], &second.nonce[0..8]);
}

#[test]
fn old_keys_are_unrecoverable_after_the_window() {
    // forward secrecy at the window boundary: after decrypting far ahead,
    // generations older than the window cannot be opened any more
    let members = vec![0u32];
    let mut sender = SenderKeyStore::initialize_epoch(&secret(), 0, &members);
    let mut receiver = SenderKeyStore::initialize_epoch(&secret(), 0, &members);

    let early = sender.encrypt(0, &b"early".to_vec(), &random16(0)).unwrap();
    let mut middle = early.clone();
    let mut later = early.clone();
    for i in 1..=1500u32 {
        let message = sender.encrypt(0, &b"later".to_vec(), &random16(i as u8)).unwrap();
        if i == 600 {
            middle = message.clone();
        } else if i == 1500 {
            later = message.clone();
        }
    }
    // deliver generations 600 and 1500 first: the receive chain moves past
    // 1500, and generation 0 falls out of the window for good
    assert_eq!(receiver.decrypt(&middle).unwrap(), b"later".to_vec());
    assert_eq!(receiver.decrypt(&later).unwrap(), b"later".to_vec());
    assert_eq!(receiver.decrypt(&early).unwrap_err(), SenderKeyError::TooOldGeneration);
}

#[test]
fn encrypted_message_payload_round_trip() {
    let (mut alice, _) = two_stores();
    let message = alice.encrypt(0, &b"round trip".to_vec(), &random16(5)).unwrap();
    let bytes = serialize_encrypted_message(&message);
    let decoded = deserialize_encrypted_message(&bytes).expect("payload decodes");
    assert_eq!(decoded.epoch, message.epoch);
    assert_eq!(decoded.sender_index, message.sender_index);
    assert_eq!(decoded.generation, message.generation);
    assert_eq!(decoded.nonce, message.nonce);
    assert_eq!(decoded.ciphertext, message.ciphertext);
}

#[test]
fn encrypted_message_payload_rejects_short_input() {
    assert!(deserialize_encrypted_message(&[0u8; 43]).is_err());
    // a recorded ciphertext length beyond the buffer is refused
    let (mut alice, _) = two_stores();
    let message = alice.encrypt(0, &b"x".to_vec(), &random16(5)).unwrap();
    let mut bytes = serialize_encrypted_message(&message);
    bytes[43] = 0xff;
    assert!(deserialize_encrypted_message(&bytes).is_err());
}
