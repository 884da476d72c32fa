//! Production environment tests.

use lockframe::env::{Environment, SystemEnv};

#[test]
fn system_env_random_bytes_are_random() {
    let env = SystemEnv::new();

    let bytes1 = env.random_bytes(32);
    let bytes2 = env.random_bytes(32);

    // equal draws are overwhelmingly unlikely from real entropy
    assert_ne!(bytes1, bytes2, "Random bytes should differ");
}

#[test]
fn system_env_random_bytes_fills_buffer() {
    let env = SystemEnv::new();

    let bytes = env.random_bytes(64);
    assert_eq!(bytes.len(), 64);

    let non_zero_count = bytes.iter().filter(|&&b| b != 0).count();
    assert!(non_zero_count > 32, "Most bytes should be non-zero");
}

#[test]
fn system_env_time_is_monotonic_enough() {
    let env = SystemEnv::new();
    let t1 = env.now_millis();
    let t2 = env.now_millis();
    assert!(t2 >= t1);
}
