//! Client error classification and rendering tests.

use lockframe::client::ClientError;

#[test]
fn room_not_found_is_transient() {
    let err = ClientError::RoomNotFound { room_id: 123 };
    assert!(!err.is_fatal());
}

#[test]
fn invalid_frame_is_fatal() {
    let err = ClientError::InvalidFrame { reason: "bad magic".to_string() };
    assert!(err.is_fatal());
}

#[test]
fn sync_required_is_transient() {
    let err = ClientError::SyncRequired { room_id: 123, target_epoch: 5 };
    assert!(!err.is_fatal());
}

#[test]
fn error_display() {
    let err = ClientError::EpochMismatch { expected: 5, actual: 3 };
    assert_eq!(err.message(), "epoch mismatch: expected 5, got 3");
}

#[test]
fn error_display_renders_wide_numbers() {
    let err = ClientError::EpochMismatch { expected: 18446744073709551615, actual: 0 };
    assert_eq!(err.message(), "epoch mismatch: expected 18446744073709551615, got 0");
}
