//! Session payload codec and broadcast policy tests.

use lockframe::executor::BroadcastPolicy;
use lockframe::session::{default_limit, Goodbye, Hello, HelloReply, SyncRequest, SyncResponse};

#[test]
fn hello_serde() {
    let hello = Hello { version: 1, capabilities: vec!["mls".to_string()], auth_token: None };

    let encoded = hello.encode();
    assert!(!encoded.is_empty());
}

#[test]
fn sync_request_serde() {
    let request = SyncRequest { from_log_index: 42, limit: 50 };

    let bytes = request.encode();

    let decoded = SyncRequest::decode(&bytes).expect("decode");
    assert_eq!(request, decoded);
}

#[test]
fn sync_request_default_limit() {
    let request_no_limit = SyncRequest { from_log_index: 10, limit: default_limit() };

    let bytes = request_no_limit.encode();

    let decoded = SyncRequest::decode(&bytes).expect("decode");
    assert_eq!(decoded.limit, 100);

    // an encoding that lacks the limit field altogether gets the default:
    // a one-element array holding only the start index
    let short_form: Vec<u8> = vec![0x81, 0x0a];
    let decoded = SyncRequest::decode(&short_form).expect("decode without limit");
    assert_eq!(decoded.from_log_index, 10);
    assert_eq!(decoded.limit, 100);
}

#[test]
fn sync_response_serde() {
    let response = SyncResponse {
        frames: vec![vec![1, 2, 3], vec![4, 5, 6]],
        has_more: true,
        server_epoch: 5,
    };

    let encoded = response.encode();
    let decoded = SyncResponse::decode(&encoded).expect("decode");
    assert_eq!(response, decoded);

    // a different response encodes differently
    let other = SyncResponse {
        frames: vec![vec![1, 2, 3], vec![4, 5, 6]],
        has_more: false,
        server_epoch: 5,
    };
    assert_ne!(encoded, other.encode());
}

#[test]
fn sync_response_decode_rejects_noise() {
    assert!(SyncResponse::decode(&[]).is_none());
    assert!(SyncResponse::decode(&[0x83, 0x80]).is_none());
    let mut bytes = SyncResponse { frames: vec![], has_more: false, server_epoch: 0 }.encode();
    bytes.push(0);
    assert!(SyncResponse::decode(&bytes).is_none());
}

#[test]
fn sync_request_decode_rejects_noise() {
    assert!(SyncRequest::decode(&[]).is_none());
    assert!(SyncRequest::decode(&[0xff, 0x00]).is_none());
    // trailing bytes after a valid request are refused
    let mut bytes = SyncRequest { from_log_index: 1, limit: 2 }.encode();
    bytes.push(0);
    assert!(SyncRequest::decode(&bytes).is_none());
}

#[test]
fn hello_reply_encodes_with_challenge() {
    let reply = HelloReply {
        session_id: 77,
        capabilities: vec!["mls".to_string(), "sync".to_string()],
        challenge: Some(vec![9, 9, 9]),
    };
    let with = reply.encode();
    let without = HelloReply {
        session_id: 77,
        capabilities: vec!["mls".to_string(), "sync".to_string()],
        challenge: None,
    }
    .encode();
    assert_ne!(with, without);
}

#[test]
fn goodbye_encodes_reason() {
    let goodbye = Goodbye { reason: "shutting down".to_string() };
    let encoded = goodbye.encode();
    assert!(!encoded.is_empty());
}

#[test]
fn hello_summary_redacts_token() {
    let hello = Hello { version: 1, capabilities: vec![], auth_token: Some(vec![1, 2, 3]) };
    assert_eq!(hello.summary(), "hello with token");
    let bare = Hello { version: 1, capabilities: vec![], auth_token: None };
    assert_eq!(bare.summary(), "hello");
}

#[test]
fn broadcast_policy_default() {
    let policy = BroadcastPolicy::default();
    assert_eq!(policy, BroadcastPolicy::BestEffort);
}

#[test]
fn broadcast_policy_retry() {
    let policy = BroadcastPolicy::Retry { max_attempts: 3, initial_backoff_ms: 100 };
    match policy {
        BroadcastPolicy::Retry { max_attempts, initial_backoff_ms } => {
            assert_eq!(max_attempts, 3);
            assert_eq!(initial_backoff_ms, 100);
        },
        _ => panic!("expected Retry policy"),
    }
}
