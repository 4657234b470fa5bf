use simetrics_api::health;
use simetrics_api::{limit_response_size, Exception, MAX_BODY_SIZE};

#[test]
fn test_health_check_ok() {
    let (status, body) = health::get();
    assert_eq!(status, 200);
    assert_eq!(body, "OK");
}

#[test]
fn test_limit_response_size_passes_small_bodies() {
    let body = vec![7u8; 1024];
    match limit_response_size(Some(body.clone())) {
        Ok(out) => assert_eq!(out, body),
        Err(_) => panic!("expected the body to pass through"),
    }
}

#[test]
fn test_limit_response_size_at_ceiling() {
    let body = vec![0u8; MAX_BODY_SIZE];
    assert!(limit_response_size(Some(body)).is_ok());
}

#[test]
fn test_limit_response_size_too_large() {
    let body = vec![0u8; MAX_BODY_SIZE + 1];
    match limit_response_size(Some(body)) {
        Err(Exception::PayloadTooLarge) => {},
        _ => panic!("expected PayloadTooLarge"),
    }
}

#[test]
fn test_limit_response_size_read_failure() {
    match limit_response_size(None) {
        Err(Exception::PayloadTooLarge) => {},
        _ => panic!("expected PayloadTooLarge for a failed read"),
    }
}
