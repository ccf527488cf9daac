use secure_messaging::error::MessagingError;
use secure_messaging::guard::{NonceRegistry, RateLimiter};
use secure_messaging::principal::{is_participant, validate_principal, validate_principals, Principal};
use secure_messaging::text::{
    sanitize_text, validate_conversation_id, validate_phi_encryption, validate_session_id,
    validate_text_length, validate_text_not_empty,
};

fn principal(bytes: &[u8]) -> Principal {
    Principal::from_slice(bytes).unwrap()
}

#[test]
fn principals_are_validated() {
    assert_eq!(validate_principal(&Principal::anonymous()), Err(MessagingError::Validation));
    assert_eq!(validate_principal(&principal(&[1, 2, 3])), Ok(()));
    assert_eq!(validate_principal(&principal(&[])), Ok(()));
    assert!(Principal::from_slice(&[0u8; 30]).is_none());
    assert!(Principal::from_slice(&[0u8; 29]).is_some());
    let set = [principal(&[1]), Principal::anonymous()];
    assert_eq!(validate_principals(&set), Err(MessagingError::Validation));
    assert_eq!(validate_principals(&set[..1]), Ok(()));
    assert!(is_participant(&set, &Principal::anonymous()));
    assert!(!is_participant(&set, &principal(&[2])));
    assert!(principal(&[7, 8]) == principal(&[7, 8]));
    assert!(principal(&[7, 8]) != principal(&[7]));
}

#[test]
fn text_checks() {
    assert_eq!(validate_text_length("abc", 3), Ok(()));
    assert_eq!(validate_text_length("abcd", 3), Err(MessagingError::Validation));
    assert_eq!(validate_text_length("é", 1), Err(MessagingError::Validation));
    assert_eq!(validate_text_not_empty(" \t\n"), Err(MessagingError::Validation));
    assert_eq!(validate_text_not_empty(""), Err(MessagingError::Validation));
    assert_eq!(validate_text_not_empty(" x "), Ok(()));
    assert_eq!(validate_phi_encryption(""), Err(MessagingError::Validation));
    assert_eq!(validate_phi_encryption("data"), Ok(()));
    assert_eq!(validate_phi_encryption(&"a".repeat(1_000_001)), Err(MessagingError::Validation));
    assert_eq!(validate_conversation_id(""), Err(MessagingError::Validation));
    assert_eq!(validate_conversation_id(&"c".repeat(128)), Ok(()));
    assert_eq!(validate_conversation_id(&"c".repeat(129)), Err(MessagingError::Validation));
}

#[test]
fn session_ids_have_uuid_shape() {
    assert_eq!(validate_session_id("123e4567-e89b-12d3-a456-426614174000"), Ok(()));
    assert_eq!(validate_session_id(""), Err(MessagingError::Validation));
    assert_eq!(validate_session_id("123e4567e89b12d3a456426614174000"), Err(MessagingError::Validation));
    assert_eq!(validate_session_id("123e4567-e89b-12d3-a456426614174000-"), Err(MessagingError::Validation));
    assert_eq!(validate_session_id("123e45678-e89b-12d3-a456-42661417400"), Err(MessagingError::Validation));
}

#[test]
fn sanitizing_keeps_allowed_characters_and_collapses_whitespace() {
    assert_eq!(sanitize_text("  hello   world  "), "hello world");
    assert_eq!(sanitize_text("a\u{7}b\u{0}c"), "abc");
    assert_eq!(sanitize_text("Grüße, 世界! (ok?) #1 <b>\\"), "Grüße, 世界! (ok?) #1 <b>");
    assert_eq!(sanitize_text("\u{2003}x\u{3000}\u{a0}y"), "x y");
    assert_eq!(sanitize_text(""), "");
    assert_eq!(sanitize_text(" \n "), "");
}

#[test]
fn rate_limiter_windows() {
    let mut limiter = RateLimiter::new();
    let p = principal(&[1, 2, 3]);
    let q = principal(&[4, 5, 6]);
    assert_eq!(limiter.check_rate_limit(&p, 2, 1000, 10), Ok(()));
    assert_eq!(limiter.check_rate_limit(&p, 2, 1000, 20), Ok(()));
    assert_eq!(limiter.check_rate_limit(&p, 2, 1000, 30), Err(MessagingError::RateLimit));
    assert_eq!(limiter.check_rate_limit(&q, 2, 1000, 30), Ok(()));
    assert_eq!(limiter.check_rate_limit(&p, 2, 1000, 1010), Ok(()));
    assert_eq!(limiter.check_rate_limit(&p, 2, 1000, 1020), Ok(()));
    assert_eq!(limiter.check_rate_limit(&p, 2, 1000, 1030), Err(MessagingError::RateLimit));
}

#[test]
fn nonce_registry_rules() {
    let mut reg = NonceRegistry::new();
    let now = 1_000_000u64;
    assert_eq!(reg.validate_nonce("", now, now), Err(MessagingError::Validation));
    assert_eq!(reg.validate_nonce("a", now + 60_001, now), Err(MessagingError::Replay));
    assert_eq!(reg.validate_nonce("a", now + 60_000, now), Ok(()));
    assert_eq!(reg.validate_nonce("b", now - 300_001, now), Err(MessagingError::Replay));
    assert_eq!(reg.validate_nonce("b", now - 300_000, now), Ok(()));
    assert_eq!(reg.validate_nonce("a", now, now), Err(MessagingError::Replay));
    let later = now + 400_000;
    assert_eq!(reg.validate_nonce("c", later, later), Ok(()));
    assert_eq!(reg.validate_nonce("b", later, later), Ok(()));
    assert_eq!(reg.validate_nonce("a", later, later), Ok(()));
    assert_eq!(reg.validate_nonce("c", later, later), Err(MessagingError::Replay));
}
