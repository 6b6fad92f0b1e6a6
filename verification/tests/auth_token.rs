use qpackt::auth::{create_token, is_token_valid, validate_permission};
use qpackt::error::QpacktError;

#[test]
fn token_spelling_reads_back() {
    // A fresh token is never the "no token" value zero, and its spelling
    // validates against the value it spells.
    let (text, value) = create_token();
    assert_ne!(value, 0);
    assert_eq!(text.parse::<u64>().unwrap(), value);
    assert!(is_token_valid(&text, value));
}

#[test]
fn token_zero_never_validates() {
    assert!(!is_token_valid("0", 0));
    assert!(!is_token_valid("", 0));
    assert!(!is_token_valid("123", 0));
}

#[test]
fn token_must_read_as_current_value() {
    assert!(is_token_valid("123", 123));
    assert!(!is_token_valid("124", 123));
    assert!(!is_token_valid("12a", 123));
    assert!(!is_token_valid("", 123));
    assert!(!is_token_valid("99999999999999999999999999", 123));
}

#[test]
fn bearer_header_is_split_at_first_space() {
    assert!(validate_permission(Some("Bearer 123"), 123).is_ok());
    assert!(validate_permission(Some("Bearer 124"), 123).is_err());
    assert!(validate_permission(Some("Bearer123"), 123).is_err());
    assert!(validate_permission(None, 123).is_err());
    match validate_permission(None, 123) {
        Err(QpacktError::Forbidden) => {}
        other => panic!("unexpected: {:?}", other),
    }
}

#[test]
fn forbidden_maps_to_403() {
    assert_eq!(QpacktError::Forbidden.status_code(), 403);
    assert_eq!(QpacktError::ProxyError.status_code(), 500);
    assert_eq!(QpacktError::SerializationError.status_code(), 500);
}
