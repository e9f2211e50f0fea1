use authvault::config::Config;
use authvault::error::AppError;
use authvault::jwt::{generate_token, issue_token_at, validate_token, validate_token_at, TokenError};
use authvault::middleware::authenticate_at;

fn config_with(secret: &str, hours: i64) -> Config {
    Config {
        database_url: String::new(),
        database_max_connections: 5,
        jwt_secret: secret.to_owned(),
        jwt_expiration_hours: hours,
        cookie_domain: "localhost".to_owned(),
        cookie_secure: false,
    }
}

#[test]
fn issue_then_validate_round_trips_claims() {
    let config = config_with("a-very-secret-key", 24);
    let now: i64 = 1_700_000_000;
    let token = issue_token_at(7, "alice", &config, now).unwrap();
    let claims = validate_token_at(&token, &config, now + 100).unwrap();
    assert_eq!(claims.sub, 7);
    assert_eq!(claims.username, "alice");
    assert_eq!(claims.iat, now);
    assert_eq!(claims.exp, now + 24 * 3600);
}

#[test]
fn expiry_is_issued_at_plus_configured_ttl() {
    let config = config_with("k", 2);
    let now: i64 = 1_000_000;
    let token = issue_token_at(1, "bob", &config, now).unwrap();
    let claims = validate_token_at(&token, &config, now).unwrap();
    assert_eq!(claims.exp - claims.iat, 2 * 3600);
}

#[test]
fn unusual_usernames_round_trip() {
    let config = config_with("secret", 1);
    let now: i64 = 5_000;
    for name in ["a\"b", "back\\slash", "tab\there", "\u{00e9}l\u{00e8}ve", "", "dot.dot"] {
        let token = issue_token_at(42, name, &config, now).unwrap();
        let claims = validate_token_at(&token, &config, now).unwrap();
        assert_eq!(claims.username, name);
        assert_eq!(claims.sub, 42);
    }
}

#[test]
fn wrong_secret_is_invalid_never_success() {
    let config = config_with("secret-one", 24);
    let other = config_with("secret-two", 24);
    let now: i64 = 1_700_000_000;
    let token = issue_token_at(9, "carol", &config, now).unwrap();
    assert!(matches!(validate_token_at(&token, &other, now), Err(TokenError::Invalid)));
}

#[test]
fn flipped_signature_byte_is_invalid() {
    let config = config_with("secret", 24);
    let now: i64 = 1_700_000_000;
    let token = issue_token_at(9, "carol", &config, now).unwrap();
    let mut bytes = token.into_bytes();
    let last = bytes.len() - 1;
    bytes[last] = if bytes[last] == b'A' { b'B' } else { b'A' };
    let tampered = String::from_utf8(bytes).unwrap();
    assert!(matches!(validate_token_at(&tampered, &config, now), Err(TokenError::Invalid)));
}

#[test]
fn expired_token_is_distinguishable_from_tampered() {
    let config = config_with("secret", 1);
    let now: i64 = 1_700_000_000;
    let token = issue_token_at(3, "dave", &config, now).unwrap();
    let exp = now + 3600;
    assert!(validate_token_at(&token, &config, exp).is_ok());
    assert!(matches!(validate_token_at(&token, &config, exp + 1), Err(TokenError::Expired)));
    assert!(!matches!(validate_token_at(&token, &config, exp + 1), Err(TokenError::Invalid)));
}

#[test]
fn malformed_tokens_are_invalid() {
    let config = config_with("secret", 24);
    let now: i64 = 0;
    for junk in ["", "abc", "a.b", "a.b.c", "....", "header.payload.signature.extra"] {
        assert!(matches!(validate_token_at(junk, &config, now), Err(TokenError::Invalid)));
    }
}

#[test]
fn algorithm_is_pinned_by_the_verifier() {
    let config = config_with("secret", 24);
    let now: i64 = 1_700_000_000;
    let token = issue_token_at(5, "erin", &config, now).unwrap();
    let parts: Vec<&str> = token.split('.').collect();
    assert_eq!(parts.len(), 3);
    // {"alg":"none","typ":"JWT"} in base64url, in place of the real header.
    let forged = format!("eyJhbGciOiJub25lIiwidHlwIjoiSldUIn0.{}.{}", parts[1], parts[2]);
    assert!(matches!(validate_token_at(&forged, &config, now), Err(TokenError::Invalid)));
    let unsigned = format!("eyJhbGciOiJub25lIiwidHlwIjoiSldUIn0.{}.", parts[1]);
    assert!(matches!(validate_token_at(&unsigned, &config, now), Err(TokenError::Invalid)));
}

#[test]
fn clock_backed_issue_and_validate_round_trip() {
    let config = config_with("clock-secret", 24);
    let token = generate_token(11, "frank", &config).unwrap();
    let claims = validate_token(&token, &config).unwrap();
    assert_eq!(claims.sub, 11);
    assert_eq!(claims.username, "frank");
    assert_eq!(claims.exp - claims.iat, 24 * 3600);
}

#[test]
fn gate_rejects_missing_token_and_accepts_valid_cookie() {
    let config = config_with("gate-secret", 24);
    let now: i64 = 1_700_000_000;
    match authenticate_at(None, &config, now) {
        Err(AppError::Auth(m)) => assert_eq!(m, "No authentication token found"),
        other => panic!("expected an auth error, got {:?}", other),
    }
    let token = issue_token_at(8, "grace", &config, now).unwrap();
    let user = authenticate_at(Some(&token), &config, now).unwrap();
    assert_eq!(user.id, 8);
    assert_eq!(user.username, "grace");
    match authenticate_at(Some(&token), &config, now + 25 * 3600) {
        Err(AppError::Auth(m)) => assert_eq!(m, "Token has expired"),
        other => panic!("expected an auth error, got {:?}", other),
    }
    match authenticate_at(Some("garbage"), &config, now) {
        Err(AppError::Auth(m)) => assert_eq!(m, "Invalid token"),
        other => panic!("expected an auth error, got {:?}", other),
    }
}

#[test]
fn issue_rejects_a_hopeless_clock_or_config() {
    let bad_ttl = config_with("s", 0);
    match issue_token_at(1, "a", &bad_ttl, 1000) {
        Err(AppError::Internal(_)) => {}
        other => panic!("expected an internal error, got {:?}", other),
    }
    let config = config_with("s", 1);
    match issue_token_at(1, "a", &config, -5) {
        Err(AppError::Internal(_)) => {}
        other => panic!("expected an internal error, got {:?}", other),
    }
}
