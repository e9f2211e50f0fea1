use authvault::error::AppError;
use authvault::password::{hash_password, verify_password};

#[test]
fn test_password_hash_and_verify() {
    let password = "secure_password_123";
    let hash = hash_password(password).unwrap();

    assert!(verify_password(password, &hash).unwrap());
    assert!(!verify_password("wrong_password", &hash).unwrap());
}

#[test]
fn fresh_hash_verifies_for_several_passwords() {
    for password in ["a", "s3cret!", "correct horse battery staple", "pa\u{00df}w\u{00f6}rd"] {
        let hash = hash_password(password).unwrap();
        assert!(verify_password(password, &hash).unwrap());
    }
}

#[test]
fn different_password_does_not_verify() {
    let hash = hash_password("left").unwrap();
    assert!(!verify_password("right", &hash).unwrap());
    assert!(!verify_password("", &hash).unwrap());
    assert!(!verify_password("left ", &hash).unwrap());
}

#[test]
fn rehashing_salts_freshly_and_both_verify() {
    let h1 = hash_password("same password").unwrap();
    let h2 = hash_password("same password").unwrap();
    assert_ne!(h1, h2);
    assert!(verify_password("same password", &h1).unwrap());
    assert!(verify_password("same password", &h2).unwrap());
}

#[test]
fn malformed_stored_hash_is_an_internal_fault() {
    let r = verify_password("anything", "not-a-phc-string");
    match r {
        Err(AppError::Internal(_)) => {}
        other => panic!("expected an internal error, got {:?}", other),
    }
}

#[test]
fn hash_is_self_describing_and_salted() {
    let hash = hash_password("s3cret!").unwrap();
    assert!(hash.starts_with("$argon2"));
    assert!(!hash.contains("s3cret!"));
}
