use authvault::config::Config;
use authvault::error::AppError;
use authvault::jwt::{issue_token_at, validate_token_at, TokenError};
use authvault::middleware::authenticate_at;
use authvault::models::{LoginRequest, RegisterRequest, User, UserResponse};
use authvault::repository::UserRepository;
use authvault::services::AuthService;

fn register_req(username: &str, password: &str) -> RegisterRequest {
    RegisterRequest { username: username.to_owned(), password: password.to_owned() }
}

fn login_req(username: &str, password: &str) -> LoginRequest {
    LoginRequest { username: username.to_owned(), password: password.to_owned() }
}

#[test]
fn register_stores_one_record_and_never_the_plaintext() {
    let mut repo = UserRepository::new();
    let user = AuthService::register(&mut repo, register_req("alice", "s3cret!")).unwrap();
    assert_eq!(user.username, "alice");
    assert_ne!(user.password_hash, "s3cret!");
    assert!(!user.password_hash.contains("s3cret!"));
    assert_eq!(repo.users.len(), 1);
}

#[test]
fn second_registration_of_a_username_conflicts() {
    let mut repo = UserRepository::new();
    AuthService::register(&mut repo, register_req("alice", "one")).unwrap();
    match AuthService::register(&mut repo, register_req("alice", "two")) {
        Err(AppError::Conflict(_)) => {}
        other => panic!("expected a conflict, got {:?}", other),
    }
    assert_eq!(repo.users.len(), 1);
}

#[test]
fn store_is_the_final_arbiter_of_uniqueness() {
    let mut repo = UserRepository::new();
    repo.create("taken", "$argon2id$x").unwrap();
    match repo.create("taken", "$argon2id$y") {
        Err(AppError::Conflict(_)) => {}
        other => panic!("expected a conflict, got {:?}", other),
    }
    assert_eq!(repo.users.len(), 1);
}

#[test]
fn login_failures_share_one_message() {
    let mut repo = UserRepository::new();
    AuthService::register(&mut repo, register_req("alice", "right")).unwrap();
    let no_user = AuthService::login(&repo, login_req("nobody", "whatever"));
    let bad_pass = AuthService::login(&repo, login_req("alice", "wrong"));
    let m1 = match no_user {
        Err(AppError::Auth(m)) => m,
        other => panic!("expected an auth error, got {:?}", other),
    };
    let m2 = match bad_pass {
        Err(AppError::Auth(m)) => m,
        other => panic!("expected an auth error, got {:?}", other),
    };
    assert_eq!(m1, m2);
    assert_eq!(m1, "Wrong username or password!");
}

#[test]
fn corrupt_stored_hash_surfaces_as_internal_on_login() {
    let mut repo = UserRepository::new();
    repo.create("eve", "not-a-phc-string").unwrap();
    match AuthService::login(&repo, login_req("eve", "whatever")) {
        Err(AppError::Internal(_)) => {}
        other => panic!("expected an internal error, got {:?}", other),
    }
}

#[test]
fn login_returns_the_stored_record() {
    let mut repo = UserRepository::new();
    let created = AuthService::register(&mut repo, register_req("bob", "pw12345")).unwrap();
    let user = AuthService::login(&repo, login_req("bob", "pw12345")).unwrap();
    assert_eq!(user.id, created.id);
    assert_eq!(user.username, "bob");
}

#[test]
fn get_user_distinguishes_not_found() {
    let mut repo = UserRepository::new();
    let created = AuthService::register(&mut repo, register_req("carol", "pw12345")).unwrap();
    let fetched = AuthService::get_user(&repo, created.id).unwrap();
    assert_eq!(fetched.username, "carol");
    match AuthService::get_user(&repo, created.id + 1) {
        Err(AppError::NotFound(m)) => assert_eq!(m, "User not found"),
        other => panic!("expected not-found, got {:?}", other),
    }
}

#[test]
fn user_response_drops_the_password_hash() {
    let user = User {
        id: 12,
        username: "dora".to_owned(),
        password_hash: "$argon2id$hash".to_owned(),
        created_at: 77,
    };
    let response = UserResponse::from(user);
    assert_eq!(response.id, 12);
    assert_eq!(response.username, "dora");
    assert_eq!(response.created_at, 77);
}

#[test]
fn end_to_end_register_login_whoami() {
    let config = Config {
        database_url: String::new(),
        database_max_connections: 5,
        jwt_secret: "end-to-end-secret".to_owned(),
        jwt_expiration_hours: 24,
        cookie_domain: "localhost".to_owned(),
        cookie_secure: false,
    };
    let mut repo = UserRepository::new();

    // Register: a record with a generated id and no plaintext anywhere.
    let created = AuthService::register(&mut repo, register_req("alice", "s3cret!")).unwrap();
    assert!(created.id > 0);
    assert!(!created.password_hash.contains("s3cret!"));

    // Login, then mint a token whose lifetime is exactly the configured TTL.
    let user = AuthService::login(&repo, login_req("alice", "s3cret!")).unwrap();
    let now: i64 = 1_700_000_000;
    let token = issue_token_at(user.id, &user.username, &config, now).unwrap();
    let claims = validate_token_at(&token, &config, now).unwrap();
    assert_eq!(claims.exp - claims.iat, 24 * 3600);

    // The protected read: the token alone authenticates the request.
    let identity = authenticate_at(Some(&token), &config, now + 10).unwrap();
    assert_eq!(identity.id, user.id);
    assert_eq!(identity.username, "alice");
    let me = AuthService::get_user(&repo, identity.id).unwrap();
    assert_eq!(me.username, "alice");

    // Flip one byte of the signature: rejected.
    let mut bytes = token.clone().into_bytes();
    let last = bytes.len() - 1;
    bytes[last] = if bytes[last] == b'x' { b'y' } else { b'x' };
    let tampered = String::from_utf8(bytes).unwrap();
    match authenticate_at(Some(&tampered), &config, now + 10) {
        Err(AppError::Auth(m)) => assert_eq!(m, "Invalid token"),
        other => panic!("expected rejection, got {:?}", other),
    }
    assert!(matches!(
        validate_token_at(&tampered, &config, now + 10),
        Err(TokenError::Invalid)
    ));

    // Advance the clock past the expiry: rejected with an expiry indication.
    match authenticate_at(Some(&token), &config, now + 24 * 3600 + 1) {
        Err(AppError::Auth(m)) => assert_eq!(m, "Token has expired"),
        other => panic!("expected rejection, got {:?}", other),
    }
    assert!(matches!(
        validate_token_at(&token, &config, now + 24 * 3600 + 1),
        Err(TokenError::Expired)
    ));
}
