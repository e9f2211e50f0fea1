use vstd::prelude::*;

verus! {

/// A stored credential record. The identifier is an opaque 128-bit value;
/// `password_hash` is never the plaintext password.
#[derive(Debug)]
pub struct User {
    pub id: u128,
    pub username: String,
    pub password_hash: String,
    /// Creation time, seconds since the Unix epoch.
    pub created_at: i64,
}

impl Clone for User {
    /// An exact copy of the record.
    fn clone(&self) -> (r: Self)
        ensures
            r == *self,
    {
        User {
            id: self.id,
            username: self.username.clone(),
            password_hash: self.password_hash.clone(),
            created_at: self.created_at,
        }
    }
}

/// A registration request: username and plaintext password. Length rules
/// belong to the request-validation layer upstream of the core.
#[derive(Debug, Clone)]
pub struct RegisterRequest {
    pub username: String,
    pub password: String,
}

/// A login request: username and plaintext password.
#[derive(Debug, Clone)]
pub struct LoginRequest {
    pub username: String,
    pub password: String,
}

/// The public shape of a record: everything but the password hash.
#[derive(Debug, Clone)]
pub struct UserResponse {
    pub id: u128,
    pub username: String,
    pub created_at: i64,
}

impl From<User> for UserResponse {
    /// Drops the password hash; nothing else is changed.
    fn from(user: User) -> (r: Self) {
        UserResponse { id: user.id, username: user.username, created_at: user.created_at }
    }
}

impl vstd::std_specs::convert::FromSpecImpl<User> for UserResponse {
    open spec fn obeys_from_spec() -> bool {
        true
    }

    open spec fn from_spec(user: User) -> Self {
        UserResponse { id: user.id, username: user.username, created_at: user.created_at }
    }
}

/// What a successful register or login hands back to the transport layer.
#[derive(Debug, Clone)]
pub struct AuthResponse {
    pub user: UserResponse,
    pub message: String,
}

} // verus!
