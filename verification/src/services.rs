use vstd::prelude::*;

verus! {

use crate::error::{AppError, AppResult};
use crate::models::{LoginRequest, RegisterRequest, User};
use crate::password::{hash_matches, hash_password, phc_usable, verify_password};
use crate::repository::{contains_id, contains_username, user_named, user_with_id, UserRepository};

/// The credential service: orchestrates the password hasher and the user
/// store for register, login and fetch-current-user.
pub struct AuthService;

impl AuthService {
    /// Register a new user: reject a taken username with a conflict, hash
    /// the password with a fresh salt, and insert one record atomically.
    /// The store stays unchanged on every failure.
    pub fn register(repo: &mut UserRepository, request: RegisterRequest) -> (r: AppResult<User>)
        requires
            old(repo).wf(),
        ensures
            final(repo).wf(),
            r is Err ==> *final(repo) == *old(repo),
            contains_username(old(repo).users@, request.username@) ==> (r matches Err(e)
                && e matches AppError::Conflict(_)),
            r matches Err(e) ==> (e matches AppError::Conflict(_) <==> contains_username(
                old(repo).users@,
                request.username@,
            )),
            !contains_username(old(repo).users@, request.username@) ==> (r is Ok || (
            r matches Err(e) && e matches AppError::Internal(_))),
            r matches Ok(u) ==> {
                &&& !contains_username(old(repo).users@, request.username@)
                &&& final(repo).users@ == old(repo).users@.push(u)
                &&& u.username@ == request.username@
                &&& hash_matches(u.password_hash@, request.password@)
                &&& phc_usable(u.password_hash@)
            },
    {
        if repo.exists_by_username(request.username.as_str()) {
            return Err(AppError::Conflict("Username already taken!".to_owned()));
        }
        let password_hash = match hash_password(request.password.as_str()) {
            Ok(h) => h,
            Err(e) => {
                return Err(e);
            },
        };
        match repo.create(request.username.as_str(), password_hash.as_str()) {
            Ok(u) => Ok(u),
            Err(e) => Err(e),
        }
    }

    /// Authenticate a user by credentials. Success exactly on a stored
    /// record with a usable hash that matches the password; the
    /// authentication error comes only from a missing user or a mismatching
    /// password, with one message for both, and the unknown-username path
    /// still performs one key derivation so the two take comparable time. A
    /// stored hash the verifier cannot use surfaces as an internal fault.
    pub fn login(repo: &UserRepository, request: LoginRequest) -> (r: AppResult<User>)
        requires
            repo.wf(),
        ensures
            !contains_username(repo.users@, request.username@) ==> (r matches Err(e)
                && e matches AppError::Auth(_)),
            r matches Err(e) ==> (e matches AppError::Auth(m) ==> m@
                == "Wrong username or password!"@),
            r matches Err(e) ==> e matches AppError::Auth(_) || e matches AppError::Internal(_),
            r matches Err(e) ==> (e matches AppError::Auth(_) ==> !(contains_username(
                repo.users@,
                request.username@,
            ) && hash_matches(
                user_named(repo.users@, request.username@).password_hash@,
                request.password@,
            ))),
            r matches Ok(u) ==> {
                &&& contains_username(repo.users@, request.username@)
                &&& u == user_named(repo.users@, request.username@)
                &&& u.username@ == request.username@
                &&& hash_matches(u.password_hash@, request.password@)
            },
            contains_username(repo.users@, request.username@) && phc_usable(
                user_named(repo.users@, request.username@).password_hash@,
            ) && hash_matches(
                user_named(repo.users@, request.username@).password_hash@,
                request.password@,
            ) ==> r is Ok,
            contains_username(repo.users@, request.username@) && phc_usable(
                user_named(repo.users@, request.username@).password_hash@,
            ) && !hash_matches(
                user_named(repo.users@, request.username@).password_hash@,
                request.password@,
            ) ==> (r matches Err(e) && e matches AppError::Auth(_)),
            contains_username(repo.users@, request.username@) && !phc_usable(
                user_named(repo.users@, request.username@).password_hash@,
            ) ==> (r matches Err(e) && e matches AppError::Internal(_)),
    {
        match repo.find_by_username(request.username.as_str()) {
            None => {
                // Comparable work to the found-user path: one key
                // derivation, whose outcome is discarded.
                let _ = hash_password(request.password.as_str());
                Err(AppError::Auth("Wrong username or password!".to_owned()))
            },
            Some(user) => {
                match verify_password(request.password.as_str(), user.password_hash.as_str()) {
                    Err(e) => Err(e),
                    Ok(true) => Ok(user),
                    Ok(false) => Err(AppError::Auth("Wrong username or password!".to_owned())),
                }
            },
        }
    }

    /// Fetch a record by identifier; the one call that may surface
    /// not-found distinctly, since it runs only after authentication.
    pub fn get_user(repo: &UserRepository, user_id: u128) -> (r: AppResult<User>)
        requires
            repo.wf(),
        ensures
            r is Ok <==> contains_id(repo.users@, user_id),
            r matches Ok(u) ==> u == user_with_id(repo.users@, user_id) && u.id == user_id,
            r matches Err(e) ==> e matches AppError::NotFound(m) && m@ == "User not found"@,
    {
        match repo.find_by_id(user_id) {
            Some(u) => Ok(u),
            None => Err(AppError::NotFound("User not found".to_owned())),
        }
    }
}

} // verus!
