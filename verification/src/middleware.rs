use vstd::prelude::*;

verus! {

use vstd::utf8::encode_utf8;
use crate::claims::ClaimsParts;
use crate::clock;
use crate::config::Config;
use crate::error::{AppError, AppResult};
use crate::jwt::{secret_of, spec_validate, validate_token_at, TokenError};

/// The identity attached to a request after its token validated: built only
/// from validated claims, never from raw client input, and discarded with
/// the request.
#[derive(Debug)]
pub struct AuthenticatedUser {
    pub id: u128,
    pub username: String,
}

impl Clone for AuthenticatedUser {
    /// An exact copy of the identity.
    fn clone(&self) -> (r: Self)
        ensures
            r == *self,
    {
        AuthenticatedUser { id: self.id, username: self.username.clone() }
    }
}

/// The request gate, at a given moment: no cookie rejects outright; a
/// cookie is validated and, on success, becomes the request's identity.
/// The two terminal outcomes exclude each other and are decided in this one
/// pass, with no store access: authentication rests on the token alone.
pub fn authenticate_at(token: Option<&str>, config: &Config, now: i64) -> (r: AppResult<
    AuthenticatedUser,
>)
    ensures
        token is None ==> (r matches Err(e) && e matches AppError::Auth(m) && m@
            == "No authentication token found"@),
        token matches Some(t) ==> match spec_validate(
            encode_utf8(t@),
            secret_of(*config),
            now as int,
        ) {
            Ok(parts) => r matches Ok(u) && u.id as int == parts.sub && encode_utf8(u.username@)
                == parts.username_bytes,
            Err(te) => r matches Err(e) && e matches AppError::Auth(m) && m@ == (if te
                == TokenError::Expired {
                "Token has expired"@
            } else {
                "Invalid token"@
            }),
        },
{
    let t = match token {
        None => {
            return Err(AppError::Auth("No authentication token found".to_owned()));
        },
        Some(t) => t,
    };
    match validate_token_at(t, config, now) {
        Ok(claims) => Ok(AuthenticatedUser { id: claims.sub, username: claims.username }),
        Err(TokenError::Expired) => Err(AppError::Auth("Token has expired".to_owned())),
        Err(TokenError::Invalid) => Err(AppError::Auth("Invalid token".to_owned())),
    }
}

/// The request gate against the process clock. Whatever the clock read: an
/// absent cookie is rejected, and an accepted request carries an identity
/// that some moment's validation produced from the token's claims.
pub fn authenticate(token: Option<&str>, config: &Config) -> (r: AppResult<AuthenticatedUser>)
    ensures
        token is None ==> (r matches Err(e) && e matches AppError::Auth(m) && m@
            == "No authentication token found"@),
        r matches Ok(u) ==> token matches Some(t) && exists|now: int|
            #[trigger] spec_validate(encode_utf8(t@), secret_of(*config), now) matches Ok(parts)
                && u.id as int == parts.sub && encode_utf8(u.username@) == parts.username_bytes,
        r matches Err(e) ==> e matches AppError::Auth(m) && ((token is None && m@
            == "No authentication token found"@) || (token matches Some(t) && exists|now: int|
            ((m@ == "Token has expired"@ && #[trigger] spec_validate(
                encode_utf8(t@),
                secret_of(*config),
                now,
            ) == Err::<ClaimsParts, TokenError>(TokenError::Expired)) || (m@ == "Invalid token"@
                && spec_validate(encode_utf8(t@), secret_of(*config), now) == Err::<
                ClaimsParts,
                TokenError,
            >(TokenError::Invalid))))),
{
    let now = clock::now_unix();
    let r = authenticate_at(token, config, now);
    proof {
        if token is Some {
            let t = token.unwrap();
            let outcome = spec_validate(encode_utf8(t@), secret_of(*config), now as int);
            if r is Ok {
                assert(outcome matches Ok(parts) && r.unwrap().id as int == parts.sub
                    && encode_utf8(r.unwrap().username@) == parts.username_bytes);
            } else {
                assert(outcome is Err);
            }
        }
    }
    r
}

} // verus!
