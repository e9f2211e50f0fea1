use vstd::prelude::*;

verus! {

use vstd::string::StringSliceAdditionalSpecFns;
use vstd::utf8::{
    encode_utf8, is_leading_byte_width_1, partial_valid_utf8,
    partial_valid_utf8_extend_ascii_block, valid_utf8,
};
use crate::b64::{
    b64_decode, b64_decode_spec, b64_encode, b64_encode_spec, is_b64_byte,
    lemma_b64_encode_is_b64, lemma_b64_round_trip,
};
use crate::claims::{
    lemma_claims_round_trip, parse_claims, parse_claims_exec, ser_claims, ser_claims_exec, Claims,
    ClaimsParts,
};
use crate::clock;
use crate::config::Config;
use crate::error::{AppError, AppResult};
use crate::strutil::{ct_eq, string_from_utf8};

/// How token validation fails: past expiry with a good signature, or
/// anything else (bad signature, malformed structure, missing fields). The
/// caller can tell the two apart, though both collapse to the same
/// unauthenticated outcome at the transport boundary.
#[derive(Debug, Clone, Copy, PartialEq, Eq, Structural)]
pub enum TokenError {
    Expired,
    Invalid,
}

/// What jsonwebtoken's HMAC-SHA256 signer returns for a secret and a
/// message, a function of the two arguments alone.
pub uninterp spec fn mac_of(secret: Seq<u8>, message: Seq<u8>) -> Seq<u8>;

/// Relies on jsonwebtoken::crypto::sign with Algorithm::HS256: the unpadded
/// base64url encoding of the 32-byte HMAC-SHA256 of the message under the
/// secret, hence 43 alphabet bytes. With a key from
/// EncodingKey::from_secret this signing cannot fail.
#[verifier::external_body]
fn hmac_sign(secret: &[u8], message: &[u8]) -> (r: Vec<u8>)
    ensures
        r@ == mac_of(secret@, message@),
        r@.len() == 43,
        forall|i: int| 0 <= i < r@.len() ==> is_b64_byte(r@[i]),
{
    let key = jsonwebtoken::EncodingKey::from_secret(secret);
    jsonwebtoken::crypto::sign(message, &key, jsonwebtoken::Algorithm::HS256).expect(
        "HMAC signing does not fail",
    ).into_bytes()
}

/// The fixed token header, `{"alg":"HS256","typ":"JWT"}`: the verifier pins
/// this exact header, so a token can never choose its own algorithm.
pub open spec fn header_json() -> Seq<u8> {
    seq![
        123u8, 34u8, 97u8, 108u8, 103u8, 34u8, 58u8, 34u8, 72u8, 83u8, 50u8, 53u8, 54u8, 34u8,
        44u8, 34u8, 116u8, 121u8, 112u8, 34u8, 58u8, 34u8, 74u8, 87u8, 84u8, 34u8, 125u8,
    ]
}

fn header_json_vec() -> (r: Vec<u8>)
    ensures
        r@ == header_json(),
{
    let mut v: Vec<u8> = Vec::new();
    v.push(123);
    v.push(34);
    v.push(97);
    v.push(108);
    v.push(103);
    v.push(34);
    v.push(58);
    v.push(34);
    v.push(72);
    v.push(83);
    v.push(50);
    v.push(53);
    v.push(54);
    v.push(34);
    v.push(44);
    v.push(34);
    v.push(116);
    v.push(121);
    v.push(112);
    v.push(34);
    v.push(58);
    v.push(34);
    v.push(74);
    v.push(87);
    v.push(84);
    v.push(34);
    v.push(125);
    assert(v@ =~= header_json());
    v
}

/// The configured secret, as the byte string fed to the signer.
pub open spec fn secret_of(config: Config) -> Seq<u8> {
    encode_utf8(config.jwt_secret@)
}

/// The signing input of a payload: base64url(header) "." base64url(payload).
pub open spec fn signing_input(payload: Seq<u8>) -> Seq<u8> {
    b64_encode_spec(header_json()) + seq![46u8] + b64_encode_spec(payload)
}

/// The token minted for a claim set under a secret: the signing input,
/// a dot, and the MAC of the signing input.
pub open spec fn token_for(secret: Seq<u8>, sub: int, uname: Seq<u8>, iat: int, exp: int) -> Seq<
    u8,
> {
    signing_input(ser_claims(sub, uname, iat, exp)) + seq![46u8] + mac_of(
        secret,
        signing_input(ser_claims(sub, uname, iat, exp)),
    )
}

/// The index of the first dot, or the length when there is none.
pub open spec fn find_dot(s: Seq<u8>) -> int
    decreases s.len(),
{
    if s.len() == 0 {
        0
    } else if s[0] == 46 {
        0
    } else {
        1 + find_dot(s.drop_first())
    }
}

/// find_dot names the first dot: no dot stands before it, and it points at
/// a dot unless it equals the length.
pub proof fn lemma_find_dot_at(s: Seq<u8>, i: int)
    requires
        0 <= i <= s.len(),
        forall|k: int| 0 <= k < i ==> s[k] != 46,
        i < s.len() ==> s[i] == 46,
    ensures
        find_dot(s) == i,
    decreases s.len(),
{
    if s.len() == 0 {
    } else if s[0] == 46 {
        assert(i == 0);
    } else {
        assert(i != 0);
        let d = s.drop_first();
        assert forall|k: int| 0 <= k < i - 1 implies d[k] != 46 by {
            assert(d[k] == s[k + 1]);
        }
        assert(i - 1 < d.len() ==> d[i - 1] == s[i]);
        lemma_find_dot_at(d, i - 1);
    }
}

/// What validation decides for token bytes under a secret at a moment: the
/// three-part shape, the pinned header, the signature, the payload, and the
/// expiry, in that order. The signature is checked before anything in the
/// payload is read or trusted.
pub open spec fn spec_validate(t: Seq<u8>, secret: Seq<u8>, now: int) -> Result<
    ClaimsParts,
    TokenError,
> {
    let i = find_dot(t);
    if i == t.len() {
        Err(TokenError::Invalid)
    } else {
        let rest = t.skip(i + 1);
        let j = find_dot(rest);
        if j == rest.len() {
            Err(TokenError::Invalid)
        } else if t.take(i) != b64_encode_spec(header_json()) {
            Err(TokenError::Invalid)
        } else if rest.skip(j + 1) != mac_of(secret, t.take(i + 1 + j)) {
            Err(TokenError::Invalid)
        } else {
            match b64_decode_spec(rest.take(j)) {
                None => Err(TokenError::Invalid),
                Some(pb) => match parse_claims(pb) {
                    None => Err(TokenError::Invalid),
                    Some(parts) => {
                        if !valid_utf8(parts.username_bytes) {
                            Err(TokenError::Invalid)
                        } else if now > parts.exp {
                            Err(TokenError::Expired)
                        } else {
                            Ok(parts)
                        }
                    },
                },
            }
        }
    }
}

fn push_all(out: &mut Vec<u8>, s: &[u8])
    ensures
        final(out)@ == old(out)@ + s@,
{
    let mut i: usize = 0;
    while i < s.len()
        invariant
            0 <= i <= s@.len(),
            out@.len() == old(out)@.len() + i,
            out@.subrange(0, old(out)@.len() as int) == old(out)@,
            out@.skip(old(out)@.len() as int) == s@.take(i as int),
        decreases s@.len() - i,
    {
        out.push(s[i]);
        assert(out@.subrange(0, old(out)@.len() as int) =~= old(out)@);
        assert(out@.skip(old(out)@.len() as int) =~= s@.take(i as int + 1));
        i += 1;
    }
    assert(s@.take(s@.len() as int) =~= s@);
    assert(out@ =~= out@.subrange(0, old(out)@.len() as int) + out@.skip(old(out)@.len() as int));
}

fn find_dot_exec(s: &[u8]) -> (r: usize)
    ensures
        r as int == find_dot(s@),
        r <= s@.len(),
{
    let mut i: usize = 0;
    while i < s.len()
        invariant
            0 <= i <= s@.len(),
            forall|k: int| 0 <= k < i ==> s@[k] != 46,
        decreases s@.len() - i,
    {
        if s[i] == 46 {
            proof {
                lemma_find_dot_at(s@, i as int);
            }
            return i;
        }
        i += 1;
    }
    proof {
        lemma_find_dot_at(s@, i as int);
    }
    i
}

/// Every byte of a minted token is ASCII, so the token is one valid UTF-8
/// block.
proof fn lemma_ascii_valid_utf8(s: Seq<u8>)
    requires
        forall|i: int| 0 <= i < s.len() ==> s[i] < 128,
    ensures
        valid_utf8(s),
{
    assert(s.subrange(0, 0) =~= Seq::<u8>::empty());
    assert(partial_valid_utf8(s, 0));
    assert forall|i: int| 0 <= i < s.len() implies #[trigger] is_leading_byte_width_1(s[i]) by {}
    partial_valid_utf8_extend_ascii_block(s, 0, s.len() as int);
    assert(s.subrange(0, s.len() as int) =~= s);
}

/// Mint a token at a given moment: claims carrying the subject, the
/// username, issued-at `now` and expiry `now` plus the configured lifetime,
/// signed with the configured secret. Owed to succeed whenever the
/// configuration is well-formed and the moment is nonnegative and leaves
/// the expiry representable.
pub fn issue_token_at(user_id: u128, username: &str, config: &Config, now: i64) -> (r: AppResult<
    String,
>)
    ensures
        r matches Ok(t) ==> config.wf() && 0 <= now && now + config.spec_ttl_seconds() <= i64::MAX
            && encode_utf8(t@) == token_for(
            secret_of(*config),
            user_id as int,
            encode_utf8(username@),
            now as int,
            now + config.spec_ttl_seconds(),
        ),
        config.wf() && 0 <= now && now + config.spec_ttl_seconds() <= i64::MAX ==> r is Ok,
        r matches Err(e) ==> e matches AppError::Internal(_),
{
    if config.jwt_expiration_hours < 1 || config.jwt_expiration_hours > 0x10000000 {
        return Err(AppError::Internal("Token lifetime out of range".to_owned()));
    }
    if now < 0 {
        return Err(AppError::Internal("Clock reads before the epoch".to_owned()));
    }
    let ttl = config.ttl_seconds();
    if now > i64::MAX - ttl {
        return Err(AppError::Internal("Expiry out of range".to_owned()));
    }
    let exp = now + ttl;
    let payload = ser_claims_exec(user_id, username.as_bytes(), now, exp);
    let ghost pb = ser_claims(user_id as int, encode_utf8(username@), now as int, exp as int);
    let ep = b64_encode(payload.as_slice());
    let hj = header_json_vec();
    let eh = b64_encode(hj.as_slice());
    let mut tok: Vec<u8> = Vec::new();
    push_all(&mut tok, eh.as_slice());
    tok.push(46);
    push_all(&mut tok, ep.as_slice());
    assert(tok@ =~= signing_input(pb));
    let mac = hmac_sign(config.jwt_secret.as_str().as_bytes(), tok.as_slice());
    tok.push(46);
    push_all(&mut tok, mac.as_slice());
    let ghost tf = token_for(
        secret_of(*config),
        user_id as int,
        encode_utf8(username@),
        now as int,
        exp as int,
    );
    assert(tok@ =~= tf);
    proof {
        lemma_b64_encode_is_b64(header_json());
        lemma_b64_encode_is_b64(pb);
        assert forall|k: int| 0 <= k < tok@.len() implies tok@[k] < 128 by {
            let si = signing_input(pb);
            if k < si.len() {
                assert(tok@[k] == si[k]);
                if k < eh@.len() {
                    assert(si[k] == b64_encode_spec(header_json())[k]);
                } else if k > eh@.len() {
                    assert(si[k] == b64_encode_spec(pb)[k - eh@.len() - 1]);
                }
            } else if k > si.len() {
                assert(tok@[k] == mac@[k - si.len() - 1]);
            }
        }
        lemma_ascii_valid_utf8(tok@);
    }
    let ghost tokv = tok@;
    match string_from_utf8(tok) {
        Some(t) => {
            proof {
                vstd::utf8::decode_utf8_encode_utf8(tokv);
            }
            Ok(t)
        },
        None => Err(AppError::Internal("Token rendering failed".to_owned())),
    }
}

/// Mint a token using the process clock (UTC, whole seconds): issued now,
/// expiring one configured lifetime later. The Ok value is the canonical
/// token for some nonnegative moment; nothing else about the clock is
/// assumed.
pub fn generate_token(user_id: u128, username: &str, config: &Config) -> (r: AppResult<String>)
    ensures
        r matches Ok(t) ==> config.wf() && exists|now: int|
            0 <= now && #[trigger] token_for(
                secret_of(*config),
                user_id as int,
                encode_utf8(username@),
                now,
                now + config.spec_ttl_seconds(),
            ) == encode_utf8(t@),
        r matches Err(e) ==> e matches AppError::Internal(_),
{
    let now = clock::now_unix();
    match issue_token_at(user_id, username, config, now) {
        Ok(t) => {
            proof {
                assert(token_for(
                    secret_of(*config),
                    user_id as int,
                    encode_utf8(username@),
                    now as int,
                    now as int + config.spec_ttl_seconds(),
                ) == encode_utf8(t@));
            }
            Ok(t)
        },
        Err(e) => Err(e),
    }
}

/// Validate a token at a given moment: exactly the decision of
/// [`spec_validate`] on the token's bytes.
pub fn validate_token_at(token: &str, config: &Config, now: i64) -> (r: Result<
    Claims,
    TokenError,
>)
    ensures
        r matches Ok(c) ==> spec_validate(encode_utf8(token@), secret_of(*config), now as int)
            == Ok::<ClaimsParts, TokenError>(c.parts()),
        r matches Err(e) ==> spec_validate(encode_utf8(token@), secret_of(*config), now as int)
            == Err::<ClaimsParts, TokenError>(e),
{
    let tb = token.as_bytes();
    let ghost tv = encode_utf8(token@);
    let n: usize = tb.len();
    let i = find_dot_exec(tb);
    if i == n {
        return Err(TokenError::Invalid);
    }
    let rest = &tb[i + 1..n];
    assert(rest@ =~= tv.skip(i as int + 1));
    let j = find_dot_exec(rest);
    if j == rest.len() {
        return Err(TokenError::Invalid);
    }
    let header = &tb[0..i];
    assert(header@ =~= tv.take(i as int));
    let hj = header_json_vec();
    let eh = b64_encode(hj.as_slice());
    if !ct_eq(header, eh.as_slice()) {
        return Err(TokenError::Invalid);
    }
    let si = &tb[0..i + 1 + j];
    assert(si@ =~= tv.take(i as int + 1 + j as int));
    let mac = hmac_sign(config.jwt_secret.as_str().as_bytes(), si);
    let sig = &rest[j + 1..rest.len()];
    assert(sig@ =~= tv.skip(i as int + 1).skip(j as int + 1));
    if !ct_eq(sig, mac.as_slice()) {
        return Err(TokenError::Invalid);
    }
    let payload = &rest[0..j];
    assert(payload@ =~= tv.skip(i as int + 1).take(j as int));
    let pb = match b64_decode(payload) {
        Some(v) => v,
        None => {
            return Err(TokenError::Invalid);
        },
    };
    let parsed = match parse_claims_exec(pb.as_slice()) {
        Some(v) => v,
        None => {
            return Err(TokenError::Invalid);
        },
    };
    let (sub, ub, iat, exp) = parsed;
    let ghost ubv = ub@;
    let uname = match string_from_utf8(ub) {
        Some(s) => s,
        None => {
            return Err(TokenError::Invalid);
        },
    };
    if now > exp {
        return Err(TokenError::Expired);
    }
    proof {
        vstd::utf8::decode_utf8_encode_utf8(ubv);
    }
    Ok(Claims { sub, username: uname, exp, iat })
}

/// Validate a token against the process clock, translating the two failure
/// kinds to the service's authentication error with the messages the
/// handlers log; the distinction never reaches the end user.
pub fn validate_token(token: &str, config: &Config) -> (r: AppResult<Claims>)
    ensures
        r matches Ok(c) ==> exists|now: int|
            #[trigger] spec_validate(encode_utf8(token@), secret_of(*config), now) == Ok::<
                ClaimsParts,
                TokenError,
            >(c.parts()),
        r matches Err(e) ==> e matches AppError::Auth(m) && exists|now: int|
            ((m@ == "Token has expired"@ && #[trigger] spec_validate(
                encode_utf8(token@),
                secret_of(*config),
                now,
            ) == Err::<ClaimsParts, TokenError>(TokenError::Expired)) || (m@ == "Invalid token"@
                && spec_validate(encode_utf8(token@), secret_of(*config), now) == Err::<
                ClaimsParts,
                TokenError,
            >(TokenError::Invalid))),
{
    let now = clock::now_unix();
    match validate_token_at(token, config, now) {
        Ok(c) => {
            proof {
                assert(spec_validate(encode_utf8(token@), secret_of(*config), now as int) == Ok::<
                    ClaimsParts,
                    TokenError,
                >(c.parts()));
            }
            Ok(c)
        },
        Err(TokenError::Expired) => {
            proof {
                assert(spec_validate(encode_utf8(token@), secret_of(*config), now as int) == Err::<
                    ClaimsParts,
                    TokenError,
                >(TokenError::Expired));
            }
            Err(AppError::Auth("Token has expired".to_owned()))
        },
        Err(TokenError::Invalid) => {
            proof {
                assert(spec_validate(encode_utf8(token@), secret_of(*config), now as int) == Err::<
                    ClaimsParts,
                    TokenError,
                >(TokenError::Invalid));
            }
            Err(AppError::Auth("Invalid token".to_owned()))
        },
    }
}

/// The three parts of a minted token: the header rendering reaches to the
/// first dot, the payload rendering to the second, and the MAC fills the
/// rest.
proof fn lemma_token_split(secret: Seq<u8>, sub: int, uname: Seq<u8>, iat: int, exp: int)
    ensures
        ({
            let pb = ser_claims(sub, uname, iat, exp);
            let eh = b64_encode_spec(header_json());
            let ep = b64_encode_spec(pb);
            let t = token_for(secret, sub, uname, iat, exp);
            let i = find_dot(t);
            &&& i == eh.len()
            &&& i < t.len()
            &&& t.take(i) == eh
            &&& find_dot(t.skip(i + 1)) == ep.len()
            &&& ep.len() < t.skip(i + 1).len()
            &&& t.skip(i + 1).take(ep.len() as int) == ep
            &&& t.skip(i + 1).skip(ep.len() as int + 1) == mac_of(secret, signing_input(pb))
            &&& t.take(i + 1 + ep.len()) == signing_input(pb)
        }),
{
    let pb = ser_claims(sub, uname, iat, exp);
    let eh = b64_encode_spec(header_json());
    let ep = b64_encode_spec(pb);
    let mac = mac_of(secret, signing_input(pb));
    let t = token_for(secret, sub, uname, iat, exp);
    lemma_b64_encode_is_b64(header_json());
    lemma_b64_encode_is_b64(pb);
    assert(t.len() == eh.len() + 1 + ep.len() + 1 + mac.len());
    assert forall|k: int| 0 <= k < eh.len() implies t[k] != 46 by {
        assert(t[k] == eh[k]);
        assert(is_b64_byte(eh[k]));
    }
    assert(t[eh.len() as int] == 46);
    lemma_find_dot_at(t, eh.len() as int);
    let rest = t.skip(eh.len() as int + 1);
    assert(rest =~= ep + seq![46u8] + mac);
    assert forall|k: int| 0 <= k < ep.len() implies rest[k] != 46 by {
        assert(rest[k] == ep[k]);
        assert(is_b64_byte(ep[k]));
    }
    assert(rest[ep.len() as int] == 46);
    lemma_find_dot_at(rest, ep.len() as int);
    assert(t.take(eh.len() as int) =~= eh);
    assert(rest.take(ep.len() as int) =~= ep);
    assert(rest.skip(ep.len() as int + 1) =~= mac);
    assert(t.take(eh.len() as int + 1 + ep.len() as int) =~= signing_input(pb));
}

/// Issuing and validating with the same secret returns, at any moment not
/// past the expiry, exactly the claims that were issued; past the expiry it
/// fails with the expiry error, distinguishable from a tampered token.
pub proof fn lemma_issue_validate(
    secret: Seq<u8>,
    sub: int,
    uname: Seq<u8>,
    iat: int,
    exp: int,
    now: int,
)
    requires
        0 <= sub < 0x100000000000000000000000000000000,
        0 <= iat <= 0x7fffffffffffffff,
        0 <= exp <= 0x7fffffffffffffff,
        valid_utf8(uname),
    ensures
        spec_validate(token_for(secret, sub, uname, iat, exp), secret, now) == (if now <= exp {
            Ok::<ClaimsParts, TokenError>(ClaimsParts { sub, username_bytes: uname, iat, exp })
        } else {
            Err::<ClaimsParts, TokenError>(TokenError::Expired)
        }),
{
    lemma_token_split(secret, sub, uname, iat, exp);
    lemma_b64_round_trip(ser_claims(sub, uname, iat, exp));
    lemma_claims_round_trip(sub, uname, iat, exp);
}

/// A token signed under one secret is accepted under another secret only
/// where the two secrets give the same MAC for its signing input: whenever
/// the MACs differ, validation reports a tampered token, never success and
/// never a bare expiry.
pub proof fn lemma_wrong_secret_rejected(
    secret_used: Seq<u8>,
    secret_checked: Seq<u8>,
    sub: int,
    uname: Seq<u8>,
    iat: int,
    exp: int,
    now: int,
)
    requires
        mac_of(secret_checked, signing_input(ser_claims(sub, uname, iat, exp))) != mac_of(
            secret_used,
            signing_input(ser_claims(sub, uname, iat, exp)),
        ),
    ensures
        spec_validate(token_for(secret_used, sub, uname, iat, exp), secret_checked, now) == Err::<
            ClaimsParts,
            TokenError,
        >(TokenError::Invalid),
{
    lemma_token_split(secret_used, sub, uname, iat, exp);
}

/// A minted token whose signature part was altered in any way, with the
/// signing input and its separator left in place, is rejected as invalid,
/// never accepted and never reported as a bare expiry.
pub proof fn lemma_altered_signature_rejected(
    secret: Seq<u8>,
    sub: int,
    uname: Seq<u8>,
    iat: int,
    exp: int,
    now: int,
    t2: Seq<u8>,
)
    requires
        ({
            let t = token_for(secret, sub, uname, iat, exp);
            let si = signing_input(ser_claims(sub, uname, iat, exp));
            &&& t2.len() == t.len()
            &&& (forall|j: int| 0 <= j <= si.len() ==> t2[j] == t[j])
            &&& t2.skip(si.len() as int + 1) != mac_of(secret, si)
        }),
    ensures
        spec_validate(t2, secret, now) == Err::<ClaimsParts, TokenError>(TokenError::Invalid),
{
    lemma_token_split(secret, sub, uname, iat, exp);
    let pb = ser_claims(sub, uname, iat, exp);
    let eh = b64_encode_spec(header_json());
    let ep = b64_encode_spec(pb);
    let si = signing_input(pb);
    let t = token_for(secret, sub, uname, iat, exp);
    assert(si.len() == eh.len() + 1 + ep.len());
    assert forall|j: int| 0 <= j < eh.len() implies t2[j] != 46 by {
        assert(t2[j] == t[j]);
        assert(t[j] == t.take(eh.len() as int)[j]);
        lemma_b64_encode_is_b64(header_json());
        assert(is_b64_byte(eh[j]));
    }
    assert(t2[eh.len() as int] == t[eh.len() as int]);
    lemma_find_dot_at(t2, eh.len() as int);
    let rest2 = t2.skip(eh.len() as int + 1);
    let rest = t.skip(eh.len() as int + 1);
    assert forall|j: int| 0 <= j < ep.len() implies rest2[j] != 46 by {
        assert(rest2[j] == t2[eh.len() + 1 + j]);
        assert(t2[eh.len() + 1 + j] == t[eh.len() + 1 + j]);
        assert(rest[j] == t[eh.len() + 1 + j]);
        assert(rest[j] == rest.take(ep.len() as int)[j]);
        lemma_b64_encode_is_b64(pb);
        assert(is_b64_byte(ep[j]));
    }
    assert(rest2[ep.len() as int] == t2[si.len() as int] && t2[si.len() as int]
        == t[si.len() as int]);
    assert(t[si.len() as int] == 46);
    lemma_find_dot_at(rest2, ep.len() as int);
    assert(t2.take(eh.len() as int) =~= t.take(eh.len() as int));
    assert(t2.take(eh.len() as int + 1 + ep.len() as int) =~= si) by {
        assert forall|j: int| 0 <= j < si.len() implies t2.take(
            eh.len() as int + 1 + ep.len() as int,
        )[j] == si[j] by {
            assert(t2[j] == t[j]);
            assert(t[j] == t.take(si.len() as int)[j]);
            assert(t.take(eh.len() as int + 1 + ep.len() as int) == si);
        }
    }
    assert(rest2.skip(ep.len() as int + 1) =~= t2.skip(si.len() as int + 1));
}

/// Flipping one byte of a minted token's signature part is rejected as
/// invalid: the changed byte makes the signature differ from the MAC of the
/// unchanged signing input.
pub proof fn lemma_flipped_signature_byte_rejected(
    secret: Seq<u8>,
    sub: int,
    uname: Seq<u8>,
    iat: int,
    exp: int,
    now: int,
    t2: Seq<u8>,
    k: int,
)
    requires
        ({
            let t = token_for(secret, sub, uname, iat, exp);
            let si = signing_input(ser_claims(sub, uname, iat, exp));
            &&& t2.len() == t.len()
            &&& si.len() < k < t.len()
            &&& t2[k] != t[k]
            &&& (forall|j: int| 0 <= j < t.len() && j != k ==> t2[j] == t[j])
        }),
    ensures
        spec_validate(t2, secret, now) == Err::<ClaimsParts, TokenError>(TokenError::Invalid),
{
    lemma_token_split(secret, sub, uname, iat, exp);
    let si = signing_input(ser_claims(sub, uname, iat, exp));
    let t = token_for(secret, sub, uname, iat, exp);
    let mac = mac_of(secret, si);
    assert(t.skip(si.len() as int + 1) =~= mac);
    let sig2 = t2.skip(si.len() as int + 1);
    assert(sig2[k - si.len() - 1] == t2[k]);
    assert(mac[k - si.len() - 1] == t[k]);
    assert(sig2 != mac);
    lemma_altered_signature_rejected(secret, sub, uname, iat, exp, now, t2);
}

/// Validation accepts a token only when its signature part is exactly the
/// MAC of its signing input under the checked secret: any outcome other
/// than the tamper error pins the signature.
pub proof fn lemma_validate_needs_mac(t: Seq<u8>, secret: Seq<u8>, now: int)
    requires
        spec_validate(t, secret, now) != Err::<ClaimsParts, TokenError>(TokenError::Invalid),
    ensures
        ({
            let i = find_dot(t);
            let rest = t.skip(i + 1);
            let j = find_dot(rest);
            rest.skip(j + 1) == mac_of(secret, t.take(i + 1 + j))
        }),
{
}

} // verus!
