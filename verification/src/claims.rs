use vstd::prelude::*;

verus! {

use crate::numfmt::{
    dec_of, dec_push, hex_digit, hex_fixed, hex_fixed_push, hex_val_of, is_digit, is_hex_byte,
    lemma_dec_of_digits, lemma_hex_fixed_digits, lemma_hex_round_trip, lemma_parse_dec_of,
    lemma_pow16_32, parse_dec, parse_dec_exec, parse_hex32, parse_hex_fixed,
};

/// The structured payload of a session token: subject identifier, username,
/// expiry and issued-at timestamps (seconds since the Unix epoch). A claim
/// set is immutable once minted; it is only ever re-issued.
#[derive(Debug)]
pub struct Claims {
    pub sub: u128,
    pub username: String,
    pub exp: i64,
    pub iat: i64,
}

impl Clone for Claims {
    /// An exact copy of the claim set.
    fn clone(&self) -> (r: Self)
        ensures
            r == *self,
    {
        Claims {
            sub: self.sub,
            username: self.username.clone(),
            exp: self.exp,
            iat: self.iat,
        }
    }
}

/// The payload fields as plain mathematical values: the subject, the
/// username's UTF-8 bytes, and the two timestamps.
pub struct ClaimsParts {
    pub sub: int,
    pub username_bytes: Seq<u8>,
    pub exp: int,
    pub iat: int,
}

impl Claims {
    /// The mathematical content of this claim set.
    pub open spec fn parts(self) -> ClaimsParts {
        ClaimsParts {
            sub: self.sub as int,
            username_bytes: vstd::utf8::encode_utf8(self.username@),
            exp: self.exp as int,
            iat: self.iat as int,
        }
    }
}

/// The escaping of one byte inside the username string: quote and backslash
/// get a backslash, control bytes become a four-digit escape, everything
/// else stands as itself.
pub open spec fn esc_byte(b: u8) -> Seq<u8> {
    if b == 34 {
        seq![92u8, 34u8]
    } else if b == 92 {
        seq![92u8, 92u8]
    } else if b < 32 {
        seq![92u8, 117u8, 48u8, 48u8, hex_digit((b / 16) as u8), hex_digit((b % 16) as u8)]
    } else {
        seq![b]
    }
}

/// The escaped form of a byte string.
pub open spec fn esc(s: Seq<u8>) -> Seq<u8>
    decreases s.len(),
{
    if s.len() == 0 {
        Seq::empty()
    } else {
        esc_byte(s[0]) + esc(s.drop_first())
    }
}

/// Prefix one byte onto an unescaping result.
pub open spec fn unesc_prepend(b: u8, r: Option<(Seq<u8>, int)>) -> Option<(Seq<u8>, int)> {
    match r {
        Some((t, j)) => Some((seq![b] + t, j)),
        None => None,
    }
}

/// Read an escaped string body starting at i, through its closing quote:
/// the content bytes and the index just past the quote. Exactly the
/// escapes that [`esc_byte`] emits are accepted.
pub open spec fn unesc_from(s: Seq<u8>, i: int) -> Option<(Seq<u8>, int)>
    decreases s.len() - i,
    when 0 <= i <= s.len()
{
    if i == s.len() {
        None
    } else if s[i] == 34 {
        Some((Seq::empty(), i + 1))
    } else if s[i] == 92 {
        if i + 1 == s.len() {
            None
        } else if s[i + 1] == 34 {
            unesc_prepend(34, unesc_from(s, i + 2))
        } else if s[i + 1] == 92 {
            unesc_prepend(92, unesc_from(s, i + 2))
        } else if s[i + 1] == 117 && i + 5 < s.len() && s[i + 2] == 48 && s[i + 3] == 48
            && is_hex_byte(s[i + 4]) && is_hex_byte(s[i + 5]) {
            unesc_prepend(
                (hex_val_of(s[i + 4]) * 16 + hex_val_of(s[i + 5])) as u8,
                unesc_from(s, i + 6),
            )
        } else {
            None
        }
    } else if s[i] < 32 {
        None
    } else {
        unesc_prepend(s[i], unesc_from(s, i + 1))
    }
}

/// Unescaping inverts escaping: reading the escaped form of u, followed by
/// a closing quote, yields u and stops just past the quote.
pub proof fn lemma_unesc_esc(s: Seq<u8>, i: int, u: Seq<u8>)
    requires
        0 <= i <= s.len(),
        i + esc(u).len() + 1 <= s.len(),
        s.subrange(i, i + esc(u).len()) == esc(u),
        s[i + esc(u).len()] == 34,
    ensures
        unesc_from(s, i) == Some((u, i + esc(u).len() + 1)),
    decreases u.len(),
{
    if u.len() == 0 {
        assert(esc(u) =~= Seq::<u8>::empty());
        assert(s[i] == 34);
        assert(u =~= Seq::<u8>::empty());
    } else {
        let b = u[0];
        let eb = esc_byte(b);
        let ut = u.drop_first();
        let rest = esc(ut);
        assert(esc(u) == eb + rest);
        let el = esc(u).len();
        let sr = s.subrange(i, i + el);
        assert forall|t: int| 0 <= t < el implies s[i + t] == esc(u)[t] by {
            assert(sr[t] == s[i + t]);
            assert(sr[t] == esc(u)[t]);
        }
        assert(s.subrange(i + eb.len(), i + eb.len() + rest.len()) =~= rest) by {
            assert forall|t: int| 0 <= t < rest.len() implies s.subrange(
                i + eb.len(),
                i + eb.len() + rest.len(),
            )[t] == rest[t] by {
                assert(s[i + eb.len() + t] == esc(u)[eb.len() + t]);
                assert(esc(u)[eb.len() + t] == rest[t]);
            }
        }
        lemma_unesc_esc(s, i + eb.len() as int, ut);
        assert(seq![b] + ut =~= u);
        if b == 34 {
            assert(s[i + 0] == esc(u)[0] && s[i + 1] == esc(u)[1]);
            assert(esc(u)[0] == eb[0] && esc(u)[1] == eb[1]);
            assert(s[i] == 92 && s[i + 1] == 34);
        } else if b == 92 {
            assert(s[i + 0] == esc(u)[0] && s[i + 1] == esc(u)[1]);
            assert(esc(u)[0] == eb[0] && esc(u)[1] == eb[1]);
            assert(s[i] == 92 && s[i + 1] == 92);
        } else if b < 32 {
            assert(s[i + 0] == esc(u)[0] && s[i + 1] == esc(u)[1] && s[i + 2] == esc(u)[2] && s[i
                + 3] == esc(u)[3] && s[i + 4] == esc(u)[4] && s[i + 5] == esc(u)[5]);
            assert(esc(u)[0] == eb[0] && esc(u)[1] == eb[1] && esc(u)[2] == eb[2] && esc(u)[3]
                == eb[3] && esc(u)[4] == eb[4] && esc(u)[5] == eb[5]);
            assert(s[i] == 92 && s[i + 1] == 117 && s[i + 2] == 48 && s[i + 3] == 48);
            assert(s[i + 4] == hex_digit((b / 16) as u8) && s[i + 5] == hex_digit((b % 16) as u8));
            assert(is_hex_byte(s[i + 4]) && is_hex_byte(s[i + 5]));
            assert(hex_val_of(s[i + 4]) * 16 + hex_val_of(s[i + 5]) == b);
        } else {
            assert(s[i + 0] == esc(u)[0]);
            assert(esc(u)[0] == eb[0]);
            assert(s[i] == b);
        }
    }
}

/// `{"sub":"`
pub open spec fn lit_sub() -> Seq<u8> {
    seq![123u8, 34u8, 115u8, 117u8, 98u8, 34u8, 58u8, 34u8]
}

/// `","username":"`
pub open spec fn lit_username() -> Seq<u8> {
    seq![34u8, 44u8, 34u8, 117u8, 115u8, 101u8, 114u8, 110u8, 97u8, 109u8, 101u8, 34u8, 58u8, 34u8]
}

/// `,"iat":` (the username's closing quote stands just before it)
pub open spec fn lit_iat() -> Seq<u8> {
    seq![44u8, 34u8, 105u8, 97u8, 116u8, 34u8, 58u8]
}

/// `,"exp":`
pub open spec fn lit_exp() -> Seq<u8> {
    seq![44u8, 34u8, 101u8, 120u8, 112u8, 34u8, 58u8]
}

/// Whether the bytes at i are exactly l.
pub open spec fn lit_at(s: Seq<u8>, i: int, l: Seq<u8>) -> bool {
    0 <= i && i + l.len() <= s.len() && s.subrange(i, i + l.len()) == l
}

/// The canonical payload serialization:
/// `{"sub":"<32 hex digits>","username":"<escaped>","iat":<dec>,"exp":<dec>}`.
pub open spec fn ser_claims(sub: int, uname: Seq<u8>, iat: int, exp: int) -> Seq<u8> {
    lit_sub() + hex_fixed(sub, 32) + lit_username() + esc(uname) + seq![34u8] + lit_iat() + dec_of(
        iat,
    ) + lit_exp() + dec_of(exp) + seq![125u8]
}

/// Parse the canonical payload, the exact inverse of [`ser_claims`]:
/// anything but a canonical serialization is rejected.
pub open spec fn parse_claims(p: Seq<u8>) -> Option<ClaimsParts> {
    if !lit_at(p, 0, lit_sub()) {
        None
    } else {
        let i1 = lit_sub().len() as int;
        match parse_hex_fixed(p, i1, 32) {
            None => None,
            Some(subv) => {
                let i2 = i1 + 32;
                if !lit_at(p, i2, lit_username()) {
                    None
                } else {
                    let i3 = i2 + lit_username().len();
                    match unesc_from(p, i3) {
                        None => None,
                        Some((ub, i4)) => {
                            if !lit_at(p, i4, lit_iat()) {
                                None
                            } else {
                                let i5 = i4 + lit_iat().len();
                                match parse_dec(p, i5) {
                                    None => None,
                                    Some((iatv, i6)) => {
                                        if !lit_at(p, i6, lit_exp()) {
                                            None
                                        } else {
                                            let i7 = i6 + lit_exp().len();
                                            match parse_dec(p, i7) {
                                                None => None,
                                                Some((expv, i8)) => {
                                                    if i8 + 1 == p.len() && p[i8] == 125 {
                                                        Some(
                                                            ClaimsParts {
                                                                sub: subv,
                                                                username_bytes: ub,
                                                                iat: iatv,
                                                                exp: expv,
                                                            },
                                                        )
                                                    } else {
                                                        None
                                                    }
                                                },
                                            }
                                        }
                                    },
                                }
                            }
                        },
                    }
                }
            },
        }
    }
}


/// Parsing inverts serialization: the canonical rendering of a claim set
/// parses back to exactly that claim set.
pub proof fn lemma_claims_round_trip(sub: int, uname: Seq<u8>, iat: int, exp: int)
    requires
        0 <= sub < 0x100000000000000000000000000000000,
        0 <= iat <= 0x7fffffffffffffff,
        0 <= exp <= 0x7fffffffffffffff,
    ensures
        parse_claims(ser_claims(sub, uname, iat, exp)) == Some(
            ClaimsParts { sub, username_bytes: uname, iat, exp },
        ),
{
    let p = ser_claims(sub, uname, iat, exp);
    let hx = hex_fixed(sub, 32);
    let eu = esc(uname);
    let di = dec_of(iat);
    let de = dec_of(exp);
    lemma_hex_fixed_digits(sub, 32);
    lemma_dec_of_digits(iat);
    lemma_dec_of_digits(exp);
    let o2 = 8 + 32;
    let o3 = o2 + 14;
    let o4 = o3 + eu.len();
    let o5 = o4 + 1;
    let o6 = o5 + 7;
    let o7 = o6 + di.len();
    let o8 = o7 + 7;
    let o9 = o8 + de.len();
    assert(p.len() == o9 + 1);
    assert(p.subrange(0, 8) =~= lit_sub());
    assert(p.subrange(8, o2 as int) =~= hx);
    assert(p.subrange(o2 as int, o3 as int) =~= lit_username());
    assert(p.subrange(o3 as int, o4 as int) =~= eu);
    assert(p[o4 as int] == 34);
    assert(p.subrange(o5 as int, o6 as int) =~= lit_iat());
    assert(p.subrange(o6 as int, o7 as int) =~= di);
    assert(p.subrange(o7 as int, o8 as int) =~= lit_exp());
    assert(p.subrange(o8 as int, o9 as int) =~= de);
    assert(p[o9 as int] == 125);
    assert(lit_at(p, 0, lit_sub()));
    assert forall|k: int| 8 <= k < o2 implies is_hex_byte(p[k]) by {
        assert(p[k] == p.subrange(8, o2 as int)[k - 8]);
    }
    lemma_pow16_32();
    lemma_hex_round_trip(sub, 32);
    assert(parse_hex_fixed(p, 8, 32) == Some(sub));
    assert(lit_at(p, o2 as int, lit_username()));
    lemma_unesc_esc(p, o3 as int, uname);
    assert(unesc_from(p, o3 as int) == Some((uname, o5 as int)));
    assert(lit_at(p, o5 as int, lit_iat()));
    assert(p[o7 as int] == 44 && !is_digit(p[o7 as int]));
    lemma_parse_dec_of(p, o6 as int, iat);
    assert(parse_dec(p, o6 as int) == Some((iat, o7 as int)));
    assert(lit_at(p, o7 as int, lit_exp()));
    assert(p[o9 as int] == 125 && !is_digit(p[o9 as int]));
    lemma_parse_dec_of(p, o8 as int, exp);
    assert(parse_dec(p, o8 as int) == Some((exp, o9 as int)));
}

fn push_lit_sub(out: &mut Vec<u8>)
    ensures
        final(out)@ == old(out)@ + lit_sub(),
{
    out.push(123);
    out.push(34);
    out.push(115);
    out.push(117);
    out.push(98);
    out.push(34);
    out.push(58);
    out.push(34);
    assert(out@ =~= old(out)@ + lit_sub());
}

fn push_lit_username(out: &mut Vec<u8>)
    ensures
        final(out)@ == old(out)@ + lit_username(),
{
    out.push(34);
    out.push(44);
    out.push(34);
    out.push(117);
    out.push(115);
    out.push(101);
    out.push(114);
    out.push(110);
    out.push(97);
    out.push(109);
    out.push(101);
    out.push(34);
    out.push(58);
    out.push(34);
    assert(out@ =~= old(out)@ + lit_username());
}

fn push_lit_iat(out: &mut Vec<u8>)
    ensures
        final(out)@ == old(out)@ + lit_iat(),
{
    out.push(44);
    out.push(34);
    out.push(105);
    out.push(97);
    out.push(116);
    out.push(34);
    out.push(58);
    assert(out@ =~= old(out)@ + lit_iat());
}

fn push_lit_exp(out: &mut Vec<u8>)
    ensures
        final(out)@ == old(out)@ + lit_exp(),
{
    out.push(44);
    out.push(34);
    out.push(101);
    out.push(120);
    out.push(112);
    out.push(34);
    out.push(58);
    assert(out@ =~= old(out)@ + lit_exp());
}

fn esc_append(s: &[u8], from: usize, out: &mut Vec<u8>)
    requires
        from <= s@.len(),
    ensures
        final(out)@ == old(out)@ + esc(s@.skip(from as int)),
    decreases s@.len() - from,
{
    let ghost g = s@.skip(from as int);
    if from == s.len() {
        assert(g =~= Seq::<u8>::empty());
        assert(out@ =~= out@ + esc(g));
        return ;
    }
    let b = s[from];
    assert(g[0] == b);
    if b == 34 {
        out.push(92);
        out.push(34);
    } else if b == 92 {
        out.push(92);
        out.push(92);
    } else if b < 32 {
        out.push(92);
        out.push(117);
        out.push(48);
        out.push(48);
        out.push(crate::numfmt::hex_digit_byte(b / 16));
        out.push(crate::numfmt::hex_digit_byte(b % 16));
    } else {
        out.push(b);
    }
    assert(out@ =~= old(out)@ + esc_byte(b));
    esc_append(s, from + 1, out);
    assert(g.drop_first() =~= s@.skip(from as int + 1));
    assert(out@ =~= old(out)@ + esc(g));
}

fn unesc_exec(s: &[u8], i: usize) -> (r: Option<(Vec<u8>, usize)>)
    requires
        i <= s@.len(),
    ensures
        match r {
            Some((v, j)) => unesc_from(s@, i as int) == Some((v@, j as int)) && i < j <= s@.len(),
            None => unesc_from(s@, i as int) is None,
        },
    decreases s@.len() - i,
{
    if i == s.len() {
        return None;
    }
    let b = s[i];
    if b == 34 {
        let out: Vec<u8> = Vec::new();
        assert(out@ =~= Seq::<u8>::empty());
        return Some((out, i + 1));
    }
    let first: u8;
    let next: usize;
    if b == 92 {
        if i + 1 == s.len() {
            return None;
        }
        let c = s[i + 1];
        if c == 34 {
            first = 34;
            next = i + 2;
        } else if c == 92 {
            first = 92;
            next = i + 2;
        } else if c == 117 && s.len() - i > 5 {
            let d2 = s[i + 2];
            let d3 = s[i + 3];
            let h1 = s[i + 4];
            let h2 = s[i + 5];
            if d2 != 48 || d3 != 48 {
                return None;
            }
            let v1: u8;
            if 48 <= h1 && h1 <= 57 {
                v1 = h1 - 48;
            } else if 97 <= h1 && h1 <= 102 {
                v1 = h1 - 87;
            } else {
                return None;
            }
            let v2: u8;
            if 48 <= h2 && h2 <= 57 {
                v2 = h2 - 48;
            } else if 97 <= h2 && h2 <= 102 {
                v2 = h2 - 87;
            } else {
                return None;
            }
            first = v1 * 16 + v2;
            next = i + 6;
        } else {
            return None;
        }
    } else if b < 32 {
        return None;
    } else {
        first = b;
        next = i + 1;
    }
    match unesc_exec(s, next) {
        None => None,
        Some((tail, j)) => {
            let mut out: Vec<u8> = Vec::new();
            out.push(first);
            let mut k: usize = 0;
            while k < tail.len()
                invariant
                    0 <= k <= tail@.len(),
                    out@.len() == 1 + k,
                    out@[0] == first,
                    forall|t: int| 0 <= t < k ==> out@[1 + t] == tail@[t],
                decreases tail@.len() - k,
            {
                out.push(tail[k]);
                k += 1;
            }
            assert(out@ =~= seq![first] + tail@);
            Some((out, j))
        },
    }
}

fn lit_at_exec(p: &[u8], i: usize, l: &[u8]) -> (r: bool)
    requires
        i <= p@.len(),
    ensures
        r == lit_at(p@, i as int, l@),
{
    if p.len() - i < l.len() {
        return false;
    }
    let mut k: usize = 0;
    while k < l.len()
        invariant
            i + l@.len() <= p@.len(),
            p@.len() <= usize::MAX,
            0 <= k <= l@.len(),
            forall|t: int| 0 <= t < k ==> p@[i + t] == l@[t],
        decreases l@.len() - k,
    {
        if p[i + k] != l[k] {
            assert(p@.subrange(i as int, i as int + l@.len())[k as int] != l@[k as int]);
            return false;
        }
        k += 1;
    }
    assert(p@.subrange(i as int, i as int + l@.len()) =~= l@);
    true
}

/// Render a claim set payload canonically.
pub fn ser_claims_exec(sub: u128, uname: &[u8], iat: i64, exp: i64) -> (r: Vec<u8>)
    requires
        iat >= 0,
        exp >= 0,
    ensures
        r@ == ser_claims(sub as int, uname@, iat as int, exp as int),
{
    let mut out: Vec<u8> = Vec::new();
    push_lit_sub(&mut out);
    hex_fixed_push(sub, 32, &mut out);
    push_lit_username(&mut out);
    esc_append(uname, 0, &mut out);
    assert(uname@.skip(0) =~= uname@);
    out.push(34);
    push_lit_iat(&mut out);
    dec_push(iat, &mut out);
    push_lit_exp(&mut out);
    dec_push(exp, &mut out);
    out.push(125);
    assert(out@ =~= ser_claims(sub as int, uname@, iat as int, exp as int));
    out
}

/// Parse a canonical claim set payload; anything else is rejected.
pub fn parse_claims_exec(p: &[u8]) -> (r: Option<(u128, Vec<u8>, i64, i64)>)
    ensures
        match r {
            Some((sub, ub, iat, exp)) => parse_claims(p@) == Some(
                ClaimsParts {
                    sub: sub as int,
                    username_bytes: ub@,
                    iat: iat as int,
                    exp: exp as int,
                },
            ),
            None => parse_claims(p@) is None,
        },
{
    let n: usize = p.len();
    let mut lit: Vec<u8> = Vec::new();
    push_lit_sub(&mut lit);
    if !lit_at_exec(p, 0, lit.as_slice()) {
        return None;
    }
    let (sub, i2) = match parse_hex32(p, 8) {
        Some(v) => v,
        None => {
            return None;
        },
    };
    let mut lit2: Vec<u8> = Vec::new();
    push_lit_username(&mut lit2);
    if !lit_at_exec(p, i2, lit2.as_slice()) {
        return None;
    }
    let (ub, i4) = match unesc_exec(p, i2 + 14) {
        Some(v) => v,
        None => {
            return None;
        },
    };
    let mut lit3: Vec<u8> = Vec::new();
    push_lit_iat(&mut lit3);
    if !lit_at_exec(p, i4, lit3.as_slice()) {
        return None;
    }
    assert(i4 + 7 <= p@.len());
    let (iat, i6) = match parse_dec_exec(p, i4 + 7) {
        Some(v) => v,
        None => {
            return None;
        },
    };
    let mut lit4: Vec<u8> = Vec::new();
    push_lit_exp(&mut lit4);
    if !lit_at_exec(p, i6, lit4.as_slice()) {
        return None;
    }
    assert(i6 + 7 <= p@.len());
    let (exp, i8) = match parse_dec_exec(p, i6 + 7) {
        Some(v) => v,
        None => {
            return None;
        },
    };
    if i8 < p.len() && p.len() - i8 == 1 && p[i8] == 125 {
        Some((sub, ub, iat, exp))
    } else {
        None
    }
}


} // verus!
