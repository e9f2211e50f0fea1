use vstd::prelude::*;

verus! {

/// The base64url alphabet byte for a 6-bit value.
pub open spec fn b64_byte_of(v: u8) -> u8 {
    if v < 26 {
        (65 + v) as u8  // 'A'..'Z'
    } else if v < 52 {
        (97 + (v - 26)) as u8  // 'a'..'z'
    } else if v < 62 {
        (48 + (v - 52)) as u8  // '0'..'9'
    } else if v == 62 {
        45  // '-'
    } else {
        95  // '_'
    }
}

/// Whether a byte belongs to the base64url alphabet.
pub open spec fn is_b64_byte(b: u8) -> bool {
    (65 <= b <= 90) || (97 <= b <= 122) || (48 <= b <= 57) || b == 45 || b == 95
}

/// The 6-bit value of a base64url alphabet byte.
pub open spec fn b64_val_of(b: u8) -> u8 {
    if 65 <= b <= 90 {
        (b - 65) as u8
    } else if 97 <= b <= 122 {
        (b - 97 + 26) as u8
    } else if 48 <= b <= 57 {
        (b - 48 + 52) as u8
    } else if b == 45 {
        62
    } else {
        63
    }
}

/// Unpadded base64url encoding: each group of three bytes becomes four
/// alphabet bytes; a final group of one or two bytes becomes two or three,
/// with the unused low bits zero.
pub open spec fn b64_encode_spec(s: Seq<u8>) -> Seq<u8>
    decreases s.len(),
{
    if s.len() == 0 {
        Seq::empty()
    } else if s.len() == 1 {
        seq![b64_byte_of((s[0] / 4) as u8), b64_byte_of(((s[0] % 4) * 16) as u8)]
    } else if s.len() == 2 {
        seq![
            b64_byte_of((s[0] / 4) as u8),
            b64_byte_of(((s[0] % 4) * 16 + s[1] / 16) as u8),
            b64_byte_of(((s[1] % 16) * 4) as u8),
        ]
    } else {
        seq![
            b64_byte_of((s[0] / 4) as u8),
            b64_byte_of(((s[0] % 4) * 16 + s[1] / 16) as u8),
            b64_byte_of(((s[1] % 16) * 4 + s[2] / 64) as u8),
            b64_byte_of((s[2] % 64) as u8),
        ] + b64_encode_spec(s.skip(3))
    }
}

/// Strict unpadded base64url decoding: the exact inverse of
/// [`b64_encode_spec`]. Lengths of 4k+1 and non-zero trailing bits are
/// rejected, so every byte sequence has exactly one accepted encoding.
pub open spec fn b64_decode_spec(s: Seq<u8>) -> Option<Seq<u8>>
    decreases s.len(),
{
    if s.len() == 0 {
        Some(Seq::empty())
    } else if s.len() == 1 {
        None
    } else if s.len() == 2 {
        if is_b64_byte(s[0]) && is_b64_byte(s[1]) && b64_val_of(s[1]) % 16 == 0 {
            Some(seq![(b64_val_of(s[0]) * 4 + b64_val_of(s[1]) / 16) as u8])
        } else {
            None
        }
    } else if s.len() == 3 {
        if is_b64_byte(s[0]) && is_b64_byte(s[1]) && is_b64_byte(s[2]) && b64_val_of(s[2]) % 4
            == 0 {
            Some(
                seq![
                    (b64_val_of(s[0]) * 4 + b64_val_of(s[1]) / 16) as u8,
                    ((b64_val_of(s[1]) % 16) * 16 + b64_val_of(s[2]) / 4) as u8,
                ],
            )
        } else {
            None
        }
    } else {
        if is_b64_byte(s[0]) && is_b64_byte(s[1]) && is_b64_byte(s[2]) && is_b64_byte(s[3]) {
            match b64_decode_spec(s.skip(4)) {
                Some(rest) => Some(
                    seq![
                        (b64_val_of(s[0]) * 4 + b64_val_of(s[1]) / 16) as u8,
                        ((b64_val_of(s[1]) % 16) * 16 + b64_val_of(s[2]) / 4) as u8,
                        ((b64_val_of(s[2]) % 4) * 64 + b64_val_of(s[3])) as u8,
                    ] + rest,
                ),
                None => None,
            }
        } else {
            None
        }
    }
}

/// The alphabet map is injective: reading back the value of an encoded
/// 6-bit quantity yields that quantity.
pub proof fn lemma_b64_byte_val(v: u8)
    requires
        v < 64,
    ensures
        is_b64_byte(b64_byte_of(v)),
        b64_val_of(b64_byte_of(v)) == v,
{
}

/// Every byte of an encoding is an alphabet byte (in particular, never a
/// separator dot).
pub proof fn lemma_b64_encode_is_b64(s: Seq<u8>)
    ensures
        forall|i: int|
            0 <= i < b64_encode_spec(s).len() ==> is_b64_byte(#[trigger] b64_encode_spec(s)[i]),
    decreases s.len(),
{
    assert(forall|v: u8| is_b64_byte(#[trigger] b64_byte_of(v)));
    let e = b64_encode_spec(s);
    if s.len() >= 3 {
        lemma_b64_encode_is_b64(s.skip(3));
        let tail = b64_encode_spec(s.skip(3));
        assert forall|i: int| 0 <= i < e.len() implies is_b64_byte(e[i]) by {
            if i >= 4 {
                assert(e[i] == tail[i - 4]);
            }
        }
    }
}

/// Decoding inverts encoding: the strict decoder accepts every encoder
/// output and returns exactly the original bytes.
pub proof fn lemma_b64_round_trip(s: Seq<u8>)
    ensures
        b64_decode_spec(b64_encode_spec(s)) == Some(s),
    decreases s.len(),
{
    let e = b64_encode_spec(s);
    if s.len() == 0 {
        assert(e =~= Seq::<u8>::empty());
        assert(s =~= Seq::<u8>::empty());
    } else if s.len() == 1 {
        lemma_b64_byte_val((s[0] / 4) as u8);
        lemma_b64_byte_val(((s[0] % 4) * 16) as u8);
        assert(b64_decode_spec(e) == Some(seq![(((s[0] / 4)) * 4 + ((s[0] % 4) * 16) / 16) as u8]));
        assert(s[0] / 4 * 4 + (s[0] % 4) * 16 / 16 == s[0]) by {
            assert((s[0] % 4) * 16 / 16 == s[0] % 4) by (nonlinear_arith);
        };
        assert(b64_decode_spec(e) == Some(seq![s[0]]));
        assert(seq![s[0]] =~= s);
    } else if s.len() == 2 {
        lemma_b64_byte_val((s[0] / 4) as u8);
        lemma_b64_byte_val(((s[0] % 4) * 16 + s[1] / 16) as u8);
        lemma_b64_byte_val(((s[1] % 16) * 4) as u8);
        assert((s[1] % 16) * 4 % 4 == 0) by (nonlinear_arith);
        assert(((s[0] % 4) * 16 + s[1] / 16) / 16 == s[0] % 4 && ((s[0] % 4) * 16 + s[1] / 16) % 16
            == s[1] / 16) by (nonlinear_arith)
            requires
                0 <= s[1] / 16 < 16 && 0 <= s[0] % 4,
        ;
        assert((s[1] % 16) * 4 / 4 == s[1] % 16) by (nonlinear_arith);
        assert(s[0] / 4 * 4 + s[0] % 4 == s[0]);
        assert(s[1] / 16 * 16 + s[1] % 16 == s[1]);
        assert(b64_decode_spec(e) == Some(seq![s[0], s[1]]));
        assert(seq![s[0], s[1]] =~= s);
    } else {
        lemma_b64_round_trip(s.skip(3));
        lemma_b64_byte_val((s[0] / 4) as u8);
        lemma_b64_byte_val(((s[0] % 4) * 16 + s[1] / 16) as u8);
        lemma_b64_byte_val(((s[1] % 16) * 4 + s[2] / 64) as u8);
        lemma_b64_byte_val((s[2] % 64) as u8);
        let tail = b64_encode_spec(s.skip(3));
        lemma_b64_encode_is_b64(s.skip(3));
        assert(e == seq![e[0], e[1], e[2], e[3]] + tail);
        assert(e.skip(4) =~= tail);
        // The first four bytes are alphabet bytes, so decoding takes the
        // four-byte group branch whatever the tail length is.
        if tail.len() == 0 {
            assert(e.len() == 4);
        }
        assert(((s[0] % 4) * 16 + s[1] / 16) / 16 == s[0] % 4 && ((s[0] % 4) * 16 + s[1] / 16) % 16
            == s[1] / 16) by (nonlinear_arith)
            requires
                0 <= s[1] / 16 < 16 && 0 <= s[0] % 4,
        ;
        assert(((s[1] % 16) * 4 + s[2] / 64) / 4 == s[1] % 16 && ((s[1] % 16) * 4 + s[2] / 64) % 4
            == s[2] / 64) by (nonlinear_arith)
            requires
                0 <= s[2] / 64 < 4 && 0 <= s[1] % 16,
        ;
        assert(s[0] / 4 * 4 + s[0] % 4 == s[0]);
        assert(s[1] / 16 * 16 + s[1] % 16 == s[1]);
        assert(s[2] / 64 * 64 + s[2] % 64 == s[2]);
        assert(b64_decode_spec(e) == Some(seq![s[0], s[1], s[2]] + s.skip(3)));
        assert(seq![s[0], s[1], s[2]] + s.skip(3) =~= s);
    }
}

/// The alphabet byte for a 6-bit value.
fn b64_byte(v: u8) -> (r: u8)
    requires
        v < 64,
    ensures
        r == b64_byte_of(v),
{
    if v < 26 {
        65 + v
    } else if v < 52 {
        97 + (v - 26)
    } else if v < 62 {
        48 + (v - 52)
    } else if v == 62 {
        45
    } else {
        95
    }
}

/// The 6-bit value of an alphabet byte, or none for a byte outside the
/// alphabet.
fn b64_val(b: u8) -> (r: Option<u8>)
    ensures
        r matches Some(v) ==> is_b64_byte(b) && v == b64_val_of(b) && v < 64,
        r is Some <==> is_b64_byte(b),
{
    if 65 <= b && b <= 90 {
        Some(b - 65)
    } else if 97 <= b && b <= 122 {
        Some(b - 97 + 26)
    } else if 48 <= b && b <= 57 {
        Some(b - 48 + 52)
    } else if b == 45 {
        Some(62)
    } else if b == 95 {
        Some(63)
    } else {
        None
    }
}

fn b64_encode_rec(s: &[u8], from: usize, out: &mut Vec<u8>)
    requires
        from <= s@.len(),
    ensures
        final(out)@ == old(out)@ + b64_encode_spec(s@.skip(from as int)),
    decreases s@.len() - from,
{
    let n = s.len() - from;
    let ghost g = s@.skip(from as int);
    if n == 0 {
        assert(g =~= Seq::<u8>::empty());
        assert(out@ =~= out@ + b64_encode_spec(g));
        return ;
    }
    let b0 = s[from];
    assert(g[0] == b0);
    if n == 1 {
        out.push(b64_byte(b0 / 4));
        out.push(b64_byte((b0 % 4) * 16));
        assert(out@ =~= old(out)@ + b64_encode_spec(g));
        return ;
    }
    let b1 = s[from + 1];
    assert(g[1] == b1);
    if n == 2 {
        out.push(b64_byte(b0 / 4));
        out.push(b64_byte((b0 % 4) * 16 + b1 / 16));
        out.push(b64_byte((b1 % 16) * 4));
        assert(out@ =~= old(out)@ + b64_encode_spec(g));
        return ;
    }
    let b2 = s[from + 2];
    assert(g[2] == b2);
    out.push(b64_byte(b0 / 4));
    out.push(b64_byte((b0 % 4) * 16 + b1 / 16));
    out.push(b64_byte((b1 % 16) * 4 + b2 / 64));
    out.push(b64_byte(b2 % 64));
    b64_encode_rec(s, from + 3, out);
    assert(g.skip(3) =~= s@.skip(from as int + 3));
    assert(out@ =~= old(out)@ + b64_encode_spec(g));
}

/// Unpadded base64url encoding of a byte string.
pub fn b64_encode(s: &[u8]) -> (r: Vec<u8>)
    ensures
        r@ == b64_encode_spec(s@),
{
    let mut out: Vec<u8> = Vec::new();
    b64_encode_rec(s, 0, &mut out);
    assert(s@.skip(0) =~= s@);
    out
}

fn b64_decode_rec(s: &[u8], from: usize) -> (r: Option<Vec<u8>>)
    requires
        from <= s@.len(),
    ensures
        match r {
            Some(v) => b64_decode_spec(s@.skip(from as int)) == Some(v@),
            None => b64_decode_spec(s@.skip(from as int)) is None,
        },
    decreases s@.len() - from,
{
    let n = s.len() - from;
    let ghost g = s@.skip(from as int);
    if n == 0 {
        assert(g =~= Seq::<u8>::empty());
        return Some(Vec::new());
    }
    if n == 1 {
        return None;
    }
    let v0 = match b64_val(s[from]) {
        Some(v) => v,
        None => {
            return None;
        },
    };
    let v1 = match b64_val(s[from + 1]) {
        Some(v) => v,
        None => {
            return None;
        },
    };
    assert(g[0] == s@[from as int] && g[1] == s@[from as int + 1]);
    if n == 2 {
        if v1 % 16 != 0 {
            return None;
        }
        let mut out: Vec<u8> = Vec::new();
        out.push(v0 * 4 + v1 / 16);
        assert(out@ =~= seq![(b64_val_of(g[0]) * 4 + b64_val_of(g[1]) / 16) as u8]);
        return Some(out);
    }
    let v2 = match b64_val(s[from + 2]) {
        Some(v) => v,
        None => {
            return None;
        },
    };
    assert(g[2] == s@[from as int + 2]);
    if n == 3 {
        if v2 % 4 != 0 {
            return None;
        }
        let mut out: Vec<u8> = Vec::new();
        out.push(v0 * 4 + v1 / 16);
        out.push((v1 % 16) * 16 + v2 / 4);
        assert(out@ =~= seq![
            (b64_val_of(g[0]) * 4 + b64_val_of(g[1]) / 16) as u8,
            ((b64_val_of(g[1]) % 16) * 16 + b64_val_of(g[2]) / 4) as u8,
        ]);
        return Some(out);
    }
    let v3 = match b64_val(s[from + 3]) {
        Some(v) => v,
        None => {
            return None;
        },
    };
    assert(g[3] == s@[from as int + 3]);
    let rest = match b64_decode_rec(s, from + 4) {
        Some(v) => v,
        None => {
            assert(g.skip(4) =~= s@.skip(from as int + 4));
            return None;
        },
    };
    let mut out: Vec<u8> = Vec::new();
    out.push(v0 * 4 + v1 / 16);
    out.push((v1 % 16) * 16 + v2 / 4);
    out.push((v2 % 4) * 64 + v3);
    let mut i: usize = 0;
    while i < rest.len()
        invariant
            0 <= i <= rest@.len(),
            out@.len() == 3 + i,
            out@.subrange(0, 3) == seq![
                (b64_val_of(g[0]) * 4 + b64_val_of(g[1]) / 16) as u8,
                ((b64_val_of(g[1]) % 16) * 16 + b64_val_of(g[2]) / 4) as u8,
                ((b64_val_of(g[2]) % 4) * 64 + b64_val_of(g[3])) as u8,
            ],
            out@.skip(3) == rest@.take(i as int),
        decreases rest@.len() - i,
    {
        out.push(rest[i]);
        assert(out@.subrange(0, 3) =~= seq![
            (b64_val_of(g[0]) * 4 + b64_val_of(g[1]) / 16) as u8,
            ((b64_val_of(g[1]) % 16) * 16 + b64_val_of(g[2]) / 4) as u8,
            ((b64_val_of(g[2]) % 4) * 64 + b64_val_of(g[3])) as u8,
        ]);
        assert(out@.skip(3) =~= rest@.take(i as int + 1));
        i += 1;
    }
    assert(g.skip(4) =~= s@.skip(from as int + 4));
    assert(rest@.take(rest@.len() as int) =~= rest@);
    assert(out@ =~= out@.subrange(0, 3) + out@.skip(3));
    Some(out)
}

/// Strict unpadded base64url decoding of a byte string.
pub fn b64_decode(s: &[u8]) -> (r: Option<Vec<u8>>)
    ensures
        match r {
            Some(v) => b64_decode_spec(s@) == Some(v@),
            None => b64_decode_spec(s@) is None,
        },
{
    let r = b64_decode_rec(s, 0);
    assert(s@.skip(0) =~= s@);
    r
}

} // verus!
