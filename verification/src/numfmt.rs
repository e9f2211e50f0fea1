use vstd::prelude::*;

verus! {

/// 16 to the n-th power.
pub open spec fn pow16(n: nat) -> int
    decreases n,
{
    if n == 0 {
        1
    } else {
        16 * pow16((n - 1) as nat)
    }
}

/// 10 to the n-th power.
pub open spec fn pow10(n: nat) -> int
    decreases n,
{
    if n == 0 {
        1
    } else {
        10 * pow10((n - 1) as nat)
    }
}

pub proof fn lemma_pow16_pos(n: nat)
    ensures
        pow16(n) >= 1,
    decreases n,
{
    if n > 0 {
        lemma_pow16_pos((n - 1) as nat);
    }
}

pub proof fn lemma_pow10_pos(n: nat)
    ensures
        pow10(n) >= 1,
    decreases n,
{
    if n > 0 {
        lemma_pow10_pos((n - 1) as nat);
    }
}

pub proof fn lemma_pow16_le(a: nat, b: nat)
    requires
        a <= b,
    ensures
        pow16(a) <= pow16(b),
    decreases b,
{
    if a < b {
        lemma_pow16_le(a, (b - 1) as nat);
        lemma_pow16_pos((b - 1) as nat);
    }
}

/// Sixteen to the thirty-second power is exactly the number of 128-bit
/// values.
pub proof fn lemma_pow16_32()
    ensures
        pow16(32) == 0x100000000000000000000000000000000,
{
    reveal_with_fuel(pow16, 33);
}

/// The lowercase hex digit byte for a value below sixteen.
pub open spec fn hex_digit(v: u8) -> u8 {
    if v < 10 {
        (48 + v) as u8
    } else {
        (87 + v) as u8
    }
}

/// Whether a byte is a lowercase hex digit.
pub open spec fn is_hex_byte(b: u8) -> bool {
    (48 <= b <= 57) || (97 <= b <= 102)
}

/// The value of a lowercase hex digit byte.
pub open spec fn hex_val_of(b: u8) -> u8 {
    if 48 <= b <= 57 {
        (b - 48) as u8
    } else {
        (b - 87) as u8
    }
}

/// A nonnegative number written as exactly n lowercase hex digits, most
/// significant first (truncated to the low n digits).
pub open spec fn hex_fixed(x: int, n: nat) -> Seq<u8>
    decreases n,
{
    if n == 0 {
        Seq::empty()
    } else {
        hex_fixed(x / 16, (n - 1) as nat) + seq![hex_digit((x % 16) as u8)]
    }
}

/// The number denoted by a sequence of hex digit bytes.
pub open spec fn hex_val_int(s: Seq<u8>) -> int
    decreases s.len(),
{
    if s.len() == 0 {
        0
    } else {
        hex_val_int(s.drop_last()) * 16 + hex_val_of(s.last())
    }
}

pub proof fn lemma_hex_fixed_digits(x: int, n: nat)
    requires
        x >= 0,
    ensures
        hex_fixed(x, n).len() == n,
        forall|i: int| 0 <= i < n ==> is_hex_byte(#[trigger] hex_fixed(x, n)[i]),
    decreases n,
{
    if n > 0 {
        lemma_hex_fixed_digits(x / 16, (n - 1) as nat);
        let s = hex_fixed(x, n);
        let p = hex_fixed(x / 16, (n - 1) as nat);
        assert forall|i: int| 0 <= i < n implies is_hex_byte(s[i]) by {
            if i < n - 1 {
                assert(s[i] == p[i]);
            }
        }
    }
}

/// Reading back a fixed-width hex rendering yields the original number.
pub proof fn lemma_hex_round_trip(x: int, n: nat)
    requires
        0 <= x < pow16(n),
    ensures
        hex_val_int(hex_fixed(x, n)) == x,
    decreases n,
{
    if n == 0 {
    } else {
        assert(x / 16 < pow16((n - 1) as nat)) by (nonlinear_arith)
            requires
                0 <= x < pow16(n) && pow16(n) == 16 * pow16((n - 1) as nat),
        ;
        lemma_hex_round_trip(x / 16, (n - 1) as nat);
        lemma_hex_fixed_digits(x / 16, (n - 1) as nat);
        let s = hex_fixed(x, n);
        assert(s.drop_last() =~= hex_fixed(x / 16, (n - 1) as nat));
        assert(s.last() == hex_digit((x % 16) as u8));
        assert(hex_val_of(hex_digit((x % 16) as u8)) == x % 16);
    }
}

/// Parse exactly n hex digits starting at i.
pub open spec fn parse_hex_fixed(s: Seq<u8>, i: int, n: nat) -> Option<int> {
    if 0 <= i && i + n <= s.len() && (forall|k: int| i <= k < i + n ==> is_hex_byte(s[k])) {
        Some(hex_val_int(s.subrange(i, i + n)))
    } else {
        None
    }
}

pub(crate) fn hex_digit_byte(v: u8) -> (r: u8)
    requires
        v < 16,
    ensures
        r == hex_digit(v),
{
    if v < 10 {
        48 + v
    } else {
        87 + v
    }
}

/// Append the 32-digit hex rendering of x.
pub fn hex_fixed_push(x: u128, n: usize, out: &mut Vec<u8>)
    ensures
        final(out)@ == old(out)@ + hex_fixed(x as int, n as nat),
    decreases n,
{
    if n == 0 {
        assert(out@ =~= out@ + hex_fixed(x as int, 0));
        return ;
    }
    hex_fixed_push(x / 16, n - 1, out);
    out.push(hex_digit_byte((x % 16) as u8));
    assert(out@ =~= old(out)@ + hex_fixed(x as int, n as nat));
}

/// Parse exactly 32 hex digits at i into a 128-bit value.
pub fn parse_hex32(s: &[u8], i: usize) -> (r: Option<(u128, usize)>)
    requires
        i <= s@.len(),
    ensures
        r matches Some((v, j)) ==> parse_hex_fixed(s@, i as int, 32) == Some(v as int) && j == i
            + 32 && j <= s@.len(),
        r is None ==> parse_hex_fixed(s@, i as int, 32) is None,
{
    if s.len() - i < 32 {
        return None;
    }
    let mut acc: u128 = 0;
    let mut k: usize = 0;
    while k < 32
        invariant
            i + 32 <= s@.len(),
            i + 32 <= usize::MAX,
            0 <= k <= 32,
            forall|t: int| i <= t < i + k ==> is_hex_byte(s@[t]),
            acc as int == hex_val_int(s@.subrange(i as int, i as int + k)),
            (acc as int) < pow16(k as nat),
        decreases 32 - k,
    {
        let b = s[i + k];
        let v: u8;
        if 48 <= b && b <= 57 {
            v = b - 48;
        } else if 97 <= b && b <= 102 {
            v = b - 87;
        } else {
            return None;
        }
        assert(v == hex_val_of(b) && v < 16);
        proof {
            lemma_pow16_le((k + 1) as nat, 32);
            lemma_pow16_32();
            assert((acc as int) * 16 + 15 < pow16((k + 1) as nat)) by (nonlinear_arith)
                requires
                    (acc as int) < pow16(k as nat) && pow16((k + 1) as nat) == 16 * pow16(k as nat),
            ;
        }
        let acc2 = acc * 16 + (v as u128);
        proof {
            let sub1 = s@.subrange(i as int, i as int + k + 1);
            assert(sub1.drop_last() =~= s@.subrange(i as int, i as int + k));
            assert(sub1.last() == s@[i as int + k]);
        }
        acc = acc2;
        k += 1;
    }
    Some((acc, i + 32))
}

/// Whether a byte is a decimal digit.
pub open spec fn is_digit(b: u8) -> bool {
    48 <= b <= 57
}

/// A nonnegative number written in decimal, no leading zeros.
pub open spec fn dec_of(x: int) -> Seq<u8>
    decreases x,
    when x >= 0
{
    if x < 10 {
        seq![(48 + x) as u8]
    } else {
        dec_of(x / 10) + seq![(48 + x % 10) as u8]
    }
}

/// The accumulator loop of decimal parsing: consume digits, rejecting a
/// value that would not fit a signed 64-bit integer.
pub open spec fn parse_dec_loop(s: Seq<u8>, i: int, acc: int) -> Option<(int, int)>
    decreases s.len() - i,
    when 0 <= i <= s.len()
{
    if i == s.len() || !is_digit(s[i]) {
        Some((acc, i))
    } else if acc * 10 + (s[i] - 48) > 0x7fffffffffffffff {
        None
    } else {
        parse_dec_loop(s, i + 1, acc * 10 + (s[i] - 48))
    }
}

/// Parse a canonical decimal number at i: at least one digit, no leading
/// zero, value within a signed 64-bit integer.
pub open spec fn parse_dec(s: Seq<u8>, i: int) -> Option<(int, int)> {
    if 0 <= i < s.len() && is_digit(s[i]) {
        if s[i] == 48 && i + 1 < s.len() && is_digit(s[i + 1]) {
            None
        } else {
            parse_dec_loop(s, i, 0)
        }
    } else {
        None
    }
}

pub proof fn lemma_dec_of_digits(x: int)
    requires
        x >= 0,
    ensures
        dec_of(x).len() >= 1,
        forall|i: int| 0 <= i < dec_of(x).len() ==> is_digit(#[trigger] dec_of(x)[i]),
        dec_of(x)[0] == 48 ==> x == 0,
    decreases x,
{
    if x >= 10 {
        lemma_dec_of_digits(x / 10);
        let s = dec_of(x);
        let p = dec_of(x / 10);
        assert forall|i: int| 0 <= i < s.len() implies is_digit(s[i]) by {
            if i < p.len() {
                assert(s[i] == p[i]);
            }
        }
        assert(s[0] == p[0]);
    }
}

/// Consuming the decimal rendering of x advances the parse loop past it,
/// folding x into the accumulator.
pub proof fn lemma_parse_dec_digits(s: Seq<u8>, i: int, x: int, acc: int)
    requires
        0 <= i,
        0 <= x,
        0 <= acc,
        i + dec_of(x).len() <= s.len(),
        s.subrange(i, i + dec_of(x).len()) == dec_of(x),
        acc * pow10(dec_of(x).len() as nat) + x <= 0x7fffffffffffffff,
    ensures
        parse_dec_loop(s, i, acc) == parse_dec_loop(
            s,
            i + dec_of(x).len(),
            acc * pow10(dec_of(x).len() as nat) + x,
        ),
    decreases x,
{
    lemma_dec_of_digits(x);
    let l = dec_of(x).len();
    if x < 10 {
        assert(s[i] == dec_of(x)[0]);
        assert(pow10(0) == 1);
        assert(pow10(1) == 10);
        assert(acc * 10 + x <= 0x7fffffffffffffff);
        assert(s[i] - 48 == x);
    } else {
        let p = dec_of(x / 10);
        let lp = p.len();
        assert(l == lp + 1);
        lemma_dec_of_digits(x / 10);
        lemma_pow10_pos(lp as nat);
        assert(s.subrange(i, i + lp) =~= dec_of(x).subrange(0, lp as int));
        assert(dec_of(x).subrange(0, lp as int) =~= p);
        assert(pow10(l as nat) == 10 * pow10(lp as nat));
        let acc2 = acc * pow10(lp as nat) + x / 10;
        assert(acc2 * 10 + x % 10 == acc * pow10(l as nat) + x) by (nonlinear_arith)
            requires
                acc2 == acc * pow10(lp as nat) + x / 10 && pow10(l as nat) == 10 * pow10(
                    lp as nat,
                ) && x >= 0,
        ;
        assert(0 <= acc2 && acc2 <= acc2 * 10 + x % 10) by (nonlinear_arith)
            requires
                acc >= 0 && x >= 10 && acc2 == acc * pow10(lp as nat) + x / 10 && pow10(lp as nat)
                    >= 1,
        ;
        lemma_parse_dec_digits(s, i, x / 10, acc);
        assert(s[i + lp] == dec_of(x)[lp as int]);
        assert(s[i + lp] == 48 + x % 10);
        assert(is_digit(s[i + lp]));
        assert(parse_dec_loop(s, i + lp, acc2) == parse_dec_loop(s, i + l, acc2 * 10 + (s[i + lp]
            - 48)));
    }
}

/// Parsing the decimal rendering of x, followed by anything that is not a
/// digit, yields exactly x.
pub proof fn lemma_parse_dec_of(s: Seq<u8>, i: int, x: int)
    requires
        0 <= i,
        0 <= x <= 0x7fffffffffffffff,
        i + dec_of(x).len() <= s.len(),
        s.subrange(i, i + dec_of(x).len()) == dec_of(x),
        i + dec_of(x).len() < s.len() ==> !is_digit(s[i + dec_of(x).len()]),
    ensures
        parse_dec(s, i) == Some((x, i + dec_of(x).len())),
{
    lemma_dec_of_digits(x);
    let l = dec_of(x).len();
    assert(s[i] == dec_of(x)[0]);
    lemma_pow10_pos(l as nat);
    assert(0 * pow10(l as nat) + x <= 0x7fffffffffffffff);
    lemma_parse_dec_digits(s, i, x, 0);
    if x == 0 {
        assert(dec_of(0).len() == 1);
        assert(s[i] == 48);
    } else {
        assert(s[i] != 48);
    }
}

/// Append the decimal rendering of x.
pub fn dec_push(x: i64, out: &mut Vec<u8>)
    requires
        x >= 0,
    ensures
        final(out)@ == old(out)@ + dec_of(x as int),
    decreases x,
{
    if x < 10 {
        out.push(48 + (x as u8));
        assert(out@ =~= old(out)@ + dec_of(x as int));
        return ;
    }
    dec_push(x / 10, out);
    out.push(48 + ((x % 10) as u8));
    assert(out@ =~= old(out)@ + dec_of(x as int));
}

fn parse_dec_rec(s: &[u8], i: usize, acc: i64) -> (r: Option<(i64, usize)>)
    requires
        i <= s@.len(),
        0 <= acc,
    ensures
        match r {
            Some((v, j)) => parse_dec_loop(s@, i as int, acc as int) == Some((v as int, j as int))
                && i <= j <= s@.len() && 0 <= v,
            None => parse_dec_loop(s@, i as int, acc as int) is None,
        },
    decreases s@.len() - i,
{
    if i == s.len() {
        return Some((acc, i));
    }
    let b = s[i];
    if !(48 <= b && b <= 57) {
        return Some((acc, i));
    }
    let d = (b - 48) as i64;
    if acc > (0x7fffffffffffffff - d) / 10 {
        proof {
            assert((acc as int) * 10 + (d as int) > 0x7fffffffffffffff) by (nonlinear_arith)
                requires
                    (acc as int) > (0x7fffffffffffffff - (d as int)) / 10 && 0 <= d as int <= 9 && acc
                        as int >= 0,
            ;
        }
        return None;
    }
    proof {
        assert((acc as int) * 10 + (d as int) <= 0x7fffffffffffffff) by (nonlinear_arith)
            requires
                (acc as int) <= (0x7fffffffffffffff - (d as int)) / 10 && 0 <= d as int <= 9 && acc
                    as int >= 0,
        ;
    }
    parse_dec_rec(s, i + 1, acc * 10 + d)
}

/// Parse a canonical decimal number at i.
pub fn parse_dec_exec(s: &[u8], i: usize) -> (r: Option<(i64, usize)>)
    requires
        i <= s@.len(),
    ensures
        match r {
            Some((v, j)) => parse_dec(s@, i as int) == Some((v as int, j as int)) && i <= j
                <= s@.len() && 0 <= v,
            None => parse_dec(s@, i as int) is None,
        },
{
    if i == s.len() {
        return None;
    }
    let b = s[i];
    if !(48 <= b && b <= 57) {
        return None;
    }
    if b == 48 && i + 1 < s.len() {
        let c = s[i + 1];
        if 48 <= c && c <= 57 {
            return None;
        }
    }
    parse_dec_rec(s, i, 0)
}

} // verus!
