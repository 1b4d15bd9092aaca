//! The line grammar of Wavefront OBJ meshes: vertices (`v x y z`), texture
//! coordinates (`vt u v`) and triangles (`f a/ta b/tb c/tc`), on bytes.
use crate::fixed_point::{clamp_i64, fx_sub, trunc_div, Fixed};
use crate::types::{Mesh, TextureUV, Triangle, Vec3};
use vstd::prelude::*;

verus! {

pub open spec fn is_digit(b: u8) -> bool {
    48 <= b <= 57
}

pub open spec fn all_digits(s: Seq<u8>) -> bool {
    forall|i: int| 0 <= i < s.len() ==> is_digit(#[trigger] s[i])
}

/// The number that a run of decimal digits spells.
pub open spec fn digits_value(s: Seq<u8>) -> int
    decreases s.len(),
{
    if s.len() == 0 {
        0
    } else {
        digits_value(s.drop_last()) * 10 + (s.last() - 48)
    }
}

pub open spec fn pow10(k: nat) -> int
    decreases k,
{
    if k == 0 {
        1
    } else {
        10 * pow10((k - 1) as nat)
    }
}

/// The position of the first `b` in `s`, or its length when there is none.
pub open spec fn index_of(s: Seq<u8>, b: u8) -> int
    decreases s.len(),
{
    if s.len() == 0 {
        0
    } else if s[0] == b {
        0
    } else {
        1 + index_of(s.drop_first(), b)
    }
}

/// The fields of `s` between the separator `b`, as `str::split` gives them.
pub open spec fn split_on(s: Seq<u8>, b: u8) -> Seq<Seq<u8>>
    decreases s.len(),
{
    let i = index_of(s, b);
    if i < 0 || i >= s.len() {
        seq![s]
    } else {
        seq![s.subrange(0, i)] + split_on(s.subrange(i + 1, s.len() as int), b)
    }
}

/// A sign (`+` or `-`, optional) and the rest.
pub open spec fn sign_and_body(s: Seq<u8>) -> (bool, Seq<u8>) {
    if s.len() > 0 && (s[0] == 45 || s[0] == 43) {
        (s[0] == 45, s.drop_first())
    } else {
        (false, s)
    }
}

/// A decimal number `[+-]digits[.digits]` with at least one and at most 18
/// digits: its sign, the number its digits spell, and how many of them follow
/// the point.
pub open spec fn mantissa_of(s: Seq<u8>) -> Option<(bool, int, nat)> {
    let (negative, body) = sign_and_body(s);
    let d = index_of(body, 46);
    let int_part = body.subrange(0, d);
    let frac_part = if d < body.len() { body.subrange(d + 1, body.len() as int) } else { seq![] };
    let digits = int_part + frac_part;
    if all_digits(int_part) && all_digits(frac_part) && 1 <= digits.len() <= 18 {
        Some((negative, digits_value(digits), frac_part.len()))
    } else {
        None
    }
}

/// `±magnitude * 10^net` as a fixed-point number, rounded toward zero and
/// saturated.
pub open spec fn scaled(negative: bool, magnitude: int, net: int) -> Fixed {
    let value = if negative { -magnitude } else { magnitude };
    if net >= 0 {
        Fixed { bits: clamp_i64(value * 65536 * pow10(net as nat)) as i64 }
    } else {
        Fixed { bits: clamp_i64(trunc_div(value * 65536, pow10((-net) as nat))) as i64 }
    }
}

/// A decimal number `[+-]digits[.digits]` (at least one digit, at most 18),
/// as a fixed-point number rounded toward zero and saturated.
pub open spec fn decimal_of(s: Seq<u8>) -> Option<Fixed> {
    match mantissa_of(s) {
        Some(m) => Some(scaled(m.0, m.1, -(m.2 as int))),
        None => None,
    }
}

/// The position of the first `e` or `E` in `s`, or its length.
pub open spec fn exponent_at(s: Seq<u8>) -> int {
    let a = index_of(s, 101);
    let b = index_of(s, 69);
    if a <= b { a } else { b }
}

/// A number as OBJ files write it: a decimal mantissa (see `mantissa_of`),
/// optionally followed by `e` or `E` and a decimal exponent that fits in `i32`;
/// as a fixed-point number rounded toward zero and saturated.
pub open spec fn number_of(s: Seq<u8>) -> Option<Fixed> {
    let k = exponent_at(s);
    if k >= s.len() {
        decimal_of(s)
    } else {
        match (mantissa_of(s.subrange(0, k)), int_of(s.subrange(k + 1, s.len() as int))) {
            (Some(m), Some(e)) => Some(scaled(m.0, m.1, e - m.2)),
            _ => None,
        }
    }
}

/// A decimal integer `[+-]digits` that fits in `i32`.
pub open spec fn int_of(s: Seq<u8>) -> Option<i32> {
    let (negative, body) = sign_and_body(s);
    let magnitude = digits_value(body);
    let value = if negative { -magnitude } else { magnitude };
    if all_digits(body) && 1 <= body.len() <= 10 && i32::MIN <= value <= i32::MAX {
        Some(value as i32)
    } else {
        None
    }
}

proof fn lemma_index_of_bounds(s: Seq<u8>, b: u8)
    ensures
        0 <= index_of(s, b) <= s.len(),
        index_of(s, b) < s.len() ==> s[index_of(s, b)] == b,
        forall|j: int| 0 <= j < index_of(s, b) ==> s[j] != b,
    decreases s.len(),
{
    if s.len() > 0 && s[0] != b {
        lemma_index_of_bounds(s.drop_first(), b);
        assert forall|j: int| 0 <= j < index_of(s, b) implies s[j] != b by {
            if j > 0 {
                assert(s[j] == s.drop_first()[j - 1]);
            }
        }
    }
}

proof fn lemma_index_of_is(s: Seq<u8>, b: u8, i: int)
    requires
        0 <= i <= s.len(),
        i < s.len() ==> s[i] == b,
        forall|j: int| 0 <= j < i ==> s[j] != b,
    ensures
        index_of(s, b) == i,
    decreases s.len(),
{
    if s.len() > 0 && i > 0 {
        assert(s[0] != b);
        assert forall|j: int| 0 <= j < i - 1 implies s.drop_first()[j] != b by {
            assert(s.drop_first()[j] == s[j + 1]);
        }
        lemma_index_of_is(s.drop_first(), b, i - 1);
    }
}

proof fn lemma_digits_push(s: Seq<u8>, d: u8)
    ensures
        digits_value(s.push(d)) == digits_value(s) * 10 + (d - 48),
{
    assert(s.push(d).drop_last() =~= s);
}

proof fn lemma_digits_nonneg(s: Seq<u8>)
    requires
        all_digits(s),
    ensures
        0 <= digits_value(s) < pow10(s.len()),
    decreases s.len(),
{
    if s.len() > 0 {
        let t = s.drop_last();
        assert(all_digits(t)) by {
            assert forall|i: int| 0 <= i < t.len() implies is_digit(#[trigger] t[i]) by {
                assert(t[i] == s[i]);
            }
        }
        lemma_digits_nonneg(t);
        assert(is_digit(s[s.len() - 1]));
    }
}

/// Reads the mantissa of a number; see `mantissa_of`.
pub fn parse_mantissa(s: &[u8]) -> (r: Option<(bool, u64, usize)>)
    ensures
        r matches Some(m) ==> mantissa_of(s@) == Some((m.0, m.1 as int, m.2 as nat)) && m.1
            < 1_000_000_000_000_000_000,
        r is None <==> mantissa_of(s@) is None,
{
    let n = s.len();
    let mut start: usize = 0;
    let mut negative = false;
    if n > 0 && (s[0] == 45u8 || s[0] == 43u8) {
        negative = s[0] == 45u8;
        start = 1;
    }
    let ghost body = sign_and_body(s@).1;
    proof {
        assert(body =~= s@.subrange(start as int, n as int));
    }
    let mut acc: u64 = 0;
    let mut count: usize = 0;
    let mut frac_len: usize = 0;
    let mut seen_dot = false;
    let mut dot_at: usize = 0;
    let mut i: usize = start;
    while i < n
        invariant
            start <= i <= n,
            n == s@.len(),
            body == s@.subrange(start as int, n as int),
            body == sign_and_body(s@).1,
            negative == sign_and_body(s@).0,
            count <= 18,
            !seen_dot ==> frac_len == 0,
            !seen_dot ==> all_digits(s@.subrange(start as int, i as int)),
            !seen_dot ==> count == i - start,
            !seen_dot ==> acc == digits_value(s@.subrange(start as int, i as int)),
            seen_dot ==> start <= dot_at < i,
            seen_dot ==> index_of(body, 46) == dot_at - start,
            seen_dot ==> all_digits(s@.subrange(start as int, dot_at as int)),
            seen_dot ==> all_digits(s@.subrange(dot_at + 1, i as int)),
            seen_dot ==> frac_len == i - dot_at - 1,
            seen_dot ==> count == i - start - 1,
            seen_dot ==> acc == digits_value(
                s@.subrange(start as int, dot_at as int) + s@.subrange(dot_at + 1, i as int),
            ),
            acc < pow10(count as nat),
        decreases n - i,
    {
        let b = s[i];
        if b == 46u8 && !seen_dot {
            proof {
                lemma_index_of_is(body, 46, i - start);
                assert(s@.subrange(start as int, i as int) + s@.subrange(i + 1, i + 1) =~= s@.subrange(
                    start as int,
                    i as int,
                ));
            }
            seen_dot = true;
            dot_at = i;
        } else if 48u8 <= b && b <= 57u8 && count < 18 {
            proof {
                lemma_pow10_bound(count as nat);
                lemma_digits_push(
                    if seen_dot {
                        s@.subrange(start as int, dot_at as int) + s@.subrange(dot_at + 1, i as int)
                    } else {
                        s@.subrange(start as int, i as int)
                    },
                    b,
                );
                if seen_dot {
                    assert(s@.subrange(start as int, dot_at as int) + s@.subrange(dot_at + 1, i + 1)
                        =~= (s@.subrange(start as int, dot_at as int) + s@.subrange(dot_at + 1, i as int)).push(b));
                } else {
                    assert(s@.subrange(start as int, i + 1) =~= s@.subrange(start as int, i as int).push(b));
                }
            }
            acc = acc * 10 + (b - 48u8) as u64;
            count = count + 1;
            if seen_dot {
                frac_len = frac_len + 1;
            }
        } else {
            proof {
                lemma_decimal_rejects(s@, start as int, i as int, seen_dot, dot_at as int, count as int);
            }
            return None;
        }
        i = i + 1;
    }
    if count == 0 {
        proof {
            lemma_decimal_empty(s@, start as int, seen_dot, dot_at as int);
        }
        return None;
    }
    proof {
        lemma_decimal_accepts(s@, start as int, seen_dot, dot_at as int, acc as int, count as int, frac_len as int, negative);
        lemma_pow10_bound(frac_len as nat);
    }
    proof {
        lemma_pow10_bound(count as nat);
    }
    Some((negative, acc, frac_len))
}

/// Reads a decimal number; see `decimal_of`.
pub fn parse_decimal(s: &[u8]) -> (r: Option<Fixed>)
    ensures
        r == decimal_of(s@),
{
    match parse_mantissa(s) {
        Some((negative, magnitude, frac_len)) => Some(scale_decimal(negative, magnitude, -(frac_len as i64))),
        None => None,
    }
}

proof fn lemma_pow10_bound(k: nat)
    requires
        k <= 18,
    ensures
        1 <= pow10(k) <= 1_000_000_000_000_000_000,
        pow10(k + 1) == 10 * pow10(k),
    decreases 18 - k,
{
    if k < 18 {
        lemma_pow10_bound(k + 1);
    } else {
        reveal_with_fuel(pow10, 19);
    }
}

proof fn lemma_pow10_small(k: nat)
    requires
        k <= 9,
    ensures
        1 <= pow10(k) <= 1_000_000_000,
        pow10(k + 1) == 10 * pow10(k),
    decreases 9 - k,
{
    if k < 9 {
        lemma_pow10_small(k + 1);
    } else {
        reveal_with_fuel(pow10, 11);
    }
}

fn pow10_exec(k: usize) -> (r: u64)
    requires
        k <= 18,
    ensures
        r == pow10(k as nat),
{
    let mut r: u64 = 1;
    let mut i: usize = 0;
    while i < k
        invariant
            i <= k <= 18,
            r == pow10(i as nat),
        decreases k - i,
    {
        proof {
            lemma_pow10_bound(i as nat);
        }
        r = r * 10;
        i = i + 1;
    }
    r
}

proof fn lemma_all_digits_sub(s: Seq<u8>, a: int, b: int, c: int, d: int)
    requires
        0 <= a <= c <= d <= b <= s.len(),
        all_digits(s.subrange(a, b)),
    ensures
        all_digits(s.subrange(c, d)),
{
    assert forall|j: int| 0 <= j < d - c implies is_digit(#[trigger] s.subrange(c, d)[j]) by {
        assert(s.subrange(c, d)[j] == s.subrange(a, b)[j + c - a]);
    }
}

proof fn lemma_decimal_rejects(s: Seq<u8>, start: int, i: int, seen_dot: bool, dot_at: int, count: int)
    requires
        0 <= start <= i < s.len(),
        sign_and_body(s).1 == s.subrange(start, s.len() as int),
        count <= 18,
        !seen_dot ==> all_digits(s.subrange(start, i)) && count == i - start,
        seen_dot ==> start <= dot_at < i && index_of(sign_and_body(s).1, 46) == dot_at - start
            && all_digits(s.subrange(dot_at + 1, i)) && count == i - start - 1,
        !((s[i] == 46 && !seen_dot) || (is_digit(s[i]) && count < 18)),
    ensures
        mantissa_of(s) is None,
{
    let body = sign_and_body(s).1;
    let k = i - start;
    assert(body[k] == s[i]);
    lemma_index_of_bounds(body, 46);
    let d = index_of(body, 46);
    let int_part = body.subrange(0, d);
    let frac_part = if d < body.len() { body.subrange(d + 1, body.len() as int) } else { seq![] };
    if !seen_dot {
        if d < k {
            assert(body[d] == s.subrange(start, i)[d]);
        }
        assert(d > k);
        assert(int_part[k] == s[i]);
        if is_digit(s[i]) {
            assert(count == 18);
            if all_digits(int_part) && all_digits(frac_part) {
                assert((int_part + frac_part).len() >= 19);
            }
        }
    } else {
        assert(d == dot_at - start);
        assert(frac_part[k - d - 1] == s[i]);
        if is_digit(s[i]) && s[i] != 46 {
            assert(count == 18);
            assert((int_part + frac_part).len() >= 19);
        }
    }
}

proof fn lemma_decimal_empty(s: Seq<u8>, start: int, seen_dot: bool, dot_at: int)
    requires
        0 <= start <= s.len(),
        sign_and_body(s).1 == s.subrange(start, s.len() as int),
        !seen_dot ==> s.len() - start == 0,
        seen_dot ==> start <= dot_at < s.len() && index_of(sign_and_body(s).1, 46) == dot_at - start
            && s.len() - start - 1 == 0,
    ensures
        mantissa_of(s) is None,
{
    let body = sign_and_body(s).1;
    lemma_index_of_bounds(body, 46);
}

proof fn lemma_digits_concat(a: Seq<u8>, b: Seq<u8>)
    ensures
        digits_value(a + b) == digits_value(a) * pow10(b.len()) + digits_value(b),
    decreases b.len(),
{
    if b.len() == 0 {
        assert(a + b =~= a);
    } else {
        let b0 = b.drop_last();
        lemma_digits_concat(a, b0);
        assert((a + b).drop_last() =~= a + b0);
        assert((a + b).last() == b.last());
        assert(digits_value(a) * pow10(b.len()) == digits_value(a) * pow10(b0.len()) * 10) by (nonlinear_arith)
            requires
                pow10(b.len()) == 10 * pow10(b0.len()),
        ;
    }
}

proof fn lemma_decimal_accepts(s: Seq<u8>, start: int, seen_dot: bool, dot_at: int, acc: int, count: int, frac_len: int, negative: bool)
    requires
        0 <= start <= s.len(),
        sign_and_body(s).1 == s.subrange(start, s.len() as int),
        negative == sign_and_body(s).0,
        1 <= count <= 18,
        !seen_dot ==> all_digits(s.subrange(start, s.len() as int)) && count == s.len() - start
            && acc == digits_value(s.subrange(start, s.len() as int)) && frac_len == 0,
        seen_dot ==> start <= dot_at < s.len() && index_of(sign_and_body(s).1, 46) == dot_at - start
            && all_digits(s.subrange(start, dot_at)) && all_digits(s.subrange(dot_at + 1, s.len() as int))
            && count == s.len() - start - 1 && frac_len == s.len() - dot_at - 1
            && acc == digits_value(s.subrange(start, dot_at) + s.subrange(dot_at + 1, s.len() as int)),
    ensures
        mantissa_of(s) == Some((negative, acc, frac_len as nat)),
{
    let body = sign_and_body(s).1;
    lemma_index_of_bounds(body, 46);
    let d = index_of(body, 46);
    if !seen_dot {
        if d < body.len() {
            assert(body[d] == s.subrange(start, s.len() as int)[d]);
        }
        assert(d == body.len());
        assert(body.subrange(0, d) + seq![] =~= s.subrange(start, s.len() as int));
    } else {
        assert(body.subrange(0, d) =~= s.subrange(start, dot_at));
        assert(body.subrange(d + 1, body.len() as int) =~= s.subrange(dot_at + 1, s.len() as int));
    }
}

/// Reads a decimal integer; see `int_of`.
pub fn parse_int(s: &[u8]) -> (r: Option<i32>)
    ensures
        r == int_of(s@),
{
    let n = s.len();
    let mut start: usize = 0;
    let mut negative = false;
    if n > 0 && (s[0] == 45u8 || s[0] == 43u8) {
        negative = s[0] == 45u8;
        start = 1;
    }
    let ghost body = sign_and_body(s@).1;
    proof {
        assert(body =~= s@.subrange(start as int, n as int));
    }
    if n - start == 0 || n - start > 10 {
        return None;
    }
    let mut acc: i64 = 0;
    let mut i: usize = start;
    while i < n
        invariant
            start <= i <= n,
            n - start <= 10,
            n == s@.len(),
            body == s@.subrange(start as int, n as int),
            body == sign_and_body(s@).1,
            negative == sign_and_body(s@).0,
            all_digits(s@.subrange(start as int, i as int)),
            acc == digits_value(s@.subrange(start as int, i as int)),
            0 <= acc < pow10((i - start) as nat),
        decreases n - i,
    {
        let b = s[i];
        if b < 48u8 || b > 57u8 {
            proof {
                assert(body[i - start] == b);
                assert(!is_digit(body[i - start]));
                assert(!all_digits(body));
            }
            return None;
        }
        proof {
            lemma_pow10_small((i - start) as nat);
            lemma_digits_push(s@.subrange(start as int, i as int), b);
            assert(s@.subrange(start as int, i + 1) =~= s@.subrange(start as int, i as int).push(b));
        }
        acc = acc * 10 + (b - 48u8) as i64;
        i = i + 1;
    }
    let value = if negative { -acc } else { acc };
    if value < i32::MIN as i64 || value > i32::MAX as i64 {
        return None;
    }
    Some(value as i32)
}

/// The fields of `s` between separators `b`, as `(start, end)` positions.
pub fn split_fields(s: &[u8], b: u8) -> (r: Vec<(usize, usize)>)
    ensures
        r@.len() == split_on(s@, b).len(),
        forall|k: int|
            0 <= k < r@.len() ==> {
                let f = #[trigger] r@[k];
                &&& f.0 <= f.1 <= s@.len()
                &&& s@.subrange(f.0 as int, f.1 as int) == split_on(s@, b)[k]
            },
{
    let n = s.len();
    let mut fields: Vec<(usize, usize)> = Vec::new();
    let mut start: usize = 0;
    let mut i: usize = 0;
    proof {
        assert(s@.subrange(0, n as int) =~= s@);
        assert(fields@.map_values(|f: (usize, usize)| s@.subrange(f.0 as int, f.1 as int)) =~= seq![]);
    }
    while i < n
        invariant
            start <= i <= n,
            n == s@.len(),
            forall|j: int| start <= j < i ==> s@[j] != b,
            forall|k: int|
                0 <= k < fields@.len() ==> (#[trigger] fields@[k]).0 <= fields@[k].1 <= start,
            fields@.map_values(|f: (usize, usize)| s@.subrange(f.0 as int, f.1 as int)) + split_on(
                s@.subrange(start as int, n as int),
                b,
            ) == split_on(s@, b),
        decreases n - i,
    {
        if s[i] == b {
            let ghost t = s@.subrange(start as int, n as int);
            proof {
                lemma_index_of_is(t, b, i - start);
                assert(t.subrange(0, i - start) =~= s@.subrange(start as int, i as int));
                assert(t.subrange(i - start + 1, t.len() as int) =~= s@.subrange(i + 1, n as int));
            }
            let ghost before = fields@;
            fields.push((start, i));
            proof {
                assert(fields@.map_values(|f: (usize, usize)| s@.subrange(f.0 as int, f.1 as int))
                    =~= before.map_values(|f: (usize, usize)| s@.subrange(f.0 as int, f.1 as int)).push(
                    s@.subrange(start as int, i as int),
                ));
                assert(split_on(t, b) =~= seq![s@.subrange(start as int, i as int)] + split_on(
                    s@.subrange(i + 1, n as int),
                    b,
                ));
                assert(fields@.map_values(|f: (usize, usize)| s@.subrange(f.0 as int, f.1 as int))
                    + split_on(s@.subrange(i + 1, n as int), b) =~= before.map_values(
                    |f: (usize, usize)| s@.subrange(f.0 as int, f.1 as int),
                ) + split_on(t, b));
            }
            start = i + 1;
        }
        i = i + 1;
    }
    let ghost t = s@.subrange(start as int, n as int);
    proof {
        lemma_index_of_is(t, b, t.len() as int);
    }
    let ghost before = fields@;
    fields.push((start, n));
    proof {
        assert(split_on(t, b) =~= seq![t]);
        assert(fields@.map_values(|f: (usize, usize)| s@.subrange(f.0 as int, f.1 as int))
            =~= before.map_values(|f: (usize, usize)| s@.subrange(f.0 as int, f.1 as int)).push(t));
        assert forall|k: int| 0 <= k < fields@.len() implies s@.subrange(
            (#[trigger] fields@[k]).0 as int,
            fields@[k].1 as int,
        ) == split_on(s@, b)[k] by {
            assert(fields@.map_values(|f: (usize, usize)| s@.subrange(f.0 as int, f.1 as int))[k]
                == s@.subrange(fields@[k].0 as int, fields@[k].1 as int));
        }
    }
    fields
}

/// A triangle as an OBJ `f` line gives it: 1-based vertex and texture
/// coordinate indices.
#[derive(Clone, Copy, Debug, PartialEq, Eq, Structural)]
pub struct ObjFace {
    pub a: i32,
    pub b: i32,
    pub c: i32,
    pub a_uv: i32,
    pub b_uv: i32,
    pub c_uv: i32,
}

/// What one line of an OBJ file holds.
#[derive(Clone, Copy, Debug, PartialEq, Eq, Structural)]
pub enum ObjLine {
    Vertex(Vec3),
    /// A texture coordinate, with `v` flipped so the origin is top-left.
    TextureCoord(TextureUV),
    Face(ObjFace),
    /// Anything else, or a line that does not parse.
    Skip,
}

pub open spec fn starts_with(s: Seq<u8>, p: Seq<u8>) -> bool {
    p.len() <= s.len() && s.subrange(0, p.len() as int) == p
}

/// A face corner `v/vt` (more `/` fields may follow): its vertex and texture
/// coordinate indices.
pub open spec fn corner_of(f: Seq<u8>) -> Option<(i32, i32)> {
    let parts = split_on(f, 47);
    if parts.len() >= 2 && int_of(parts[0]) is Some && int_of(parts[1]) is Some {
        Some((int_of(parts[0])->0, int_of(parts[1])->0))
    } else {
        None
    }
}

/// The meaning of one line: `v x y z`, `vt u v` or `f a/ta b/tb c/tc`, fields
/// separated by single spaces; any other line, or one whose fields do not
/// parse, is skipped.
pub open spec fn obj_line_of(line: Seq<u8>) -> ObjLine {
    let fields = split_on(line, 32);
    if starts_with(line, seq![118u8, 32u8]) {
        if fields.len() == 4 && number_of(fields[1]) is Some && number_of(fields[2]) is Some
            && number_of(fields[3]) is Some {
            ObjLine::Vertex(
                Vec3 { x: number_of(fields[1])->0, y: number_of(fields[2])->0, z: number_of(fields[3])->0 },
            )
        } else {
            ObjLine::Skip
        }
    } else if starts_with(line, seq![118u8, 116u8, 32u8]) {
        if fields.len() == 3 && number_of(fields[1]) is Some && number_of(fields[2]) is Some {
            ObjLine::TextureCoord(
                TextureUV { u: number_of(fields[1])->0, v: fx_sub(Fixed { bits: 65536 }, number_of(fields[2])->0) },
            )
        } else {
            ObjLine::Skip
        }
    } else if starts_with(line, seq![102u8, 32u8]) {
        if fields.len() == 4 && corner_of(fields[1]) is Some && corner_of(fields[2]) is Some
            && corner_of(fields[3]) is Some {
            let a = corner_of(fields[1])->0;
            let b = corner_of(fields[2])->0;
            let c = corner_of(fields[3])->0;
            ObjLine::Face(ObjFace { a: a.0, b: b.0, c: c.0, a_uv: a.1, b_uv: b.1, c_uv: c.1 })
        } else {
            ObjLine::Skip
        }
    } else {
        ObjLine::Skip
    }
}

fn field<'a>(s: &'a [u8], fields: &Vec<(usize, usize)>, k: usize, b: u8) -> (r: &'a [u8])
    requires
        k < fields@.len(),
        fields@.len() == split_on(s@, b).len(),
        forall|j: int|
            0 <= j < fields@.len() ==> {
                let f = #[trigger] fields@[j];
                &&& f.0 <= f.1 <= s@.len()
                &&& s@.subrange(f.0 as int, f.1 as int) == split_on(s@, b)[j]
            },
    ensures
        r@ == split_on(s@, b)[k as int],
{
    let f = fields[k];
    &s[f.0..f.1]
}

fn parse_corner(f: &[u8]) -> (r: Option<(i32, i32)>)
    ensures
        r == corner_of(f@),
{
    let parts = split_fields(f, 47u8);
    if parts.len() < 2 {
        return None;
    }
    let v = parse_int(field(f, &parts, 0, 47u8));
    let t = parse_int(field(f, &parts, 1, 47u8));
    match (v, t) {
        (Some(v), Some(t)) => Some((v, t)),
        _ => None,
    }
}

fn begins_with(s: &[u8], p0: u8, p1: u8, p2: u8, n: usize) -> (r: bool)
    requires
        n == 2 || n == 3,
    ensures
        r == starts_with(s@, if n == 2 { seq![p0, p1] } else { seq![p0, p1, p2] }),
{
    let ghost p = if n == 2 { seq![p0, p1] } else { seq![p0, p1, p2] };
    if s.len() < n {
        return false;
    }
    let r = s[0] == p0 && s[1] == p1 && (n == 2 || s[2] == p2);
    proof {
        if r {
            assert(s@.subrange(0, n as int) =~= p);
        } else {
            if s@.subrange(0, n as int) == p {
                assert(s@.subrange(0, n as int)[0] == p[0]);
                assert(s@.subrange(0, n as int)[1] == p[1]);
                if n == 3 {
                    assert(s@.subrange(0, n as int)[2] == p[2]);
                }
            }
        }
    }
    r
}

/// Reads one line of an OBJ file; see `obj_line_of`.
pub fn parse_obj_line(line: &[u8]) -> (r: ObjLine)
    ensures
        r == obj_line_of(line@),
{
    let fields = split_fields(line, 32u8);
    if begins_with(line, 118u8, 32u8, 0u8, 2) {
        if fields.len() != 4 {
            return ObjLine::Skip;
        }
        let x = parse_number(field(line, &fields, 1, 32u8));
        let y = parse_number(field(line, &fields, 2, 32u8));
        let z = parse_number(field(line, &fields, 3, 32u8));
        match (x, y, z) {
            (Some(x), Some(y), Some(z)) => ObjLine::Vertex(Vec3 { x, y, z }),
            _ => ObjLine::Skip,
        }
    } else if begins_with(line, 118u8, 116u8, 32u8, 3) {
        if fields.len() != 3 {
            return ObjLine::Skip;
        }
        let u = parse_number(field(line, &fields, 1, 32u8));
        let v = parse_number(field(line, &fields, 2, 32u8));
        match (u, v) {
            (Some(u), Some(v)) => ObjLine::TextureCoord(TextureUV { u, v: Fixed::one().minus(v) }),
            _ => ObjLine::Skip,
        }
    } else if begins_with(line, 102u8, 32u8, 0u8, 2) {
        if fields.len() != 4 {
            return ObjLine::Skip;
        }
        let a = parse_corner(field(line, &fields, 1, 32u8));
        let b = parse_corner(field(line, &fields, 2, 32u8));
        let c = parse_corner(field(line, &fields, 3, 32u8));
        match (a, b, c) {
            (Some(a), Some(b), Some(c)) => ObjLine::Face(
                ObjFace { a: a.0, b: b.0, c: c.0, a_uv: a.1, b_uv: b.1, c_uv: c.1 },
            ),
            _ => ObjLine::Skip,
        }
    } else {
        ObjLine::Skip
    }
}

/// The face's texture coordinate indices all name a known coordinate.
pub open spec fn face_uvs_known(f: ObjFace, n: int) -> bool {
    &&& 1 <= f.a_uv <= n
    &&& 1 <= f.b_uv <= n
    &&& 1 <= f.c_uv <= n
}

pub open spec fn face_triangle(f: ObjFace, uvs: Seq<TextureUV>) -> Triangle {
    Triangle {
        a: f.a,
        b: f.b,
        c: f.c,
        a_uv: uvs[f.a_uv - 1],
        b_uv: uvs[f.b_uv - 1],
        c_uv: uvs[f.c_uv - 1],
    }
}

/// Adds what one OBJ line holds to a mesh being read: a vertex, a texture
/// coordinate (kept in `uvs` for the faces that follow), or a triangle whose
/// texture coordinates are looked up in `uvs`. A face that names an unknown
/// texture coordinate is skipped.
pub fn import_obj_line(mesh: &mut Mesh, uvs: &mut Vec<TextureUV>, line: &[u8])
    ensures
        match obj_line_of(line@) {
            ObjLine::Vertex(v) => {
                &&& final(mesh).vertices@ == old(mesh).vertices@.push(v)
                &&& final(mesh).triangles@ == old(mesh).triangles@
                &&& final(uvs)@ == old(uvs)@
            },
            ObjLine::TextureCoord(t) => {
                &&& final(mesh).vertices@ == old(mesh).vertices@
                &&& final(mesh).triangles@ == old(mesh).triangles@
                &&& final(uvs)@ == old(uvs)@.push(t)
            },
            ObjLine::Face(f) => {
                &&& final(mesh).vertices@ == old(mesh).vertices@
                &&& final(mesh).triangles@ == if face_uvs_known(f, old(uvs)@.len() as int) {
                    old(mesh).triangles@.push(face_triangle(f, old(uvs)@))
                } else {
                    old(mesh).triangles@
                }
                &&& final(uvs)@ == old(uvs)@
            },
            ObjLine::Skip => {
                &&& final(mesh).vertices@ == old(mesh).vertices@
                &&& final(mesh).triangles@ == old(mesh).triangles@
                &&& final(uvs)@ == old(uvs)@
            },
        },
{
    match parse_obj_line(line) {
        ObjLine::Vertex(v) => mesh.vertices.push(v),
        ObjLine::TextureCoord(t) => uvs.push(t),
        ObjLine::Face(f) => {
            let n = uvs.len();
            if f.a_uv >= 1 && f.a_uv as usize <= n && f.b_uv >= 1 && f.b_uv as usize <= n && f.c_uv
                >= 1 && f.c_uv as usize <= n {
                mesh.triangles.push(
                    Triangle {
                        a: f.a,
                        b: f.b,
                        c: f.c,
                        a_uv: uvs[f.a_uv as usize - 1],
                        b_uv: uvs[f.b_uv as usize - 1],
                        c_uv: uvs[f.c_uv as usize - 1],
                    },
                );
            }
        },
        ObjLine::Skip => {},
    }
}

proof fn lemma_pow10_upto(k: nat)
    requires
        k <= 23,
    ensures
        1 <= pow10(k) <= 100_000_000_000_000_000_000_000,
        k <= 14 ==> pow10(k) <= 100_000_000_000_000,
        pow10(k + 1) == 10 * pow10(k),
    decreases 23 - k,
{
    if k < 23 {
        lemma_pow10_upto(k + 1);
    } else {
        reveal_with_fuel(pow10, 24);
    }
    if k <= 14 {
        lemma_pow10_fourteen(k);
    }
}

proof fn lemma_pow10_fourteen(k: nat)
    requires
        k <= 14,
    ensures
        pow10(k) <= 100_000_000_000_000,
    decreases 14 - k,
{
    if k < 14 {
        lemma_pow10_fourteen(k + 1);
        assert(pow10(k + 1) == 10 * pow10(k));
    } else {
        reveal_with_fuel(pow10, 15);
    }
}

proof fn lemma_pow10_at_least(n: nat, m: nat)
    requires
        m <= n,
    ensures
        pow10(m) <= pow10(n),
        pow10(m) >= 1,
    decreases n,
{
    if n > m {
        lemma_pow10_at_least((n - 1) as nat, m);
    } else {
        lemma_pow10_positive(n);
    }
}

proof fn lemma_pow10_positive(n: nat)
    ensures
        pow10(n) >= 1,
    decreases n,
{
    if n > 0 {
        lemma_pow10_positive((n - 1) as nat);
    }
}

fn pow10_wide(k: usize) -> (r: u128)
    requires
        k <= 22,
    ensures
        r == pow10(k as nat),
{
    let mut r: u128 = 1;
    let mut i: usize = 0;
    while i < k
        invariant
            i <= k <= 22,
            r == pow10(i as nat),
        decreases k - i,
    {
        proof {
            lemma_pow10_upto(i as nat);
        }
        r = r * 10;
        i = i + 1;
    }
    r
}

/// `±magnitude * 10^net` in fixed point; see `scaled`.
fn scale_decimal(negative: bool, magnitude: u64, net: i64) -> (r: Fixed)
    requires
        magnitude < 1_000_000_000_000_000_000,
    ensures
        r == scaled(negative, magnitude as int, net as int),
{
    let value: i128 = if negative { -(magnitude as i128) } else { magnitude as i128 };
    if magnitude == 0 {
        proof {
            if net < 0 {
                lemma_pow10_positive((-net) as nat);
                assert(trunc_div(0, pow10((-net) as nat)) == 0);
            } else {
                let p = pow10(net as nat);
                assert(0int * 65536 * p == 0) by (nonlinear_arith);
            }
        }
        return Fixed::zero();
    }
    if net >= 15 {
        proof {
            lemma_pow10_at_least(net as nat, 15);
            lemma_pow10_upto(15);
            reveal_with_fuel(pow10, 16);
            let p = pow10(net as nat);
            assert(magnitude * 65536 * p >= 65536 * 1_000_000_000_000_000) by (nonlinear_arith)
                requires
                    magnitude >= 1,
                    p >= 1_000_000_000_000_000,
            ;
            assert((-magnitude) * 65536 * p == -(magnitude * 65536 * p)) by (nonlinear_arith);
        }
        return if negative { Fixed::from_bits(i64::MIN) } else { Fixed::from_bits(i64::MAX) };
    }
    if net <= -23 {
        proof {
            lemma_pow10_at_least((-net) as nat, 23);
            reveal_with_fuel(pow10, 24);
            let d = pow10((-net) as nat);
            assert(d >= 100_000_000_000_000_000_000_000);
            let v = value * 65536;
            assert(v < d && -v < d);
            if v >= 0 {
                assert(v / d == 0) by (nonlinear_arith)
                    requires
                        0 <= v < d,
                ;
            } else {
                assert((-v) / d == 0) by (nonlinear_arith)
                    requires
                        0 < -v < d,
                ;
            }
        }
        return Fixed::zero();
    }
    let bits: i128 = if net >= 0 {
        let p = pow10_wide(net as usize);
        proof {
            lemma_pow10_upto(net as nat);
            assert(-1_000_000_000_000_000_000 * 65536 * 100_000_000_000_000 <= value * 65536 * p
                <= 1_000_000_000_000_000_000 * 65536 * 100_000_000_000_000) by (nonlinear_arith)
                requires
                    -1_000_000_000_000_000_000 < value < 1_000_000_000_000_000_000,
                    1 <= p <= 100_000_000_000_000,
            ;
        }
        value * 65536 * p as i128
    } else {
        let d = pow10_wide((-net) as usize);
        proof {
            lemma_pow10_upto((-net) as nat);
        }
        (value * 65536) / d as i128
    };
    let clamped: i64 = if bits < i64::MIN as i128 {
        i64::MIN
    } else if bits > i64::MAX as i128 {
        i64::MAX
    } else {
        bits as i64
    };
    Fixed::from_bits(clamped)
}

/// Reads a number with an optional exponent; see `number_of`.
pub fn parse_number(s: &[u8]) -> (r: Option<Fixed>)
    ensures
        r == number_of(s@),
{
    let n = s.len();
    let mut k: usize = 0;
    while k < n && s[k] != 101u8 && s[k] != 69u8
        invariant
            k <= n,
            n == s@.len(),
            forall|j: int| 0 <= j < k ==> s@[j] != 101 && s@[j] != 69,
        decreases n - k,
    {
        k = k + 1;
    }
    proof {
        lemma_index_of_bounds(s@, 101);
        lemma_index_of_bounds(s@, 69);
        if k == n {
            lemma_index_of_is(s@, 101, n as int);
            lemma_index_of_is(s@, 69, n as int);
        } else if s@[k as int] == 101 {
            lemma_index_of_is(s@, 101, k as int);
        } else {
            lemma_index_of_is(s@, 69, k as int);
        }
        assert(exponent_at(s@) == k);
    }
    if k == n {
        return parse_decimal(s);
    }
    let m = parse_mantissa(&s[0..k]);
    let e = parse_int(&s[k + 1..n]);
    match (m, e) {
        (Some((negative, magnitude, frac_len)), Some(e)) => Some(
            scale_decimal(negative, magnitude, e as i64 - frac_len as i64),
        ),
        _ => None,
    }
}

} // verus!
