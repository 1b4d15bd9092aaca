//! Signed fixed-point numbers with 16 fractional bits, saturating on overflow.
use fixed::types::extra::U16;
use fixed::FixedI64;
use vstd::prelude::*;

verus! {

/// The raw value of `1.0`.
pub const ONE_BITS: i64 = 65536;

/// Clamps a mathematical integer into the range of `i64`.
pub open spec fn clamp_i64(x: int) -> int {
    if x < i64::MIN {
        i64::MIN as int
    } else if x > i64::MAX {
        i64::MAX as int
    } else {
        x
    }
}

/// Integer division rounded toward zero, as Rust's `/` on integers.
pub open spec fn trunc_div(a: int, b: int) -> int {
    if b == 0 {
        0
    } else if (a >= 0) == (b > 0) {
        if a >= 0 { a / b } else { (-a) / (-b) }
    } else {
        if a >= 0 { -(a / (-b)) } else { -((-a) / b) }
    }
}

/// A real number stored as `bits / 2^16`.
#[derive(Clone, Copy, Debug, PartialEq, Eq, Structural)]
pub struct Fixed {
    pub bits: i64,
}

/// The fixed-point value of raw bits, saturated into range.
pub open spec fn fx(bits: int) -> Fixed {
    Fixed { bits: clamp_i64(bits) as i64 }
}

pub open spec fn fx_int(n: int) -> Fixed {
    fx(n * 65536)
}

pub open spec fn fx_add(a: Fixed, b: Fixed) -> Fixed {
    fx(a.bits + b.bits)
}

pub open spec fn fx_sub(a: Fixed, b: Fixed) -> Fixed {
    fx(a.bits - b.bits)
}

pub open spec fn fx_neg(a: Fixed) -> Fixed {
    fx(-a.bits)
}

/// Product, rounded down.
pub open spec fn fx_mul(a: Fixed, b: Fixed) -> Fixed {
    fx((a.bits * b.bits) / 65536)
}

/// Quotient, rounded toward zero.
pub open spec fn fx_div(a: Fixed, b: Fixed) -> Fixed {
    fx(trunc_div(a.bits * 65536, b.bits as int))
}

/// The integer part, rounded toward zero.
pub open spec fn fx_trunc(a: Fixed) -> int {
    trunc_div(a.bits as int, 65536)
}

/// Relies on `FixedI64::<U16>::saturating_mul`: the exact product rounded down,
/// saturated to the type's range.
#[verifier::external_body]
fn mul_bits(a: i64, b: i64) -> (r: i64)
    ensures
        r == clamp_i64((a * b) / 65536),
{
    FixedI64::<U16>::from_bits(a).saturating_mul(FixedI64::<U16>::from_bits(b)).to_bits()
}

/// Relies on `FixedI64::<U16>::saturating_div`: the exact quotient rounded toward
/// zero, saturated to the type's range; it panics on a zero divisor.
#[verifier::external_body]
fn div_bits(a: i64, b: i64) -> (r: i64)
    requires
        b != 0,
    ensures
        r == clamp_i64(trunc_div(a * 65536, b as int)),
{
    FixedI64::<U16>::from_bits(a).saturating_div(FixedI64::<U16>::from_bits(b)).to_bits()
}

/// Relies on `FixedI64::<U16>::sqrt`: the square root rounded down; it panics on a
/// negative number.
#[verifier::external_body]
fn sqrt_bits(a: i64) -> (r: i64)
    requires
        a >= 0,
    ensures
        r >= 0,
        r * r <= a * 65536 < (r + 1) * (r + 1),
{
    FixedI64::<U16>::from_bits(a).sqrt().to_bits()
}

fn saturate(x: i128) -> (r: i64)
    ensures
        r == clamp_i64(x as int),
{
    if x < i64::MIN as i128 {
        i64::MIN
    } else if x > i64::MAX as i128 {
        i64::MAX
    } else {
        x as i64
    }
}

impl Fixed {
    pub fn zero() -> (r: Fixed)
        ensures
            r.bits == 0,
    {
        Fixed { bits: 0 }
    }

    pub fn one() -> (r: Fixed)
        ensures
            r.bits == ONE_BITS,
    {
        Fixed { bits: ONE_BITS }
    }

    pub fn from_bits(bits: i64) -> (r: Fixed)
        ensures
            r.bits == bits,
    {
        Fixed { bits }
    }

    /// The integer `n` as a fixed-point number.
    pub fn from_int(n: i64) -> (r: Fixed)
        ensures
            r == fx_int(n as int),
    {
        Fixed { bits: saturate(n as i128 * 65536) }
    }

    pub fn plus(self, o: Fixed) -> (r: Fixed)
        ensures
            r == fx_add(self, o),
    {
        Fixed { bits: saturate(self.bits as i128 + o.bits as i128) }
    }

    pub fn minus(self, o: Fixed) -> (r: Fixed)
        ensures
            r == fx_sub(self, o),
    {
        Fixed { bits: saturate(self.bits as i128 - o.bits as i128) }
    }

    pub fn neg(self) -> (r: Fixed)
        ensures
            r == fx_neg(self),
    {
        Fixed { bits: saturate(-(self.bits as i128)) }
    }

    pub fn times(self, o: Fixed) -> (r: Fixed)
        ensures
            r == fx_mul(self, o),
    {
        Fixed { bits: mul_bits(self.bits, o.bits) }
    }

    pub fn div_by(self, o: Fixed) -> (r: Fixed)
        requires
            o.bits != 0,
        ensures
            r == fx_div(self, o),
    {
        Fixed { bits: div_bits(self.bits, o.bits) }
    }

    /// Square root rounded down; `None` for a negative number.
    pub fn sqrt(self) -> (r: Option<Fixed>)
        ensures
            self.bits < 0 <==> r is None,
            r matches Some(s) ==> s.bits >= 0 && s.bits * s.bits <= self.bits * 65536 < (s.bits
                + 1) * (s.bits + 1),
    {
        if self.bits < 0 {
            None
        } else {
            Some(Fixed { bits: sqrt_bits(self.bits) })
        }
    }

    /// The integer part, rounded toward zero.
    pub fn trunc(self) -> (r: i64)
        ensures
            r == fx_trunc(self),
    {
        self.bits / 65536
    }
}

} // verus!
