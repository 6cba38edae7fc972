//! Q16.16 fixed-point numbers: deterministic arithmetic for the heater loop
//! and other code that must not depend on an FPU.
use vstd::prelude::*;

verus! {

/// Number of fractional bits.
pub const FRAC_BITS: u32 = 16;

/// The raw value of 1.0.
pub const SCALE: i32 = 65536;

/// Clamps an integer into the range of `i32`.
pub open spec fn clamp_i32(v: int) -> int {
    if v > i32::MAX as int {
        i32::MAX as int
    } else if v < i32::MIN as int {
        i32::MIN as int
    } else {
        v
    }
}

/// Division that rounds toward zero, as Rust's `/` on signed integers does.
pub open spec fn trunc_div(n: int, d: int) -> int {
    let q: int = (vstd::math::abs(n) / vstd::math::abs(d)) as int;
    if (n >= 0) == (d >= 0) {
        q
    } else {
        -q
    }
}

/// Raw value of a saturating sum.
pub open spec fn fx_add(a: i32, b: i32) -> i32 {
    clamp_i32(a + b) as i32
}

/// Raw value of a saturating difference.
pub open spec fn fx_sub(a: i32, b: i32) -> i32 {
    clamp_i32(a - b) as i32
}

/// Raw value of a saturating negation.
pub open spec fn fx_neg(a: i32) -> i32 {
    clamp_i32(-a) as i32
}

/// Raw value of a product: `(a * b) >> 16`, saturated.
pub open spec fn fx_mul(a: i32, b: i32) -> i32 {
    clamp_i32((((a as i64) * (b as i64)) as i64 >> 16u64) as int) as i32
}

/// Raw value of a quotient: `(a << 16) / b` rounded toward zero, saturated;
/// the largest value where `b` is zero.
pub open spec fn fx_div(a: i32, b: i32) -> i32 {
    if b == 0 {
        i32::MAX
    } else {
        clamp_i32(trunc_div(a * SCALE, b as int)) as i32
    }
}

/// A signed number with 16 integer and 16 fractional bits, held in an `i32`.
#[derive(Clone, Copy, Debug, PartialEq, Eq, Structural, PartialOrd, Ord, Hash, Default)]
pub struct Fixed16_16(pub i32);

impl Fixed16_16 {
    /// The value zero.
    pub fn zero() -> (r: Fixed16_16)
        ensures
            r.0 == 0,
    {
        Fixed16_16(0)
    }

    /// The value one.
    pub fn one() -> (r: Fixed16_16)
        ensures
            r.0 == SCALE,
    {
        Fixed16_16(SCALE)
    }

    /// The whole number `n`.
    pub fn from_int(n: i16) -> (r: Fixed16_16)
        ensures
            r.0 == n * SCALE,
    {
        Fixed16_16(n as i32 * SCALE)
    }

    /// Saturating addition.
    pub fn add(self, rhs: Fixed16_16) -> (r: Fixed16_16)
        ensures
            r.0 == fx_add(self.0, rhs.0),
    {
        let s: i64 = self.0 as i64 + rhs.0 as i64;
        Fixed16_16(saturate(s))
    }

    /// Saturating subtraction.
    pub fn sub(self, rhs: Fixed16_16) -> (r: Fixed16_16)
        ensures
            r.0 == fx_sub(self.0, rhs.0),
    {
        let s: i64 = self.0 as i64 - rhs.0 as i64;
        Fixed16_16(saturate(s))
    }

    /// Saturating negation.
    pub fn neg(self) -> (r: Fixed16_16)
        ensures
            r.0 == fx_neg(self.0),
    {
        let s: i64 = -(self.0 as i64);
        Fixed16_16(saturate(s))
    }

    /// Product `(a * b) >> 16` of the raw values over a 64-bit intermediate,
    /// saturated into range.
    pub fn mul(self, rhs: Fixed16_16) -> (r: Fixed16_16)
        ensures
            r.0 == fx_mul(self.0, rhs.0),
    {
        let a: i64 = self.0 as i64;
        let b: i64 = rhs.0 as i64;
        proof {
            product_fits(a as int, b as int);
        }
        let p: i64 = a * b;
        let q: i64 = p >> 16u64;
        Fixed16_16(saturate(q))
    }

    /// Quotient `(a << 16) / b` of the raw values over a 64-bit dividend,
    /// rounding toward zero and saturated into range; division by zero gives
    /// the largest value.
    pub fn div(self, rhs: Fixed16_16) -> (r: Fixed16_16)
        ensures
            r.0 == fx_div(self.0, rhs.0),
    {
        if rhs.0 == 0 {
            return Fixed16_16(i32::MAX);
        }
        let n: i64 = self.0 as i64 * 65536;
        let d: i64 = rhs.0 as i64;
        let na: u64 = if n >= 0 { n as u64 } else { (-n) as u64 };
        let da: u64 = if d >= 0 { d as u64 } else { (-d) as u64 };
        let q: u64 = na / da;
        proof {
            assert(na == vstd::math::abs(n as int));
            assert(da == vstd::math::abs(d as int));
            assert(q <= na);
        }
        let s: i64 = if (n >= 0) == (d >= 0) { q as i64 } else { -(q as i64) };
        Fixed16_16(saturate(s))
    }

    /// `self < rhs`.
    pub fn lt(self, rhs: Fixed16_16) -> (r: bool)
        ensures
            r == (self.0 < rhs.0),
    {
        self.0 < rhs.0
    }
}

proof fn product_fits(a: int, b: int)
    requires
        i32::MIN <= a <= i32::MAX,
        i32::MIN <= b <= i32::MAX,
    ensures
        i64::MIN <= a * b <= i64::MAX,
{
    assert(-0x8000_0000 * 0x8000_0000 <= a * b <= 0x8000_0000 * 0x8000_0000) by (nonlinear_arith)
        requires
            -0x8000_0000 <= a <= 0x7fff_ffff,
            -0x8000_0000 <= b <= 0x7fff_ffff,
    ;
}

/// Saturates a 64-bit value into `i32`.
pub fn saturate(v: i64) -> (r: i32)
    ensures
        r == clamp_i32(v as int),
{
    if v > i32::MAX as i64 {
        i32::MAX
    } else if v < i32::MIN as i64 {
        i32::MIN
    } else {
        v as i32
    }
}

} // verus!
