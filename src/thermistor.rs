//! NTC thermistor conversion from ADC readings to Q16.16 degrees Celsius, by
//! a lookup table with linear interpolation or by a polynomial.
use vstd::prelude::*;
use crate::fixed_point::{clamp_i32, fx_add, fx_mul, trunc_div, Fixed16_16};

verus! {

/// How readings are converted.
#[derive(Clone, Copy, Debug)]
pub enum ConversionMode<'a> {
    /// `(ADC reading, temperature)` pairs sorted by reading.
    Table(&'a [(u16, Fixed16_16)]),
    /// Polynomial coefficients in ascending order of degree.
    Polynomial(&'a [Fixed16_16]),
}

/// Number of leading entries of `t` whose reading is below `r`.
pub open spec fn lower_bound(t: Seq<(u16, Fixed16_16)>, r: u16) -> int
    decreases t.len(),
{
    if t.len() == 0 {
        0
    } else if t[0].0 < r {
        1 + lower_bound(t.skip(1), r)
    } else {
        0
    }
}

/// Linear interpolation between `(a1, t1)` and `(a2, t2)` at `r`:
/// `t1 + (t2 - t1) * (r - a1) / (a2 - a1)`, the quotient rounded toward zero,
/// saturated.
pub open spec fn interpolate(a1: u16, t1: i32, a2: u16, t2: i32, r: u16) -> i32 {
    clamp_i32(t1 + trunc_div((t2 - t1) * (r - a1), a2 - a1)) as i32
}

/// The temperature that table `t` gives for reading `r`: the entry with that
/// reading; `None` below the first or above the last reading (or for an
/// empty table); otherwise the interpolation between the neighbours.
pub open spec fn table_temp(t: Seq<(u16, Fixed16_16)>, r: u16) -> Option<Fixed16_16> {
    let i = lower_bound(t, r);
    if i < t.len() && t[i].0 == r {
        Some(t[i].1)
    } else if i == 0 || i >= t.len() {
        None
    } else {
        Some(Fixed16_16(interpolate(t[i - 1].0, t[i - 1].1.0, t[i].0, t[i].1.0, r)))
    }
}

/// The reading `r` as a Q16.16 number, saturated.
pub open spec fn reading(r: u16) -> i32 {
    clamp_i32(r * 65536) as i32
}

/// `(sum, power)` after the first `k` coefficients: the partial sum and
/// `x` to the power `k`, in saturating Q16.16 arithmetic.
pub open spec fn poly_upto(c: Seq<Fixed16_16>, x: i32, k: int) -> (i32, i32)
    decreases k,
{
    if k <= 0 {
        (0, 65536)
    } else {
        let (s, p) = poly_upto(c, x, k - 1);
        (fx_add(s, fx_mul(c[k - 1].0, p)), fx_mul(p, x))
    }
}

/// An NTC thermistor with its conversion.
#[derive(Clone, Copy, Debug)]
pub struct NtcThermistor<'a> {
    mode: ConversionMode<'a>,
}

impl<'a> NtcThermistor<'a> {
    /// The conversion in use.
    pub closed spec fn spec_mode(&self) -> ConversionMode<'a> {
        self.mode
    }

    /// A thermistor with conversion `mode`.
    pub fn new(mode: ConversionMode<'a>) -> (r: NtcThermistor<'a>)
        ensures
            r.spec_mode() == mode,
    {
        NtcThermistor { mode }
    }

    /// The temperature of a reading; `None` where a table does not cover it.
    pub fn temperature(&self, adc_reading: u16) -> (r: Option<Fixed16_16>)
        ensures
            match self.spec_mode() {
                ConversionMode::Table(t) => r == table_temp(t@, adc_reading),
                ConversionMode::Polynomial(c) => r == Some(
                    Fixed16_16(poly_upto(c@, reading(adc_reading), c@.len() as int).0),
                ),
            },
    {
        match self.mode {
            ConversionMode::Table(table) => temp_from_table(adc_reading, table),
            ConversionMode::Polynomial(coeffs) => Some(temp_from_poly(adc_reading, coeffs)),
        }
    }
}

proof fn lemma_lower_bound(t: Seq<(u16, Fixed16_16)>, r: u16, k: int)
    requires
        0 <= k <= t.len(),
        forall|j: int| 0 <= j < k ==> t[j].0 < r,
        k == t.len() || t[k].0 >= r,
    ensures
        lower_bound(t, r) == k,
    decreases t.len(),
{
    if t.len() > 0 && t[0].0 < r {
        assert forall|j: int| 0 <= j < k - 1 implies t.skip(1)[j].0 < r by {
            assert(t[j + 1].0 < r);
        }
        lemma_lower_bound(t.skip(1), r, k - 1);
    }
}

/// Temperature from a table with linear interpolation.
fn temp_from_table(adc_reading: u16, table: &[(u16, Fixed16_16)]) -> (r: Option<Fixed16_16>)
    ensures
        r == table_temp(table@, adc_reading),
{
    let mut i: usize = 0;
    while i < table.len() && table[i].0 < adc_reading
        invariant
            i <= table@.len(),
            forall|j: int| 0 <= j < i ==> table@[j].0 < adc_reading,
        decreases table@.len() - i,
    {
        i += 1;
    }
    proof {
        lemma_lower_bound(table@, adc_reading, i as int);
    }
    if i < table.len() && table[i].0 == adc_reading {
        return Some(table[i].1);
    }
    if i == 0 || i >= table.len() {
        return None;
    }
    let (a1, t1) = table[i - 1];
    let (a2, t2) = table[i];
    assert(a1 < adc_reading < a2);
    let dt: i64 = t2.0 as i64 - t1.0 as i64;
    let da: i64 = adc_reading as i64 - a1 as i64;
    assert(-0x1_0000_0000 * 0x1_0000 <= dt * da <= 0x1_0000_0000 * 0x1_0000) by (nonlinear_arith)
        requires
            -0x1_0000_0000 <= dt <= 0x1_0000_0000,
            0 <= da <= 0x1_0000,
    ;
    let num: i64 = dt * da;
    let den: i64 = a2 as i64 - a1 as i64;
    let na: i64 = if num >= 0 { num } else { -num };
    let q: i64 = na / den;
    let step: i64 = if num >= 0 { q } else { -q };
    proof {
        assert(vstd::math::abs(num as int) == na);
        assert(vstd::math::abs(den as int) == den);
    }
    let v: i64 = t1.0 as i64 + step;
    Some(Fixed16_16(crate::fixed_point::saturate(v)))
}

/// Temperature from polynomial coefficients.
fn temp_from_poly(adc_reading: u16, coeffs: &[Fixed16_16]) -> (r: Fixed16_16)
    ensures
        r.0 == poly_upto(coeffs@, reading(adc_reading), coeffs@.len() as int).0,
{
    let x = Fixed16_16(crate::fixed_point::saturate(adc_reading as i64 * 65536));
    let mut temp = Fixed16_16(0);
    let mut x_pow = Fixed16_16(65536);
    let mut i: usize = 0;
    while i < coeffs.len()
        invariant
            i <= coeffs@.len(),
            x.0 == reading(adc_reading),
            (temp.0, x_pow.0) == poly_upto(coeffs@, x.0, i as int),
        decreases coeffs@.len() - i,
    {
        temp = temp.add(coeffs[i].mul(x_pow));
        x_pow = x_pow.mul(x);
        i += 1;
    }
    temp
}

} // verus!
