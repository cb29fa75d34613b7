//! The run-time number model.
//!
//! A language number is an IEEE-754 binary64 value, carried everywhere as
//! its 64-bit pattern.  Negation, comparison and equality are bit-level
//! operations defined and verified here; addition, subtraction,
//! multiplication, division and decimal parsing round, so they go through
//! the `rustc_apfloat` software implementation of binary64 behind trusted
//! wrappers, each result named by an uninterpreted function of the operand
//! bits.

use vstd::prelude::*;
use rustc_apfloat::Float;
use rustc_apfloat::ieee::Double;

verus! {

/// The sign bit of a binary64 pattern: 0 for positive, 1 for negative.
pub open spec fn sign_bits(a: u64) -> u64 {
    a >> 63u64
}

/// The pattern with the sign bit cleared: exponent and fraction only.
pub open spec fn mag_bits(a: u64) -> u64 {
    a & 0x7fff_ffff_ffff_ffffu64
}

/// A NaN pattern: exponent all ones and a non-zero fraction, which is
/// exactly the patterns whose magnitude exceeds that of infinity.
pub open spec fn is_nan_bits(a: u64) -> bool {
    mag_bits(a) > 0x7ff0_0000_0000_0000u64
}

/// A zero pattern: positive or negative zero.
pub open spec fn is_zero_bits(a: u64) -> bool {
    mag_bits(a) == 0u64
}

/// IEEE-754 equality on patterns: NaN equals nothing, the two zeros are
/// equal, and every other value equals only its own pattern.
pub open spec fn eq_bits(a: u64, b: u64) -> bool {
    &&& !is_nan_bits(a)
    &&& !is_nan_bits(b)
    &&& (a == b || (is_zero_bits(a) && is_zero_bits(b)))
}

/// IEEE-754 strict order on patterns: false when either side is NaN or
/// both are zeros; otherwise a negative sign loses to a positive one, and
/// equal signs compare magnitudes through the pattern order.
pub open spec fn lt_bits(a: u64, b: u64) -> bool {
    &&& !is_nan_bits(a)
    &&& !is_nan_bits(b)
    &&& !(is_zero_bits(a) && is_zero_bits(b))
    &&& if sign_bits(a) != sign_bits(b) {
        sign_bits(a) == 1u64
    } else if sign_bits(a) == 0u64 {
        a < b
    } else {
        a > b
    }
}

/// IEEE-754 non-strict order: strict order or equality.
pub open spec fn le_bits(a: u64, b: u64) -> bool {
    lt_bits(a, b) || eq_bits(a, b)
}

/// IEEE-754 negation: the sign bit flips, on every value including NaN.
pub open spec fn neg_bits(a: u64) -> u64 {
    a ^ 0x8000_0000_0000_0000u64
}

/// What binary64 addition of the two patterns returns, rounding to
/// nearest, ties to even.
pub uninterp spec fn add_bits(a: u64, b: u64) -> u64;

/// What binary64 subtraction of the two patterns returns.
pub uninterp spec fn sub_bits(a: u64, b: u64) -> u64;

/// What binary64 multiplication of the two patterns returns.
pub uninterp spec fn mul_bits(a: u64, b: u64) -> u64;

/// What binary64 division of the two patterns returns.
pub uninterp spec fn div_bits(a: u64, b: u64) -> u64;

/// What correctly rounded decimal parsing of the text returns: the
/// pattern of the nearest binary64 value, or nothing when the text is not
/// a decimal number.
pub uninterp spec fn parse_bits(s: Seq<char>) -> Option<u64>;

pub fn num_eq(a: u64, b: u64) -> (r: bool)
    ensures
        r == eq_bits(a, b),
{
    let ma = a & 0x7fff_ffff_ffff_ffffu64;
    let mb = b & 0x7fff_ffff_ffff_ffffu64;
    if ma > 0x7ff0_0000_0000_0000u64 || mb > 0x7ff0_0000_0000_0000u64 {
        false
    } else {
        a == b || (ma == 0u64 && mb == 0u64)
    }
}

pub fn num_lt(a: u64, b: u64) -> (r: bool)
    ensures
        r == lt_bits(a, b),
{
    let ma = a & 0x7fff_ffff_ffff_ffffu64;
    let mb = b & 0x7fff_ffff_ffff_ffffu64;
    if ma > 0x7ff0_0000_0000_0000u64 || mb > 0x7ff0_0000_0000_0000u64 {
        false
    } else if ma == 0u64 && mb == 0u64 {
        false
    } else {
        let sa = a >> 63u64;
        let sb = b >> 63u64;
        if sa != sb {
            sa == 1u64
        } else if sa == 0u64 {
            a < b
        } else {
            a > b
        }
    }
}

pub fn num_le(a: u64, b: u64) -> (r: bool)
    ensures
        r == le_bits(a, b),
{
    num_lt(a, b) || num_eq(a, b)
}

pub fn num_neg(a: u64) -> (r: u64)
    ensures
        r == neg_bits(a),
{
    a ^ 0x8000_0000_0000_0000u64
}

/// Relies on `rustc_apfloat::ieee::Double::add_r` with round to nearest,
/// ties to even: IEEE-754 binary64 addition, a function of the operand
/// bits alone.
#[verifier::external_body]
pub fn num_add(a: u64, b: u64) -> (r: u64)
    ensures
        r == add_bits(a, b),
{
    let x = Double::from_bits(a as u128);
    let y = Double::from_bits(b as u128);
    x.add_r(y, rustc_apfloat::Round::NearestTiesToEven).value.to_bits() as u64
}

/// Relies on `rustc_apfloat::ieee::Double::sub_r` with round to nearest,
/// ties to even: IEEE-754 binary64 subtraction, a function of the operand
/// bits alone.
#[verifier::external_body]
pub fn num_sub(a: u64, b: u64) -> (r: u64)
    ensures
        r == sub_bits(a, b),
{
    let x = Double::from_bits(a as u128);
    let y = Double::from_bits(b as u128);
    x.sub_r(y, rustc_apfloat::Round::NearestTiesToEven).value.to_bits() as u64
}

/// Relies on `rustc_apfloat::ieee::Double::mul_r` with round to nearest,
/// ties to even: IEEE-754 binary64 multiplication, a function of the
/// operand bits alone.
#[verifier::external_body]
pub fn num_mul(a: u64, b: u64) -> (r: u64)
    ensures
        r == mul_bits(a, b),
{
    let x = Double::from_bits(a as u128);
    let y = Double::from_bits(b as u128);
    x.mul_r(y, rustc_apfloat::Round::NearestTiesToEven).value.to_bits() as u64
}

/// Relies on `rustc_apfloat::ieee::Double::div_r` with round to nearest,
/// ties to even: IEEE-754 binary64 division, a function of the operand
/// bits alone; division by zero yields an infinity or NaN per IEEE-754.
#[verifier::external_body]
pub fn num_div(a: u64, b: u64) -> (r: u64)
    ensures
        r == div_bits(a, b),
{
    let x = Double::from_bits(a as u128);
    let y = Double::from_bits(b as u128);
    x.div_r(y, rustc_apfloat::Round::NearestTiesToEven).value.to_bits() as u64
}

/// Relies on `rustc_apfloat::ieee::Double`'s `FromStr`: correctly rounded
/// decimal-to-binary64 conversion, a function of the text alone.
#[verifier::external_body]
pub fn num_parse(s: &str) -> (r: Option<u64>)
    ensures
        r == parse_bits(s@),
{
    match s.parse::<Double>() {
        Ok(d) => Some(d.to_bits() as u64),
        Err(_) => None,
    }
}

} // verus!
