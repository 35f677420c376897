//! IEEE-754 double arithmetic, carried as bit patterns.
//!
//! Verified code never holds a machine floating-point value: a double
//! travels as its 64-bit pattern, and the few operations the pipeline needs
//! are trusted wrappers around `rustc_apfloat`'s binary64 arithmetic, which
//! is bit-for-bit the IEEE-754 round-to-nearest-even semantics. Every
//! operation is a pure function of the operand bits, so each result has a
//! name that the callers' contracts use.

use rustc_apfloat::Float;
use rustc_apfloat::Round;
use rustc_apfloat::ieee::Double;
use vstd::prelude::*;

verus! {

/// The bits of the IEEE-754 binary64 sum of two doubles given by their bits.
pub uninterp spec fn f64_add(a: u64, b: u64) -> u64;

/// The bits of the IEEE-754 binary64 quotient of two doubles given by their
/// bits.
pub uninterp spec fn f64_div(a: u64, b: u64) -> u64;

/// The bits of the double nearest to a signed 64-bit integer.
pub uninterp spec fn f64_of_i64(i: i64) -> u64;

/// The bits of the double nearest to an unsigned 64-bit integer.
pub uninterp spec fn f64_of_u64(i: u64) -> u64;

/// The decimal rendering of a double at a given number of significant
/// digits.
pub uninterp spec fn f64_digits(bits: u64, precision: usize) -> Seq<char>;

/// The bits of the double a decimal text converts to, or `None` when the
/// text is not a decimal number.
pub uninterp spec fn f64_of_text(s: Seq<char>) -> Option<u64>;

/// Relies on `rustc_apfloat::ieee::Double::add_r` with round to nearest,
/// ties to even: IEEE-754 binary64 addition, a pure function of the operand
/// bits.
#[verifier::external_body]
pub(crate) fn add_bits(a: u64, b: u64) -> (r: u64)
    ensures
        r == f64_add(a, b),
{
    let x = Double::from_bits(a as u128);
    let y = Double::from_bits(b as u128);
    x.add_r(y, Round::NearestTiesToEven).value.to_bits() as u64
}

/// Relies on `rustc_apfloat::ieee::Double::div_r` with round to nearest,
/// ties to even: IEEE-754 binary64 division, a pure function of the operand
/// bits.
#[verifier::external_body]
pub(crate) fn div_bits(a: u64, b: u64) -> (r: u64)
    ensures
        r == f64_div(a, b),
{
    let x = Double::from_bits(a as u128);
    let y = Double::from_bits(b as u128);
    x.div_r(y, Round::NearestTiesToEven).value.to_bits() as u64
}

/// Relies on `rustc_apfloat::Float::from_i128_r`: the double nearest to a
/// signed integer, a pure function of the integer.
#[verifier::external_body]
pub(crate) fn i64_to_bits(i: i64) -> (r: u64)
    ensures
        r == f64_of_i64(i),
{
    Double::from_i128_r(i as i128, Round::NearestTiesToEven).value.to_bits() as u64
}

/// Relies on `rustc_apfloat::Float::from_u128_r`: the double nearest to an
/// unsigned integer, a pure function of the integer.
#[verifier::external_body]
pub(crate) fn u64_to_bits(i: u64) -> (r: u64)
    ensures
        r == f64_of_u64(i),
{
    Double::from_u128_r(i as u128, Round::NearestTiesToEven).value.to_bits() as u64
}

/// Relies on `rustc_apfloat::ieee::Double`'s `Display`: the decimal
/// rendering of a double at a requested number of significant digits, a pure
/// function of the bits and the digit count. At least one digit must be
/// asked for: at zero digits the rendering panics after discarding the whole
/// significand. The width given to the formatter is generous enough that
/// every double renders in plain decimal form, never in scientific notation.
#[verifier::external_body]
pub(crate) fn format_bits(bits: u64, precision: usize) -> (r: Vec<char>)
    requires
        1 <= precision,
    ensures
        r@ == f64_digits(bits, precision),
{
    format!("{:400.1$}", Double::from_bits(bits as u128), precision).chars().collect()
}

/// Relies on `rustc_apfloat::Float::from_str_r` with round to nearest, ties
/// to even: correctly rounded decimal-to-binary64 conversion, a pure
/// function of the text.
#[verifier::external_body]
pub(crate) fn parse_bits(s: &[char]) -> (r: Option<u64>)
    ensures
        r == f64_of_text(s@),
{
    let text: String = s.iter().collect();
    match Double::from_str_r(&text, Round::NearestTiesToEven) {
        Ok(sa) => Some(sa.value.to_bits() as u64),
        Err(_) => None,
    }
}

/// Whether a double given by its bits is finite: its exponent field is not
/// all ones (which marks an infinity or a NaN).
pub open spec fn spec_is_finite_bits(bits: u64) -> bool {
    (bits >> 52) & 0x7ff != 0x7ff
}

/// Whether a double given by its bits is finite.
pub fn is_finite_bits(bits: u64) -> (r: bool)
    ensures
        r == spec_is_finite_bits(bits),
{
    (bits >> 52) & 0x7ff != 0x7ff
}

} // verus!
