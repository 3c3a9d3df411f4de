//! Double-precision arithmetic on IEEE-754 bit patterns.
//!
//! The whole crate stores a double-precision value as the `u64` holding its
//! IEEE-754 interchange encoding. Each operation below is carried out by an
//! outside soft-float library on that encoding, with round-to-nearest,
//! ties-to-even (the IEEE default); its result is named by an
//! uninterpreted spec function, since each operation is a pure function of
//! its argument bits.

use vstd::prelude::*;

use crate::token::is_literal_text;
use rustc_apfloat::Float;

verus! {

/// The double-precision value, as its bit pattern, that the decimal
/// literal text `s` denotes under correct rounding.
pub uninterp spec fn parse_val(s: Seq<char>) -> u64;

/// The IEEE-754 double-precision sum of the values encoded by `a` and `b`.
pub uninterp spec fn add_val(a: u64, b: u64) -> u64;

/// The IEEE-754 double-precision difference of the values encoded by `a`
/// and `b`.
pub uninterp spec fn sub_val(a: u64, b: u64) -> u64;

/// The IEEE-754 double-precision product of the values encoded by `a` and
/// `b`.
pub uninterp spec fn mul_val(a: u64, b: u64) -> u64;

/// The IEEE-754 double-precision square root of the value encoded by `a`;
/// for a negative argument it encodes a NaN.
pub uninterp spec fn sqrt_val(a: u64) -> u64;

/// The double-precision value, as its bit pattern, nearest to the
/// unsigned integer `n`.
pub uninterp spec fn counter_val(n: usize) -> u64;

/// Relies on rustc_apfloat: `Double` implements `FromStr` by decimal
/// conversion with correct rounding, and on text of the numeric-literal
/// shape (`[+-]?([0-9]*\.)?[0-9]+`) it returns `Ok`.
#[verifier::external_body]
pub(crate) fn parse_literal(s: &str) -> (r: u64)
    requires
        is_literal_text(s@),
    ensures
        r == parse_val(s@),
{
    s.parse::<rustc_apfloat::ieee::Double>().unwrap().to_bits() as u64
}

/// Relies on rustc_apfloat: addition of two `Double`s rounds the exact sum
/// to nearest, ties to even.
#[verifier::external_body]
pub(crate) fn add_values(a: u64, b: u64) -> (r: u64)
    ensures
        r == add_val(a, b),
{
    let x = rustc_apfloat::ieee::Double::from_bits(a as u128);
    let y = rustc_apfloat::ieee::Double::from_bits(b as u128);
    (x + y).value.to_bits() as u64
}

/// Relies on rustc_apfloat: subtraction of two `Double`s rounds the exact
/// difference to nearest, ties to even.
#[verifier::external_body]
pub(crate) fn sub_values(a: u64, b: u64) -> (r: u64)
    ensures
        r == sub_val(a, b),
{
    let x = rustc_apfloat::ieee::Double::from_bits(a as u128);
    let y = rustc_apfloat::ieee::Double::from_bits(b as u128);
    (x - y).value.to_bits() as u64
}

/// Relies on rustc_apfloat: multiplication of two `Double`s rounds the
/// exact product to nearest, ties to even.
#[verifier::external_body]
pub(crate) fn mul_values(a: u64, b: u64) -> (r: u64)
    ensures
        r == mul_val(a, b),
{
    let x = rustc_apfloat::ieee::Double::from_bits(a as u128);
    let y = rustc_apfloat::ieee::Double::from_bits(b as u128);
    (x * y).value.to_bits() as u64
}

#[verifier::external_type_specification]
#[verifier::external_body]
pub struct ExRoundingMode(softfp::RoundingMode);

#[verifier::external_type_specification]
#[verifier::external_body]
pub struct ExExceptionFlags(softfp::ExceptionFlags);

/// Relies on softfp's `RoundingMode`: the callback handed to the library
/// that selects round-to-nearest, ties-to-even (the IEEE default).
#[verifier::external_body]
fn ties_to_even() -> softfp::RoundingMode {
    softfp::RoundingMode::TiesToEven
}

/// The callback handed to softfp that discards the exception flags.
#[verifier::external_body]
fn ignore_flags(_flags: softfp::ExceptionFlags) {
}

/// Relies on softfp: `Fp::square_root` computes the correctly rounded
/// square root on the bit encoding, and yields a quiet NaN for negative
/// arguments; the two registrations select the IEEE default rounding and
/// discard the exception flags.
#[verifier::external_body]
pub(crate) fn sqrt_values(a: u64) -> (r: u64)
    ensures
        r == sqrt_val(a),
{
    softfp::register_get_rounding_mode(ties_to_even);
    softfp::register_set_exception_flags(ignore_flags);
    softfp::F64::new(a).square_root().0
}

/// Relies on rustc_apfloat: `Double::from_u128` converts an unsigned
/// integer to the nearest double-precision value.
#[verifier::external_body]
pub(crate) fn counter_value(n: usize) -> (r: u64)
    ensures
        r == counter_val(n),
{
    rustc_apfloat::ieee::Double::from_u128(n as u128).value.to_bits() as u64
}

} // verus!
