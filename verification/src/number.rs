//! The language's numbers are IEEE-754 double-precision values. The library
//! carries each number as its 64-bit pattern. Negation is a sign-bit flip
//! and is computed and verified here; the rest of the floating-point work
//! is left to `rustc_apfloat`'s software implementation, behind the trusted
//! functions below. Each such result is given a name; all contracts of the
//! evaluator speak in those names.
use vstd::prelude::*;

use rustc_apfloat::ieee::Double;
use rustc_apfloat::Float;

verus! {

/// The double whose decimal numeral is `s` (digits with at most one point),
/// as its bit pattern.
pub uninterp spec fn from_decimal(s: Seq<char>) -> u64;

/// The IEEE-754 comparison of two doubles given by their bit patterns:
/// `-1`, `0` or `1` for less, equal or greater, and nothing when either is
/// a not-a-number value.
pub uninterp spec fn cmp_bits(a: u64, b: u64) -> Option<i8>;

/// The IEEE-754 negation of a double given by its bit pattern: the sign
/// bit flipped, every other bit kept. That is the whole of negation, on
/// every value, the not-a-number patterns included.
pub open spec fn neg_bits(a: u64) -> u64 {
    a ^ 0x8000_0000_0000_0000
}

/// The IEEE-754 sum of two doubles given by their bit patterns, rounded to
/// nearest, ties to even.
pub uninterp spec fn add_bits(a: u64, b: u64) -> u64;

/// The IEEE-754 difference of two doubles given by their bit patterns,
/// rounded to nearest, ties to even.
pub uninterp spec fn sub_bits(a: u64, b: u64) -> u64;

/// The IEEE-754 product of two doubles given by their bit patterns, rounded
/// to nearest, ties to even.
pub uninterp spec fn mul_bits(a: u64, b: u64) -> u64;

/// The IEEE-754 quotient of two doubles given by their bit patterns,
/// rounded to nearest, ties to even.
pub uninterp spec fn div_bits(a: u64, b: u64) -> u64;

/// The decimal rendering of a double given by its bit pattern.
pub uninterp spec fn render_bits(a: u64) -> Seq<char>;

/// The shape of numerals the lexer produces: it begins with a decimal
/// digit, every character is a digit or a point, and at most one point
/// occurs.
pub open spec fn plain_numeral(s: Seq<char>) -> bool {
    &&& s.len() > 0
    &&& '0' <= s[0] && s[0] <= '9'
    &&& forall|i: int|
        0 <= i < s.len() ==> ((#[trigger] s[i]) == '.' || ('0' <= s[i] && s[i] <= '9'))
    &&& forall|i: int, j: int|
        0 <= i < j < s.len() && (#[trigger] s[i]) == '.' ==> (#[trigger] s[j]) != '.'
}

/// Relies on `rustc_apfloat::ieee::Double::from_str`, which parses a decimal
/// numeral to the nearest double; the result depends on the text alone.
#[verifier::external_body]
pub fn number_from_decimal(s: &String) -> (r: u64)
    requires
        plain_numeral(s@),
    ensures
        r == from_decimal(s@),
{
    match s.as_str().parse::<Double>() {
        Ok(d) => d.to_bits() as u64,
        Err(_) => 0,
    }
}

/// Relies on `PartialOrd::partial_cmp` for `rustc_apfloat::ieee::Double`,
/// the IEEE-754 ordering; the result depends on the two bit patterns alone.
#[verifier::external_body]
pub fn number_cmp(a: u64, b: u64) -> (r: Option<i8>)
    ensures
        r == cmp_bits(a, b),
{
    match Double::from_bits(a as u128).partial_cmp(&Double::from_bits(b as u128)) {
        Some(core::cmp::Ordering::Less) => Some(-1),
        Some(core::cmp::Ordering::Equal) => Some(0),
        Some(core::cmp::Ordering::Greater) => Some(1),
        None => None,
    }
}

/// IEEE-754 negation: flips the sign bit.
pub fn number_neg(a: u64) -> (r: u64)
    ensures
        r == neg_bits(a),
{
    a ^ 0x8000_0000_0000_0000
}

/// Relies on `Add::add` for `rustc_apfloat::ieee::Double`, IEEE-754
/// addition rounded to nearest; the result depends on the bit patterns
/// alone.
#[verifier::external_body]
pub fn number_add(a: u64, b: u64) -> (r: u64)
    ensures
        r == add_bits(a, b),
{
    (Double::from_bits(a as u128) + Double::from_bits(b as u128)).value.to_bits() as u64
}

/// Relies on `Sub::sub` for `rustc_apfloat::ieee::Double`, IEEE-754
/// subtraction rounded to nearest; the result depends on the bit patterns
/// alone.
#[verifier::external_body]
pub fn number_sub(a: u64, b: u64) -> (r: u64)
    ensures
        r == sub_bits(a, b),
{
    (Double::from_bits(a as u128) - Double::from_bits(b as u128)).value.to_bits() as u64
}

/// Relies on `Mul::mul` for `rustc_apfloat::ieee::Double`, IEEE-754
/// multiplication rounded to nearest; the result depends on the bit
/// patterns alone.
#[verifier::external_body]
pub fn number_mul(a: u64, b: u64) -> (r: u64)
    ensures
        r == mul_bits(a, b),
{
    (Double::from_bits(a as u128) * Double::from_bits(b as u128)).value.to_bits() as u64
}

/// Relies on `Div::div` for `rustc_apfloat::ieee::Double`, IEEE-754
/// division rounded to nearest; the result depends on the bit patterns
/// alone.
#[verifier::external_body]
pub fn number_div(a: u64, b: u64) -> (r: u64)
    ensures
        r == div_bits(a, b),
{
    (Double::from_bits(a as u128) / Double::from_bits(b as u128)).value.to_bits() as u64
}

/// Relies on `fmt::Display` for `rustc_apfloat::ieee::Double`; the result
/// depends on the bit pattern alone. It prints a correctly-rounded decimal
/// of up to seventeen significant digits with trailing zeros stripped,
/// which always reads back to the same double. This is not always the
/// shortest such decimal: one tenth prints with all seventeen digits.
#[verifier::external_body]
pub fn number_render(a: u64) -> (r: String)
    ensures
        r@ == render_bits(a),
{
    format!("{}", Double::from_bits(a as u128))
}

} // verus!
