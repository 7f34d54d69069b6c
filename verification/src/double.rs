//! IEEE binary64 values held as their bit patterns (`u64`): their
//! comparisons, and their arithmetic, reading and printing by `rustc_apfloat`'s
//! software implementation, `rustc_apfloat::ieee::Double`.
use vstd::prelude::*;

use rustc_apfloat::ieee::Double;
use rustc_apfloat::Float;

verus! {

/// The bit pattern of the double that `text` denotes, if `text` reads as one.
pub uninterp spec fn double_from_text(text: Seq<char>) -> Option<u64>;

/// The bit pattern of the sum of two doubles.
pub uninterp spec fn double_sum(a: u64, b: u64) -> u64;

/// The bit pattern of the difference of two doubles.
pub uninterp spec fn double_difference(a: u64, b: u64) -> u64;

/// The bit pattern of the product of two doubles.
pub uninterp spec fn double_product(a: u64, b: u64) -> u64;

/// The bit pattern of the quotient of two doubles.
pub uninterp spec fn double_quotient(a: u64, b: u64) -> u64;

/// Whether the sign bit of a double is set.
pub open spec fn double_negative(a: u64) -> bool {
    a >= 0x8000_0000_0000_0000u64
}

/// The bit pattern of a double without its sign bit: for doubles that are
/// not NaN, a larger magnitude pattern is a larger absolute value.
pub open spec fn double_magnitude(a: u64) -> int {
    if double_negative(a) {
        a - 0x8000_0000_0000_0000u64
    } else {
        a as int
    }
}

/// Whether a double is a NaN: all exponent bits set, a nonzero fraction.
pub open spec fn double_is_nan(a: u64) -> bool {
    double_magnitude(a) > 0x7FF0_0000_0000_0000u64
}

/// IEEE equality: no NaN is equal to anything, the two zeros are equal, and
/// otherwise equal doubles have equal bit patterns.
pub open spec fn double_equal(a: u64, b: u64) -> bool {
    !double_is_nan(a) && !double_is_nan(b) && (a == b || (double_magnitude(a) == 0
        && double_magnitude(b) == 0))
}

/// IEEE order: no NaN is less than anything or has anything less than it;
/// otherwise a negative double is less than a positive one (the zeros being
/// equal), and doubles of one sign are ordered by magnitude, reversed for
/// negative ones.
pub open spec fn double_less(a: u64, b: u64) -> bool {
    if double_is_nan(a) || double_is_nan(b) {
        false
    } else if double_negative(a) && !double_negative(b) {
        !(double_magnitude(a) == 0 && double_magnitude(b) == 0)
    } else if !double_negative(a) && double_negative(b) {
        false
    } else if double_negative(a) {
        double_magnitude(a) > double_magnitude(b)
    } else {
        double_magnitude(a) < double_magnitude(b)
    }
}

/// IEEE `>`: `b < a`.
pub open spec fn double_greater(a: u64, b: u64) -> bool {
    double_less(b, a)
}

/// The decimal text of a double.
pub uninterp spec fn double_text(a: u64) -> Seq<char>;

/// The bit pattern of the negation of a double: its sign bit flipped.
pub open spec fn double_negation(a: u64) -> u64 {
    a ^ 0x8000_0000_0000_0000u64
}

/// Whether a double is zero, of either sign.
pub open spec fn double_is_zero(a: u64) -> bool {
    a == 0 || a == 0x8000_0000_0000_0000u64
}

/// Reads `text` with `<Double as FromStr>::from_str` (decimal, rounding to
/// nearest, ties to even). Claimed: the result is `double_from_text` of the
/// text, `None` where the crate reports a parse error.
#[verifier::external_body]
pub(crate) fn double_parse(text: &String) -> (r: Option<u64>)
    ensures
        r == double_from_text(text@),
{
    match text.as_str().parse::<Double>() {
        Ok(v) => Some(v.to_bits() as u64),
        Err(_) => None,
    }
}

/// `Double + Double` (`add_r` rounding to nearest, ties to even) on the
/// doubles with bit patterns `a` and `b`. Claimed: the bit pattern of the
/// result's value is `double_sum(a, b)`.
#[verifier::external_body]
pub(crate) fn double_add(a: u64, b: u64) -> (r: u64)
    ensures
        r == double_sum(a, b),
{
    (Double::from_bits(a as u128) + Double::from_bits(b as u128)).value.to_bits() as u64
}

/// `Double - Double` (`sub_r`, rounding to nearest, ties to even). Claimed:
/// the bit pattern of the result's value is `double_difference(a, b)`.
#[verifier::external_body]
pub(crate) fn double_sub(a: u64, b: u64) -> (r: u64)
    ensures
        r == double_difference(a, b),
{
    (Double::from_bits(a as u128) - Double::from_bits(b as u128)).value.to_bits() as u64
}

/// `Double * Double` (`mul_r`, rounding to nearest, ties to even). Claimed:
/// the bit pattern of the result's value is `double_product(a, b)`.
#[verifier::external_body]
pub(crate) fn double_mul(a: u64, b: u64) -> (r: u64)
    ensures
        r == double_product(a, b),
{
    (Double::from_bits(a as u128) * Double::from_bits(b as u128)).value.to_bits() as u64
}

/// `Double / Double` (`div_r`, rounding to nearest, ties to even). Claimed:
/// the bit pattern of the result's value is `double_quotient(a, b)`.
#[verifier::external_body]
pub(crate) fn double_div(a: u64, b: u64) -> (r: u64)
    ensures
        r == double_quotient(a, b),
{
    (Double::from_bits(a as u128) / Double::from_bits(b as u128)).value.to_bits() as u64
}

fn magnitude_of(a: u64) -> (m: u64)
    ensures
        m == double_magnitude(a),
{
    if a >= 0x8000_0000_0000_0000u64 {
        a - 0x8000_0000_0000_0000u64
    } else {
        a
    }
}

fn is_nan(a: u64) -> (r: bool)
    ensures
        r == double_is_nan(a),
{
    magnitude_of(a) > 0x7FF0_0000_0000_0000u64
}

/// `<` on two doubles.
pub(crate) fn double_lt(a: u64, b: u64) -> (r: bool)
    ensures
        r == double_less(a, b),
{
    if is_nan(a) || is_nan(b) {
        return false;
    }
    let na = a >= 0x8000_0000_0000_0000u64;
    let nb = b >= 0x8000_0000_0000_0000u64;
    let ma = magnitude_of(a);
    let mb = magnitude_of(b);
    if na && !nb {
        !(ma == 0 && mb == 0)
    } else if !na && nb {
        false
    } else if na {
        ma > mb
    } else {
        ma < mb
    }
}

/// `>` on two doubles.
pub(crate) fn double_gt(a: u64, b: u64) -> (r: bool)
    ensures
        r == double_greater(a, b),
{
    double_lt(b, a)
}

/// `==` on two doubles.
pub(crate) fn double_eq(a: u64, b: u64) -> (r: bool)
    ensures
        r == double_equal(a, b),
{
    !is_nan(a) && !is_nan(b) && (a == b || (magnitude_of(a) == 0 && magnitude_of(b) == 0))
}

/// The text that `Display for IeeeFloat` writes for a double. Claimed: the
/// text is `double_text(a)`.
#[verifier::external_body]
pub(crate) fn double_display(a: u64) -> (r: String)
    ensures
        r@ == double_text(a),
{
    format!("{}", Double::from_bits(a as u128))
}

} // verus!
