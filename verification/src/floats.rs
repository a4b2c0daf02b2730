use vstd::prelude::*;

use rustc_apfloat::ieee::Double;
use rustc_apfloat::Float;

verus! {

// The language's floating-point values are IEEE 754 doubles. Verified code
// never computes on them directly: it carries their 64-bit patterns and
// hands every operation to rustc_apfloat's software implementation of the
// IEEE 754 `binary64` format. Each operation below is a pure function of
// the operand bits, so its result can be given a name that contracts and
// the evaluator's model speak of.

/// How two doubles compare: the four outcomes of an IEEE 754 comparison.
#[derive(Debug, Clone, Copy, PartialEq, Eq, Structural)]
pub enum FloatCmp {
    Lt,
    Eq,
    Gt,
    Unordered,
}

/// The bits of the IEEE 754 sum of the doubles with bits `a` and `b`.
pub uninterp spec fn f64_bits_add(a: u64, b: u64) -> u64;

/// The bits of the IEEE 754 difference of the doubles with bits `a` and `b`.
pub uninterp spec fn f64_bits_sub(a: u64, b: u64) -> u64;

/// The bits of the IEEE 754 product of the doubles with bits `a` and `b`.
pub uninterp spec fn f64_bits_mul(a: u64, b: u64) -> u64;

/// The bits of the IEEE 754 quotient of the doubles with bits `a` and `b`.
pub uninterp spec fn f64_bits_div(a: u64, b: u64) -> u64;

/// The IEEE 754 ordering of the doubles with bits `a` and `b`.
pub uninterp spec fn f64_bits_cmp(a: u64, b: u64) -> FloatCmp;

/// The bits of the double nearest to the integer `i`.
pub uninterp spec fn f64_bits_of_i64(i: i64) -> u64;

/// The bits of the double nearest to the decimal numeral `s`.
pub uninterp spec fn f64_bits_of_decimal(s: Seq<char>) -> u64;

/// The decimal rendering of the double with bits `b`.
pub uninterp spec fn f64_bits_display(b: u64) -> Seq<char>;

/// Negating a double flips its sign bit and nothing else.
pub open spec fn f64_bits_neg(b: u64) -> u64 {
    b ^ 0x8000_0000_0000_0000u64
}

/// Negates the double with bits `b`. IEEE 754 negation is a sign-bit flip,
/// so this needs no outside call.
pub fn float_neg(b: u64) -> (r: u64)
    ensures
        r == f64_bits_neg(b),
{
    b ^ 0x8000_0000_0000_0000u64
}

/// Relies on rustc_apfloat's `Float::add_r` for `ieee::Double`
/// (round to nearest, ties to even), a function of the operand bits alone.
#[verifier::external_body]
pub fn float_add(a: u64, b: u64) -> (r: u64)
    ensures
        r == f64_bits_add(a, b),
{
    let x = Double::from_bits(a as u128);
    let y = Double::from_bits(b as u128);
    (x + y).value.to_bits() as u64
}

/// Relies on rustc_apfloat's `Float::sub_r` for `ieee::Double`
/// (round to nearest, ties to even), a function of the operand bits alone.
#[verifier::external_body]
pub fn float_sub(a: u64, b: u64) -> (r: u64)
    ensures
        r == f64_bits_sub(a, b),
{
    let x = Double::from_bits(a as u128);
    let y = Double::from_bits(b as u128);
    (x - y).value.to_bits() as u64
}

/// Relies on rustc_apfloat's `Float::mul_r` for `ieee::Double`
/// (round to nearest, ties to even), a function of the operand bits alone.
#[verifier::external_body]
pub fn float_mul(a: u64, b: u64) -> (r: u64)
    ensures
        r == f64_bits_mul(a, b),
{
    let x = Double::from_bits(a as u128);
    let y = Double::from_bits(b as u128);
    (x * y).value.to_bits() as u64
}

/// Relies on rustc_apfloat's `Float::div_r` for `ieee::Double`
/// (round to nearest, ties to even), a function of the operand bits alone.
/// IEEE 754 division never fails: division by zero gives an infinity.
#[verifier::external_body]
pub fn float_div(a: u64, b: u64) -> (r: u64)
    ensures
        r == f64_bits_div(a, b),
{
    let x = Double::from_bits(a as u128);
    let y = Double::from_bits(b as u128);
    (x / y).value.to_bits() as u64
}

/// Relies on rustc_apfloat's `PartialOrd::partial_cmp` for `ieee::Double`,
/// the IEEE 754 comparison: `None` exactly when an operand is a NaN.
#[verifier::external_body]
pub fn float_cmp(a: u64, b: u64) -> (r: FloatCmp)
    ensures
        r == f64_bits_cmp(a, b),
{
    let x = Double::from_bits(a as u128);
    let y = Double::from_bits(b as u128);
    match x.partial_cmp(&y) {
        Some(core::cmp::Ordering::Less) => FloatCmp::Lt,
        Some(core::cmp::Ordering::Equal) => FloatCmp::Eq,
        Some(core::cmp::Ordering::Greater) => FloatCmp::Gt,
        None => FloatCmp::Unordered,
    }
}

/// Relies on rustc_apfloat's `Float::from_i128` for `ieee::Double`
/// (round to nearest, ties to even), a function of the integer alone.
#[verifier::external_body]
pub fn float_of_i64(i: i64) -> (r: u64)
    ensures
        r == f64_bits_of_i64(i),
{
    Double::from_i128(i as i128).value.to_bits() as u64
}

/// Relies on rustc_apfloat's `FromStr` for `ieee::Double`, the correctly
/// rounded decimal-to-binary conversion, a function of the numeral alone.
/// The lexer only hands over numerals of the shape digits, then optionally
/// a dot and more digits, which that parser accepts.
#[verifier::external_body]
pub fn float_of_decimal(s: &Vec<char>) -> (r: u64)
    ensures
        r == f64_bits_of_decimal(s@),
{
    let text: String = s.iter().collect();
    match text.parse::<Double>() {
        Ok(v) => v.to_bits() as u64,
        Err(_) => 0,
    }
}

/// Relies on rustc_apfloat's `Display` for `ieee::Double`, which renders
/// the shortest decimal form of the value, a function of the bits alone.
#[verifier::external_body]
pub fn float_display(b: u64) -> (r: String)
    ensures
        r@ == f64_bits_display(b),
{
    format!("{}", Double::from_bits(b as u128))
}

} // verus!
