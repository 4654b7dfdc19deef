//! Arbitrary-precision decimal arithmetic through `bigdecimal`. A
//! `BigDecimal` is held here as its plain parts: a sign, the magnitude of its
//! integer as base-2^32 digits (least significant first), and its scale.
//! Every operation is carried out by `bigdecimal` itself.

use vstd::prelude::*;

use std::str::FromStr;

use bigdecimal::num_bigint::{BigInt, Sign};
use bigdecimal::BigDecimal;

use crate::text::{all_digits, decimal_digits, digits_value, digits_without_point, point_at, pow10};
use crate::{
    decimal_strings, fixed_point_string, generated_units, lemma_fixed_point_string_reads_back,
    lemma_generated_units_in_range,
};

verus! {

/// A `BigDecimal` as plain values: the integer (the sign and the digits, in
/// base 2^32, least significant first) times `10^-scale`.
#[derive(Debug)]
pub struct BigDecimalValue {
    pub negative: bool,
    pub digits: Vec<u32>,
    pub scale: i64,
}

/// A `BigDecimal` as a mathematical value.
pub struct BigDecimalView {
    pub negative: bool,
    pub digits: Seq<u32>,
    pub scale: i64,
}

impl View for BigDecimalValue {
    type V = BigDecimalView;

    open spec fn view(&self) -> BigDecimalView {
        BigDecimalView { negative: self.negative, digits: self.digits@, scale: self.scale }
    }
}

/// The number that base-2^32 digits, least significant first, denote.
pub open spec fn magnitude(digits: Seq<u32>) -> nat
    decreases digits.len(),
{
    if digits.len() == 0 {
        0
    } else {
        (digits[0] + 0x1_0000_0000 * magnitude(digits.drop_first())) as nat
    }
}

/// The integer of a value, before it is scaled.
pub open spec fn numerator(v: BigDecimalView) -> int {
    if v.negative {
        -magnitude(v.digits)
    } else {
        magnitude(v.digits) as int
    }
}

/// Both denote the same number: `n1 * 10^-s1 == n2 * 10^-s2`.
pub open spec fn same_big_value(a: BigDecimalView, b: BigDecimalView) -> bool {
    let m = if a.scale <= b.scale { a.scale } else { b.scale };
    numerator(a) * pow10((b.scale - m) as nat) == numerator(b) * pow10((a.scale - m) as nat)
}

/// What `BigDecimal::from_str` makes of a string, if it accepts it.
pub uninterp spec fn parsed_bigdecimal(s: Seq<char>) -> Option<BigDecimalView>;

/// How `BigDecimal`'s `to_string` writes a value.
pub uninterp spec fn bigdecimal_text(v: BigDecimalView) -> Seq<char>;

/// What `BigDecimal`'s `+` gives.
pub uninterp spec fn bigdecimal_sum(a: BigDecimalView, b: BigDecimalView) -> BigDecimalView;

/// The view of an optional value.
pub open spec fn big_view(r: Option<BigDecimalValue>) -> Option<BigDecimalView> {
    match r {
        Some(v) => Some(v@),
        None => None,
    }
}

/// `BigDecimal::from_str`. Claimed: the result is the named parse; and, as
/// the source's `from_str_radix` reads it, digits around one point are taken
/// exactly: a non-negative integer made of all the digits, scaled by the
/// number of digits after the point; a run of digits with no point is that
/// non-negative integer at scale zero.
#[verifier::external_body]
pub(crate) fn parse_bigdecimal(s: &str) -> (r: Option<BigDecimalValue>)
    ensures
        big_view(r) == parsed_bigdecimal(s@),
        forall|p: int|
            #[trigger] point_at(s@, p) ==> (r is Some && !r->0.negative && r->0.scale == s@.len() - p - 1
                && magnitude(r->0.digits@) == digits_without_point(s@, p)),
        all_digits(s@) && s@.len() >= 1 ==> (r is Some && !r->0.negative && r->0.scale == 0 && magnitude(
            r->0.digits@,
        ) == digits_value(s@)),
{
    match BigDecimal::from_str(s) {
        Ok(d) => {
            let (integer, scale) = d.into_bigint_and_exponent();
            let (sign, digits) = integer.to_u32_digits();
            let negative = match sign {
                Sign::Minus => true,
                Sign::NoSign => false,
                Sign::Plus => false,
            };
            Some(BigDecimalValue { negative, digits, scale })
        },
        Err(_) => None,
    }
}

/// `BigDecimal`'s `to_string`. Claimed: the named text of the value.
#[verifier::external_body]
pub(crate) fn render_bigdecimal(v: &BigDecimalValue) -> (r: String)
    ensures
        r@ == bigdecimal_text(v@),
{
    let sign = if v.negative { Sign::Minus } else { Sign::Plus };
    BigDecimal::new(BigInt::from_slice(sign, &v.digits), v.scale).to_string()
}

/// `BigDecimal`'s `==`. Claimed: it compares the numbers, not their parts.
#[verifier::external_body]
pub(crate) fn bigdecimal_equal(a: &BigDecimalValue, b: &BigDecimalValue) -> (r: bool)
    ensures
        r == same_big_value(a@, b@),
{
    let sa = if a.negative { Sign::Minus } else { Sign::Plus };
    let sb = if b.negative { Sign::Minus } else { Sign::Plus };
    BigDecimal::new(BigInt::from_slice(sa, &a.digits), a.scale)
        == BigDecimal::new(BigInt::from_slice(sb, &b.digits), b.scale)
}

/// The larger of the two scales.
pub open spec fn larger_scale(a: BigDecimalView, b: BigDecimalView) -> i64 {
    if a.scale >= b.scale {
        a.scale
    } else {
        b.scale
    }
}

/// The exact sum of two values, as an integer at the larger scale.
pub open spec fn aligned_sum(a: BigDecimalView, b: BigDecimalView) -> int {
    let m = larger_scale(a, b);
    numerator(a) * pow10((m - a.scale) as nat) + numerator(b) * pow10((m - b.scale) as nat)
}

/// `BigDecimal`'s `+`. Claimed: the named sum; and, as the source's
/// `add_bigdecimals` computes it (aligning to the larger scale, also when an
/// operand is zero, and adding the integers), the sum is exact: its scale is
/// the larger scale and its integer the aligned sum, negative only when that
/// sum is.
#[verifier::external_body]
pub(crate) fn add_bigdecimal(a: &BigDecimalValue, b: &BigDecimalValue) -> (r: BigDecimalValue)
    ensures
        r@ == bigdecimal_sum(a@, b@),
        r.scale == larger_scale(a@, b@),
        numerator(r@) == aligned_sum(a@, b@),
        r.negative == (aligned_sum(a@, b@) < 0),
{
    let sa = if a.negative { Sign::Minus } else { Sign::Plus };
    let sb = if b.negative { Sign::Minus } else { Sign::Plus };
    let sum = BigDecimal::new(BigInt::from_slice(sa, &a.digits), a.scale)
        + BigDecimal::new(BigInt::from_slice(sb, &b.digits), b.scale);
    let (integer, scale) = sum.into_bigint_and_exponent();
    let (sign, digits) = integer.to_u32_digits();
    let negative = match sign {
        Sign::Minus => true,
        Sign::NoSign => false,
        Sign::Plus => false,
    };
    BigDecimalValue { negative, digits, scale }
}

impl BigDecimalValue {
    /// The integer `n` at scale zero (what `BigDecimal::from` gives).
    pub fn from_u32(n: u32) -> (r: BigDecimalValue)
        ensures
            r@ == (BigDecimalView {
                negative: false,
                digits: if n == 0 { Seq::empty() } else { seq![n] },
                scale: 0,
            }),
            magnitude(r@.digits) == n,
    {
        let mut digits: Vec<u32> = Vec::new();
        if n != 0 {
            digits.push(n);
        }
        proof {
            if n != 0 {
                assert(digits@.drop_first() =~= Seq::<u32>::empty());
                assert(magnitude(digits@.drop_first()) == 0);
                assert(digits@[0] == n);
                assert(magnitude(digits@) == n);
            } else {
                assert(magnitude(digits@) == 0);
            }
        }
        BigDecimalValue { negative: false, digits, scale: 0 }
    }
}

/// Parses both strings as `BigDecimal`, adds them and writes the sum; `None`
/// where a string is refused.
pub fn bigdecimal_sum_text(a: &str, b: &str) -> (r: Option<String>)
    ensures
        match (parsed_bigdecimal(a@), parsed_bigdecimal(b@)) {
            (Some(x), Some(y)) => r matches Some(t) && t@ == bigdecimal_text(bigdecimal_sum(x, y))
                && bigdecimal_sum(x, y).scale == larger_scale(x, y) && numerator(bigdecimal_sum(x, y))
                == aligned_sum(x, y),
            _ => r is None,
        },
{
    let x = match parse_bigdecimal(a) {
        Some(x) => x,
        None => return None,
    };
    let y = match parse_bigdecimal(b) {
        Some(y) => y,
        None => return None,
    };
    let sum = add_bigdecimal(&x, &y);
    Some(render_bigdecimal(&sum))
}

/// `v` is how a generated string with `dp` fractional digits reads as a
/// `BigDecimal`: the units at scale `dp`.
pub open spec fn reads_exactly(v: BigDecimalView, units: nat, dp: nat) -> bool {
    &&& !v.negative
    &&& magnitude(v.digits) == units
    &&& v.scale == dp as int
}

/// The generated input strings read as `BigDecimal`s. Every one is read
/// exactly: strings with a fixed number of decimal places lose nothing.
pub fn bigdecimal_inputs(seed: u64, n: usize, dp: u32, lo_units: u64, hi_units: u64) -> (r: Vec<
    BigDecimalValue,
>)
    requires
        lo_units <= hi_units,
        hi_units - lo_units < u64::MAX,
        dp <= 19,
    ensures
        r@.len() == n,
        forall|i: int|
            0 <= i < n ==> reads_exactly(
                (#[trigger] r@[i])@,
                generated_units(seed, i as nat, lo_units, hi_units) as nat,
                dp as nat,
            ),
{
    let strings = decimal_strings(seed, n, dp, lo_units, hi_units);
    let mut out: Vec<BigDecimalValue> = Vec::new();
    let mut i: usize = 0;
    while i < n
        invariant
            i <= n,
            strings@.len() == n,
            dp <= 19,
            lo_units <= hi_units,
            forall|j: int|
                0 <= j < n ==> (#[trigger] strings@[j])@ == fixed_point_string(
                    generated_units(seed, j as nat, lo_units, hi_units) as nat,
                    dp as nat,
                ),
            out@.len() == i,
            forall|j: int|
                0 <= j < i ==> reads_exactly(
                    (#[trigger] out@[j])@,
                    generated_units(seed, j as nat, lo_units, hi_units) as nat,
                    dp as nat,
                ),
        decreases n - i,
    {
        let ghost units = generated_units(seed, i as nat, lo_units, hi_units);
        proof {
            lemma_generated_units_in_range(seed, i as nat, lo_units, hi_units);
            lemma_fixed_point_string_reads_back(units as u64, dp as nat);
        }
        let ghost p = decimal_digits(units as nat / pow10(dp as nat)).len() as int;
        proof {
            if dp >= 1 {
                assert(point_at(strings@[i as int]@, p));
            }
        }
        match parse_bigdecimal(strings[i].as_str()) {
            Some(v) => {
                out.push(v);
            },
            None => {
                return out;
            },
        }
        i = i + 1;
    }
    out
}

} // verus!
