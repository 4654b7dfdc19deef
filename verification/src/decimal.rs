//! Exact decimal arithmetic through `rust_decimal`. A `Decimal` is held here
//! as its plain parts, a 96-bit mantissa and a scale, and every operation is
//! carried out by `rust_decimal` itself.

use vstd::prelude::*;

use std::str::FromStr;

use rust_decimal::Decimal;

use crate::text::{all_digits, decimal_digits, digits_value, digits_without_point, point_at, pow10, zero_pad};
use crate::{
    decimal_strings, fixed_point_string, generated_units, lemma_fixed_point_string_reads_back,
    lemma_generated_units_in_range,
};

verus! {

/// The largest mantissa magnitude a `Decimal` holds: `2^96 - 1`.
pub const MAX_MANTISSA: i128 = 0xFFFF_FFFF_FFFF_FFFF_FFFF_FFFF;

/// The largest scale a `Decimal` holds.
pub const MAX_SCALE: u32 = 28;

/// A `rust_decimal::Decimal` as plain values: the number `mantissa * 10^-scale`.
/// A negative zero is held as zero.
#[derive(Debug, Clone, Copy, PartialEq, Eq, Structural)]
pub struct DecimalValue {
    pub mantissa: i128,
    pub scale: u32,
}

impl DecimalValue {
    /// The parts fit a `Decimal`.
    pub open spec fn wf(self) -> bool {
        &&& self.scale <= MAX_SCALE
        &&& -MAX_MANTISSA <= self.mantissa <= MAX_MANTISSA
    }

    /// The magnitude of the mantissa.
    pub open spec fn magnitude(self) -> nat {
        if self.mantissa < 0 {
            (-self.mantissa) as nat
        } else {
            self.mantissa as nat
        }
    }

    /// The integer `n` (what `Decimal::from` gives for an integer).
    pub fn from_int(n: i64) -> (r: DecimalValue)
        ensures
            r == (DecimalValue { mantissa: n as i128, scale: 0 }),
            r.wf(),
    {
        DecimalValue { mantissa: n as i128, scale: 0 }
    }

    /// The number one (`Decimal::ONE`).
    pub fn one() -> (r: DecimalValue)
        ensures
            r == (DecimalValue { mantissa: 1, scale: 0 }),
            r.wf(),
    {
        DecimalValue { mantissa: 1, scale: 0 }
    }

    /// The number zero (`Decimal::ZERO`).
    pub fn zero() -> (r: DecimalValue)
        ensures
            r == (DecimalValue { mantissa: 0, scale: 0 }),
            r.wf(),
    {
        DecimalValue { mantissa: 0, scale: 0 }
    }
}

/// Both denote the same number.
pub open spec fn same_value(a: DecimalValue, b: DecimalValue) -> bool {
    a.mantissa * pow10(b.scale as nat) == b.mantissa * pow10(a.scale as nat)
}

/// How `Decimal` writes a number: a minus sign for a negative one, the
/// digits of the mantissa with a point before the last `scale` of them
/// (padded with zeros so that there are that many), and `0` before the point
/// when no digit is left in front of it.
pub open spec fn decimal_text(d: DecimalValue) -> Seq<char> {
    let digits = if d.magnitude() == 0 {
        Seq::<char>::empty()
    } else {
        decimal_digits(d.magnitude())
    };
    let padded = zero_pad(digits, d.scale as nat);
    let cut = padded.len() - d.scale;
    let whole = padded.subrange(0, cut);
    let body = (if whole.len() == 0 {
        seq!['0']
    } else {
        whole
    }) + (if d.scale == 0 {
        Seq::<char>::empty()
    } else {
        seq!['.'] + padded.subrange(cut, padded.len() as int)
    });
    if d.mantissa < 0 {
        seq!['-'] + body
    } else {
        body
    }
}

proof fn lemma_digit_ascii(c: char)
    requires
        (c as u32) <= 57,
    ensures
        '\0' <= c <= '\u{7f}',
{
}

proof fn lemma_digits_ascii(s: Seq<char>)
    requires
        crate::text::all_digits(s),
    ensures
        vstd::utf8::is_ascii_chars(s),
{
    assert forall|i: int| 0 <= i < s.len() implies '\0' <= #[trigger] s[i] <= '\u{7f}' by {
        lemma_digit_ascii(s[i]);
    }
}

proof fn lemma_ascii_concat(a: Seq<char>, b: Seq<char>)
    requires
        vstd::utf8::is_ascii_chars(a),
        vstd::utf8::is_ascii_chars(b),
    ensures
        vstd::utf8::is_ascii_chars(a + b),
{
    assert forall|i: int| 0 <= i < (a + b).len() implies '\0' <= #[trigger] (a + b)[i] <= '\u{7f}' by {
        if i < a.len() {
            assert((a + b)[i] == a[i]);
        } else {
            assert((a + b)[i] == b[i - a.len()]);
        }
    }
}

/// Every character of a rendered decimal is ASCII, so it takes one byte.
pub proof fn lemma_decimal_text_ascii(d: DecimalValue)
    ensures
        vstd::utf8::is_ascii_chars(decimal_text(d)),
        vstd::utf8::encode_utf8(decimal_text(d)).len() == decimal_text(d).len(),
        d.wf() ==> decimal_text(d).len() <= 32,
{
    let digits = if d.magnitude() == 0 {
        Seq::<char>::empty()
    } else {
        decimal_digits(d.magnitude())
    };
    if d.magnitude() != 0 {
        crate::text::lemma_decimal_digits(d.magnitude());
    }
    crate::text::lemma_zero_pad_value(digits, d.scale as nat);
    let padded = zero_pad(digits, d.scale as nat);
    let cut = padded.len() - d.scale;
    let whole = padded.subrange(0, cut);
    let frac = padded.subrange(cut, padded.len() as int);
    lemma_digits_ascii(whole);
    lemma_digits_ascii(frac);
    lemma_digits_ascii(seq!['0']);
    let lead = if whole.len() == 0 { seq!['0'] } else { whole };
    let point = seq!['.'];
    let empty = Seq::<char>::empty();
    assert(vstd::utf8::is_ascii_chars(point));
    assert(vstd::utf8::is_ascii_chars(seq!['-']));
    assert(vstd::utf8::is_ascii_chars(empty));
    lemma_ascii_concat(point, frac);
    let tail = if d.scale == 0 { empty } else { point + frac };
    lemma_ascii_concat(lead, tail);
    lemma_ascii_concat(seq!['-'], lead + tail);
    vstd::utf8::is_ascii_chars_encode_utf8(decimal_text(d));
    if d.wf() && d.magnitude() != 0 {
        assert(pow10(29) == 100000000000000000000000000000) by {
            reveal_with_fuel(pow10, 30);
        }
        crate::text::lemma_decimal_digits_len(d.magnitude(), 29);
    }
}

/// The single digit zero, as `Decimal` writes a number without digits before
/// its point.
proof fn lemma_zero_digit()
    ensures
        seq!['0'] == decimal_digits(0),
        all_digits(seq!['0']),
        digits_value(seq!['0']) == 0,
{
    crate::text::lemma_decimal_digits(0);
    crate::text::lemma_digit_char(0);
    assert(decimal_digits(0) =~= seq!['0']);
}

/// What `Decimal` writes for a number that is not negative: with a positive
/// scale, digits around one point, `scale` of them after it, that together
/// make the mantissa; with scale zero, the digits of the mantissa alone.
pub proof fn lemma_decimal_text_shape(d: DecimalValue)
    requires
        d.mantissa >= 0,
    ensures
        d.scale >= 1 ==> ({
            let t = decimal_text(d);
            let p = t.len() - d.scale - 1;
            &&& point_at(t, p)
            &&& digits_without_point(t, p) == d.mantissa
        }),
        d.scale == 0 ==> ({
            let t = decimal_text(d);
            &&& all_digits(t)
            &&& 1 <= t.len()
            &&& digits_value(t) == d.mantissa
        }),
{
    let m = d.magnitude();
    let digits = if m == 0 {
        Seq::<char>::empty()
    } else {
        decimal_digits(m)
    };
    if m != 0 {
        crate::text::lemma_decimal_digits(m);
    } else {
        assert(digits_value(digits) == 0);
    }
    lemma_zero_digit();
    crate::text::lemma_zero_pad_value(digits, d.scale as nat);
    let padded = zero_pad(digits, d.scale as nat);
    let cut = padded.len() - d.scale;
    let whole = padded.subrange(0, cut);
    let frac = padded.subrange(cut, padded.len() as int);
    let lead = if whole.len() == 0 {
        seq!['0']
    } else {
        whole
    };
    let t = decimal_text(d);
    assert(digits_value(padded) == m);
    assert(all_digits(whole));
    assert(all_digits(frac));
    assert(all_digits(lead));
    if d.scale >= 1 {
        let p = t.len() - d.scale - 1;
        assert(t =~= lead + (seq!['.'] + frac));
        assert(p == lead.len());
        assert(t.subrange(0, p) =~= lead);
        assert(t.subrange(p + 1, t.len() as int) =~= frac);
        crate::text::lemma_digits_value_concat(lead, frac);
        if whole.len() == 0 {
            assert(frac =~= padded);
            assert(digits_value(lead) == 0);
            assert(digits_value(lead) * pow10(frac.len()) == 0) by (nonlinear_arith)
                requires
                    digits_value(lead) == 0,
            ;
            assert(digits_value(lead + frac) == digits_value(frac));
        } else {
            assert(whole + frac =~= padded);
        }
        assert(digits_value(lead + frac) == m);
        assert(t[p] == '.');
        assert(1 <= p < t.len() - 1);
        assert(point_at(t, p));
        assert(digits_without_point(t, p) == digits_value(lead + frac));
    } else {
        assert(t =~= lead);
        assert(whole =~= padded);
    }
}

/// A number whose magnitude is below `10^k` is written in at most
/// `max(k, scale) + 2` characters when it is not negative (the digits, a
/// point and a leading zero at most), one more with a minus sign.
pub proof fn lemma_decimal_text_len(d: DecimalValue, k: nat)
    requires
        k >= 1,
        d.magnitude() < pow10(k),
    ensures
        decimal_text(d).len() <= (if k >= d.scale { k } else { d.scale as nat }) + 3,
        d.mantissa >= 0 ==> decimal_text(d).len() <= (if k >= d.scale { k } else { d.scale as nat }) + 2,
{
    let m = d.magnitude();
    let digits = if m == 0 {
        Seq::<char>::empty()
    } else {
        decimal_digits(m)
    };
    if m != 0 {
        crate::text::lemma_decimal_digits(m);
        crate::text::lemma_decimal_digits_len(m, k);
    }
    crate::text::lemma_zero_pad_value(digits, d.scale as nat);
    let padded = zero_pad(digits, d.scale as nat);
    let cut = padded.len() - d.scale;
    let whole = padded.subrange(0, cut);
    let lead_len: int = if whole.len() == 0 { 1 } else { whole.len() as int };
    let tail_len: int = if d.scale == 0 { 0 } else { 1 + d.scale };
    assert(padded.len() <= (if k >= d.scale { k } else { d.scale as nat }));
    assert(decimal_text(d).len() == (if d.mantissa < 0 { 1int } else { 0int }) + lead_len + tail_len);
}

/// With a positive scale the text holds at least a digit, the point and
/// `scale` digits after it.
pub proof fn lemma_decimal_text_min_len(d: DecimalValue)
    requires
        d.scale >= 1,
    ensures
        decimal_text(d).len() >= d.scale + 2,
{
    let digits = if d.magnitude() == 0 {
        Seq::<char>::empty()
    } else {
        decimal_digits(d.magnitude())
    };
    let padded = zero_pad(digits, d.scale as nat);
    assert(padded.len() >= d.scale);
}

/// `s` is digits around the point at `p` with no superfluous leading zero:
/// before the point stands a single digit, or digits that do not start with
/// `0`.
pub open spec fn canonical_at(s: Seq<char>, p: int) -> bool {
    &&& point_at(s, p)
    &&& (p == 1 || s[0] != '0')
}

/// The text of a number below `10^28` whose significant digits, padded to
/// `scale` digits, are `frac`, with nothing before the point: `0.` and `frac`.
proof fn lemma_text_of_fraction(m: nat, frac: Seq<char>)
    requires
        m < pow10(28),
        1 <= frac.len() <= 28,
        zero_pad(crate::text::significant_digits(m), frac.len()) == frac,
        pow10(28) == 10000000000000000000000000000nat,
    ensures
        decimal_text(DecimalValue { mantissa: m as i128, scale: frac.len() as u32 }) == seq!['0', '.'] + frac,
{
    let d = DecimalValue { mantissa: m as i128, scale: frac.len() as u32 };
    assert(d.magnitude() == m);
    assert(d.scale == frac.len());
    let padded = zero_pad(crate::text::significant_digits(m), d.scale as nat);
    assert(padded == frac);
    assert(padded.subrange(0, 0) =~= Seq::<char>::empty());
    assert(padded.subrange(0, padded.len() as int) =~= frac);
    assert(decimal_text(d) =~= seq!['0', '.'] + frac);
}

/// The text of a number below `10^28` whose significant digits are
/// `int_part` followed by `frac`, at scale `frac.len()`: the two parts
/// around a point.
proof fn lemma_text_of_digits(m: nat, int_part: Seq<char>, frac: Seq<char>)
    requires
        m < pow10(28),
        int_part.len() >= 1,
        1 <= frac.len() <= 28,
        crate::text::significant_digits(m) == int_part + frac,
        pow10(28) == 10000000000000000000000000000nat,
    ensures
        decimal_text(DecimalValue { mantissa: m as i128, scale: frac.len() as u32 }) == int_part + (seq!['.']
            + frac),
{
    let d = DecimalValue { mantissa: m as i128, scale: frac.len() as u32 };
    assert(d.magnitude() == m);
    assert(d.scale == frac.len());
    let t = int_part + frac;
    assert(zero_pad(t, frac.len()) == t);
    assert(t.subrange(0, int_part.len() as int) =~= int_part);
    assert(t.subrange(int_part.len() as int, t.len() as int) =~= frac);
    assert(decimal_text(d) =~= int_part + (seq!['.'] + frac));
}

/// Digits that do not start with `0` are their number's significant digits.
proof fn lemma_no_leading_zero(t: Seq<char>)
    requires
        all_digits(t),
        t.len() >= 1,
        t[0] != '0',
    ensures
        crate::text::significant_digits(digits_value(t)) == t,
{
    crate::text::lemma_digits_canonical(t);
    let sig = crate::text::significant_digits(digits_value(t));
    if sig.len() < t.len() {
        assert(zero_pad(sig, t.len())[0] == '0');
    }
    assert(sig =~= t);
}

/// A leading `0` adds nothing to the number that digits make.
proof fn lemma_leading_zero(frac: Seq<char>)
    ensures
        digits_value(seq!['0'] + frac) == digits_value(frac),
{
    lemma_zero_digit();
    crate::text::lemma_digits_value_concat(seq!['0'], frac);
    assert(digits_value(seq!['0']) * pow10(frac.len()) == 0) by (nonlinear_arith)
        requires
            digits_value(seq!['0']) == 0,
    ;
}

/// The parts of a string of digits around a point.
proof fn lemma_point_parts(s: Seq<char>, p: int)
    requires
        point_at(s, p),
        s.len() <= 29,
    ensures
        ({
            let int_part = s.subrange(0, p);
            let frac = s.subrange(p + 1, s.len() as int);
            &&& s == int_part + (seq!['.'] + frac)
            &&& all_digits(int_part + frac)
            &&& digits_without_point(s, p) == digits_value(int_part + frac)
            &&& digits_value(int_part + frac) < pow10(28)
            &&& 1 <= frac.len() <= 27
            &&& int_part.len() >= 1
        }),
        pow10(28) == 10000000000000000000000000000nat,
{
    let int_part = s.subrange(0, p);
    let frac = s.subrange(p + 1, s.len() as int);
    let t = int_part + frac;
    assert(all_digits(t)) by {
        assert forall|i: int| 0 <= i < t.len() implies 48 <= (#[trigger] t[i] as u32) <= 57 by {
            if i < p {
                assert(t[i] == int_part[i]);
            } else {
                assert(t[i] == frac[i - p]);
            }
        }
    }
    crate::text::lemma_digits_value_bound(t);
    crate::text::lemma_pow10_le_28(t.len());
    assert(pow10(28) == 10000000000000000000000000000nat) by {
        reveal_with_fuel(pow10, 29);
    }
    assert(s =~= int_part + (seq!['.'] + frac));
}

/// `Decimal` writes the number that a canonical string of at most 28 digits
/// denotes (at the scale the string gives it) as that very string.
pub proof fn lemma_canonical_text(s: Seq<char>, p: int)
    requires
        canonical_at(s, p),
        s.len() <= 29,
    ensures
        decimal_text(
            DecimalValue { mantissa: digits_without_point(s, p) as i128, scale: (s.len() - p - 1) as u32 },
        ) == s,
{
    lemma_point_parts(s, p);
    let int_part = s.subrange(0, p);
    let frac = s.subrange(p + 1, s.len() as int);
    let m = digits_without_point(s, p);
    assert(frac.len() == s.len() - p - 1);
    if p == 1 && s[0] == '0' {
        assert(int_part =~= seq!['0']);
        lemma_leading_zero(frac);
        assert(all_digits(frac)) by {
            assert forall|i: int| 0 <= i < frac.len() implies 48 <= (#[trigger] frac[i] as u32) <= 57 by {
                assert(frac[i] == (int_part + frac)[i + 1]);
            }
        }
        crate::text::lemma_digits_canonical(frac);
        lemma_text_of_fraction(m, frac);
        assert(seq!['0', '.'] + frac =~= s);
    } else {
        assert((int_part + frac)[0] == s[0]);
        lemma_no_leading_zero(int_part + frac);
        lemma_text_of_digits(m, int_part, frac);
    }
}

/// The larger of the two scales.
pub open spec fn max_scale(a: DecimalValue, b: DecimalValue) -> u32 {
    if a.scale >= b.scale {
        a.scale
    } else {
        b.scale
    }
}

/// The mantissa of `a` written at the larger scale `s`.
pub open spec fn aligned(a: DecimalValue, s: u32) -> int {
    a.mantissa * pow10((s - a.scale) as nat)
}

/// Both numbers are non-zero with mantissas below `2^64`, and their scales
/// are at most nineteen apart.
pub open spec fn small_operands(a: DecimalValue, b: DecimalValue) -> bool {
    &&& a.mantissa != 0
    &&& b.mantissa != 0
    &&& a.magnitude() < 0x1_0000_0000_0000_0000
    &&& b.magnitude() < 0x1_0000_0000_0000_0000
    &&& -19 <= a.scale - b.scale <= 19
}

/// At one scale, aligning changes nothing.
pub proof fn lemma_aligned_same_scale(a: DecimalValue, b: DecimalValue)
    requires
        a.scale == b.scale,
    ensures
        max_scale(a, b) == a.scale,
        aligned(a, max_scale(a, b)) == a.mantissa,
        aligned(b, max_scale(a, b)) == b.mantissa,
{
    let k = (max_scale(a, b) - a.scale) as nat;
    assert(k == 0);
    assert(pow10(k) == 1);
    assert(a.mantissa * pow10(k) == a.mantissa) by (nonlinear_arith)
        requires
            pow10(k) == 1,
    ;
    assert(b.mantissa * pow10(k) == b.mantissa) by (nonlinear_arith)
        requires
            pow10(k) == 1,
    ;
}

/// The number a string with its point at `p` denotes, at the scale its
/// digits after the point give it.
pub open spec fn read_at(s: Seq<char>, p: int) -> DecimalValue {
    DecimalValue { mantissa: digits_without_point(s, p) as i128, scale: (s.len() - p - 1) as u32 }
}

/// What `Decimal::from_str` makes of a string, if it accepts it.
pub uninterp spec fn parsed_decimal(s: Seq<char>) -> Option<DecimalValue>;

/// What `Decimal::checked_add` gives, `None` where `+` would overflow.
pub uninterp spec fn decimal_sum(a: DecimalValue, b: DecimalValue) -> Option<DecimalValue>;

/// What `Decimal::checked_sub` gives, `None` where `-` would overflow.
pub uninterp spec fn decimal_difference(a: DecimalValue, b: DecimalValue) -> Option<DecimalValue>;

/// What `Decimal::checked_mul` gives, `None` where `*` would overflow.
pub uninterp spec fn decimal_product(a: DecimalValue, b: DecimalValue) -> Option<DecimalValue>;

/// What `Decimal::checked_div` gives, `None` where `/` would fail.
pub uninterp spec fn decimal_quotient(a: DecimalValue, b: DecimalValue) -> Option<DecimalValue>;

/// `Decimal::from_str`. Claimed: the result is the named parse of the
/// string; an accepted string gives parts that fit a `Decimal`; and, as the
/// source's `parse_str_radix_10` reads it, a run of at most 28 digits, alone
/// or split by one point, is taken exactly: the mantissa is the number the
/// digits make, the scale the number of digits after the point (zero when
/// there is none).
#[verifier::external_body]
pub(crate) fn parse_decimal(s: &str) -> (r: Option<DecimalValue>)
    ensures
        r == parsed_decimal(s@),
        r matches Some(d) ==> d.wf(),
        forall|p: int| #[trigger] point_at(s@, p) && s@.len() <= 29 ==> r == Some(read_at(s@, p)),
        all_digits(s@) && 1 <= s@.len() <= 28 ==> r == Some(
            DecimalValue { mantissa: digits_value(s@) as i128, scale: 0 },
        ),
{
    match Decimal::from_str(s) {
        Ok(d) => Some(DecimalValue { mantissa: d.mantissa(), scale: d.scale() }),
        Err(_) => None,
    }
}

/// `Decimal`'s `to_string`. Claimed: it writes the number as
/// `decimal_text` says (the source's `to_str_internal` and `pad_integral`).
#[verifier::external_body]
pub(crate) fn render_decimal(d: DecimalValue) -> (r: String)
    requires
        d.wf(),
    ensures
        r@ == decimal_text(d),
{
    Decimal::from_i128_with_scale(d.mantissa, d.scale).to_string()
}

/// `Decimal`'s `==`. Claimed: it compares the numbers, not their parts.
#[verifier::external_body]
pub(crate) fn decimal_equal(a: DecimalValue, b: DecimalValue) -> (r: bool)
    requires
        a.wf(),
        b.wf(),
    ensures
        r == same_value(a, b),
{
    Decimal::from_i128_with_scale(a.mantissa, a.scale) == Decimal::from_i128_with_scale(b.mantissa, b.scale)
}

/// `Decimal::checked_add`. Claimed: the named sum, which fits when present;
/// and, as the source's `add_sub_internal` computes it, adding to zero gives
/// the other operand unchanged, adding zero gives the first, two numbers at
/// the same scale whose sum fits 96 bits add exactly at that scale, and so do
/// two non-zero numbers of at most 64 bits whose scales are at most nineteen
/// apart, at the larger scale (its 32-bit and 64-bit paths).
#[verifier::external_body]
pub(crate) fn add_decimal(a: DecimalValue, b: DecimalValue) -> (r: Option<DecimalValue>)
    requires
        a.wf(),
        b.wf(),
    ensures
        r == decimal_sum(a, b),
        r matches Some(d) ==> d.wf(),
        a.mantissa == 0 ==> r == Some(b),
        a.mantissa != 0 && b.mantissa == 0 ==> r == Some(a),
        a.scale == b.scale && -MAX_MANTISSA <= a.mantissa + b.mantissa <= MAX_MANTISSA ==> r == Some(
            DecimalValue { mantissa: (a.mantissa + b.mantissa) as i128, scale: a.scale },
        ),
        small_operands(a, b) && -MAX_MANTISSA <= aligned(a, max_scale(a, b)) + aligned(b, max_scale(a, b))
            <= MAX_MANTISSA ==> r == Some(
            DecimalValue {
                mantissa: (aligned(a, max_scale(a, b)) + aligned(b, max_scale(a, b))) as i128,
                scale: max_scale(a, b),
            },
        ),
{
    let x = Decimal::from_i128_with_scale(a.mantissa, a.scale);
    let y = Decimal::from_i128_with_scale(b.mantissa, b.scale);
    match x.checked_add(y) {
        Some(d) => Some(DecimalValue { mantissa: d.mantissa(), scale: d.scale() }),
        None => None,
    }
}

/// `Decimal::checked_sub`. Claimed: the named difference, which fits when
/// present; and, as the source's `add_sub_internal` computes it, zero minus a
/// number is its negation at its own scale, subtracting zero gives the first
/// operand, two numbers at the same scale whose difference fits 96 bits
/// subtract exactly at that scale, and so do two non-zero numbers of at most
/// 64 bits whose scales are at most nineteen apart, at the larger scale.
#[verifier::external_body]
pub(crate) fn sub_decimal(a: DecimalValue, b: DecimalValue) -> (r: Option<DecimalValue>)
    requires
        a.wf(),
        b.wf(),
    ensures
        r == decimal_difference(a, b),
        r matches Some(d) ==> d.wf(),
        a.mantissa == 0 ==> r == Some(DecimalValue { mantissa: (-b.mantissa) as i128, scale: b.scale }),
        a.mantissa != 0 && b.mantissa == 0 ==> r == Some(a),
        a.scale == b.scale && -MAX_MANTISSA <= a.mantissa - b.mantissa <= MAX_MANTISSA ==> r == Some(
            DecimalValue { mantissa: (a.mantissa - b.mantissa) as i128, scale: a.scale },
        ),
        small_operands(a, b) && -MAX_MANTISSA <= aligned(a, max_scale(a, b)) - aligned(b, max_scale(a, b))
            <= MAX_MANTISSA ==> r == Some(
            DecimalValue {
                mantissa: (aligned(a, max_scale(a, b)) - aligned(b, max_scale(a, b))) as i128,
                scale: max_scale(a, b),
            },
        ),
{
    let x = Decimal::from_i128_with_scale(a.mantissa, a.scale);
    let y = Decimal::from_i128_with_scale(b.mantissa, b.scale);
    match x.checked_sub(y) {
        Some(d) => Some(DecimalValue { mantissa: d.mantissa(), scale: d.scale() }),
        None => None,
    }
}

/// `Decimal::checked_mul`. Claimed: the named product, which fits when
/// present; and, as the source's `mul_impl` computes it, a product with a
/// zero factor is zero at scale zero, a product of non-zero numbers that
/// fits 96 bits at the sum of the scales, that sum being at most 28, is exact
/// at that scale, and a product of two integers that does not fit 96 bits
/// overflows.
#[verifier::external_body]
pub(crate) fn mul_decimal(a: DecimalValue, b: DecimalValue) -> (r: Option<DecimalValue>)
    requires
        a.wf(),
        b.wf(),
    ensures
        r == decimal_product(a, b),
        r matches Some(d) ==> d.wf(),
        a.mantissa == 0 || b.mantissa == 0 ==> r == Some(DecimalValue { mantissa: 0, scale: 0 }),
        a.mantissa != 0 && b.mantissa != 0 && a.scale + b.scale <= MAX_SCALE && -MAX_MANTISSA <= a.mantissa
            * b.mantissa <= MAX_MANTISSA ==> r == Some(
            DecimalValue { mantissa: (a.mantissa * b.mantissa) as i128, scale: (a.scale + b.scale) as u32 },
        ),
        a.scale == 0 && b.scale == 0 && !(-MAX_MANTISSA <= a.mantissa * b.mantissa <= MAX_MANTISSA) ==> r is None,
{
    let x = Decimal::from_i128_with_scale(a.mantissa, a.scale);
    let y = Decimal::from_i128_with_scale(b.mantissa, b.scale);
    match x.checked_mul(y) {
        Some(d) => Some(DecimalValue { mantissa: d.mantissa(), scale: d.scale() }),
        None => None,
    }
}

/// `Decimal::checked_div`. Claimed: the named quotient, which fits when
/// present; dividing by zero gives `None`.
#[verifier::external_body]
pub(crate) fn div_decimal(a: DecimalValue, b: DecimalValue) -> (r: Option<DecimalValue>)
    requires
        a.wf(),
        b.wf(),
    ensures
        r == decimal_quotient(a, b),
        r matches Some(d) ==> d.wf(),
        b.mantissa == 0 ==> r is None,
{
    let x = Decimal::from_i128_with_scale(a.mantissa, a.scale);
    let y = Decimal::from_i128_with_scale(b.mantissa, b.scale);
    match x.checked_div(y) {
        Some(d) => Some(DecimalValue { mantissa: d.mantissa(), scale: d.scale() }),
        None => None,
    }
}

/// The four operations of `Decimal` that the analyses use.
#[derive(Debug, Clone, Copy, PartialEq, Eq, Structural)]
pub enum DecimalOp {
    Add,
    Sub,
    Mul,
    Div,
}

/// The result of `op` on two numbers, `None` where `Decimal` would fail.
pub open spec fn op_result(op: DecimalOp, a: DecimalValue, b: DecimalValue) -> Option<DecimalValue> {
    match op {
        DecimalOp::Add => decimal_sum(a, b),
        DecimalOp::Sub => decimal_difference(a, b),
        DecimalOp::Mul => decimal_product(a, b),
        DecimalOp::Div => decimal_quotient(a, b),
    }
}

/// The result of `op` on the numbers that two strings parse to.
pub open spec fn parsed_op_result(op: DecimalOp, a: Seq<char>, b: Seq<char>) -> Option<DecimalValue> {
    match parsed_decimal(a) {
        Some(x) => match parsed_decimal(b) {
            Some(y) => op_result(op, x, y),
            None => None,
        },
        None => None,
    }
}

/// The text of a result, if there is one.
pub open spec fn result_text(r: Option<DecimalValue>) -> Option<Seq<char>> {
    match r {
        Some(d) => Some(decimal_text(d)),
        None => None,
    }
}

/// The characters of an optional string.
pub open spec fn text_view(r: Option<String>) -> Option<Seq<char>> {
    match r {
        Some(s) => Some(s@),
        None => None,
    }
}

/// `x` fits the 96 bits of a `Decimal`'s mantissa.
pub open spec fn fits_mantissa(x: int) -> bool {
    -MAX_MANTISSA <= x <= MAX_MANTISSA
}

/// The operations whose result `Decimal` computes exactly, with nothing
/// rounded: a zero operand of an addition, subtraction or multiplication;
/// an addition or subtraction that fits, at one scale or of small operands
/// aligned to the larger scale; a product of non-zero numbers that fits at
/// the sum of the scales.
pub open spec fn exact_case(op: DecimalOp, a: DecimalValue, b: DecimalValue) -> bool {
    match op {
        DecimalOp::Add => a.mantissa == 0 || b.mantissa == 0 || (a.scale == b.scale && fits_mantissa(
            a.mantissa + b.mantissa,
        )) || (small_operands(a, b) && fits_mantissa(
            aligned(a, max_scale(a, b)) + aligned(b, max_scale(a, b)),
        )),
        DecimalOp::Sub => a.mantissa == 0 || b.mantissa == 0 || (a.scale == b.scale && fits_mantissa(
            a.mantissa - b.mantissa,
        )) || (small_operands(a, b) && fits_mantissa(
            aligned(a, max_scale(a, b)) - aligned(b, max_scale(a, b)),
        )),
        DecimalOp::Mul => a.mantissa == 0 || b.mantissa == 0 || (a.scale + b.scale <= MAX_SCALE
            && fits_mantissa(a.mantissa * b.mantissa)),
        DecimalOp::Div => false,
    }
}

/// The exact result in those cases.
pub open spec fn exact_value(op: DecimalOp, a: DecimalValue, b: DecimalValue) -> DecimalValue {
    match op {
        DecimalOp::Add => if a.mantissa == 0 {
            b
        } else if b.mantissa == 0 {
            a
        } else {
            DecimalValue {
                mantissa: (aligned(a, max_scale(a, b)) + aligned(b, max_scale(a, b))) as i128,
                scale: max_scale(a, b),
            }
        },
        DecimalOp::Sub => if a.mantissa == 0 {
            DecimalValue { mantissa: (-b.mantissa) as i128, scale: b.scale }
        } else if b.mantissa == 0 {
            a
        } else {
            DecimalValue {
                mantissa: (aligned(a, max_scale(a, b)) - aligned(b, max_scale(a, b))) as i128,
                scale: max_scale(a, b),
            }
        },
        DecimalOp::Mul => if a.mantissa == 0 || b.mantissa == 0 {
            DecimalValue { mantissa: 0, scale: 0 }
        } else {
            DecimalValue { mantissa: (a.mantissa * b.mantissa) as i128, scale: (a.scale + b.scale) as u32 }
        },
        DecimalOp::Div => a,
    }
}

/// A product of two integers that does not fit a `Decimal`.
pub open spec fn integer_overflow(op: DecimalOp, a: DecimalValue, b: DecimalValue) -> bool {
    &&& op == DecimalOp::Mul
    &&& a.scale == 0
    &&& b.scale == 0
    &&& !fits_mantissa(a.mantissa * b.mantissa)
}

/// Applies `op`; `None` where the `Decimal` operator would panic. Where
/// nothing needs rounding the result is exact.
pub fn apply(op: DecimalOp, a: DecimalValue, b: DecimalValue) -> (r: Option<DecimalValue>)
    requires
        a.wf(),
        b.wf(),
    ensures
        r == op_result(op, a, b),
        r matches Some(d) ==> d.wf(),
        exact_case(op, a, b) ==> r == Some(exact_value(op, a, b)),
        integer_overflow(op, a, b) ==> r is None,
{
    proof {
        if a.scale == b.scale {
            lemma_aligned_same_scale(a, b);
        }
    }
    match op {
        DecimalOp::Add => add_decimal(a, b),
        DecimalOp::Sub => sub_decimal(a, b),
        DecimalOp::Mul => mul_decimal(a, b),
        DecimalOp::Div => div_decimal(a, b),
    }
}

/// The text of `op` applied to two numbers.
pub fn evaluate_values_text(op: DecimalOp, a: DecimalValue, b: DecimalValue) -> (r: Option<String>)
    requires
        a.wf(),
        b.wf(),
    ensures
        text_view(r) == result_text(op_result(op, a, b)),
        exact_case(op, a, b) ==> text_view(r) == Some(decimal_text(exact_value(op, a, b))),
        integer_overflow(op, a, b) ==> r is None,
{
    match apply(op, a, b) {
        Some(d) => Some(render_decimal(d)),
        None => None,
    }
}

/// Parses both strings, applies `op` and writes the result; `None` where a
/// string is refused or the operation fails.
pub fn evaluate_text(op: DecimalOp, a: &str, b: &str) -> (r: Option<String>)
    ensures
        text_view(r) == result_text(parsed_op_result(op, a@, b@)),
        forall|p: int, q: int|
            #[trigger] point_at(a@, p) && #[trigger] point_at(b@, q) && a@.len() <= 29 && b@.len() <= 29
                && exact_case(op, read_at(a@, p), read_at(b@, q)) ==> text_view(r) == Some(
                decimal_text(exact_value(op, read_at(a@, p), read_at(b@, q))),
            ),
{
    let x = match parse_decimal(a) {
        Some(x) => x,
        None => return None,
    };
    let y = match parse_decimal(b) {
        Some(y) => y,
        None => return None,
    };
    evaluate_values_text(op, x, y)
}

/// How a generated string with `dp` fractional digits reads as a `Decimal`:
/// the units at scale `dp`, the number `units * 10^-dp`.
pub open spec fn exact_decimal(units: nat, dp: nat) -> DecimalValue {
    DecimalValue { mantissa: units as i128, scale: dp as u32 }
}

/// The generated input strings read as `Decimal`s. Every one is read
/// exactly: strings with a fixed number of decimal places lose nothing.
pub fn decimal_inputs(seed: u64, n: usize, dp: u32, lo_units: u64, hi_units: u64) -> (r: Vec<DecimalValue>)
    requires
        lo_units <= hi_units,
        hi_units - lo_units < u64::MAX,
        dp <= 19,
    ensures
        r@.len() == n,
        forall|i: int|
            0 <= i < n ==> #[trigger] r@[i] == exact_decimal(
                generated_units(seed, i as nat, lo_units, hi_units) as nat,
                dp as nat,
            ),
        forall|i: int|
            0 <= i < n ==> same_value(
                #[trigger] r@[i],
                DecimalValue { mantissa: generated_units(seed, i as nat, lo_units, hi_units) as i128, scale: dp },
            ),
{
    let strings = decimal_strings(seed, n, dp, lo_units, hi_units);
    let mut out: Vec<DecimalValue> = Vec::new();
    let mut i: usize = 0;
    while i < n
        invariant
            i <= n,
            strings@.len() == n,
            dp <= 19,
            lo_units <= hi_units,
            forall|j: int|
                0 <= j < n ==> (#[trigger] strings@[j])@ == fixed_point_string(
                    generated_units(seed, j as nat, lo_units, hi_units) as nat,
                    dp as nat,
                ),
            out@.len() == i,
            forall|j: int|
                0 <= j < i ==> #[trigger] out@[j] == exact_decimal(
                    generated_units(seed, j as nat, lo_units, hi_units) as nat,
                    dp as nat,
                ),
        decreases n - i,
    {
        let ghost units = generated_units(seed, i as nat, lo_units, hi_units);
        proof {
            lemma_generated_units_in_range(seed, i as nat, lo_units, hi_units);
            lemma_fixed_point_string_reads_back(units as u64, dp as nat);
        }
        let ghost p = decimal_digits(units as nat / pow10(dp as nat)).len() as int;
        proof {
            if dp >= 1 {
                assert(point_at(strings@[i as int]@, p));
            }
        }
        match parse_decimal(strings[i].as_str()) {
            Some(d) => {
                out.push(d);
            },
            None => {
                return out;
            },
        }
        i = i + 1;
    }
    out
}

/// Writes a number as `Decimal` does and parses the text again. A number that
/// is not negative comes back as it was, as long as its text has at most 28
/// characters: `Decimal` reads back what it writes.
pub fn reparse(d: DecimalValue) -> (r: Option<DecimalValue>)
    requires
        d.wf(),
    ensures
        r == parsed_decimal(decimal_text(d)),
        r matches Some(x) ==> x.wf(),
        d.mantissa >= 0 && decimal_text(d).len() <= 28 ==> r == Some(d),
{
    let text = render_decimal(d);
    proof {
        if d.mantissa >= 0 {
            lemma_decimal_text_shape(d);
            if d.scale >= 1 {
                let p = text@.len() - d.scale - 1;
                assert(point_at(text@, p));
            }
        }
    }
    parse_decimal(text.as_str())
}

} // verus!
