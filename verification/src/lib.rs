//! Deterministic input generation for comparing numeric representations,
//! together with the profiling, configuration and reporting logic around it.

use vstd::prelude::*;

pub mod text;
pub mod assoc;
pub mod clock;
pub mod profiler;
pub mod config;
pub mod cli;
pub mod visualization;
pub mod export;
pub mod decimal;
pub mod big_decimal;
pub mod validation;
pub mod platform;
pub mod error_analysis;
pub mod precision;

use text::{
    all_digits, decimal_digits, digits_value, digits_without_point, point_at, pow10, push_char, u64_to_decimal,
    zero_pad,
};

verus! {

/// Multiplier of the generator (Knuth's MMIX constants).
pub const LCG_MULTIPLIER: u64 = 6364136223846793005;

/// Increment of the generator.
pub const LCG_INCREMENT: u64 = 1442695040888963407;

/// One step of the generator's state: `a * s + c` modulo 2^64.
pub open spec fn lcg_step(state: u64) -> u64 {
    ((state as nat * LCG_MULTIPLIER as nat + LCG_INCREMENT as nat) % 0x1_0000_0000_0000_0000nat) as u64
}

/// Minimal linear congruential generator so input data is deterministic.
pub struct Lcg(u64);

impl Lcg {
    /// The current state of the generator.
    pub closed spec fn state(&self) -> u64 {
        self.0
    }

    pub fn new(seed: u64) -> (r: Self)
        ensures
            r.state() == seed,
    {
        Lcg(seed)
    }

    /// Next pseudo-random value. Only the high 32 bits of the new state are returned.
    pub fn next(&mut self) -> (r: u64)
        ensures
            final(self).state() == lcg_step(old(self).state()),
            r == final(self).state() / 0x1_0000_0000,
            r < 0x1_0000_0000,
    {
        let s = self.0.wrapping_mul(LCG_MULTIPLIER).wrapping_add(LCG_INCREMENT);
        proof {
            let m = (self.0 as nat * LCG_MULTIPLIER as nat) % 0x1_0000_0000_0000_0000nat;
            assert(s == ((m + LCG_INCREMENT as nat) % 0x1_0000_0000_0000_0000nat) as u64);
            vstd::arithmetic::div_mod::lemma_add_mod_noop(
                (self.0 as nat * LCG_MULTIPLIER as nat) as int,
                LCG_INCREMENT as int,
                0x1_0000_0000_0000_0000int,
            );
        }
        self.0 = s;
        let r = s >> 32;
        assert(r == s / 0x1_0000_0000 && r < 0x1_0000_0000) by (bit_vector)
            requires r == s >> 32;
        r
    }
}

/// The generator's state after `k` steps from `seed`.
pub open spec fn lcg_state_after(seed: u64, k: nat) -> u64
    decreases k,
{
    if k == 0 {
        seed
    } else {
        lcg_step(lcg_state_after(seed, (k - 1) as nat))
    }
}

/// The value, in units of `10^-dp`, of the `i`-th generated string.
pub open spec fn generated_units(seed: u64, i: nat, lo_units: u64, hi_units: u64) -> int {
    lo_units + (lcg_state_after(seed, i + 1) / 0x1_0000_0000) as int % (hi_units - lo_units + 1)
}

/// `units` written as a decimal with `dp` fractional digits: the integer part
/// without leading zeros, then, when `dp >= 1`, a point and the fraction
/// zero-padded to `dp` digits. With no fractional digits it is the integer
/// alone.
pub open spec fn fixed_point_string(units: nat, dp: nat) -> Seq<char> {
    if dp == 0 {
        decimal_digits(units)
    } else {
        decimal_digits(units / pow10(dp)) + seq!['.'] + zero_pad(decimal_digits(units % pow10(dp)), dp)
    }
}

/// Every generated value lies in `[lo_units, hi_units]`.
pub proof fn lemma_generated_units_in_range(seed: u64, i: nat, lo_units: u64, hi_units: u64)
    requires
        lo_units <= hi_units,
    ensures
        lo_units <= generated_units(seed, i, lo_units, hi_units) <= hi_units,
{
}

/// The sum of the first `n` generated values.
pub open spec fn units_sum(seed: u64, n: nat, lo_units: u64, hi_units: u64) -> int
    decreases n,
{
    if n == 0 {
        0
    } else {
        units_sum(seed, (n - 1) as nat, lo_units, hi_units) + generated_units(seed, (n - 1) as nat, lo_units, hi_units)
    }
}

/// The dot product of the first `n` values of two generated runs.
pub open spec fn units_dot(seed_a: u64, seed_b: u64, n: nat, lo_units: u64, hi_units: u64) -> int
    decreases n,
{
    if n == 0 {
        0
    } else {
        units_dot(seed_a, seed_b, (n - 1) as nat, lo_units, hi_units) + generated_units(
            seed_a,
            (n - 1) as nat,
            lo_units,
            hi_units,
        ) * generated_units(seed_b, (n - 1) as nat, lo_units, hi_units)
    }
}

/// The range `1.00..=100.00` (two decimals, units of `0.01`): every value is
/// at least `1.00`, a sum of two at most `200.00`, and a product of two at
/// most `10 000` (in units of `0.0001`).
pub proof fn lemma_range_one_to_hundred(seed_a: u64, seed_b: u64, i: nat, j: nat)
    ensures
        ({
            let a = generated_units(seed_a, i, 100, 10_000);
            let b = generated_units(seed_b, j, 100, 10_000);
            &&& 100 <= a
            &&& 100 <= b
            &&& a + b <= 20_000
            &&& a * b <= 100_000_000
        }),
{
    let a = generated_units(seed_a, i, 100, 10_000);
    let b = generated_units(seed_b, j, 100, 10_000);
    lemma_generated_units_in_range(seed_a, i, 100, 10_000);
    lemma_generated_units_in_range(seed_b, j, 100, 10_000);
    assert(a * b <= 10_000 * 10_000) by (nonlinear_arith)
        requires
            0 <= a <= 10_000,
            0 <= b <= 10_000,
    ;
}

/// The range `0.500..=2.000` (three decimals, units of `0.001`): a sum of at
/// most a thousand values is at most `2 000`, and the dot product of two runs
/// of at most a thousand values at most `4 000` (in units of `0.000001`).
pub proof fn lemma_range_half_to_two(seed_a: u64, seed_b: u64, n: nat)
    requires
        n <= 1000,
    ensures
        0 <= units_sum(seed_a, n, 500, 2_000) <= 2_000_000,
        0 <= units_dot(seed_a, seed_b, n, 500, 2_000) <= 4_000_000_000,
{
    lemma_runs_bounded(seed_a, seed_b, n);
}

proof fn lemma_runs_bounded(seed_a: u64, seed_b: u64, n: nat)
    ensures
        0 <= units_sum(seed_a, n, 500, 2_000) <= 2_000 * n,
        0 <= units_dot(seed_a, seed_b, n, 500, 2_000) <= 4_000_000 * n,
    decreases n,
{
    if n > 0 {
        let k = (n - 1) as nat;
        lemma_runs_bounded(seed_a, seed_b, k);
        let a = generated_units(seed_a, k, 500, 2_000);
        let b = generated_units(seed_b, k, 500, 2_000);
        lemma_generated_units_in_range(seed_a, k, 500, 2_000);
        lemma_generated_units_in_range(seed_b, k, 500, 2_000);
        assert(0 <= a * b <= 4_000_000) by (nonlinear_arith)
            requires
                0 <= a <= 2_000,
                0 <= b <= 2_000,
        ;
    }
}

/// With `dp >= 1` fractional digits a rendered string holds exactly one
/// point, at position `p`, with only digits around it and exactly `dp` digits
/// after it, and reading the digits back gives the units again. With no
/// fractional digits it is the digits of the units and nothing else.
pub proof fn lemma_fixed_point_string_denotes(units: nat, dp: nat)
    ensures
        ({
            let s = fixed_point_string(units, dp);
            let p = decimal_digits(units / pow10(dp)).len() as int;
            &&& dp >= 1 ==> 1 <= p < s.len() && s[p] == '.' && all_digits(s.subrange(0, p)) && all_digits(
                s.subrange(p + 1, s.len() as int),
            ) && s.len() == p + 1 + dp && digits_value(s.subrange(0, p)) * pow10(dp) + digits_value(
                s.subrange(p + 1, s.len() as int),
            ) == units
            &&& dp == 0 ==> s.len() >= 1 && all_digits(s) && digits_value(s) == units
        }),
{
    let s = fixed_point_string(units, dp);
    text::lemma_pow10_pos(dp);
    if dp >= 1 {
        let q = units / pow10(dp);
        let r = units % pow10(dp);
        let int_part = decimal_digits(q);
        let frac = decimal_digits(r);
        let p = int_part.len() as int;
        text::lemma_decimal_digits(q);
        text::lemma_decimal_digits(r);
        text::lemma_zero_pad_value(frac, dp);
        assert(s.subrange(0, p) =~= int_part);
        assert(s.subrange(p + 1, s.len() as int) =~= zero_pad(frac, dp));
        text::lemma_decimal_digits_len(r, dp);
        vstd::arithmetic::div_mod::lemma_fundamental_div_mod(units as int, pow10(dp) as int);
        assert(q * pow10(dp) + r == units) by (nonlinear_arith)
            requires
                units == pow10(dp) * (units / pow10(dp)) + units % pow10(dp),
                q == units / pow10(dp),
                r == units % pow10(dp),
        ;
    } else {
        text::lemma_decimal_digits(units);
    }
}

/// `10^(a+b) == 10^a * 10^b`.
pub proof fn lemma_pow10_add(a: nat, b: nat)
    ensures
        pow10(a + b) == pow10(a) * pow10(b),
    decreases b,
{
    if b > 0 {
        lemma_pow10_add(a, (b - 1) as nat);
        assert(pow10(a + b) == 10 * pow10((a + b - 1) as nat));
        assert(pow10(b) == 10 * pow10((b - 1) as nat));
        assert(pow10(a) * (10 * pow10((b - 1) as nat)) == 10 * (pow10(a) * pow10((b - 1) as nat)))
            by (nonlinear_arith);
    } else {
        assert(pow10(0) == 1);
    }
}

/// A rendered string of a 64-bit count of units reads back as the units.
/// With fractional digits it is digits around one point, at most 22
/// characters long, with `dp` digits after the point, and its digits without
/// the point make the units; with none it is at most 20 digits that make the
/// units.
pub proof fn lemma_fixed_point_string_reads_back(units: u64, dp: nat)
    requires
        dp <= 19,
    ensures
        ({
            let s = fixed_point_string(units as nat, dp);
            let p = decimal_digits(units as nat / pow10(dp)).len() as int;
            &&& dp >= 1 ==> point_at(s, p) && s.len() <= 22 && s.len() - p - 1 == dp && digits_without_point(
                s,
                p,
            ) == units
            &&& dp == 0 ==> all_digits(s) && 1 <= s.len() <= 20 && digits_value(s) == units
        }),
{
    assert(pow10(20) == 100000000000000000000nat) by {
        reveal_with_fuel(pow10, 21);
    }
    if dp == 0 {
        lemma_fixed_point_string_denotes(units as nat, dp);
        text::lemma_decimal_digits_len(units as nat, 20);
    } else {
        lemma_reads_back_with_point(units, dp);
    }
}

/// The case of `lemma_fixed_point_string_reads_back` with fractional digits.
proof fn lemma_reads_back_with_point(units: u64, dp: nat)
    requires
        1 <= dp <= 19,
        pow10(20) == 100000000000000000000nat,
    ensures
        ({
            let s = fixed_point_string(units as nat, dp);
            let p = decimal_digits(units as nat / pow10(dp)).len() as int;
            &&& point_at(s, p)
            &&& s.len() <= 22
            &&& s.len() - p - 1 == dp
            &&& digits_without_point(s, p) == units
        }),
{
    lemma_fixed_point_string_denotes(units as nat, dp);
    let s = fixed_point_string(units as nat, dp);
    text::lemma_pow10_pos(dp);
    let q = units as nat / pow10(dp);
    let p = decimal_digits(q).len() as int;
    let int_part = s.subrange(0, p);
    let frac = s.subrange(p + 1, s.len() as int);
    assert(s.subrange(0, p) + s.subrange(p + 1, s.len() as int) == int_part + frac);
    text::lemma_digits_value_concat(int_part, frac);
    lemma_pow10_add(dp, (20 - dp) as nat);
    text::lemma_pow10_pos((20 - dp) as nat);
    assert(q < pow10((20 - dp) as nat)) by {
        let a = pow10(dp);
        let b = pow10((20 - dp) as nat);
        assert(units < a * b);
        vstd::arithmetic::div_mod::lemma_multiply_divide_lt(units as int, a as int, b as int);
    }
    text::lemma_decimal_digits_len(q, (20 - dp) as nat);
}

/// `n` decimal strings with `dp` fractional digits, drawn from
/// `[lo_units, hi_units]` expressed in units of `10^-dp`.
///
/// Strings with a fixed number of decimal places are exactly representable
/// in every decimal type under test.
pub fn decimal_strings(seed: u64, n: usize, dp: u32, lo_units: u64, hi_units: u64) -> (r: Vec<String>)
    requires
        lo_units <= hi_units,
        hi_units - lo_units < u64::MAX,
        dp <= 19,
    ensures
        r.len() == n,
        forall|i: int|
            0 <= i < n ==> (#[trigger] r[i])@ == fixed_point_string(
                generated_units(seed, i as nat, lo_units, hi_units) as nat,
                dp as nat,
            ),
{
    let span = hi_units - lo_units + 1;
    let scale = pow10_u64(dp);
    let mut rng = Lcg::new(seed);
    let mut out: Vec<String> = Vec::new();
    let mut i: usize = 0;
    while i < n
        invariant
            i <= n,
            lo_units <= hi_units,
            hi_units - lo_units < u64::MAX,
            span == hi_units - lo_units + 1,
            scale as nat == pow10(dp as nat),
            rng.state() == lcg_state_after(seed, i as nat),
            out.len() == i,
            forall|j: int|
                0 <= j < i ==> (#[trigger] out[j])@ == fixed_point_string(
                    generated_units(seed, j as nat, lo_units, hi_units) as nat,
                    dp as nat,
                ),
        decreases n - i,
    {
        let x = rng.next();
        let units = lo_units + x % span;
        let s = fixed_point_to_string(units, scale, dp);
        out.push(s);
        i = i + 1;
    }
    out
}

/// Parses one string with `T`'s `FromStr` implementation (`str::parse`);
/// `None` where that implementation rejects the string.
#[verifier::external_body]
fn parse_one<T: std::str::FromStr>(s: &str) -> Option<T> {
    s.parse().ok()
}

/// Collects the outcomes of parsing each string: every value, in order, if
/// all strings were accepted; otherwise the index of the first refusal.
pub fn collect_parsed<T>(parsed: Vec<Option<T>>) -> (r: Result<Vec<T>, usize>)
    ensures
        match r {
            Ok(v) => v@.len() == parsed@.len() && forall|i: int|
                0 <= i < parsed@.len() ==> parsed@[i] == Some(#[trigger] v@[i]),
            Err(i) => i < parsed@.len() && parsed@[i as int] is None && forall|j: int|
                0 <= j < i ==> (#[trigger] parsed@[j]) is Some,
        },
{
    let n = parsed.len();
    let mut k: usize = 0;
    while k < n
        invariant
            k <= n,
            n == parsed@.len(),
            forall|j: int| 0 <= j < k ==> (#[trigger] parsed@[j]) is Some,
        decreases n - k,
    {
        if parsed[k].is_none() {
            return Err(k);
        }
        k = k + 1;
    }
    let ghost orig = parsed@;
    let mut out: Vec<T> = Vec::new();
    for x in it: parsed.into_iter()
        invariant
            it.seq() == orig,
            out@.len() == it.index(),
            forall|j: int| 0 <= j < orig.len() ==> (#[trigger] orig[j]) is Some,
            forall|j: int| 0 <= j < it.index() ==> orig[j] == Some(#[trigger] out@[j]),
    {
        match x {
            Some(v) => out.push(v),
            None => {
                proof {
                    assert(false);
                }
                return Err(0);
            },
        }
    }
    Ok(out)
}

/// Parses every string into `T`, in order. Which strings `T` accepts is
/// decided by `T`'s own `FromStr` implementation; what is made of the
/// outcomes is `collect_parsed`'s: on success one value per string, otherwise
/// the index of the first string that `T` rejected.
pub fn parse_all<T: std::str::FromStr>(strings: &[String]) -> (r: Result<Vec<T>, usize>)
    ensures
        r matches Ok(v) ==> v.len() == strings.len(),
        r matches Err(i) ==> i < strings.len(),
{
    let mut parsed: Vec<Option<T>> = Vec::new();
    let mut i: usize = 0;
    while i < strings.len()
        invariant
            i <= strings.len(),
            parsed.len() == i,
        decreases strings.len() - i,
    {
        parsed.push(parse_one::<T>(strings[i].as_str()));
        i = i + 1;
    }
    collect_parsed(parsed)
}

/// `10^dp` as a machine integer.
fn pow10_u64(dp: u32) -> (r: u64)
    requires
        dp <= 19,
    ensures
        r as nat == pow10(dp as nat),
{
    let mut r: u64 = 1;
    let mut k: u32 = 0;
    while k < dp
        invariant
            k <= dp <= 19,
            r as nat == pow10(k as nat),
        decreases dp - k,
    {
        proof {
            lemma_pow10_le((k + 1) as nat, 19);
            assert(pow10(19) == 10000000000000000000nat) by {
                reveal_with_fuel(pow10, 20);
            }
        }
        r = r * 10;
        k = k + 1;
    }
    r
}

proof fn lemma_pow10_le(a: nat, b: nat)
    requires
        a <= b,
    ensures
        pow10(a) <= pow10(b),
    decreases b,
{
    if a < b {
        lemma_pow10_le(a, (b - 1) as nat);
        text::lemma_pow10_pos((b - 1) as nat);
    }
}

/// Renders `units` with `dp` fractional digits, given `scale == 10^dp`.
fn fixed_point_to_string(units: u64, scale: u64, dp: u32) -> (r: String)
    requires
        scale as nat == pow10(dp as nat),
    ensures
        r@ == fixed_point_string(units as nat, dp as nat),
{
    proof {
        text::lemma_pow10_pos(dp as nat);
    }
    if dp == 0 {
        return u64_to_decimal(units);
    }
    let mut s = u64_to_decimal(units / scale);
    push_char(&mut s, '.');
    let frac = u64_to_decimal(units % scale);
    let flen = frac.as_str().unicode_len();
    let ghost head = s@;
    let mut k: usize = flen;
    while k < dp as usize
        invariant
            flen <= k,
            flen == frac@.len(),
            flen >= dp ==> k == flen,
            flen < dp ==> k <= dp,
            s@ == head + Seq::new((k - flen) as nat, |j: int| '0'),
        decreases dp as usize - k,
    {
        push_char(&mut s, '0');
        k = k + 1;
        assert(s@ =~= head + Seq::new((k - flen) as nat, |j: int| '0'));
    }
    let ghost zeros = s@;
    s.append(frac.as_str());
    proof {
        assert(s@ == zeros + frac@);
        if flen >= dp as usize {
            assert(s@ =~= head + frac@);
        } else {
            assert(s@ =~= head + (Seq::new((dp - flen) as nat, |j: int| '0') + frac@));
        }
        assert(s@ =~= fixed_point_string(units as nat, dp as nat));
    }
    s
}

} // verus!
