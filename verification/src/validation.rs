//! Validation of decimal arithmetic against expected results. The checks on
//! `f64` and the printing of the summary are left to the program.

use vstd::prelude::*;

use crate::decimal::{
    add_decimal, canonical_at, decimal_equal, decimal_sum, decimal_text, evaluate_text,
    evaluate_values_text, exact_case, exact_value, lemma_aligned_same_scale, lemma_canonical_text,
    parse_decimal, parsed_decimal, parsed_op_result, read_at, render_decimal, result_text, same_value,
    DecimalOp, DecimalValue, MAX_MANTISSA, MAX_SCALE,
};
use crate::text::{all_digits, digits_value, owned, point_at, pow10, str_eq};

verus! {

/// One validation: what was computed, what was expected, and whether they
/// agree. A floating-point margin of error is held as the bits of the `f64`.
#[derive(Debug, Clone)]
pub struct ValidationResult {
    pub test_name: String,
    pub expected: String,
    pub actual: String,
    pub passed: bool,
    pub error_margin_bits: Option<u64>,
}

/// `v` records a check with these texts and outcome, and no margin of error.
pub open spec fn records(
    v: ValidationResult,
    name: Seq<char>,
    expected: Seq<char>,
    actual: Seq<char>,
    passed: bool,
) -> bool {
    &&& v.test_name@ == name
    &&& v.expected@ == expected
    &&& v.actual@ == actual
    &&& v.passed == passed
    &&& v.error_margin_bits is None
}

/// The sum of `k` copies of `step`, added one at a time to zero; `None` once
/// an addition overflows.
pub open spec fn repeated_sum(step: DecimalValue, k: nat) -> Option<DecimalValue>
    decreases k,
{
    if k == 0 {
        Some(DecimalValue { mantissa: 0, scale: 0 })
    } else {
        match repeated_sum(step, (k - 1) as nat) {
            Some(s) => decimal_sum(s, step),
            None => None,
        }
    }
}

/// How many of the results passed.
pub open spec fn passed_count(s: Seq<ValidationResult>) -> nat
    decreases s.len(),
{
    if s.len() == 0 {
        0
    } else {
        passed_count(s.drop_last()) + if s.last().passed { 1nat } else { 0nat }
    }
}

/// The passed count is the number of results whose `passed` flag is set,
/// whatever else they carry (a margin of error, names, texts): it is the
/// length of the results filtered by that flag, and adding one result adds
/// one exactly when that result passed.
pub proof fn lemma_passed_count_counts_flags(s: Seq<ValidationResult>, extra: ValidationResult)
    ensures
        passed_count(s) == s.filter(|v: ValidationResult| v.passed).len(),
        passed_count(s.push(extra)) == passed_count(s) + if extra.passed { 1int } else { 0int },
    decreases s.len(),
{
    reveal(Seq::filter);
    if s.len() > 0 {
        lemma_passed_count_counts_flags(s.drop_last(), extra);
    }
    assert(s.push(extra).drop_last() =~= s);
}

proof fn lemma_passed_count_le(s: Seq<ValidationResult>)
    ensures
        passed_count(s) <= s.len(),
    decreases s.len(),
{
    if s.len() > 0 {
        lemma_passed_count_le(s.drop_last());
    }
}

/// The strings whose `Decimal` round trip is checked.
pub open spec fn conversion_inputs() -> Seq<Seq<char>> {
    seq!["123.456"@, "0.001"@, "999.999"@, "0.123456789"@]
}

/// Where the point stands in each of the strings of the conversion check.
pub open spec fn conversion_point(j: int) -> int {
    if j == 0 || j == 2 {
        3
    } else {
        1
    }
}

/// The conversion check of one string, if the string parses.
pub open spec fn conversion_check(v: ValidationResult, s: Seq<char>) -> bool {
    match parsed_decimal(s) {
        Some(d) => records(
            v,
            "String conversion accuracy: "@ + s,
            s,
            decimal_text(d),
            decimal_text(d) == s,
        ),
        None => false,
    }
}

pub struct ValidationSuite;

impl ValidationSuite {
    /// Parses both operands, applies `op` and compares the text of the result
    /// with `expected`; `None` where `Decimal` refuses an operand or the
    /// operation.
    fn decimal_check(name: &str, op: DecimalOp, a: &str, b: &str, expected: &str) -> (r: Option<
        ValidationResult,
    >)
        ensures
            match result_text(parsed_op_result(op, a@, b@)) {
                Some(t) => r matches Some(v) && records(v, name@, expected@, t, t == expected@),
                None => r is None,
            },
            forall|p: int, q: int|
                #[trigger] point_at(a@, p) && #[trigger] point_at(b@, q) && a@.len() <= 29 && b@.len() <= 29
                    && exact_case(op, read_at(a@, p), read_at(b@, q)) ==> (r matches Some(v) && records(
                    v,
                    name@,
                    expected@,
                    decimal_text(exact_value(op, read_at(a@, p), read_at(b@, q))),
                    decimal_text(exact_value(op, read_at(a@, p), read_at(b@, q))) == expected@,
                )),
    {
        match evaluate_text(op, a, b) {
            Some(actual) => {
                let passed = str_eq(actual.as_str(), expected);
                Some(
                    ValidationResult {
                        test_name: owned(name),
                        expected: owned(expected),
                        actual,
                        passed,
                        error_margin_bits: None,
                    },
                )
            },
            None => None,
        }
    }

    /// `1.1 + 2.2` in `Decimal`, which must read `3.3`, and does: decimal
    /// addition is exact.
    pub fn decimal_addition_result() -> (r: Option<ValidationResult>)
        ensures
            match result_text(parsed_op_result(DecimalOp::Add, "1.1"@, "2.2"@)) {
                Some(t) => r matches Some(v) && records(v, "Decimal Addition 1.1 + 2.2"@, "3.3"@, t, t == "3.3"@),
                None => r is None,
            },
            r matches Some(v) && records(v, "Decimal Addition 1.1 + 2.2"@, "3.3"@, "3.3"@, true),
    {
        proof {
            reveal_strlit("1.1");
            reveal_strlit("2.2");
            reveal_strlit("3.3");
            assert("1.1"@ =~= seq!['1', '.', '1']);
            assert("2.2"@ =~= seq!['2', '.', '2']);
            assert("3.3"@ =~= seq!['3', '.', '3']);
            lemma_reads_at_one("1.1"@, '1', '1');
            lemma_reads_at_one("2.2"@, '2', '2');
            lemma_reads_at_one("3.3"@, '3', '3');
            lemma_canonical_text("3.3"@, 1);
            let a = read_at("1.1"@, 1);
            let b = read_at("2.2"@, 1);
            lemma_aligned_same_scale(a, b);
            assert(a.mantissa + b.mantissa == 33);
            assert(exact_case(DecimalOp::Add, a, b));
            assert(exact_value(DecimalOp::Add, a, b) == read_at("3.3"@, 1));
        }
        Self::decimal_check("Decimal Addition 1.1 + 2.2", DecimalOp::Add, "1.1", "2.2", "3.3")
    }

    /// `0.1 * 0.2` in `Decimal`, which must read `0.02`, and does: the
    /// product of two tenths is exact in hundredths.
    pub fn decimal_multiplication_result() -> (r: Option<ValidationResult>)
        ensures
            match result_text(parsed_op_result(DecimalOp::Mul, "0.1"@, "0.2"@)) {
                Some(t) => r matches Some(v) && records(
                    v,
                    "Multiplication 0.1 * 0.2 (Decimal)"@,
                    "0.02"@,
                    t,
                    t == "0.02"@,
                ),
                None => r is None,
            },
            r matches Some(v) && records(v, "Multiplication 0.1 * 0.2 (Decimal)"@, "0.02"@, "0.02"@, true),
    {
        proof {
            reveal_strlit("0.1");
            reveal_strlit("0.2");
            reveal_strlit("0.02");
            assert("0.1"@ =~= seq!['0', '.', '1']);
            assert("0.2"@ =~= seq!['0', '.', '2']);
            lemma_reads_at_one("0.1"@, '0', '1');
            lemma_reads_at_one("0.2"@, '0', '2');
            lemma_reads_hundredths("0.02"@, '0', '0', '2');
            lemma_canonical_text("0.02"@, 1);
            let a = read_at("0.1"@, 1);
            let b = read_at("0.2"@, 1);
            assert(a == DecimalValue { mantissa: 1, scale: 1 });
            assert(b == DecimalValue { mantissa: 2, scale: 1 });
            assert(a.mantissa * b.mantissa == 2) by (nonlinear_arith)
                requires
                    a.mantissa == 1,
                    b.mantissa == 2,
            ;
            assert(a.scale + b.scale <= MAX_SCALE);
            assert(exact_case(DecimalOp::Mul, a, b));
            assert(exact_value(DecimalOp::Mul, a, b) == DecimalValue { mantissa: 2, scale: 2 });
            assert(read_at("0.02"@, 1) == DecimalValue { mantissa: 2, scale: 2 });
            assert(decimal_text(DecimalValue { mantissa: 2, scale: 2 }) == "0.02"@);
        }
        Self::decimal_check("Multiplication 0.1 * 0.2 (Decimal)", DecimalOp::Mul, "0.1", "0.2", "0.02")
    }

    /// `999999999999999999 * 999999999999999999` in `Decimal`; it passes if it
    /// can be computed at all. It cannot: the product of these two integers
    /// needs more than 96 bits, so the multiplication overflows and the result
    /// is `None` (where the `*` operator panics).
    pub fn large_multiplication_result() -> (r: Option<ValidationResult>)
        ensures
            match result_text(parsed_op_result(DecimalOp::Mul, "999999999999999999"@, "999999999999999999"@)) {
                Some(t) => r matches Some(v) && records(
                    v,
                    "Large number multiplication"@,
                    "999999999999999998000000000000000001"@,
                    t,
                    true,
                ),
                None => r is None,
            },
            r is None,
    {
        let operand = "999999999999999999";
        proof {
            reveal_strlit("999999999999999999");
            assert(operand@ =~= Seq::new(18, |i: int| '9'));
            lemma_nines(18);
            assert(pow10(18) == 1000000000000000000nat) by {
                reveal_with_fuel(pow10, 19);
            }
            assert(all_digits(operand@));
        }
        let x = match parse_decimal(operand) {
            Some(x) => x,
            None => return None,
        };
        assert(x == DecimalValue { mantissa: 999999999999999999, scale: 0 });
        assert(!(-MAX_MANTISSA <= x.mantissa * x.mantissa <= MAX_MANTISSA));
        match evaluate_values_text(DecimalOp::Mul, x, x) {
            Some(actual) => Some(
                ValidationResult {
                    test_name: owned("Large number multiplication"),
                    expected: owned("999999999999999998000000000000000001"),
                    actual,
                    passed: true,
                    error_margin_bits: None,
                },
            ),
            None => None,
        }
    }

    /// Adds `step` to zero `times` times, as `+=` on a `Decimal` does; `None`
    /// where an addition overflows. The sum is exact: as long as `times`
    /// copies of `step` fit a `Decimal`, it is `times * step` at `step`'s scale.
    pub fn accumulate(step: DecimalValue, times: u32) -> (r: Option<DecimalValue>)
        requires
            step.wf(),
        ensures
            r == repeated_sum(step, times as nat),
            r matches Some(d) ==> d.wf(),
            times >= 1 && times * step.magnitude() <= MAX_MANTISSA ==> r == Some(
                DecimalValue { mantissa: (times * step.mantissa) as i128, scale: step.scale },
            ),
    {
        let mut sum = DecimalValue::zero();
        let mut i: u32 = 0;
        while i < times
            invariant
                step.wf(),
                i <= times,
                sum.wf(),
                repeated_sum(step, i as nat) == Some(sum),
                i == 0 ==> sum.mantissa == 0,
                times * step.magnitude() <= MAX_MANTISSA && i >= 1 ==> sum == (DecimalValue {
                    mantissa: (i * step.mantissa) as i128,
                    scale: step.scale,
                }),
            decreases times - i,
        {
            proof {
                if times * step.magnitude() <= MAX_MANTISSA {
                    lemma_multiple_fits(step.mantissa as int, (i + 1) as nat, times as nat);
                }
            }
            let ghost prev = sum;
            match add_decimal(sum, step) {
                Some(s) => {
                    sum = s;
                },
                None => {
                    proof {
                        lemma_repeated_sum_stays_none(step, (i + 1) as nat, times as nat);
                    }
                    return None;
                },
            }
            proof {
                if times * step.magnitude() <= MAX_MANTISSA {
                    let next = DecimalValue { mantissa: ((i + 1) * step.mantissa) as i128, scale: step.scale };
                    if i == 0 {
                        assert(prev.mantissa == 0);
                        assert(sum == step);
                        assert(1 * step.mantissa == step.mantissa);
                        assert(sum == next);
                    } else {
                        assert(prev.mantissa == i * step.mantissa);
                        assert(prev.mantissa + step.mantissa == (i + 1) * step.mantissa);
                        assert(sum == next);
                    }
                }
            }
            i = i + 1;
        }
        Some(sum)
    }

    /// `0.01` added to zero a hundred times in `Decimal`, which must equal
    /// one, and does: the sum is exactly `1.00`.
    pub fn decimal_repeated_addition_result() -> (r: Option<ValidationResult>)
        ensures
            match parsed_decimal("0.01"@) {
                Some(p) => match repeated_sum(p, 100) {
                    Some(s) => r matches Some(v) && records(
                        v,
                        "Repeated addition of 0.01 (100 times) - Decimal"@,
                        "1.00"@,
                        decimal_text(s),
                        same_value(s, DecimalValue { mantissa: 1, scale: 0 }),
                    ),
                    None => r is None,
                },
                None => r is None,
            },
            r matches Some(v) && records(
                v,
                "Repeated addition of 0.01 (100 times) - Decimal"@,
                "1.00"@,
                "1.00"@,
                true,
            ),
    {
        proof {
            reveal_strlit("0.01");
            reveal_strlit("1.00");
            lemma_reads_hundredths("0.01"@, '0', '0', '1');
            lemma_reads_hundredths("1.00"@, '1', '0', '0');
            lemma_canonical_text("1.00"@, 1);
            assert(pow10(2) == 100) by {
                reveal_with_fuel(pow10, 3);
            }
            assert(pow10(0) == 1);
        }
        let step = match parse_decimal("0.01") {
            Some(p) => p,
            None => return None,
        };
        let sum = match Self::accumulate(step, 100) {
            Some(s) => s,
            None => return None,
        };
        let passed = decimal_equal(sum, DecimalValue::one());
        Some(
            ValidationResult {
                test_name: owned("Repeated addition of 0.01 (100 times) - Decimal"),
                expected: owned("1.00"),
                actual: render_decimal(sum),
                passed,
                error_margin_bits: None,
            },
        )
    }

    /// Each string must read the same after a round trip through `Decimal`;
    /// `None` if one of them is refused. None is, and every one passes:
    /// `Decimal` reads these strings exactly and writes them back unchanged.
    pub fn validate_conversion_accuracy() -> (r: Option<Vec<ValidationResult>>)
        ensures
            match r {
                Some(v) => v@.len() == conversion_inputs().len() && forall|i: int|
                    0 <= i < v@.len() ==> conversion_check(#[trigger] v@[i], conversion_inputs()[i]),
                None => exists|i: int|
                    0 <= i < conversion_inputs().len() && (#[trigger] parsed_decimal(conversion_inputs()[i])) is None,
            },
            r matches Some(v) && forall|i: int| 0 <= i < v@.len() ==> (#[trigger] v@[i]).passed,
    {
        let inputs: [&str; 4] = ["123.456", "0.001", "999.999", "0.123456789"];
        proof {
            assert(inputs@.len() == 4);
            reveal_strlit("123.456");
            reveal_strlit("0.001");
            reveal_strlit("999.999");
            reveal_strlit("0.123456789");
            let s0 = "123.456"@;
            let s1 = "0.001"@;
            let s2 = "999.999"@;
            let s3 = "0.123456789"@;
            assert(all_digits(s0.subrange(0, 3)) && all_digits(s0.subrange(4, 7)));
            assert(all_digits(s1.subrange(0, 1)) && all_digits(s1.subrange(2, 5)));
            assert(all_digits(s2.subrange(0, 3)) && all_digits(s2.subrange(4, 7)));
            assert(all_digits(s3.subrange(0, 1)) && all_digits(s3.subrange(2, 11)));
            assert(canonical_at(s0, 3));
            assert(canonical_at(s1, 1));
            assert(canonical_at(s2, 3));
            assert(canonical_at(s3, 1));
            assert(conversion_inputs()[0] == s0);
            assert(conversion_inputs()[1] == s1);
            assert(conversion_inputs()[2] == s2);
            assert(conversion_inputs()[3] == s3);
        }
        let mut results: Vec<ValidationResult> = Vec::new();
        let mut i: usize = 0;
        while i < 4
            invariant
                i <= 4,
                results@.len() == i,
                forall|j: int| 0 <= j < 4 ==> (#[trigger] inputs[j])@ == conversion_inputs()[j],
                forall|j: int| 0 <= j < i ==> conversion_check(#[trigger] results@[j], conversion_inputs()[j]),
                forall|j: int| 0 <= j < i ==> (#[trigger] results@[j]).passed,
                forall|j: int|
                    0 <= j < 4 ==> canonical_at(
                        #[trigger] conversion_inputs()[j],
                        conversion_point(j),
                    ) && conversion_inputs()[j].len() <= 29,
            decreases 4 - i,
        {
            let value_str = inputs[i];
            let ghost p = conversion_point(i as int);
            proof {
                assert(canonical_at(conversion_inputs()[i as int], p));
                assert(point_at(value_str@, p));
                lemma_canonical_text(value_str@, p);
            }
            let d = match parse_decimal(value_str) {
                Some(d) => d,
                None => {
                    assert(parsed_decimal(conversion_inputs()[i as int]) is None);
                    return None;
                },
            };
            let actual = render_decimal(d);
            let passed = str_eq(actual.as_str(), value_str);
            let mut name = owned("String conversion accuracy: ");
            name.append(value_str);
            results.push(
                ValidationResult {
                    test_name: name,
                    expected: owned(value_str),
                    actual,
                    passed,
                    error_margin_bits: None,
                },
            );
            i = i + 1;
        }
        Some(results)
    }

    /// How many of the results passed.
    pub fn count_passed(results: &[ValidationResult]) -> (r: usize)
        ensures
            r == passed_count(results@),
            r == results@.filter(|v: ValidationResult| v.passed).len(),
            r <= results@.len(),
    {
        proof {
            lemma_passed_count_counts_flags(results@, results@[0]);
        }
        let mut passed: usize = 0;
        let mut i: usize = 0;
        while i < results.len()
            invariant
                i <= results@.len(),
                passed == passed_count(results@.subrange(0, i as int)),
            decreases results@.len() - i,
        {
            proof {
                assert(results@.subrange(0, i + 1).drop_last() =~= results@.subrange(0, i as int));
                lemma_passed_count_le(results@.subrange(0, i as int));
            }
            if results[i].passed {
                passed = passed + 1;
            }
            i = i + 1;
        }
        proof {
            assert(results@.subrange(0, results@.len() as int) =~= results@);
            lemma_passed_count_le(results@);
        }
        passed
    }
}

/// A string of one digit, a point and one digit, `"x.y"`, has its point at
/// one and reads as `xy` tenths.
proof fn lemma_reads_at_one(s: Seq<char>, x: char, y: char)
    requires
        s == seq![x, '.', y],
        48 <= x as u32 <= 57,
        48 <= y as u32 <= 57,
    ensures
        point_at(s, 1),
        canonical_at(s, 1),
        read_at(s, 1) == (DecimalValue {
            mantissa: (((x as u32) - 48) * 10 + ((y as u32) - 48)) as i128,
            scale: 1,
        }),
{
    assert(s.subrange(0, 1) =~= seq![x]);
    assert(s.subrange(2, 3) =~= seq![y]);
    assert(s.subrange(0, 1) + s.subrange(2, 3) =~= seq![x, y]);
    assert(seq![x, y].drop_last() =~= seq![x]);
    assert(seq![x].drop_last() =~= Seq::<char>::empty());
    assert(digits_value(Seq::<char>::empty()) == 0);
    assert(digits_value(seq![x]) == ((x as u32) - 48) as nat);
    assert(digits_value(seq![x, y]) == ((x as u32) - 48) as nat * 10 + ((y as u32) - 48) as nat);
}

/// A string of one digit, a point and two digits, `"x.yz"`, has its point
/// at one and reads as `xyz` hundredths.
proof fn lemma_reads_hundredths(s: Seq<char>, x: char, y: char, z: char)
    requires
        s =~= seq![x, '.', y, z],
        48 <= x as u32 <= 57,
        48 <= y as u32 <= 57,
        48 <= z as u32 <= 57,
    ensures
        point_at(s, 1),
        canonical_at(s, 1),
        read_at(s, 1) == (DecimalValue {
            mantissa: (((x as u32) - 48) * 100 + ((y as u32) - 48) * 10 + ((z as u32) - 48)) as i128,
            scale: 2,
        }),
{
    assert(s.subrange(0, 1) =~= seq![x]);
    assert(s.subrange(2, 4) =~= seq![y, z]);
    assert(s.subrange(0, 1) + s.subrange(2, 4) =~= seq![x, y, z]);
    assert(seq![x, y, z].drop_last() =~= seq![x, y]);
    assert(seq![x, y].drop_last() =~= seq![x]);
    assert(seq![x].drop_last() =~= Seq::<char>::empty());
    assert(digits_value(Seq::<char>::empty()) == 0);
    assert(digits_value(seq![x]) == ((x as u32) - 48) as nat);
    assert(digits_value(seq![x, y]) == ((x as u32) - 48) as nat * 10 + ((y as u32) - 48) as nat);
    assert(digits_value(seq![x, y, z]) == (((x as u32) - 48) as nat * 10 + ((y as u32) - 48) as nat) * 10 + ((
    z as u32) - 48) as nat);
}

/// A run of `n` nines is `10^n - 1`.
proof fn lemma_nines(n: nat)
    ensures
        digits_value(Seq::new(n, |i: int| '9')) + 1 == pow10(n),
    decreases n,
{
    if n > 0 {
        lemma_nines((n - 1) as nat);
        assert(Seq::new(n, |i: int| '9').drop_last() =~= Seq::new((n - 1) as nat, |i: int| '9'));
    } else {
        assert(Seq::new(0, |i: int| '9') =~= Seq::<char>::empty());
    }
}

/// `k` copies of `m` fit wherever `n >= k` copies of its magnitude do, and
/// one more copy adds `m`.
proof fn lemma_multiple_fits(m: int, k: nat, n: nat)
    requires
        1 <= k <= n,
        n * (if m < 0 { -m } else { m }) <= MAX_MANTISSA,
    ensures
        -MAX_MANTISSA <= k * m <= MAX_MANTISSA,
        (k - 1) * m + m == k * m,
{
    let a = if m < 0 { -m } else { m };
    assert(k * a <= n * a) by (nonlinear_arith)
        requires
            k <= n,
            a >= 0,
    ;
    assert(-(k * a) <= k * m <= k * a) by (nonlinear_arith)
        requires
            a == (if m < 0 { -m } else { m }),
            k >= 0,
    ;
    assert((k - 1) * m + m == k * m) by (nonlinear_arith);
}

/// Once the running sum has overflowed it stays `None`.
proof fn lemma_repeated_sum_stays_none(step: DecimalValue, k: nat, n: nat)
    requires
        repeated_sum(step, k) is None,
        k <= n,
    ensures
        repeated_sum(step, n) is None,
    decreases n - k,
{
    if k < n {
        lemma_repeated_sum_stays_none(step, k + 1, n);
    }
}

} // verus!
