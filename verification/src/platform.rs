//! Records of platform-behaviour checks, and the checks of decimal
//! arithmetic that do not depend on the platform's floating point.
//! Detecting the platform and the floating-point checks are left to the
//! program.

use vstd::prelude::*;

use crate::assoc::{
    assoc_map, find_key, has_key, keys_distinct, lemma_assoc_map_empty, lemma_assoc_map_push,
    lemma_assoc_map_update,
};
use crate::config::names_of;
use crate::decimal::{
    add_decimal, decimal_equal, decimal_sum, decimal_text, lemma_decimal_text_ascii, lemma_decimal_text_len,
    lemma_decimal_text_min_len,
    parse_decimal, parsed_decimal, read_at, render_decimal, reparse, same_value, DecimalValue,
};
use vstd::utf8::encode_utf8;
use crate::big_decimal::{
    add_bigdecimal, bigdecimal_equal, bigdecimal_sum, bigdecimal_text, parse_bigdecimal,
    parsed_bigdecimal, render_bigdecimal, same_big_value, BigDecimalValue, BigDecimalView,
};
use crate::text::{all_digits, digits_value, lemma_digits_value_bound, owned, point_at, pow10, str_eq};

verus! {

/// The platform a set of checks ran on.
#[derive(Debug)]
pub struct PlatformInfo {
    pub os: String,
    pub arch: String,
    pub endianness: String,
    pub pointer_width: usize,
    pub page_size: usize,
    pub cache_line_size: usize,
    pub cpu_features: Vec<String>,
    pub compiler: String,
    pub rust_version: String,
}

/// A platform description as plain text and numbers.
pub struct PlatformView {
    pub os: Seq<char>,
    pub arch: Seq<char>,
    pub endianness: Seq<char>,
    pub pointer_width: usize,
    pub page_size: usize,
    pub cache_line_size: usize,
    pub cpu_features: Seq<Seq<char>>,
    pub compiler: Seq<char>,
    pub rust_version: Seq<char>,
}

impl View for PlatformInfo {
    type V = PlatformView;

    open spec fn view(&self) -> PlatformView {
        PlatformView {
            os: self.os@,
            arch: self.arch@,
            endianness: self.endianness@,
            pointer_width: self.pointer_width,
            page_size: self.page_size,
            cache_line_size: self.cache_line_size,
            cpu_features: names_of(self.cpu_features@),
            compiler: self.compiler@,
            rust_version: self.rust_version@,
        }
    }
}

impl PlatformInfo {
    /// A copy of the description.
    pub fn duplicate(&self) -> (r: PlatformInfo)
        ensures
            r@ == self@,
    {
        let mut features: Vec<String> = Vec::new();
        let mut i: usize = 0;
        while i < self.cpu_features.len()
            invariant
                i <= self.cpu_features@.len(),
                names_of(features@) == names_of(self.cpu_features@.subrange(0, i as int)),
            decreases self.cpu_features@.len() - i,
        {
            let ghost before = features@;
            features.push(owned(self.cpu_features[i].as_str()));
            proof {
                assert(names_of(features@) =~= names_of(before).push(self.cpu_features@[i as int]@));
                assert(self.cpu_features@.subrange(0, i + 1) =~= self.cpu_features@.subrange(0, i as int).push(
                    self.cpu_features@[i as int],
                ));
                assert(names_of(features@) =~= names_of(self.cpu_features@.subrange(0, i + 1)));
            }
            i = i + 1;
        }
        proof {
            assert(self.cpu_features@.subrange(0, i as int) =~= self.cpu_features@);
        }
        PlatformInfo {
            os: owned(self.os.as_str()),
            arch: owned(self.arch.as_str()),
            endianness: owned(self.endianness.as_str()),
            pointer_width: self.pointer_width,
            page_size: self.page_size,
            cache_line_size: self.cache_line_size,
            cpu_features: features,
            compiler: owned(self.compiler.as_str()),
            rust_version: owned(self.rust_version.as_str()),
        }
    }
}

/// The outcome of one check: whether it passed, the issues it found, and
/// the platform it ran on.
#[derive(Debug)]
pub struct TestResult {
    pub passed: bool,
    pub issues: Vec<String>,
    pub platform_specific: PlatformInfo,
}

/// A check's outcome as plain values.
pub struct TestView {
    pub passed: bool,
    pub issues: Seq<Seq<char>>,
    pub platform: PlatformView,
}

impl View for TestResult {
    type V = TestView;

    open spec fn view(&self) -> TestView {
        TestView { passed: self.passed, issues: names_of(self.issues@), platform: self.platform_specific@ }
    }
}

/// `after` is `before` with the outcome of the check `name`, which found
/// `issues` on the platform `info`, stored under that name (replacing an
/// earlier one).
pub open spec fn stores_outcome(
    before: Map<Seq<char>, TestResult>,
    after: Map<Seq<char>, TestResult>,
    name: Seq<char>,
    issues: Seq<Seq<char>>,
    info: PlatformView,
) -> bool {
    &&& after.dom() == before.dom().insert(name)
    &&& after[name]@ == (TestView { passed: issues.len() == 0, issues, platform: info })
    &&& forall|k: Seq<char>| #[trigger] before.contains_key(k) && k != name ==> after[k] == before[k]
}

/// Runs checks of the platform's arithmetic and keeps their outcomes by name.
pub struct CrossPlatformTester {
    platform_info: PlatformInfo,
    test_results: Vec<(String, TestResult)>,
}

impl CrossPlatformTester {
    /// The platform the checks run on.
    pub closed spec fn info(&self) -> PlatformView {
        self.platform_info@
    }

    /// The stored outcomes in the order their names were first recorded.
    pub closed spec fn entries(&self) -> Seq<(String, TestResult)> {
        self.test_results@
    }

    /// The outcome stored under each name.
    pub closed spec fn results(&self) -> Map<Seq<char>, TestResult> {
        assoc_map(self.test_results@)
    }

    /// No name is stored twice.
    pub closed spec fn wf(&self) -> bool {
        keys_distinct(self.test_results@)
    }

    pub fn new(platform_info: PlatformInfo) -> (r: Self)
        ensures
            r.wf(),
            r.info() == platform_info@,
            r.results() == Map::<Seq<char>, TestResult>::empty(),
            r.entries().len() == 0,
    {
        let r = CrossPlatformTester { platform_info, test_results: Vec::new() };
        proof {
            lemma_assoc_map_empty(r.test_results@);
        }
        r
    }

    /// Stores the outcome of the check `name`, which found `issues`; it passed
    /// if there are none.
    pub fn record_result(&mut self, name: &str, issues: Vec<String>)
        requires
            old(self).wf(),
        ensures
            final(self).wf(),
            final(self).info() == old(self).info(),
            stores_outcome(old(self).results(), final(self).results(), name@, names_of(issues@), old(self).info()),
    {
        let ghost before = self.test_results@;
        let ghost issue_names = names_of(issues@);
        let passed = issues.len() == 0;
        let result = TestResult { passed, issues, platform_specific: self.platform_info.duplicate() };
        let entry = (owned(name), result);
        match find_key(&self.test_results, name) {
            Some(j) => {
                proof {
                    lemma_assoc_map_update(before, j as int, entry);
                }
                self.test_results.set(j, entry);
            },
            None => {
                proof {
                    lemma_assoc_map_push(before, entry);
                }
                self.test_results.push(entry);
            },
        }
        proof {
            assert(self.results() =~= old(self).results().insert(name@, entry.1));
            assert(entry.1@.issues == issue_names);
        }
    }

    /// Wrapping and saturating `i32` addition at the top of the range.
    pub fn test_integer_overflow(&mut self)
        requires
            old(self).wf(),
        ensures
            final(self).wf(),
            final(self).info() == old(self).info(),
            stores_outcome(
                old(self).results(),
                final(self).results(),
                "integer_overflow"@,
                Seq::empty(),
                old(self).info(),
            ),
    {
        let mut issues: Vec<String> = Vec::new();
        let max_i32 = i32::MAX;
        let wrapped = max_i32.wrapping_add(1);
        if wrapped != i32::MIN {
            issues.push(owned("i32 wrapping overflow inconsistency"));
        }
        let saturated = saturating_add_i32(max_i32, 1);
        if saturated != max_i32 {
            issues.push(owned("i32 saturating overflow inconsistency"));
        }
        proof {
            assert(issues@.len() == 0);
            assert(names_of(issues@) =~= Seq::<Seq<char>>::empty());
        }
        self.record_result("integer_overflow", issues);
    }

    pub fn get_platform_info(&self) -> (r: &PlatformInfo)
        ensures
            r@ == self.info(),
    {
        &self.platform_info
    }

    /// The stored outcomes, each under its name.
    pub fn get_test_results(&self) -> (r: &[(String, TestResult)])
        ensures
            r@ == self.entries(),
    {
        self.test_results.as_slice()
    }

    /// How many stored checks passed, and how many there are.
    pub fn summary_counts(&self) -> (r: (usize, usize))
        ensures
            r.0 == count_passed_entries(self.entries()),
            r.1 == self.entries().len(),
            r.0 <= r.1,
    {
        let mut passed: usize = 0;
        let mut i: usize = 0;
        while i < self.test_results.len()
            invariant
                i <= self.test_results@.len(),
                passed == count_passed_entries(self.test_results@.subrange(0, i as int)),
                passed <= i,
            decreases self.test_results@.len() - i,
        {
            proof {
                assert(self.test_results@.subrange(0, i + 1).drop_last() =~= self.test_results@.subrange(0, i as int));
            }
            if self.test_results[i].1.passed {
                passed = passed + 1;
            }
            i = i + 1;
        }
        proof {
            assert(self.test_results@.subrange(0, i as int) =~= self.test_results@);
        }
        (passed, self.test_results.len())
    }
}

/// How many of the stored outcomes passed.
pub open spec fn count_passed_entries(s: Seq<(String, TestResult)>) -> nat
    decreases s.len(),
{
    if s.len() == 0 {
        0
    } else {
        count_passed_entries(s.drop_last()) + if s.last().1.passed { 1nat } else { 0nat }
    }
}

/// The sum, clamped to the range of `i32` (what `i32::saturating_add` gives).
fn saturating_add_i32(x: i32, y: i32) -> (r: i32)
    ensures
        r == if x + y > i32::MAX {
            i32::MAX as int
        } else if x + y < i32::MIN {
            i32::MIN as int
        } else {
            x + y
        },
{
    let s: i64 = x as i64 + y as i64;
    if s > i32::MAX as i64 {
        i32::MAX
    } else if s < i32::MIN as i64 {
        i32::MIN
    } else {
        s as i32
    }
}

/// The issues found by the precision check of `Decimal`: whether the text of
/// a 28-digit number came out shorter than 20 bytes, and whether `0.1 + 0.2`
/// differs from `0.3`.
pub open spec fn precision_issue_list(serialized_len: nat, sum: DecimalValue, expected: DecimalValue) -> Seq<
    Seq<char>,
> {
    (if serialized_len < 20 {
        seq!["Decimal precision loss detected"@]
    } else {
        Seq::empty()
    }) + (if same_value(sum, expected) {
        Seq::empty()
    } else {
        seq!["Decimal arithmetic inconsistency: 0.1 + 0.2 = "@ + decimal_text(sum)]
    })
}

/// A string parses, its number written back parses again, and the two
/// numbers are equal.
pub open spec fn round_trips(s: Seq<char>) -> bool {
    match parsed_decimal(s) {
        Some(o) => match parsed_decimal(decimal_text(o)) {
            Some(d) => same_value(o, d),
            None => false,
        },
        None => false,
    }
}

/// `"0.c"`, for a digit `c` of value `d`, reads as `d` tenths.
proof fn lemma_reads_tenths(s: Seq<char>, c: char, d: nat)
    requires
        s =~= seq!['0', '.', c],
        c as u32 == 48 + d,
        d <= 9,
    ensures
        point_at(s, 1),
        s.len() == 3,
        read_at(s, 1) == (DecimalValue { mantissa: d as i128, scale: 1 }),
{
    assert(s.subrange(0, 1) =~= seq!['0']);
    assert(s.subrange(2, 3) =~= seq![c]);
    assert(s.subrange(0, 1) + s.subrange(2, 3) =~= seq!['0', c]);
    assert(seq!['0', c].drop_last() =~= seq!['0']);
    assert(seq!['0'].drop_last() =~= Seq::<char>::empty());
    assert(digits_value(Seq::<char>::empty()) == 0);
    assert(digits_value(seq!['0']) == 0);
    assert(digits_value(seq!['0', c]) == d);
}

/// Checks of `Decimal` that should give the same answer on every platform.
pub struct DecimalCrossPlatformTester {
    platform_info: PlatformInfo,
}

impl DecimalCrossPlatformTester {
    /// The platform the checks run on.
    pub closed spec fn info(&self) -> PlatformView {
        self.platform_info@
    }

    pub fn new(platform_info: PlatformInfo) -> (r: Self)
        ensures
            r.info() == platform_info@,
    {
        DecimalCrossPlatformTester { platform_info }
    }

    /// Whether `123.456789123456789` survives being written and parsed
    /// again. It does: `Decimal` reads the eighteen digits exactly and reads
    /// back what it writes.
    pub fn test_decimal_serialization(&self) -> (r: bool)
        ensures
            r == round_trips("123.456789123456789"@),
            r,
    {
        let literal = "123.456789123456789";
        proof {
            reveal_strlit("123.456789123456789");
            let s = literal@;
            assert(all_digits(s.subrange(0, 3)));
            assert(all_digits(s.subrange(4, 19)));
            assert(point_at(s, 3));
            lemma_digits_value_bound(s.subrange(0, 3) + s.subrange(4, 19));
        }
        let value = match parse_decimal(literal) {
            Some(d) => d,
            None => return false,
        };
        proof {
            let s = literal@;
            let digits = s.subrange(0, 3) + s.subrange(4, 19);
            assert(digits.len() == 18);
            assert(pow10(18) == 1000000000000000000nat) by {
                reveal_with_fuel(pow10, 19);
            }
            assert(point_at(s, 3));
            assert(value.mantissa == digits_value(digits));
            assert(value.scale == 15);
            lemma_decimal_text_len(value, 18);
        }
        match reparse(value) {
            Some(deserialized) => decimal_equal(value, deserialized),
            None => false,
        }
    }

    /// The issues found from the text of a 28-digit number and the sum
    /// `0.1 + 0.2` compared with `0.3`.
    pub fn precision_issues(serialized: &str, sum: DecimalValue, expected: DecimalValue) -> (r: Vec<String>)
        requires
            sum.wf(),
            expected.wf(),
        ensures
            names_of(r@) == precision_issue_list((encode_utf8(serialized@).len() as usize) as nat, sum, expected),
    {
        let mut issues: Vec<String> = Vec::new();
        if serialized.len() < 20 {
            issues.push(owned("Decimal precision loss detected"));
        }
        let ghost first = names_of(issues@);
        assert(first =~= (if (encode_utf8(serialized@).len() as usize) < 20 {
            seq!["Decimal precision loss detected"@]
        } else {
            Seq::empty()
        }));
        if !decimal_equal(sum, expected) {
            let mut msg = owned("Decimal arithmetic inconsistency: 0.1 + 0.2 = ");
            let text = render_decimal(sum);
            msg.append(text.as_str());
            issues.push(msg);
            proof {
                assert(names_of(issues@) =~= first.push(msg@));
            }
        }
        proof {
            assert(names_of(issues@) =~= precision_issue_list((encode_utf8(serialized@).len() as usize) as nat, sum, expected));
        }
        issues
    }

    /// The precision check of `Decimal`; `None` where `Decimal` refuses one
    /// of its fixed inputs or the addition. It finds no issue: the 28-digit
    /// number is read exactly, so its text is never short enough to report a
    /// loss, and `0.1 + 0.2` is exactly `0.3` in decimal radix.
    pub fn test_decimal_precision_consistency(&self) -> (r: Option<Vec<String>>)
        ensures
            match (
                parsed_decimal("1.234567890123456789012345678"@),
                parsed_decimal("0.1"@),
                parsed_decimal("0.2"@),
                parsed_decimal("0.3"@),
            ) {
                (Some(m), Some(a), Some(b), Some(c)) => match decimal_sum(a, b) {
                    Some(sum) => r matches Some(v) && names_of(v@) == precision_issue_list(
                        decimal_text(m).len(),
                        sum,
                        c,
                    ) && decimal_text(m).len() >= 20,
                    None => r is None,
                },
                _ => r is None,
            },
            r matches Some(v) && v@.len() == 0,
    {
        let literal = "1.234567890123456789012345678";
        proof {
            reveal_strlit("1.234567890123456789012345678");
            let s = literal@;
            assert(all_digits(s.subrange(0, 1)));
            assert(all_digits(s.subrange(2, 29)));
            assert(point_at(s, 1));
        }
        let max_precision = match parse_decimal(literal) {
            Some(d) => d,
            None => return None,
        };
        proof {
            assert(point_at(literal@, 1));
            assert(max_precision.scale == 27);
            lemma_decimal_text_min_len(max_precision);
        }
        let serialized = render_decimal(max_precision);
        proof {
            lemma_decimal_text_ascii(max_precision);
        }
        proof {
            reveal_strlit("0.1");
            reveal_strlit("0.2");
            reveal_strlit("0.3");
            lemma_reads_tenths("0.1"@, '1', 1);
            lemma_reads_tenths("0.2"@, '2', 2);
            lemma_reads_tenths("0.3"@, '3', 3);
        }
        let a = match parse_decimal("0.1") {
            Some(d) => d,
            None => return None,
        };
        let b = match parse_decimal("0.2") {
            Some(d) => d,
            None => return None,
        };
        let c = match parse_decimal("0.3") {
            Some(d) => d,
            None => return None,
        };
        let sum = match add_decimal(a, b) {
            Some(d) => d,
            None => return None,
        };
        assert(sum == c);
        let issues = Self::precision_issues(serialized.as_str(), sum, c);
        proof {
            assert(precision_issue_list((encode_utf8(serialized@).len() as usize) as nat, sum, c) =~= Seq::<
                Seq<char>,
            >::empty());
            assert(issues@.len() == names_of(issues@).len());
        }
        Some(issues)
    }

    /// The issues found by the `BigDecimal` check: a value that is not equal
    /// to itself after being written and parsed again, and a sum whose text
    /// is not `10^30`.
    pub fn bigdecimal_issues(large: &BigDecimalValue, reparsed: &BigDecimalValue, sum_text: &str) -> (r: Vec<
        String,
    >)
        ensures
            names_of(r@) == bigdecimal_issue_list(same_big_value(large@, reparsed@), sum_text@),
    {
        let mut issues: Vec<String> = Vec::new();
        if !bigdecimal_equal(large, reparsed) {
            issues.push(owned("BigDecimal serialization/deserialization inconsistency"));
        }
        let ghost first = names_of(issues@);
        if !str_eq(sum_text, "1000000000000000000000000000000") {
            issues.push(owned("BigDecimal large number arithmetic inconsistency"));
            proof {
                assert(names_of(issues@) =~= first.push("BigDecimal large number arithmetic inconsistency"@));
            }
        }
        proof {
            assert(names_of(issues@) =~= bigdecimal_issue_list(same_big_value(large@, reparsed@), sum_text@));
        }
        issues
    }

    /// The check of `BigDecimal` on numbers of thirty digits; `None` where
    /// `BigDecimal` refuses one of its texts.
    pub fn test_bigdecimal_cross_platform(&self) -> (r: Option<Vec<String>>)
        ensures
            match (
                parsed_bigdecimal("123456789012345678901234567890.123456789012345678901234567890"@),
                parsed_bigdecimal("999999999999999999999999999999"@),
            ) {
                (Some(large), Some(a)) => match parsed_bigdecimal(bigdecimal_text(large)) {
                    Some(d) => r matches Some(v) && names_of(v@) == bigdecimal_issue_list(
                        same_big_value(large, d),
                        bigdecimal_text(
                            bigdecimal_sum(a, BigDecimalView { negative: false, digits: seq![1u32], scale: 0 }),
                        ),
                    ),
                    None => r is None,
                },
                _ => r is None,
            },
    {
        let large = match parse_bigdecimal("123456789012345678901234567890.123456789012345678901234567890") {
            Some(v) => v,
            None => return None,
        };
        let serialized = render_bigdecimal(&large);
        let deserialized = match parse_bigdecimal(serialized.as_str()) {
            Some(v) => v,
            None => return None,
        };
        let a = match parse_bigdecimal("999999999999999999999999999999") {
            Some(v) => v,
            None => return None,
        };
        let b = BigDecimalValue::from_u32(1);
        let sum = add_bigdecimal(&a, &b);
        let sum_text = render_bigdecimal(&sum);
        Some(Self::bigdecimal_issues(&large, &deserialized, sum_text.as_str()))
    }
}

/// The issues of the `BigDecimal` check, from whether the written and
/// re-parsed value equals the first parse and from the text of the sum.
pub open spec fn bigdecimal_issue_list(equal: bool, sum_text: Seq<char>) -> Seq<Seq<char>> {
    (if equal {
        Seq::empty()
    } else {
        seq!["BigDecimal serialization/deserialization inconsistency"@]
    }) + (if sum_text == "1000000000000000000000000000000"@ {
        Seq::empty()
    } else {
        seq!["BigDecimal large number arithmetic inconsistency"@]
    })
}

} // verus!
