use arithmetics::big_decimal::{bigdecimal_sum_text, BigDecimalValue};
use arithmetics::decimal::{evaluate_text, evaluate_values_text, DecimalOp, DecimalValue};
use arithmetics::error_analysis::AdvancedErrorAnalyzer;
use arithmetics::precision::memory::MemoryAnalyzer;
use arithmetics::validation::{ValidationResult, ValidationSuite};

#[test]
fn decimal_operations_on_strings() {
    assert_eq!(evaluate_text(DecimalOp::Add, "1.1", "2.2"), Some("3.3".to_string()));
    assert_eq!(evaluate_text(DecimalOp::Add, "0.1", "0.2"), Some("0.3".to_string()));
    assert_eq!(evaluate_text(DecimalOp::Mul, "0.1", "0.2"), Some("0.02".to_string()));
    assert_eq!(evaluate_text(DecimalOp::Sub, "1.5", "2"), Some("-0.5".to_string()));
    assert_eq!(evaluate_text(DecimalOp::Add, "123.456", "789.012"), Some("912.468".to_string()));
}

#[test]
fn decimal_failures_are_none() {
    assert_eq!(evaluate_text(DecimalOp::Add, "abc", "1"), None);
    assert_eq!(evaluate_text(DecimalOp::Add, "1", ""), None);
    assert_eq!(evaluate_text(DecimalOp::Div, "1", "0"), None);
    assert_eq!(
        evaluate_text(DecimalOp::Mul, "999999999999999999", "999999999999999999"),
        None
    );
}

#[test]
fn decimal_values_render_with_their_scale() {
    let one = DecimalValue::one();
    assert_eq!(
        evaluate_values_text(DecimalOp::Mul, DecimalValue { mantissa: -5, scale: 3 }, one),
        Some("-0.005".to_string())
    );
    assert_eq!(
        evaluate_values_text(DecimalOp::Add, DecimalValue { mantissa: 1234, scale: 2 }, DecimalValue::zero()),
        Some("12.34".to_string())
    );
    assert_eq!(
        evaluate_values_text(DecimalOp::Div, one, DecimalValue::from_int(3)),
        Some("0.3333333333333333333333333333".to_string())
    );
}

#[test]
fn error_analysis_decimal_sides() {
    assert_eq!(
        AdvancedErrorAnalyzer::decimal_one_third_text(),
        Some("0.3333333333333333333333333333".to_string())
    );
    assert_eq!(
        AdvancedErrorAnalyzer::decimal_cancellation_text(),
        Some("0.000000000000001".to_string())
    );
}

#[test]
fn bigdecimal_sums() {
    assert_eq!(bigdecimal_sum_text("0.1", "0.2"), Some("0.3".to_string()));
    assert_eq!(
        bigdecimal_sum_text("999999999999999999999999999999", "1"),
        Some("1000000000000000000000000000000".to_string())
    );
    assert_eq!(bigdecimal_sum_text("x", "1"), None);
    assert_eq!(bigdecimal_sum_text("1.5", "-2"), Some("-0.5".to_string()));
    assert_eq!(bigdecimal_sum_text("0", "2.50"), Some("2.50".to_string()));
    let one = BigDecimalValue::from_u32(1);
    assert_eq!(one.digits, vec![1]);
    assert!(BigDecimalValue::from_u32(0).digits.is_empty());
}

fn check(r: &ValidationResult, name: &str, expected: &str, actual: &str, passed: bool) {
    assert_eq!(r.test_name, name);
    assert_eq!(r.expected, expected);
    assert_eq!(r.actual, actual);
    assert_eq!(r.passed, passed);
    assert_eq!(r.error_margin_bits, None);
}

#[test]
fn decimal_validations() {
    let add = ValidationSuite::decimal_addition_result().unwrap();
    check(&add, "Decimal Addition 1.1 + 2.2", "3.3", "3.3", true);
    let mul = ValidationSuite::decimal_multiplication_result().unwrap();
    check(&mul, "Multiplication 0.1 * 0.2 (Decimal)", "0.02", "0.02", true);
    let rep = ValidationSuite::decimal_repeated_addition_result().unwrap();
    check(&rep, "Repeated addition of 0.01 (100 times) - Decimal", "1.00", "1.00", true);
    // The product of two 18-digit numbers does not fit a `Decimal`.
    assert!(ValidationSuite::large_multiplication_result().is_none());
}

#[test]
fn conversion_accuracy_round_trips() {
    let results = ValidationSuite::validate_conversion_accuracy().unwrap();
    let inputs = ["123.456", "0.001", "999.999", "0.123456789"];
    assert_eq!(results.len(), 4);
    for (r, s) in results.iter().zip(inputs.iter()) {
        check(r, &format!("String conversion accuracy: {}", s), s, s, true);
    }
    assert_eq!(ValidationSuite::count_passed(&results), 4);
}

#[test]
fn accumulate_adds_in_steps() {
    let cent = DecimalValue { mantissa: 1, scale: 2 };
    assert_eq!(ValidationSuite::accumulate(cent, 100), Some(DecimalValue { mantissa: 100, scale: 2 }));
    assert_eq!(ValidationSuite::accumulate(cent, 0), Some(DecimalValue::zero()));
    let big = DecimalValue { mantissa: 0xFFFF_FFFF_FFFF_FFFF_FFFF_FFFF, scale: 0 };
    assert_eq!(ValidationSuite::accumulate(big, 2), None);
}

#[test]
fn count_passed_counts_flags() {
    let mk = |passed: bool| ValidationResult {
        test_name: String::new(),
        expected: String::new(),
        actual: String::new(),
        passed,
        error_margin_bits: None,
    };
    let results = vec![mk(true), mk(false), mk(true)];
    assert_eq!(ValidationSuite::count_passed(&results), 2);
    assert_eq!(ValidationSuite::count_passed(&[]), 0);
}

#[test]
fn array_footprints() {
    assert_eq!(MemoryAnalyzer::array_footprint_kib::<f64>(), 7);
    assert_eq!(MemoryAnalyzer::array_footprint_kib::<u8>(), 0);
    assert_eq!(MemoryAnalyzer::array_footprint_kib::<[u8; 1024]>(), 1000);
    assert_eq!(MemoryAnalyzer::array_footprint_kib::<rust_decimal::Decimal>(), 15);
}

#[test]
fn one_third_times_three_is_inexact_in_decimal() {
    let third = DecimalValue { mantissa: 3333333333333333333333333333, scale: 28 };
    assert_eq!(
        evaluate_values_text(DecimalOp::Mul, third, DecimalValue::from_int(3)),
        Some("0.9999999999999999999999999999".to_string())
    );
}

#[test]
fn tenth_added_ten_thousand_times_is_exact() {
    let tenth = DecimalValue { mantissa: 1, scale: 1 };
    let sum = ValidationSuite::accumulate(tenth, 10000).unwrap();
    assert_eq!(sum, DecimalValue { mantissa: 10000, scale: 1 });
    assert_eq!(
        evaluate_values_text(DecimalOp::Add, sum, DecimalValue::zero()),
        Some("1000.0".to_string())
    );
}

#[test]
fn decimal_and_bigdecimal_agree_on_exact_sums() {
    assert_eq!(evaluate_text(DecimalOp::Add, "123.456", "789.012"), Some("912.468".to_string()));
    assert_eq!(bigdecimal_sum_text("123.456", "789.012"), Some("912.468".to_string()));
    // The scale of a product is the sum of the scales.
    assert_eq!(evaluate_text(DecimalOp::Mul, "2.5", "4.0"), Some("10.00".to_string()));
    assert_eq!(evaluate_text(DecimalOp::Div, "1.0", "0.000001"), Some("1000000".to_string()));
}

#[test]
fn generated_strings_read_exactly_as_decimals() {
    let strings = arithmetics::decimal_strings(7, 40, 2, 100, 10_000);
    let values = arithmetics::decimal::decimal_inputs(7, 40, 2, 100, 10_000);
    assert_eq!(values.len(), 40);
    for (s, v) in strings.iter().zip(values.iter()) {
        assert_eq!(v.scale, 2);
        assert_eq!(v.mantissa, s.replace('.', "").parse::<i128>().unwrap());
    }
    let whole = arithmetics::decimal::decimal_inputs(3, 5, 0, 0, 99);
    let whole_strings = arithmetics::decimal_strings(3, 5, 0, 0, 99);
    for (s, v) in whole_strings.iter().zip(whole.iter()) {
        assert!(!s.contains('.'));
        assert_eq!(v.scale, 0);
        assert_eq!(v.mantissa, s.parse::<i128>().unwrap());
    }
}

#[test]
fn generated_strings_read_exactly_as_bigdecimals() {
    let strings = arithmetics::decimal_strings(9, 30, 3, 500, 2_000);
    let values = arithmetics::big_decimal::bigdecimal_inputs(9, 30, 3, 500, 2_000);
    assert_eq!(values.len(), 30);
    for (s, v) in strings.iter().zip(values.iter()) {
        assert!(!v.negative);
        assert_eq!(v.scale, 3);
        let units: u64 = s.replace('.', "").parse().unwrap();
        assert_eq!(v.digits, vec![units as u32]);
    }
    let whole = arithmetics::big_decimal::bigdecimal_inputs(4, 10, 0, 0, 99);
    let whole_strings = arithmetics::decimal_strings(4, 10, 0, 0, 99);
    for (s, v) in whole_strings.iter().zip(whole.iter()) {
        assert!(!v.negative);
        assert_eq!(v.scale, 0);
        let units: u32 = s.parse().unwrap();
        if units == 0 {
            assert!(v.digits.is_empty());
        } else {
            assert_eq!(v.digits, vec![units]);
        }
    }
}

fn dec(mantissa: i128, scale: u32) -> DecimalValue {
    DecimalValue { mantissa, scale }
}

fn text(d: DecimalValue) -> String {
    evaluate_values_text(DecimalOp::Add, d, DecimalValue::zero()).unwrap()
}

fn op(o: DecimalOp, a: DecimalValue, b: DecimalValue) -> DecimalValue {
    arithmetics::decimal::apply(o, a, b).unwrap()
}

#[test]
fn test_precision_preservation() {
    let sum = ValidationSuite::accumulate(dec(1, 2), 100).unwrap();
    assert_eq!(text(sum), "1.00");
    assert_eq!(evaluate_values_text(DecimalOp::Sub, sum, DecimalValue::one()), Some("0.00".to_string()));
}

#[test]
fn test_division_by_small_numbers() {
    assert_eq!(evaluate_text(DecimalOp::Div, "1.0", "0.000001"), Some("1000000".to_string()));
}

#[test]
fn test_edge_case_operations() {
    assert_eq!(
        evaluate_text(DecimalOp::Add, "1", "0.000000000000000001"),
        Some("1.000000000000000001".to_string())
    );
    assert_eq!(evaluate_text(DecimalOp::Sub, "123.456", "123.456"), Some("0.000".to_string()));
    assert_eq!(evaluate_text(DecimalOp::Div, "987.654", "987.654"), Some("1".to_string()));
}

#[test]
fn integration_tests_test_mathematical_properties() {
    mathematical_properties();
}

#[test]
fn unit_tests_test_mathematical_properties() {
    mathematical_properties();
}

fn mathematical_properties() {
    let a = dec(55, 1);
    let b = dec(22, 1);
    let c = dec(33, 1);
    let left = op(DecimalOp::Add, op(DecimalOp::Add, a, b), c);
    let right = op(DecimalOp::Add, a, op(DecimalOp::Add, b, c));
    assert_eq!(text(left), "11.0");
    assert_eq!(text(left), text(right));
    assert_eq!(op(DecimalOp::Add, a, b), op(DecimalOp::Add, b, a));
    assert_eq!(op(DecimalOp::Mul, a, b), op(DecimalOp::Mul, b, a));
    let left = op(DecimalOp::Mul, a, op(DecimalOp::Add, b, c));
    let right = op(DecimalOp::Add, op(DecimalOp::Mul, a, b), op(DecimalOp::Mul, a, c));
    assert_eq!(text(left), "30.25");
    assert_eq!(text(left), text(right));
}

#[test]
fn integration_tests_test_zero_and_one_properties() {
    zero_and_one_properties();
}

#[test]
fn unit_tests_test_zero_and_one_properties() {
    zero_and_one_properties();
}

fn zero_and_one_properties() {
    let value = dec(4242, 2);
    let zero = DecimalValue::zero();
    let one = DecimalValue::one();
    assert_eq!(op(DecimalOp::Add, value, zero), value);
    assert_eq!(op(DecimalOp::Add, zero, value), value);
    assert_eq!(text(op(DecimalOp::Mul, value, one)), "42.42");
    assert_eq!(text(op(DecimalOp::Mul, one, value)), "42.42");
    assert_eq!(op(DecimalOp::Mul, value, zero), zero);
    assert_eq!(op(DecimalOp::Mul, zero, value), zero);
}

#[test]
fn test_accumulation_error_decimal() {
    let sum = ValidationSuite::accumulate(dec(1, 2), 100).unwrap();
    assert_eq!(evaluate_values_text(DecimalOp::Sub, sum, DecimalValue::one()), Some("0.00".to_string()));
}

#[test]
fn test_small_number_precision() {
    assert_eq!(
        evaluate_text(DecimalOp::Add, "1", "0.000000000000001"),
        Some("1.000000000000001".to_string())
    );
}

#[test]
fn test_division_precision() {
    let r = evaluate_values_text(DecimalOp::Div, DecimalValue::one(), DecimalValue::from_int(3)).unwrap();
    assert!(r.starts_with("0.3333333"));
}

#[test]
fn test_division_by_zero_decimal() {
    assert_eq!(evaluate_values_text(DecimalOp::Div, DecimalValue::one(), DecimalValue::zero()), None);
}

#[test]
fn test_string_roundtrip() {
    for d in [dec(1, 1), dec(123456, 3), dec(1, 6), dec(999999999999, 6)] {
        assert_eq!(arithmetics::decimal::reparse(d), Some(d));
    }
}

#[test]
fn test_overflow_handling() {
    let max = dec(arithmetics::decimal::MAX_MANTISSA, 0);
    assert_eq!(arithmetics::decimal::apply(DecimalOp::Add, max, DecimalValue::one()), None);
}
