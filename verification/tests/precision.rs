//! Precision behaviour: where each representation is exact, where it drifts.

use arithmetics::big_decimal::bigdecimal_sum_text;
use arithmetics::decimal::{evaluate_text, evaluate_values_text, DecimalOp, DecimalValue};
use arithmetics::validation::ValidationSuite;
use fastnum::D128;

const STEPS: usize = 10_000;

/// 0.1 added 10 000 times is exactly 1000 in every decimal-radix type.
#[test]
fn accumulation_decimals_are_exact() {
    let step = DecimalValue { mantissa: 1, scale: 1 };
    let sum = ValidationSuite::accumulate(step, STEPS as u32).unwrap();
    assert_eq!(
        evaluate_values_text(DecimalOp::Sub, sum, DecimalValue::from_int(1000)),
        Some("0.0".to_string())
    );

    let mut sum = "0".to_string();
    for _ in 0..STEPS {
        sum = bigdecimal_sum_text(&sum, "0.1").unwrap();
    }
    assert_eq!(sum, "1000.0");

    let step: D128 = "0.1".parse().unwrap();
    let mut sum = D128::ZERO;
    for _ in 0..STEPS {
        sum = sum + step;
    }
    assert_eq!(sum, "1000".parse::<D128>().unwrap());
}

/// The textbook example: 0.1 + 0.2 is exactly 0.3 in decimal radix.
#[test]
fn zero_one_plus_zero_two_decimal_radix() {
    assert_eq!(evaluate_text(DecimalOp::Add, "0.1", "0.2"), Some("0.3".to_string()));
    assert_eq!(bigdecimal_sum_text("0.1", "0.2"), Some("0.3".to_string()));
    let sum = "0.1".parse::<D128>().unwrap() + "0.2".parse::<D128>().unwrap();
    assert_eq!(sum, "0.3".parse::<D128>().unwrap());
}

/// f64 cannot represent 0.1, so the sum drifts — but only in the 8th
/// decimal place or so after 10 000 additions.
#[test]
fn accumulation_f64_drifts() {
    let mut sum = 0.0_f64;
    for _ in 0..STEPS {
        sum += 0.1;
    }
    let err = (sum - 1000.0).abs();
    assert!(err > 0.0 && err < 1e-6, "f64 accumulated error: {err:e}");
}

/// f32's 24-bit mantissa drifts far sooner.
#[test]
fn accumulation_f32_drifts_more() {
    let mut sum = 0.0_f32;
    for _ in 0..STEPS {
        sum += 0.1;
    }
    let err = (sum - 1000.0).abs();
    assert!(err > 1e-4 && err < 0.5, "f32 accumulated error: {err:e}");
}

/// 0.1 + 0.2 is famously not 0.3 in f64.
#[test]
fn zero_one_plus_zero_two_f64() {
    assert_ne!(0.1_f64 + 0.2_f64, 0.3_f64);
}
