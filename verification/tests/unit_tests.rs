use std::time::Instant;

use arithmetics::config::ArithmeticConfig;

#[test]
fn test_division_by_zero_f64() {
    let result = 1.0_f64 / 0.0_f64;
    assert!(result.is_infinite());

    let result = 0.0_f64 / 0.0_f64;
    assert!(result.is_nan());
}

#[test]
fn test_negative_sqrt() {
    let negative = -4.0_f64;
    let result = negative.sqrt();
    assert!(result.is_nan());
}

#[test]
fn test_f64_performance() {
    let start = Instant::now();
    let mut sum = 0.0_f64;
    for i in 0..10000 {
        sum += i as f64 * 0.1;
    }
    let duration = start.elapsed();
    assert!(duration.as_millis() < 100);
    assert!(sum > 0.0);
}

#[test]
fn test_classic_floating_point_error() {
    let result = 0.1_f64 + 0.2_f64;
    let expected = 0.3_f64;
    assert_ne!(result, expected);
    assert!((result - expected).abs() < 1e-15);
}

#[test]
fn test_catastrophic_cancellation() {
    let a = 1.0000000000000002_f64;
    let b = 1.0_f64;
    let result = a - b;
    assert!(result > 0.0);
    assert!(result < 1e-15);
}

#[test]
fn test_large_small_addition() {
    let large = 1e16_f64;
    let small = 1.0_f64;
    let result = large + small;
    assert_eq!(result, large);
}

#[test]
fn test_associativity_violation() {
    let a = 1e20_f64;
    let b = -1e20_f64;
    let c = 1.0_f64;
    let left_to_right = (a + b) + c;
    let right_to_left = a + (b + c);
    assert_ne!(left_to_right, right_to_left);
}

#[test]
fn test_complex_operations_smoke_test() {
    let value = 25.0_f64;
    let _sqrt = value.sqrt();
    let _sin = value.sin();
    let _cos = value.cos();
    let _power = value.powf(2.0);
    assert!(true);
}

#[test]
fn test_default_config() {
    let config = ArithmeticConfig::default();
    assert!(config.benchmark.iterations > 0);
    assert!(!config.enabled_libraries.is_empty());
    assert!(config.enabled_libraries.contains(&"f64".to_string()));
    assert!(config.enabled_libraries.contains(&"rust_decimal".to_string()));
}

#[test]
fn test_config_validation() {
    let mut config = ArithmeticConfig::default();
    assert!(config.validate().is_ok());
    config.benchmark.iterations = 0;
    assert!(config.validate().is_err());
    config.benchmark.iterations = 1000;
    config.enabled_libraries.clear();
    assert!(config.validate().is_err());
}

#[test]
fn test_library_enable_disable() {
    let mut config = ArithmeticConfig::default();
    assert!(config.is_library_enabled("f64"));
    config.disable_library("f64");
    assert!(!config.is_library_enabled("f64"));
    config.enable_library("f64");
    assert!(config.is_library_enabled("f64"));
}

#[test]
fn test_fast_mode() {
    let mut config = ArithmeticConfig::default();
    let original_iterations = config.benchmark.iterations;
    config.set_fast_mode();
    assert!(config.benchmark.iterations < original_iterations);
    assert!(config.benchmark.warmup_iterations < 100);
}

#[test]
fn test_thorough_mode() {
    let mut config = ArithmeticConfig::default();
    let original_iterations = config.benchmark.iterations;
    config.set_thorough_mode();
    assert!(config.benchmark.iterations > original_iterations);
    assert!(config.precision.test_accumulation_errors);
    assert!(config.memory.analyze_footprint);
    assert!(config.safety.test_overflow);
}
