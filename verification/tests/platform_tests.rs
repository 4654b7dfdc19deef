use arithmetics::big_decimal::BigDecimalValue;
use arithmetics::decimal::DecimalValue;
use arithmetics::platform::{CrossPlatformTester, DecimalCrossPlatformTester, PlatformInfo};

fn info() -> PlatformInfo {
    PlatformInfo {
        os: "linux".to_string(),
        arch: "x86_64".to_string(),
        endianness: "little".to_string(),
        pointer_width: 64,
        page_size: 4096,
        cache_line_size: 64,
        cpu_features: vec!["sse2".to_string()],
        compiler: "gnu".to_string(),
        rust_version: "1.0".to_string(),
    }
}

#[test]
fn test_decimal_cross_platform() {
    let tester = DecimalCrossPlatformTester::new(info());
    assert!(tester.test_decimal_serialization());

    let precision_issues = tester.test_decimal_precision_consistency().unwrap();
    assert!(precision_issues.is_empty());
}

#[test]
fn bigdecimal_cross_platform_has_no_issues() {
    let tester = DecimalCrossPlatformTester::new(info());
    assert_eq!(tester.test_bigdecimal_cross_platform(), Some(vec![]));
}

#[test]
fn integer_overflow_check_passes() {
    let mut tester = CrossPlatformTester::new(info());
    tester.test_integer_overflow();
    let results = tester.get_test_results();
    assert_eq!(results.len(), 1);
    assert_eq!(results[0].0, "integer_overflow");
    assert!(results[0].1.passed);
    assert!(results[0].1.issues.is_empty());
    assert_eq!(results[0].1.platform_specific.os, "linux");
    assert_eq!(results[0].1.platform_specific.cpu_features, vec!["sse2".to_string()]);
    assert_eq!(tester.summary_counts(), (1, 1));
}

#[test]
fn recording_replaces_by_name() {
    let mut tester = CrossPlatformTester::new(info());
    tester.record_result("float_behavior", vec!["0.1 + 0.2 != 0.3".to_string()]);
    tester.record_result("endianness", vec![]);
    assert_eq!(tester.summary_counts(), (1, 2));
    tester.record_result("float_behavior", vec![]);
    let results = tester.get_test_results();
    assert_eq!(results.len(), 2);
    assert_eq!(results[0].0, "float_behavior");
    assert!(results[0].1.passed);
    assert_eq!(tester.summary_counts(), (2, 2));
    assert_eq!(tester.get_platform_info().page_size, 4096);
}

#[test]
fn precision_issue_messages() {
    let sum = DecimalValue { mantissa: 3, scale: 1 };
    let other = DecimalValue { mantissa: 30, scale: 2 };
    assert!(DecimalCrossPlatformTester::precision_issues("1.234567890123456789012345678", sum, other).is_empty());
    let issues = DecimalCrossPlatformTester::precision_issues("1.5", DecimalValue { mantissa: 31, scale: 1 }, other);
    assert_eq!(
        issues,
        vec![
            "Decimal precision loss detected".to_string(),
            "Decimal arithmetic inconsistency: 0.1 + 0.2 = 3.1".to_string(),
        ]
    );
}

#[test]
fn bigdecimal_issue_messages() {
    let a = BigDecimalValue { negative: false, digits: vec![10], scale: 1 };
    let b = BigDecimalValue { negative: false, digits: vec![100], scale: 2 };
    let c = BigDecimalValue { negative: true, digits: vec![100], scale: 2 };
    assert!(DecimalCrossPlatformTester::bigdecimal_issues(&a, &b, "1000000000000000000000000000000").is_empty());
    assert_eq!(
        DecimalCrossPlatformTester::bigdecimal_issues(&a, &c, "1e30"),
        vec![
            "BigDecimal serialization/deserialization inconsistency".to_string(),
            "BigDecimal large number arithmetic inconsistency".to_string(),
        ]
    );
}
