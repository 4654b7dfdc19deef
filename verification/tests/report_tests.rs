use arithmetics::export::ResultExporter;
use arithmetics::validation::ValidationResult;
use arithmetics::visualization::VisualizationGenerator;

#[test]
fn test_library_type_detection() {
    assert_eq!(VisualizationGenerator::determine_library_type("f64_addition"), "f64");
    assert_eq!(
        VisualizationGenerator::determine_library_type("decimal_multiplication"),
        "rust_decimal"
    );
    assert_eq!(
        VisualizationGenerator::determine_library_type("bigdecimal_division"),
        "bigdecimal"
    );
}

#[test]
fn library_type_of_other_names() {
    assert_eq!(VisualizationGenerator::determine_library_type("fixed_add"), "fixed");
    assert_eq!(VisualizationGenerator::determine_library_type("half_sqrt"), "half");
    assert_eq!(VisualizationGenerator::determine_library_type("i32_add"), "other");
    assert_eq!(VisualizationGenerator::determine_library_type(""), "other");
    // The first matching rule wins.
    assert_eq!(VisualizationGenerator::determine_library_type("f64_vs_decimal"), "f64");
}

#[test]
fn chart_groups_count_bigdecimal_under_decimal() {
    assert_eq!(VisualizationGenerator::library_group("f64_add"), "f64 (native)");
    assert_eq!(VisualizationGenerator::library_group("decimal_add"), "rust_decimal");
    assert_eq!(VisualizationGenerator::library_group("bigdecimal_add"), "rust_decimal");
    assert_eq!(VisualizationGenerator::library_group("fixed_mul"), "fixed-point");
    assert_eq!(VisualizationGenerator::library_group("half_mul"), "half-precision");
    assert_eq!(VisualizationGenerator::library_group("u8_mul"), "other");
}

#[test]
fn findings_html_joins_blocks() {
    let findings = vec!["a".to_string(), "b <c>".to_string()];
    assert_eq!(
        ResultExporter::generate_findings_html(&findings),
        "<div class=\"finding\">a</div>\n<div class=\"finding\">b <c></div>"
    );
    assert_eq!(ResultExporter::generate_findings_html(&[]), "");
}

#[test]
fn library_profiles() {
    assert_eq!(
        ResultExporter::identify_strengths("f64"),
        vec!["Fastest performance".to_string(), "Hardware optimized".to_string()]
    );
    assert_eq!(
        ResultExporter::identify_weaknesses("rust_decimal"),
        vec!["Limited to 28 digits".to_string(), "Slower than f64".to_string()]
    );
    assert_eq!(
        ResultExporter::recommend_use_cases("half"),
        vec!["Machine learning".to_string(), "Memory-constrained applications".to_string()]
    );
    assert_eq!(ResultExporter::identify_strengths("d128"), vec!["IEEE standard".to_string(), "High precision".to_string()]);
    assert_eq!(ResultExporter::identify_strengths("unknown"), vec!["General purpose".to_string()]);
    assert_eq!(ResultExporter::identify_weaknesses("unknown"), vec!["Unspecified limitations".to_string()]);
    assert_eq!(ResultExporter::recommend_use_cases("unknown"), vec!["General purpose".to_string()]);
}

fn result(name: &str, passed: bool) -> ValidationResult {
    ValidationResult {
        test_name: name.to_string(),
        expected: String::new(),
        actual: String::new(),
        passed,
        error_margin_bits: None,
    }
}

#[test]
fn summary_counts_and_findings() {
    let flags = [
        result("a", true),
        result("b", false),
        result("c", true),
        result("d", true),
    ];
    let s = ResultExporter::generate_summary(&flags, "f64", "bigdecimal", "half", "rust_decimal", "rust_decimal");
    assert_eq!(s.total_tests_run, 4);
    assert_eq!(s.tests_passed, 3);
    assert_eq!(s.tests_failed, 1);
    assert_eq!(s.fastest_library, "f64");
    assert_eq!(s.most_precise_library, "bigdecimal");
    assert_eq!(s.most_memory_efficient, "half");
    assert_eq!(s.safest_library, "rust_decimal");
    assert_eq!(s.overall_recommendation, "rust_decimal");
    assert_eq!(
        s.key_findings,
        vec![
            "Performance varies significantly across libraries, with f64 leading".to_string(),
            "bigdecimal provides the best precision for exact calculations".to_string(),
            "half offers the best memory efficiency".to_string(),
            "Choice of library should depend on specific use case requirements".to_string(),
        ]
    );
}

#[test]
fn summary_of_no_results() {
    let s = ResultExporter::generate_summary(&[], "", "", "", "", "");
    assert_eq!(s.total_tests_run, 0);
    assert_eq!(s.tests_passed, 0);
    assert_eq!(s.tests_failed, 0);
    assert_eq!(s.key_findings.len(), 4);
}

#[test]
fn validation_counts_by_library_name() {
    let results = [
        result("Decimal Addition 1.1 + 2.2", true),
        result("Addition 1.1 + 2.2", false),
        result("decimal round trip", false),
        result("f64 decimal check", true),
    ];
    assert_eq!(ResultExporter::library_validation_counts("decimal", &results), (2, 1));
    assert_eq!(ResultExporter::library_validation_counts("Decimal", &results), (1, 1));
    assert_eq!(ResultExporter::library_validation_counts("half", &results), (0, 0));
    assert_eq!(ResultExporter::library_validation_counts("", &results), (4, 2));
}
