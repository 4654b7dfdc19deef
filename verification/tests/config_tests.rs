use arithmetics::config::{ArithmeticConfig, OutputFormat};

#[test]
fn default_config_values() {
    let c = ArithmeticConfig::default();
    assert_eq!(c.benchmark.iterations, 10000);
    assert_eq!(c.benchmark.warmup_iterations, 100);
    assert_eq!(c.benchmark.measurement_time_secs, 5);
    assert_eq!(c.benchmark.sample_size, 100);
    assert_eq!(c.precision.accumulation_iterations, 10000);
    assert_eq!(f64::from_bits(c.precision.small_number_threshold_bits), 1e-10);
    assert_eq!(f64::from_bits(c.safety.overflow_threshold_bits), 1e15);
    assert_eq!(c.memory.large_dataset_size, 100000);
    assert_eq!(c.output.output_directory, "results");
    assert_eq!(c.output.output_format, OutputFormat::Text);
    assert!(!c.output.verbose);
    assert!(c.output.save_results);
    assert!(!c.output.include_charts);
    assert_eq!(
        c.enabled_libraries,
        vec!["f64", "rust_decimal", "bigdecimal", "d128", "fixed", "half"]
            .into_iter()
            .map(String::from)
            .collect::<Vec<_>>()
    );
}

#[test]
fn validation_messages_in_order() {
    let mut c = ArithmeticConfig::default();
    c.benchmark.iterations = 0;
    c.precision.accumulation_iterations = 0;
    assert_eq!(c.validate(), Err("Benchmark iterations must be greater than 0".to_string()));
    c.benchmark.iterations = 1;
    assert_eq!(
        c.validate(),
        Err("Precision accumulation iterations must be greater than 0".to_string())
    );
    c.precision.accumulation_iterations = 1;
    c.memory.large_dataset_size = 0;
    assert_eq!(c.validate(), Err("Large dataset size must be greater than 0".to_string()));
    c.memory.large_dataset_size = 1;
    c.enabled_libraries.clear();
    assert_eq!(c.validate(), Err("At least one library must be enabled".to_string()));
    c.enabled_libraries.push("x".to_string());
    assert_eq!(c.validate(), Ok(()));
}

#[test]
fn enable_is_idempotent() {
    let mut c = ArithmeticConfig::default();
    c.enable_library("gmp");
    c.enable_library("gmp");
    assert_eq!(c.enabled_libraries.iter().filter(|l| l.as_str() == "gmp").count(), 1);
    assert_eq!(c.enabled_libraries.last().map(String::as_str), Some("gmp"));
    let before = c.enabled_libraries.clone();
    c.enable_library("f64");
    assert_eq!(c.enabled_libraries, before);
}

#[test]
fn disable_removes_every_copy_and_keeps_order() {
    let mut c = ArithmeticConfig::default();
    c.enabled_libraries.push("f64".to_string());
    c.disable_library("f64");
    assert!(!c.is_library_enabled("f64"));
    assert_eq!(
        c.enabled_libraries,
        vec!["rust_decimal", "bigdecimal", "d128", "fixed", "half"]
            .into_iter()
            .map(String::from)
            .collect::<Vec<_>>()
    );
    c.disable_library("not_there");
    assert_eq!(c.enabled_libraries.len(), 5);
}

#[test]
fn iterations_and_format_updates() {
    let mut c = ArithmeticConfig::default();
    c.update_iterations(7);
    assert_eq!(c.benchmark.iterations, 7);
    assert_eq!(c.precision.accumulation_iterations, 7);
    assert_eq!(c.benchmark.warmup_iterations, 100);
    c.set_output_format(OutputFormat::Html);
    assert_eq!(c.output.output_format, OutputFormat::Html);
}

#[test]
fn enable_all_analysis_sets_flags() {
    let mut c = ArithmeticConfig::default();
    c.precision.test_small_numbers = false;
    c.safety.test_division_by_zero = false;
    c.error_analysis.associativity_violations = false;
    c.enable_all_analysis();
    assert!(c.precision.test_small_numbers);
    assert!(c.safety.test_division_by_zero);
    assert!(!c.error_analysis.associativity_violations);
}

#[test]
fn fast_and_thorough_values() {
    let mut c = ArithmeticConfig::default();
    c.set_fast_mode();
    assert_eq!(c.benchmark.iterations, 1000);
    assert_eq!(c.benchmark.measurement_time_secs, 1);
    assert!(!c.profiling.memory_intensive);
    c.set_thorough_mode();
    assert_eq!(c.benchmark.iterations, 100000);
    assert_eq!(c.precision.accumulation_iterations, 100000);
    assert_eq!(c.memory.large_dataset_size, 1000000);
    assert!(c.profiling.memory_intensive);
    assert!(!c.memory.test_large_datasets);
}

#[test]
fn disable_undoes_enable() {
    let mut c = ArithmeticConfig::default();
    let before = c.enabled_libraries.clone();
    c.enable_library("gmp");
    c.disable_library("gmp");
    assert_eq!(c.enabled_libraries, before);
}
