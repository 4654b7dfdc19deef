use arithmetics::cli::{parse_library_list, trim_str, CliHandler, CliOutputFormat, CliOverrides};
use arithmetics::config::{ArithmeticConfig, OutputFormat};

fn no_overrides() -> CliOverrides {
    CliOverrides {
        verbose: false,
        iterations: None,
        output: None,
        format: None,
        libraries: None,
        fast: false,
        thorough: false,
    }
}

#[test]
fn trims_white_space() {
    assert_eq!(trim_str("  f64 \t"), "f64");
    assert_eq!(trim_str("   "), "");
    assert_eq!(trim_str("a b"), "a b");
    assert_eq!(trim_str(""), "");
}

#[test]
fn library_list_is_split_and_trimmed() {
    assert_eq!(
        parse_library_list("f64, rust_decimal ,bigdecimal"),
        vec!["f64".to_string(), "rust_decimal".to_string(), "bigdecimal".to_string()]
    );
    assert_eq!(parse_library_list(""), vec!["".to_string()]);
    assert_eq!(parse_library_list("a,,b"), vec!["a".to_string(), "".to_string(), "b".to_string()]);
}

#[test]
fn cli_format_converts() {
    assert_eq!(OutputFormat::from(CliOutputFormat::Json), OutputFormat::Json);
    assert_eq!(OutputFormat::from(CliOutputFormat::Csv), OutputFormat::Csv);
    assert_eq!(OutputFormat::from(CliOutputFormat::Html), OutputFormat::Html);
    assert_eq!(OutputFormat::from(CliOutputFormat::Text), OutputFormat::Text);
}

#[test]
fn no_overrides_keep_config() {
    let mut config = ArithmeticConfig::default();
    let before = config.clone();
    CliHandler::apply_cli_overrides(&mut config, &no_overrides());
    assert_eq!(config.benchmark.iterations, before.benchmark.iterations);
    assert_eq!(config.enabled_libraries, before.enabled_libraries);
    assert_eq!(config.output.output_directory, before.output.output_directory);
    assert_eq!(config.output.output_format, before.output.output_format);
    assert_eq!(config.output.verbose, before.output.verbose);
}

#[test]
fn overrides_are_applied() {
    let mut config = ArithmeticConfig::default();
    let cli = CliOverrides {
        verbose: true,
        iterations: Some(42),
        output: Some("out".to_string()),
        format: Some(CliOutputFormat::Csv),
        libraries: Some("f64, half".to_string()),
        fast: false,
        thorough: false,
    };
    CliHandler::apply_cli_overrides(&mut config, &cli);
    assert!(config.output.verbose);
    assert_eq!(config.benchmark.iterations, 42);
    assert_eq!(config.precision.accumulation_iterations, 42);
    assert_eq!(config.output.output_directory, "out");
    assert_eq!(config.output.output_format, OutputFormat::Csv);
    assert_eq!(config.enabled_libraries, vec!["f64".to_string(), "half".to_string()]);
}

#[test]
fn thorough_wins_over_fast_and_iterations() {
    let mut config = ArithmeticConfig::default();
    let mut cli = no_overrides();
    cli.iterations = Some(5);
    cli.fast = true;
    cli.thorough = true;
    CliHandler::apply_cli_overrides(&mut config, &cli);
    assert_eq!(config.benchmark.iterations, 100000);
    assert_eq!(config.benchmark.warmup_iterations, 1000);
    assert_eq!(config.memory.large_dataset_size, 1000000);
    assert!(config.profiling.memory_intensive);
    assert!(config.safety.test_overflow);
}

#[test]
fn fast_wins_over_iterations() {
    let mut config = ArithmeticConfig::default();
    let mut cli = no_overrides();
    cli.iterations = Some(5);
    cli.fast = true;
    CliHandler::apply_cli_overrides(&mut config, &cli);
    assert_eq!(config.benchmark.iterations, 1000);
    assert_eq!(config.precision.accumulation_iterations, 1000);
    assert_eq!(config.benchmark.warmup_iterations, 10);
    assert_eq!(config.memory.large_dataset_size, 10000);
    assert!(!config.memory.test_large_datasets);
}
