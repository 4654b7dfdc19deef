//! Benchmark configuration: the defaults, the checks it must pass and the
//! adjustments made to it.
//!
//! The two floating-point thresholds are carried as their IEEE-754 binary64
//! bit patterns (`f64::to_bits`); nothing here reads them as numbers.

use vstd::prelude::*;

use crate::text::{owned, str_eq};

verus! {

#[derive(Debug, Clone)]
pub struct BenchmarkConfig {
    pub iterations: usize,
    pub warmup_iterations: usize,
    pub measurement_time_secs: u64,
    pub sample_size: usize,
}

#[derive(Debug, Clone)]
pub struct PrecisionConfig {
    pub test_accumulation_errors: bool,
    pub test_small_numbers: bool,
    pub accumulation_iterations: usize,
    /// Bit pattern of the binary64 threshold.
    pub small_number_threshold_bits: u64,
}

#[derive(Debug, Clone)]
pub struct MemoryConfig {
    pub analyze_footprint: bool,
    pub analyze_allocation_patterns: bool,
    pub test_large_datasets: bool,
    pub large_dataset_size: usize,
}

#[derive(Debug, Clone)]
pub struct SafetyConfig {
    pub test_overflow: bool,
    pub test_division_by_zero: bool,
    pub test_precision_loss: bool,
    /// Bit pattern of the binary64 threshold.
    pub overflow_threshold_bits: u64,
}

#[derive(Debug, Clone)]
pub struct ValidationConfig {
    pub cross_library_consistency: bool,
    pub edge_case_testing: bool,
    pub mathematical_properties: bool,
    pub conversion_accuracy: bool,
}

#[derive(Debug, Clone)]
pub struct ProfilingConfig {
    pub basic_operations: bool,
    pub complex_operations: bool,
    pub memory_intensive: bool,
    pub performance_trends: bool,
    pub allocation_benchmarks: bool,
}

#[derive(Debug, Clone)]
pub struct ErrorAnalysisConfig {
    pub floating_point_errors: bool,
    pub accumulation_errors: bool,
    pub catastrophic_cancellation: bool,
    pub associativity_violations: bool,
    pub library_accuracy_comparison: bool,
}

#[derive(Debug, Clone)]
pub struct OutputConfig {
    pub verbose: bool,
    pub save_results: bool,
    pub output_format: OutputFormat,
    pub output_directory: String,
    pub include_charts: bool,
}

#[derive(Debug, Clone, Copy, PartialEq, Eq, Structural)]
pub enum OutputFormat {
    Text,
    Json,
    Csv,
    Html,
}

#[derive(Debug, Clone)]
pub struct ArithmeticConfig {
    pub benchmark: BenchmarkConfig,
    pub precision: PrecisionConfig,
    pub memory: MemoryConfig,
    pub safety: SafetyConfig,
    pub validation: ValidationConfig,
    pub profiling: ProfilingConfig,
    pub error_analysis: ErrorAnalysisConfig,
    pub output: OutputConfig,
    pub enabled_libraries: Vec<String>,
}

/// Bit pattern of 1e-10.
pub const DEFAULT_SMALL_NUMBER_THRESHOLD_BITS: u64 = 0x3ddb7cdfd9d7bdbb;

/// Bit pattern of 1e15.
pub const DEFAULT_OVERFLOW_THRESHOLD_BITS: u64 = 0x430c6bf526340000;

/// The names of the libraries enabled by default, in order.
pub open spec fn default_libraries() -> Seq<Seq<char>> {
    seq!["f64"@, "rust_decimal"@, "bigdecimal"@, "d128"@, "fixed"@, "half"@]
}

/// The names of a list of libraries.
pub open spec fn names_of(v: Seq<String>) -> Seq<Seq<char>> {
    v.map_values(|s: String| s@)
}

/// Every analysis flag that `enable_all_analysis` sets.
pub open spec fn all_analysis_enabled(c: ArithmeticConfig) -> bool {
    &&& c.precision.test_accumulation_errors
    &&& c.precision.test_small_numbers
    &&& c.memory.analyze_footprint
    &&& c.memory.analyze_allocation_patterns
    &&& c.safety.test_overflow
    &&& c.safety.test_division_by_zero
    &&& c.safety.test_precision_loss
    &&& c.validation.cross_library_consistency
    &&& c.validation.edge_case_testing
    &&& c.validation.mathematical_properties
    &&& c.profiling.basic_operations
    &&& c.profiling.complex_operations
    &&& c.profiling.memory_intensive
    &&& c.error_analysis.floating_point_errors
    &&& c.error_analysis.accumulation_errors
    &&& c.error_analysis.catastrophic_cancellation
}

/// The default configuration, field by field.
pub open spec fn is_default_config(c: ArithmeticConfig) -> bool {
    &&& c.benchmark == BenchmarkConfig {
        iterations: 10000,
        warmup_iterations: 100,
        measurement_time_secs: 5,
        sample_size: 100,
    }
    &&& c.precision == PrecisionConfig {
        test_accumulation_errors: true,
        test_small_numbers: true,
        accumulation_iterations: 10000,
        small_number_threshold_bits: DEFAULT_SMALL_NUMBER_THRESHOLD_BITS,
    }
    &&& c.memory == MemoryConfig {
        analyze_footprint: true,
        analyze_allocation_patterns: true,
        test_large_datasets: true,
        large_dataset_size: 100000,
    }
    &&& c.safety == SafetyConfig {
        test_overflow: true,
        test_division_by_zero: true,
        test_precision_loss: true,
        overflow_threshold_bits: DEFAULT_OVERFLOW_THRESHOLD_BITS,
    }
    &&& c.validation == ValidationConfig {
        cross_library_consistency: true,
        edge_case_testing: true,
        mathematical_properties: true,
        conversion_accuracy: true,
    }
    &&& c.profiling == ProfilingConfig {
        basic_operations: true,
        complex_operations: true,
        memory_intensive: true,
        performance_trends: true,
        allocation_benchmarks: true,
    }
    &&& c.error_analysis == ErrorAnalysisConfig {
        floating_point_errors: true,
        accumulation_errors: true,
        catastrophic_cancellation: true,
        associativity_violations: true,
        library_accuracy_comparison: true,
    }
    &&& !c.output.verbose
    &&& c.output.save_results
    &&& c.output.output_format == OutputFormat::Text
    &&& c.output.output_directory@ == "results"@
    &&& !c.output.include_charts
    &&& names_of(c.enabled_libraries@) == default_libraries()
}

/// Why a configuration is refused, if it is: the first of the checks on the
/// iteration counts, the dataset size and the library list that fails.
pub open spec fn validation_error(c: ArithmeticConfig) -> Option<Seq<char>> {
    if c.benchmark.iterations == 0 {
        Some("Benchmark iterations must be greater than 0"@)
    } else if c.precision.accumulation_iterations == 0 {
        Some("Precision accumulation iterations must be greater than 0"@)
    } else if c.memory.large_dataset_size == 0 {
        Some("Large dataset size must be greater than 0"@)
    } else if c.enabled_libraries@.len() == 0 {
        Some("At least one library must be enabled"@)
    } else {
        None
    }
}

/// A configuration is refused exactly when one of its three counts is zero
/// or no library is enabled; any size of the counts is accepted. The reason
/// given is the first failing check, in the order iterations, accumulation
/// iterations, dataset size, libraries.
pub proof fn lemma_validation_accepts_positive_counts(c: ArithmeticConfig)
    ensures
        validation_error(c) is None <==> (c.benchmark.iterations > 0 && c.precision.accumulation_iterations > 0
            && c.memory.large_dataset_size > 0 && c.enabled_libraries@.len() > 0),
        c.benchmark.iterations == 0 ==> validation_error(c) == Some(
            "Benchmark iterations must be greater than 0"@,
        ),
        c.benchmark.iterations > 0 && c.precision.accumulation_iterations == 0 ==> validation_error(c) == Some(
            "Precision accumulation iterations must be greater than 0"@,
        ),
        c.benchmark.iterations > 0 && c.precision.accumulation_iterations > 0 && c.memory.large_dataset_size
            == 0 ==> validation_error(c) == Some("Large dataset size must be greater than 0"@),
{
}

/// The library list after enabling `name`: appended unless already there.
pub open spec fn enable_spec(libs: Seq<Seq<char>>, name: Seq<char>) -> Seq<Seq<char>> {
    if libs.contains(name) {
        libs
    } else {
        libs.push(name)
    }
}

/// Keeps the names other than `name`.
pub open spec fn other_than(name: Seq<char>) -> spec_fn(Seq<char>) -> bool {
    |l: Seq<char>| l != name
}

/// The library list after disabling `name`: every occurrence removed, the
/// others kept in order.
pub open spec fn disable_spec(libs: Seq<Seq<char>>, name: Seq<char>) -> Seq<Seq<char>> {
    libs.filter(other_than(name))
}

/// Enabling a library makes it enabled.
pub proof fn lemma_enable_then_enabled(libs: Seq<Seq<char>>, name: Seq<char>)
    ensures
        enable_spec(libs, name).contains(name),
{
    if !libs.contains(name) {
        assert(libs.push(name)[libs.len() as int] == name);
    }
}

/// Enabling twice is enabling once, and enabling keeps every library that was
/// enabled, in its place.
pub proof fn lemma_enable_idempotent(libs: Seq<Seq<char>>, name: Seq<char>)
    ensures
        enable_spec(enable_spec(libs, name), name) == enable_spec(libs, name),
        enable_spec(libs, name).subrange(0, libs.len() as int) == libs,
{
    lemma_enable_then_enabled(libs, name);
    assert(enable_spec(libs, name).subrange(0, libs.len() as int) =~= libs);
}

/// Disabling a library leaves it disabled and keeps every other library.
pub proof fn lemma_disable_then_disabled(libs: Seq<Seq<char>>, name: Seq<char>)
    ensures
        !disable_spec(libs, name).contains(name),
        forall|other: Seq<char>| other != name ==> (#[trigger] disable_spec(libs, name).contains(other) <==> libs.contains(other)),
{
    broadcast use vstd::seq_lib::group_filter_ensures;
    let d = disable_spec(libs, name);
    if d.contains(name) {
        let i = choose|i: int| 0 <= i < d.len() && d[i] == name;
        assert(other_than(name)(d[i]));
    }
    assert forall|other: Seq<char>| other != name implies (#[trigger] d.contains(other) <==> libs.contains(other)) by {
        if libs.contains(other) {
            let i = choose|i: int| 0 <= i < libs.len() && libs[i] == other;
            assert(other_than(name)(libs[i]));
        }
        if d.contains(other) {
            lemma_filter_subset(libs, other_than(name), other);
        }
    }
}

/// Disabling a library undoes enabling it: enabling and then disabling a
/// library gives the list that disabling alone gives, which is the list as it
/// was when the library was not enabled before.
pub proof fn lemma_enable_then_disable(libs: Seq<Seq<char>>, name: Seq<char>)
    ensures
        disable_spec(enable_spec(libs, name), name) == disable_spec(libs, name),
        !libs.contains(name) ==> disable_spec(enable_spec(libs, name), name) == libs,
{
    reveal(Seq::filter);
    if !libs.contains(name) {
        assert(libs.push(name).drop_last() =~= libs);
        assert(!other_than(name)(name));
        lemma_filter_absent(libs, name);
    }
}

/// Filtering out a name that does not occur changes nothing.
proof fn lemma_filter_absent(libs: Seq<Seq<char>>, name: Seq<char>)
    requires
        !libs.contains(name),
    ensures
        disable_spec(libs, name) == libs,
    decreases libs.len(),
{
    reveal(Seq::filter);
    if libs.len() > 0 {
        let t = libs.drop_last();
        assert(!t.contains(name)) by {
            if t.contains(name) {
                let i = choose|i: int| 0 <= i < t.len() && t[i] == name;
                assert(libs[i] == name);
            }
        }
        lemma_filter_absent(t, name);
        assert(libs.last() != name) by {
            if libs.last() == name {
                assert(libs[libs.len() - 1] == name);
            }
        }
        assert(t.push(libs.last()) =~= libs);
    } else {
        assert(libs.filter(other_than(name)) =~= libs);
    }
}

proof fn lemma_filter_subset(s: Seq<Seq<char>>, p: spec_fn(Seq<char>) -> bool, x: Seq<char>)
    requires
        s.filter(p).contains(x),
    ensures
        s.contains(x),
    decreases s.len(),
{
    reveal(Seq::filter);
    if s.len() > 0 {
        let t = s.drop_last();
        if t.filter(p).contains(x) {
            lemma_filter_subset(t, p, x);
            let i = choose|i: int| 0 <= i < t.len() && t[i] == x;
            assert(s[i] == x);
        } else {
            assert(s[s.len() - 1] == x);
        }
    }
}

/// No library is named twice.
pub open spec fn no_duplicates(libs: Seq<Seq<char>>) -> bool {
    forall|i: int, j: int| 0 <= i < libs.len() && 0 <= j < libs.len() && i != j ==> libs[i] != libs[j]
}

/// Enabling and disabling never list a library twice.
pub proof fn lemma_updates_keep_no_duplicates(libs: Seq<Seq<char>>, name: Seq<char>)
    requires
        no_duplicates(libs),
    ensures
        no_duplicates(enable_spec(libs, name)),
        no_duplicates(disable_spec(libs, name)),
    decreases libs.len(),
{
    if !libs.contains(name) {
        let e = libs.push(name);
        assert forall|i: int, j: int| 0 <= i < e.len() && 0 <= j < e.len() && i != j implies e[i] != e[j] by {
            if i == libs.len() {
                assert(libs[j] == e[j]);
            } else if j == libs.len() {
                assert(libs[i] == e[i]);
            }
        }
    }
    if libs.len() > 0 {
        let t = libs.drop_last();
        assert(no_duplicates(t)) by {
            assert forall|i: int, j: int| 0 <= i < t.len() && 0 <= j < t.len() && i != j implies t[i] != t[j] by {
                assert(t[i] == libs[i] && t[j] == libs[j]);
            }
        }
        lemma_updates_keep_no_duplicates(t, name);
        assert(t.push(libs.last()) =~= libs);
        t.lemma_filter_push(libs.last(), other_than(name));
        let dt = disable_spec(t, name);
        if other_than(name)(libs.last()) {
            let d = dt.push(libs.last());
            assert(!dt.contains(libs.last())) by {
                if dt.contains(libs.last()) {
                    lemma_filter_subset(t, other_than(name), libs.last());
                    let k = choose|k: int| 0 <= k < t.len() && t[k] == libs.last();
                    assert(libs[k] == libs[libs.len() - 1]);
                }
            }
            assert forall|i: int, j: int| 0 <= i < d.len() && 0 <= j < d.len() && i != j implies d[i] != d[j] by {
                if i == dt.len() {
                    assert(dt[j] == d[j]);
                    assert(dt.contains(d[j]));
                } else if j == dt.len() {
                    assert(dt[i] == d[i]);
                    assert(dt.contains(d[i]));
                }
            }
        }
    } else {
        reveal(Seq::filter);
    }
}

/// All fields but the library list are equal.
pub open spec fn same_settings(a: ArithmeticConfig, b: ArithmeticConfig) -> bool {
    &&& a.benchmark == b.benchmark
    &&& a.precision == b.precision
    &&& a.memory == b.memory
    &&& a.safety == b.safety
    &&& a.validation == b.validation
    &&& a.profiling == b.profiling
    &&& a.error_analysis == b.error_analysis
    &&& a.output == b.output
}

impl Default for ArithmeticConfig {
    fn default() -> (r: Self)
        ensures
            is_default_config(r),
    {
        let mut libs: Vec<String> = Vec::new();
        libs.push(owned("f64"));
        libs.push(owned("rust_decimal"));
        libs.push(owned("bigdecimal"));
        libs.push(owned("d128"));
        libs.push(owned("fixed"));
        libs.push(owned("half"));
        let r = ArithmeticConfig {
            benchmark: BenchmarkConfig {
                iterations: 10000,
                warmup_iterations: 100,
                measurement_time_secs: 5,
                sample_size: 100,
            },
            precision: PrecisionConfig {
                test_accumulation_errors: true,
                test_small_numbers: true,
                accumulation_iterations: 10000,
                small_number_threshold_bits: DEFAULT_SMALL_NUMBER_THRESHOLD_BITS,
            },
            memory: MemoryConfig {
                analyze_footprint: true,
                analyze_allocation_patterns: true,
                test_large_datasets: true,
                large_dataset_size: 100000,
            },
            safety: SafetyConfig {
                test_overflow: true,
                test_division_by_zero: true,
                test_precision_loss: true,
                overflow_threshold_bits: DEFAULT_OVERFLOW_THRESHOLD_BITS,
            },
            validation: ValidationConfig {
                cross_library_consistency: true,
                edge_case_testing: true,
                mathematical_properties: true,
                conversion_accuracy: true,
            },
            profiling: ProfilingConfig {
                basic_operations: true,
                complex_operations: true,
                memory_intensive: true,
                performance_trends: true,
                allocation_benchmarks: true,
            },
            error_analysis: ErrorAnalysisConfig {
                floating_point_errors: true,
                accumulation_errors: true,
                catastrophic_cancellation: true,
                associativity_violations: true,
                library_accuracy_comparison: true,
            },
            output: OutputConfig {
                verbose: false,
                save_results: true,
                output_format: OutputFormat::Text,
                output_directory: owned("results"),
                include_charts: false,
            },
            enabled_libraries: libs,
        };
        assert(names_of(r.enabled_libraries@) =~= default_libraries());
        r
    }
}

impl ArithmeticConfig {
    /// The names of the enabled libraries, in order.
    pub open spec fn libraries(&self) -> Seq<Seq<char>> {
        names_of(self.enabled_libraries@)
    }

    pub fn is_library_enabled(&self, library: &str) -> (r: bool)
        ensures
            r == self.libraries().contains(library@),
    {
        let mut i: usize = 0;
        while i < self.enabled_libraries.len()
            invariant
                i <= self.enabled_libraries@.len(),
                forall|j: int| 0 <= j < i ==> self.libraries()[j] != library@,
            decreases self.enabled_libraries@.len() - i,
        {
            if str_eq(self.enabled_libraries[i].as_str(), library) {
                assert(self.libraries()[i as int] == library@);
                return true;
            }
            i = i + 1;
        }
        false
    }

    /// The configuration's checks on its counts and library list. Creating
    /// the output directory is left to the caller.
    pub fn validate(&self) -> (r: Result<(), String>)
        ensures
            match validation_error(*self) {
                None => r is Ok,
                Some(msg) => r matches Err(e) && e@ == msg,
            },
            r is Ok <==> (self.benchmark.iterations > 0 && self.precision.accumulation_iterations > 0
                && self.memory.large_dataset_size > 0 && self.enabled_libraries@.len() > 0),
    {
        if self.benchmark.iterations == 0 {
            return Err(owned("Benchmark iterations must be greater than 0"));
        }
        if self.precision.accumulation_iterations == 0 {
            return Err(owned("Precision accumulation iterations must be greater than 0"));
        }
        if self.memory.large_dataset_size == 0 {
            return Err(owned("Large dataset size must be greater than 0"));
        }
        if self.enabled_libraries.len() == 0 {
            return Err(owned("At least one library must be enabled"));
        }
        Ok(())
    }

    /// Sets both the benchmark and the accumulation iteration counts.
    pub fn update_iterations(&mut self, iterations: usize)
        ensures
            final(self).benchmark == (BenchmarkConfig { iterations, ..old(self).benchmark }),
            final(self).precision == (PrecisionConfig { accumulation_iterations: iterations, ..old(self).precision }),
            final(self).memory == old(self).memory,
            final(self).safety == old(self).safety,
            final(self).validation == old(self).validation,
            final(self).profiling == old(self).profiling,
            final(self).error_analysis == old(self).error_analysis,
            final(self).output == old(self).output,
            final(self).enabled_libraries == old(self).enabled_libraries,
    {
        self.benchmark.iterations = iterations;
        self.precision.accumulation_iterations = iterations;
    }

    /// Enables `library`, appending it unless it is already enabled.
    pub fn enable_library(&mut self, library: &str)
        ensures
            same_settings(*final(self), *old(self)),
            final(self).libraries() == enable_spec(old(self).libraries(), library@),
    {
        if !self.is_library_enabled(library) {
            self.enabled_libraries.push(owned(library));
            proof {
                assert(self.libraries() =~= old(self).libraries().push(library@));
            }
        }
    }

    /// Disables `library`, removing every occurrence of it.
    pub fn disable_library(&mut self, library: &str)
        ensures
            same_settings(*final(self), *old(self)),
            final(self).libraries() == disable_spec(old(self).libraries(), library@),
    {
        let mut kept: Vec<String> = Vec::new();
        let n = self.enabled_libraries.len();
        let mut i: usize = 0;
        while i < n
            invariant
                n == self.enabled_libraries@.len(),
                i <= n,
                names_of(kept@) == disable_spec(self.libraries().subrange(0, i as int), library@),
            decreases n - i,
        {
            proof {
                let pre = self.libraries().subrange(0, i as int);
                assert(self.libraries().subrange(0, i + 1) =~= pre.push(self.libraries()[i as int]));
                pre.lemma_filter_push(self.libraries()[i as int], other_than(library@));
            }
            if !str_eq(self.enabled_libraries[i].as_str(), library) {
                let ghost before = kept@;
                kept.push(self.enabled_libraries[i].clone());
                proof {
                    assert(names_of(kept@) =~= names_of(before).push(self.libraries()[i as int]));
                }
            }
            i = i + 1;
        }
        proof {
            assert(self.libraries().subrange(0, n as int) =~= self.libraries());
        }
        self.enabled_libraries = kept;
    }

    pub fn set_output_format(&mut self, format: OutputFormat)
        ensures
            final(self).output == (OutputConfig { output_format: format, ..old(self).output }),
            final(self).benchmark == old(self).benchmark,
            final(self).precision == old(self).precision,
            final(self).memory == old(self).memory,
            final(self).safety == old(self).safety,
            final(self).validation == old(self).validation,
            final(self).profiling == old(self).profiling,
            final(self).error_analysis == old(self).error_analysis,
            final(self).enabled_libraries == old(self).enabled_libraries,
    {
        self.output.output_format = format;
    }

    /// Turns on every analysis flag (the performance-trend, allocation,
    /// conversion-accuracy, associativity and accuracy-comparison flags are
    /// left as they are).
    pub fn enable_all_analysis(&mut self)
        ensures
            all_analysis_enabled(*final(self)),
            final(self).benchmark == old(self).benchmark,
            final(self).precision == (PrecisionConfig {
                test_accumulation_errors: true,
                test_small_numbers: true,
                ..old(self).precision
            }),
            final(self).memory == (MemoryConfig {
                analyze_footprint: true,
                analyze_allocation_patterns: true,
                ..old(self).memory
            }),
            final(self).safety == (SafetyConfig {
                test_overflow: true,
                test_division_by_zero: true,
                test_precision_loss: true,
                ..old(self).safety
            }),
            final(self).validation == (ValidationConfig {
                cross_library_consistency: true,
                edge_case_testing: true,
                mathematical_properties: true,
                ..old(self).validation
            }),
            final(self).profiling == (ProfilingConfig {
                basic_operations: true,
                complex_operations: true,
                memory_intensive: true,
                ..old(self).profiling
            }),
            final(self).error_analysis == (ErrorAnalysisConfig {
                floating_point_errors: true,
                accumulation_errors: true,
                catastrophic_cancellation: true,
                ..old(self).error_analysis
            }),
            final(self).output == old(self).output,
            final(self).enabled_libraries == old(self).enabled_libraries,
    {
        self.precision.test_accumulation_errors = true;
        self.precision.test_small_numbers = true;
        self.memory.analyze_footprint = true;
        self.memory.analyze_allocation_patterns = true;
        self.safety.test_overflow = true;
        self.safety.test_division_by_zero = true;
        self.safety.test_precision_loss = true;
        self.validation.cross_library_consistency = true;
        self.validation.edge_case_testing = true;
        self.validation.mathematical_properties = true;
        self.profiling.basic_operations = true;
        self.profiling.complex_operations = true;
        self.profiling.memory_intensive = true;
        self.error_analysis.floating_point_errors = true;
        self.error_analysis.accumulation_errors = true;
        self.error_analysis.catastrophic_cancellation = true;
    }

    /// Fewer iterations, a smaller dataset and no memory-heavy work.
    pub fn set_fast_mode(&mut self)
        ensures
            validation_error(*final(self)) is None <==> final(self).enabled_libraries@.len() > 0,
            final(self).benchmark == (BenchmarkConfig {
                iterations: 1000,
                warmup_iterations: 10,
                measurement_time_secs: 1,
                ..old(self).benchmark
            }),
            final(self).precision == (PrecisionConfig { accumulation_iterations: 1000, ..old(self).precision }),
            final(self).memory == (MemoryConfig {
                large_dataset_size: 10000,
                test_large_datasets: false,
                ..old(self).memory
            }),
            final(self).profiling == (ProfilingConfig { memory_intensive: false, ..old(self).profiling }),
            final(self).safety == old(self).safety,
            final(self).validation == old(self).validation,
            final(self).error_analysis == old(self).error_analysis,
            final(self).output == old(self).output,
            final(self).enabled_libraries == old(self).enabled_libraries,
    {
        self.benchmark.iterations = 1000;
        self.benchmark.warmup_iterations = 10;
        self.benchmark.measurement_time_secs = 1;
        self.precision.accumulation_iterations = 1000;
        self.memory.large_dataset_size = 10000;
        self.memory.test_large_datasets = false;
        self.profiling.memory_intensive = false;
    }

    /// More iterations, a larger dataset and every analysis enabled.
    pub fn set_thorough_mode(&mut self)
        ensures
            validation_error(*final(self)) is None <==> final(self).enabled_libraries@.len() > 0,
            final(self).benchmark == (BenchmarkConfig {
                iterations: 100000,
                warmup_iterations: 1000,
                measurement_time_secs: 10,
                ..old(self).benchmark
            }),
            final(self).precision.accumulation_iterations == 100000,
            final(self).precision.small_number_threshold_bits == old(self).precision.small_number_threshold_bits,
            final(self).memory.large_dataset_size == 1000000,
            final(self).memory.test_large_datasets == old(self).memory.test_large_datasets,
            all_analysis_enabled(*final(self)),
            final(self).safety.overflow_threshold_bits == old(self).safety.overflow_threshold_bits,
            final(self).validation.conversion_accuracy == old(self).validation.conversion_accuracy,
            final(self).profiling.performance_trends == old(self).profiling.performance_trends,
            final(self).profiling.allocation_benchmarks == old(self).profiling.allocation_benchmarks,
            final(self).error_analysis.associativity_violations == old(self).error_analysis.associativity_violations,
            final(self).error_analysis.library_accuracy_comparison == old(self).error_analysis.library_accuracy_comparison,
            final(self).output == old(self).output,
            final(self).enabled_libraries == old(self).enabled_libraries,
    {
        self.benchmark.iterations = 100000;
        self.benchmark.warmup_iterations = 1000;
        self.benchmark.measurement_time_secs = 10;
        self.precision.accumulation_iterations = 100000;
        self.memory.large_dataset_size = 1000000;
        self.enable_all_analysis();
    }
}

} // verus!
