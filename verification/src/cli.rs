//! The command line's choices and how its options adjust a configuration.
//! Reading the command line itself is left to the program around the library.

use vstd::prelude::*;

use crate::config::{all_analysis_enabled, names_of, ArithmeticConfig, OutputFormat};
use crate::text::{owned, push_char};

verus! {

#[derive(Debug, Clone, Copy, PartialEq, Eq, Structural)]
pub enum CliOutputFormat {
    Text,
    Json,
    Csv,
    Html,
}

#[derive(Debug, Clone, Copy, PartialEq, Eq, Structural)]
pub enum AnalysisType {
    Precision,
    Memory,
    Safety,
    Error,
    All,
}

#[derive(Debug, Clone, Copy, PartialEq, Eq, Structural)]
pub enum Operation {
    Add,
    Subtract,
    Multiply,
    Divide,
    Sqrt,
    Power,
}

#[derive(Debug, Clone, Copy, PartialEq, Eq, Structural)]
pub enum ReportType {
    Summary,
    Detailed,
    Comparison,
    Charts,
}

/// Each command-line format is the output format of the same name.
pub open spec fn output_format_of(f: CliOutputFormat) -> OutputFormat {
    match f {
        CliOutputFormat::Text => OutputFormat::Text,
        CliOutputFormat::Json => OutputFormat::Json,
        CliOutputFormat::Csv => OutputFormat::Csv,
        CliOutputFormat::Html => OutputFormat::Html,
    }
}

impl From<CliOutputFormat> for OutputFormat {
    fn from(cli_format: CliOutputFormat) -> (r: OutputFormat) {
        match cli_format {
            CliOutputFormat::Text => OutputFormat::Text,
            CliOutputFormat::Json => OutputFormat::Json,
            CliOutputFormat::Csv => OutputFormat::Csv,
            CliOutputFormat::Html => OutputFormat::Html,
        }
    }
}

impl vstd::std_specs::convert::FromSpecImpl<CliOutputFormat> for OutputFormat {
    open spec fn obeys_from_spec() -> bool {
        true
    }

    open spec fn from_spec(v: CliOutputFormat) -> OutputFormat {
        output_format_of(v)
    }
}

/// Distinct command-line formats give distinct output formats.
pub proof fn lemma_output_format_injective(a: CliOutputFormat, b: CliOutputFormat)
    ensures
        output_format_of(a) == output_format_of(b) ==> a == b,
{
}

/// A white-space character in Unicode's sense (`char::is_whitespace`).
pub open spec fn is_white_space(c: char) -> bool {
    let u = c as u32;
    ||| 0x09 <= u <= 0x0d
    ||| u == 0x20
    ||| u == 0x85
    ||| u == 0xa0
    ||| u == 0x1680
    ||| 0x2000 <= u <= 0x200a
    ||| u == 0x2028
    ||| u == 0x2029
    ||| u == 0x202f
    ||| u == 0x205f
    ||| u == 0x3000
}

/// Whether `c` is white space.
pub fn white_space(c: char) -> (r: bool)
    ensures
        r == is_white_space(c),
{
    let u = c as u32;
    (0x09 <= u && u <= 0x0d) || u == 0x20 || u == 0x85 || u == 0xa0 || u == 0x1680 || (0x2000 <= u
        && u <= 0x200a) || u == 0x2028 || u == 0x2029 || u == 0x202f || u == 0x205f || u == 0x3000
}

/// `s` without its leading white space.
pub open spec fn trim_start(s: Seq<char>) -> Seq<char>
    decreases s.len(),
{
    if s.len() > 0 && is_white_space(s[0]) {
        trim_start(s.drop_first())
    } else {
        s
    }
}

/// `s` without its trailing white space.
pub open spec fn trim_end(s: Seq<char>) -> Seq<char>
    decreases s.len(),
{
    if s.len() > 0 && is_white_space(s.last()) {
        trim_end(s.drop_last())
    } else {
        s
    }
}

/// `s` without leading and trailing white space (`str::trim`).
pub open spec fn trim(s: Seq<char>) -> Seq<char> {
    trim_end(trim_start(s))
}

/// The pieces of `s` between commas, in order (`str::split(',')`): one more
/// piece than there are commas, empty pieces included.
pub open spec fn split_commas(s: Seq<char>) -> Seq<Seq<char>>
    decreases s.len(),
{
    if s.len() == 0 {
        seq![Seq::<char>::empty()]
    } else {
        let p = split_commas(s.drop_last());
        if s.last() == ',' {
            p.push(Seq::<char>::empty())
        } else {
            p.update(p.len() - 1, p.last().push(s.last()))
        }
    }
}

/// The library names in a comma-separated list, each trimmed.
pub open spec fn library_list(s: Seq<char>) -> Seq<Seq<char>> {
    split_commas(s).map_values(|p: Seq<char>| trim(p))
}

proof fn lemma_split_commas_nonempty(s: Seq<char>)
    ensures
        split_commas(s).len() >= 1,
    decreases s.len(),
{
    if s.len() > 0 {
        lemma_split_commas_nonempty(s.drop_last());
    }
}

/// Leading white space before position `k` does not change the trimmed start.
proof fn lemma_trim_start_skip(s: Seq<char>, k: int)
    requires
        0 <= k <= s.len(),
        forall|j: int| 0 <= j < k ==> is_white_space(s[j]),
    ensures
        trim_start(s) == trim_start(s.subrange(k, s.len() as int)),
    decreases k,
{
    if k > 0 {
        assert(s.drop_first().subrange(k - 1, s.drop_first().len() as int) =~= s.subrange(k, s.len() as int));
        lemma_trim_start_skip(s.drop_first(), k - 1);
    } else {
        assert(s.subrange(0, s.len() as int) =~= s);
    }
}

/// Trailing white space from position `k` on does not change the trimmed end.
proof fn lemma_trim_end_skip(s: Seq<char>, k: int)
    requires
        0 <= k <= s.len(),
        forall|j: int| k <= j < s.len() ==> is_white_space(s[j]),
    ensures
        trim_end(s) == trim_end(s.subrange(0, k)),
    decreases s.len() - k,
{
    if k < s.len() {
        assert(s.drop_last().subrange(0, k) =~= s.subrange(0, k));
        lemma_trim_end_skip(s.drop_last(), k);
    } else {
        assert(s.subrange(0, k) =~= s);
    }
}

/// Trims a string.
pub fn trim_str(s: &str) -> (r: String)
    ensures
        r@ == trim(s@),
{
    let n = s.unicode_len();
    let mut start: usize = 0;
    while start < n && white_space(s.get_char(start))
        invariant
            n == s@.len(),
            start <= n,
            forall|j: int| 0 <= j < start ==> is_white_space(s@[j]),
        decreases n - start,
    {
        start = start + 1;
    }
    proof {
        lemma_trim_start_skip(s@, start as int);
    }
    let ghost rest = s@.subrange(start as int, n as int);
    assert(trim_start(rest) == rest);
    let mut end: usize = n;
    while end > start && white_space(s.get_char(end - 1))
        invariant
            n == s@.len(),
            start <= end <= n,
            forall|j: int| end <= j < n ==> is_white_space(s@[j]),
        decreases end - start,
    {
        end = end - 1;
    }
    proof {
        let r2 = s@.subrange(start as int, n as int);
        assert forall|j: int| (end - start) <= j < r2.len() implies is_white_space(r2[j]) by {
            assert(r2[j] == s@[start + j]);
        }
        lemma_trim_end_skip(r2, (end - start) as int);
        assert(r2.subrange(0, (end - start) as int) =~= s@.subrange(start as int, end as int));
        let m = s@.subrange(start as int, end as int);
        if m.len() > 0 {
            assert(m.last() == s@[end - 1]);
        }
    }
    owned(s.substring_char(start, end))
}

/// Splits a comma-separated list and trims every piece.
pub fn parse_library_list(list: &str) -> (r: Vec<String>)
    ensures
        names_of(r@) == library_list(list@),
{
    let n = list.unicode_len();
    let mut done: Vec<String> = Vec::new();
    let mut cur = String::new();
    let mut i: usize = 0;
    while i < n
        invariant
            n == list@.len(),
            i <= n,
            split_commas(list@.subrange(0, i as int)).len() == done.len() + 1,
            forall|j: int| 0 <= j < done.len() ==> (#[trigger] done[j])@ == trim(split_commas(list@.subrange(0, i as int))[j]),
            cur@ == split_commas(list@.subrange(0, i as int)).last(),
        decreases n - i,
    {
        let c = list.get_char(i);
        let ghost pre = list@.subrange(0, i as int);
        proof {
            assert(list@.subrange(0, i + 1).drop_last() =~= pre);
            lemma_split_commas_nonempty(pre);
        }
        if c == ',' {
            let piece = trim_str(cur.as_str());
            done.push(piece);
            cur = String::new();
        } else {
            push_char(&mut cur, c);
        }
        i = i + 1;
    }
    let piece = trim_str(cur.as_str());
    done.push(piece);
    proof {
        assert(list@.subrange(0, n as int) =~= list@);
        assert(names_of(done@) =~= library_list(list@));
    }
    done
}

/// The options of the command line that adjust the configuration.
#[derive(Debug, Clone)]
pub struct CliOverrides {
    pub verbose: bool,
    pub iterations: Option<usize>,
    pub output: Option<String>,
    pub format: Option<CliOutputFormat>,
    pub libraries: Option<String>,
    pub fast: bool,
    pub thorough: bool,
}

/// Handles the command line's adjustments to a configuration.
pub struct CliHandler;

impl CliHandler {
    /// The options other than the two modes.
    fn apply_settings(config: &mut ArithmeticConfig, cli: &CliOverrides)
        ensures
            ({
                let c = *old(config);
                let d = *final(config);
                &&& d.output.verbose == (c.output.verbose || cli.verbose)
                &&& d.output.output_directory@ == match cli.output {
                    Some(o) => o@,
                    None => c.output.output_directory@,
                }
                &&& d.output.output_format == match cli.format {
                    Some(f) => output_format_of(f),
                    None => c.output.output_format,
                }
                &&& d.output.save_results == c.output.save_results
                &&& d.output.include_charts == c.output.include_charts
                &&& d.libraries() == match cli.libraries {
                    Some(l) => library_list(l@),
                    None => c.libraries(),
                }
                &&& d.benchmark == (match cli.iterations {
                    Some(n) => crate::config::BenchmarkConfig { iterations: n, ..c.benchmark },
                    None => c.benchmark,
                })
                &&& d.precision == (match cli.iterations {
                    Some(n) => crate::config::PrecisionConfig { accumulation_iterations: n, ..c.precision },
                    None => c.precision,
                })
                &&& d.memory == c.memory
                &&& d.safety == c.safety
                &&& d.validation == c.validation
                &&& d.profiling == c.profiling
                &&& d.error_analysis == c.error_analysis
            }),
    {
        if cli.verbose {
            config.output.verbose = true;
        }
        match cli.iterations {
            Some(iterations) => config.update_iterations(iterations),
            None => {},
        }
        match &cli.output {
            Some(output) => config.output.output_directory = output.clone(),
            None => {},
        }
        match cli.format {
            Some(format) => config.output.output_format = OutputFormat::from(format),
            None => {},
        }
        match &cli.libraries {
            Some(libraries) => config.enabled_libraries = parse_library_list(libraries.as_str()),
            None => {},
        }
    }

    /// Applies the options in order: verbosity, iteration count, output
    /// directory, output format, library list, then fast mode and finally
    /// thorough mode, so that a later option wins over an earlier one.
    pub fn apply_cli_overrides(config: &mut ArithmeticConfig, cli: &CliOverrides)
        ensures
            ({
                let c = *old(config);
                let d = *final(config);
                let iters = match cli.iterations {
                    Some(n) => n,
                    None => c.benchmark.iterations,
                };
                let acc = match cli.iterations {
                    Some(n) => n,
                    None => c.precision.accumulation_iterations,
                };
                &&& d.output.verbose == (c.output.verbose || cli.verbose)
                &&& d.output.output_directory@ == match cli.output {
                    Some(o) => o@,
                    None => c.output.output_directory@,
                }
                &&& d.output.output_format == match cli.format {
                    Some(f) => output_format_of(f),
                    None => c.output.output_format,
                }
                &&& d.output.save_results == c.output.save_results
                &&& d.output.include_charts == c.output.include_charts
                &&& d.libraries() == match cli.libraries {
                    Some(l) => library_list(l@),
                    None => c.libraries(),
                }
                &&& d.benchmark.iterations == if cli.thorough {
                    100000
                } else if cli.fast {
                    1000
                } else {
                    iters
                }
                &&& d.precision.accumulation_iterations == if cli.thorough {
                    100000
                } else if cli.fast {
                    1000
                } else {
                    acc
                }
                &&& d.benchmark.warmup_iterations == if cli.thorough {
                    1000
                } else if cli.fast {
                    10
                } else {
                    c.benchmark.warmup_iterations
                }
                &&& d.benchmark.measurement_time_secs == if cli.thorough {
                    10
                } else if cli.fast {
                    1
                } else {
                    c.benchmark.measurement_time_secs
                }
                &&& d.benchmark.sample_size == c.benchmark.sample_size
                &&& d.memory.large_dataset_size == if cli.thorough {
                    1000000
                } else if cli.fast {
                    10000
                } else {
                    c.memory.large_dataset_size
                }
                &&& d.memory.test_large_datasets == (c.memory.test_large_datasets && !cli.fast)
                &&& d.profiling.memory_intensive == if cli.thorough {
                    true
                } else {
                    c.profiling.memory_intensive && !cli.fast
                }
                &&& cli.thorough ==> all_analysis_enabled(d)
                &&& !cli.thorough ==> {
                    &&& d.precision.test_accumulation_errors == c.precision.test_accumulation_errors
                    &&& d.precision.test_small_numbers == c.precision.test_small_numbers
                    &&& d.memory.analyze_footprint == c.memory.analyze_footprint
                    &&& d.memory.analyze_allocation_patterns == c.memory.analyze_allocation_patterns
                    &&& d.safety == c.safety
                    &&& d.validation == c.validation
                    &&& d.profiling.basic_operations == c.profiling.basic_operations
                    &&& d.profiling.complex_operations == c.profiling.complex_operations
                    &&& d.error_analysis == c.error_analysis
                }
                &&& d.precision.small_number_threshold_bits == c.precision.small_number_threshold_bits
                &&& d.safety.overflow_threshold_bits == c.safety.overflow_threshold_bits
                &&& d.validation.conversion_accuracy == c.validation.conversion_accuracy
                &&& d.profiling.performance_trends == c.profiling.performance_trends
                &&& d.profiling.allocation_benchmarks == c.profiling.allocation_benchmarks
                &&& d.error_analysis.associativity_violations == c.error_analysis.associativity_violations
                &&& d.error_analysis.library_accuracy_comparison
                    == c.error_analysis.library_accuracy_comparison
            }),
    {
        Self::apply_settings(config, cli);
        if cli.fast {
            config.set_fast_mode();
        }
        if cli.thorough {
            config.set_thorough_mode();
        }
    }
}

} // verus!
