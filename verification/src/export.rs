//! The library profiles and the summary of a benchmark run. Scoring with
//! floating-point numbers and writing files is left to the program.

use vstd::prelude::*;

use crate::config::names_of;
use crate::text::{contains_str, owned, str_contains, str_eq};
use crate::validation::{passed_count, ValidationResult, ValidationSuite};

verus! {

/// The summary of a benchmark run.
#[derive(Debug, Clone)]
pub struct ResultSummary {
    pub total_tests_run: usize,
    pub tests_passed: usize,
    pub tests_failed: usize,
    pub fastest_library: String,
    pub most_precise_library: String,
    pub most_memory_efficient: String,
    pub safest_library: String,
    pub overall_recommendation: String,
    pub key_findings: Vec<String>,
}

/// How many of the results name `library` in their test name, and how many
/// of those passed.
pub open spec fn library_validation_counts(results: Seq<ValidationResult>, library: Seq<char>) -> (nat, nat)
    decreases results.len(),
{
    if results.len() == 0 {
        (0, 0)
    } else {
        let (m, p) = library_validation_counts(results.drop_last(), library);
        let r = results.last();
        if contains_str(r.test_name@, library) {
            (m + 1, p + if r.passed { 1nat } else { 0nat })
        } else {
            (m, p)
        }
    }
}

proof fn lemma_library_validation_counts_le(results: Seq<ValidationResult>, library: Seq<char>)
    ensures
        library_validation_counts(results, library).1 <= library_validation_counts(results, library).0,
        library_validation_counts(results, library).0 <= results.len(),
    decreases results.len(),
{
    if results.len() > 0 {
        lemma_library_validation_counts_le(results.drop_last(), library);
    }
}

/// The four findings of a summary, naming the fastest, the most precise and
/// the most memory-efficient library.
pub open spec fn key_findings_of(fastest: Seq<char>, precise: Seq<char>, memory: Seq<char>) -> Seq<Seq<char>> {
    seq![
        "Performance varies significantly across libraries, with "@ + fastest + " leading"@,
        precise + " provides the best precision for exact calculations"@,
        memory + " offers the best memory efficiency"@,
        "Choice of library should depend on specific use case requirements"@,
    ]
}

/// One finding as an HTML block.
pub open spec fn finding_html(f: Seq<char>) -> Seq<char> {
    "<div class=\"finding\">"@ + f + "</div>"@
}

/// The findings as HTML blocks, one per line.
pub open spec fn findings_html(fs: Seq<Seq<char>>) -> Seq<char>
    decreases fs.len(),
{
    if fs.len() == 0 {
        Seq::empty()
    } else if fs.len() == 1 {
        finding_html(fs[0])
    } else {
        findings_html(fs.drop_last()) + "\n"@ + finding_html(fs.last())
    }
}

/// What each library is good at.
pub open spec fn strengths_of(lib: Seq<char>) -> Seq<Seq<char>> {
    if lib == "f64"@ {
        seq!["Fastest performance"@, "Hardware optimized"@]
    } else if lib == "rust_decimal"@ {
        seq!["Exact decimal arithmetic"@, "Good performance"@]
    } else if lib == "bigdecimal"@ {
        seq!["Arbitrary precision"@, "Maximum accuracy"@]
    } else if lib == "d128"@ {
        seq!["IEEE standard"@, "High precision"@]
    } else if lib == "fixed"@ {
        seq!["Deterministic performance"@, "Memory efficient"@]
    } else if lib == "half"@ {
        seq!["Minimal memory usage"@, "Good for ML"@]
    } else {
        seq!["General purpose"@]
    }
}

/// What each library is bad at.
pub open spec fn weaknesses_of(lib: Seq<char>) -> Seq<Seq<char>> {
    if lib == "f64"@ {
        seq!["Floating-point precision issues"@, "Rounding errors"@]
    } else if lib == "rust_decimal"@ {
        seq!["Limited to 28 digits"@, "Slower than f64"@]
    } else if lib == "bigdecimal"@ {
        seq!["Slowest performance"@, "High memory usage"@]
    } else if lib == "d128"@ {
        seq!["Moderate performance"@, "Limited adoption"@]
    } else if lib == "fixed"@ {
        seq!["Limited precision range"@, "Configuration complexity"@]
    } else if lib == "half"@ {
        seq!["Very limited precision"@, "Not suitable for precision work"@]
    } else {
        seq!["Unspecified limitations"@]
    }
}

/// What each library is recommended for.
pub open spec fn use_cases_of(lib: Seq<char>) -> Seq<Seq<char>> {
    if lib == "f64"@ {
        seq!["General computing"@, "Scientific calculations"@]
    } else if lib == "rust_decimal"@ {
        seq!["Financial calculations"@, "Exact decimal arithmetic"@]
    } else if lib == "bigdecimal"@ {
        seq!["High-precision mathematics"@, "Critical calculations"@]
    } else if lib == "d128"@ {
        seq!["Scientific computing"@, "Standards compliance"@]
    } else if lib == "fixed"@ {
        seq!["Embedded systems"@, "Real-time applications"@]
    } else if lib == "half"@ {
        seq!["Machine learning"@, "Memory-constrained applications"@]
    } else {
        seq!["General purpose"@]
    }
}

/// One of the six libraries that the profiles describe.
pub open spec fn profiled_library(lib: Seq<char>) -> bool {
    lib == "f64"@ || lib == "rust_decimal"@ || lib == "bigdecimal"@ || lib == "d128"@ || lib == "fixed"@
        || lib == "half"@
}

/// Each of the six profiled libraries has two strengths, two weaknesses and
/// two use cases of its own; exactly the other names get the generic
/// profile (`General purpose`, `Unspecified limitations`).
pub proof fn lemma_profiles_cover_known_libraries(lib: Seq<char>)
    ensures
        profiled_library(lib) <==> use_cases_of(lib) != seq!["General purpose"@],
        profiled_library(lib) <==> strengths_of(lib) != seq!["General purpose"@],
        profiled_library(lib) <==> weaknesses_of(lib) != seq!["Unspecified limitations"@],
        profiled_library(lib) ==> use_cases_of(lib).len() == 2 && strengths_of(lib).len() == 2
            && weaknesses_of(lib).len() == 2,
{
    if profiled_library(lib) {
        assert(use_cases_of(lib).len() == 2);
        assert(strengths_of(lib).len() == 2);
        assert(weaknesses_of(lib).len() == 2);
    }
}

/// Two different profiled libraries are recommended for different use cases
/// and have different strengths.
pub proof fn lemma_profiles_distinguish_libraries(a: Seq<char>, b: Seq<char>)
    requires
        profiled_library(a),
        profiled_library(b),
        a != b,
    ensures
        use_cases_of(a) != use_cases_of(b),
        strengths_of(a) != strengths_of(b),
{
    reveal_strlit("General computing");
    reveal_strlit("Financial calculations");
    reveal_strlit("High-precision mathematics");
    reveal_strlit("Scientific computing");
    reveal_strlit("Embedded systems");
    reveal_strlit("Machine learning");
    reveal_strlit("Fastest performance");
    reveal_strlit("Exact decimal arithmetic");
    reveal_strlit("Arbitrary precision");
    reveal_strlit("IEEE standard");
    reveal_strlit("Deterministic performance");
    reveal_strlit("Minimal memory usage");
    assert(use_cases_of(a)[0][0] != use_cases_of(b)[0][0]);
    assert(strengths_of(a)[0][0] != strengths_of(b)[0][0]);
}

/// A list of two owned strings.
fn two(a: &str, b: &str) -> (r: Vec<String>)
    ensures
        names_of(r@) == seq![a@, b@],
{
    let mut v: Vec<String> = Vec::new();
    v.push(owned(a));
    v.push(owned(b));
    assert(names_of(v@) =~= seq![a@, b@]);
    v
}

/// A list of one owned string.
fn one(a: &str) -> (r: Vec<String>)
    ensures
        names_of(r@) == seq![a@],
{
    let mut v: Vec<String> = Vec::new();
    v.push(owned(a));
    assert(names_of(v@) =~= seq![a@]);
    v
}

/// Builds reports of benchmark results.
pub struct ResultExporter;

impl ResultExporter {
    /// The findings as HTML blocks, one per line.
    pub fn generate_findings_html(findings: &[String]) -> (r: String)
        ensures
            r@ == findings_html(names_of(findings@)),
    {
        let mut html = String::new();
        let n = findings.len();
        let mut i: usize = 0;
        while i < n
            invariant
                n == findings@.len(),
                i <= n,
                html@ == findings_html(names_of(findings@.subrange(0, i as int))),
            decreases n - i,
        {
            let ghost pre = names_of(findings@.subrange(0, i as int));
            let ghost next = names_of(findings@.subrange(0, i + 1));
            proof {
                assert(next.drop_last() =~= pre);
                assert(next.last() == findings@[i as int]@);
            }
            if i > 0 {
                html.append("\n");
            }
            html.append("<div class=\"finding\">");
            html.append(findings[i].as_str());
            html.append("</div>");
            proof {
                if i == 0 {
                    assert(html@ =~= finding_html(next[0]));
                } else {
                    assert(html@ =~= findings_html(pre) + "\n"@ + finding_html(next.last()));
                }
            }
            i = i + 1;
        }
        proof {
            assert(findings@.subrange(0, n as int) =~= findings@);
        }
        html
    }

    pub fn identify_strengths(library: &str) -> (r: Vec<String>)
        ensures
            names_of(r@) == strengths_of(library@),
    {
        if str_eq(library, "f64") {
            two("Fastest performance", "Hardware optimized")
        } else if str_eq(library, "rust_decimal") {
            two("Exact decimal arithmetic", "Good performance")
        } else if str_eq(library, "bigdecimal") {
            two("Arbitrary precision", "Maximum accuracy")
        } else if str_eq(library, "d128") {
            two("IEEE standard", "High precision")
        } else if str_eq(library, "fixed") {
            two("Deterministic performance", "Memory efficient")
        } else if str_eq(library, "half") {
            two("Minimal memory usage", "Good for ML")
        } else {
            one("General purpose")
        }
    }

    pub fn identify_weaknesses(library: &str) -> (r: Vec<String>)
        ensures
            names_of(r@) == weaknesses_of(library@),
    {
        if str_eq(library, "f64") {
            two("Floating-point precision issues", "Rounding errors")
        } else if str_eq(library, "rust_decimal") {
            two("Limited to 28 digits", "Slower than f64")
        } else if str_eq(library, "bigdecimal") {
            two("Slowest performance", "High memory usage")
        } else if str_eq(library, "d128") {
            two("Moderate performance", "Limited adoption")
        } else if str_eq(library, "fixed") {
            two("Limited precision range", "Configuration complexity")
        } else if str_eq(library, "half") {
            two("Very limited precision", "Not suitable for precision work")
        } else {
            one("Unspecified limitations")
        }
    }

    pub fn recommend_use_cases(library: &str) -> (r: Vec<String>)
        ensures
            names_of(r@) == use_cases_of(library@),
    {
        if str_eq(library, "f64") {
            two("General computing", "Scientific calculations")
        } else if str_eq(library, "rust_decimal") {
            two("Financial calculations", "Exact decimal arithmetic")
        } else if str_eq(library, "bigdecimal") {
            two("High-precision mathematics", "Critical calculations")
        } else if str_eq(library, "d128") {
            two("Scientific computing", "Standards compliance")
        } else if str_eq(library, "fixed") {
            two("Embedded systems", "Real-time applications")
        } else if str_eq(library, "half") {
            two("Machine learning", "Memory-constrained applications")
        } else {
            one("General purpose")
        }
    }

    /// How many validation results name `library`, and how many of those
    /// passed: the counts from which the library's precision score is drawn.
    pub fn library_validation_counts(library: &str, validation_results: &[ValidationResult]) -> (r: (
        usize,
        usize,
    ))
        ensures
            r.0 == library_validation_counts(validation_results@, library@).0,
            r.1 == library_validation_counts(validation_results@, library@).1,
    {
        let mut matching: usize = 0;
        let mut passed: usize = 0;
        let mut i: usize = 0;
        while i < validation_results.len()
            invariant
                i <= validation_results@.len(),
                (matching as nat, passed as nat) == library_validation_counts(
                    validation_results@.subrange(0, i as int),
                    library@,
                ),
            decreases validation_results@.len() - i,
        {
            proof {
                assert(validation_results@.subrange(0, i + 1).drop_last() =~= validation_results@.subrange(
                    0,
                    i as int,
                ));
                lemma_library_validation_counts_le(validation_results@.subrange(0, i as int), library@);
            }
            if str_contains(validation_results[i].test_name.as_str(), library) {
                matching = matching + 1;
                if validation_results[i].passed {
                    passed = passed + 1;
                }
            }
            i = i + 1;
        }
        proof {
            assert(validation_results@.subrange(0, i as int) =~= validation_results@);
        }
        (matching, passed)
    }

    /// The summary of a run: the test counts from the validation results,
    /// the leading libraries as chosen by the scores, and the four key
    /// findings naming them.
    pub fn generate_summary(
        validation_results: &[ValidationResult],
        fastest_library: &str,
        most_precise_library: &str,
        most_memory_efficient: &str,
        safest_library: &str,
        overall_recommendation: &str,
    ) -> (r: ResultSummary)
        ensures
            r.total_tests_run == validation_results@.len(),
            r.tests_passed == passed_count(validation_results@),
            r.tests_failed == validation_results@.len() - passed_count(validation_results@),
            r.fastest_library@ == fastest_library@,
            r.most_precise_library@ == most_precise_library@,
            r.most_memory_efficient@ == most_memory_efficient@,
            r.safest_library@ == safest_library@,
            r.overall_recommendation@ == overall_recommendation@,
            names_of(r.key_findings@) == key_findings_of(
                fastest_library@,
                most_precise_library@,
                most_memory_efficient@,
            ),
    {
        let total = validation_results.len();
        let passed = ValidationSuite::count_passed(validation_results);
        let mut f1 = owned("Performance varies significantly across libraries, with ");
        f1.append(fastest_library);
        f1.append(" leading");
        let mut f2 = owned(most_precise_library);
        f2.append(" provides the best precision for exact calculations");
        let mut f3 = owned(most_memory_efficient);
        f3.append(" offers the best memory efficiency");
        let f4 = owned("Choice of library should depend on specific use case requirements");
        let mut key_findings: Vec<String> = Vec::new();
        key_findings.push(f1);
        key_findings.push(f2);
        key_findings.push(f3);
        key_findings.push(f4);
        assert(names_of(key_findings@) =~= key_findings_of(
            fastest_library@,
            most_precise_library@,
            most_memory_efficient@,
        ));
        ResultSummary {
            total_tests_run: total,
            tests_passed: passed,
            tests_failed: total - passed,
            fastest_library: owned(fastest_library),
            most_precise_library: owned(most_precise_library),
            most_memory_efficient: owned(most_memory_efficient),
            safest_library: owned(safest_library),
            overall_recommendation: owned(overall_recommendation),
            key_findings,
        }
    }
}

} // verus!
