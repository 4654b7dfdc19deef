//! Classification of benchmark names by the numeric library they exercise.
//! Drawing charts and writing report files is left to the program.

use vstd::prelude::*;

use crate::text::{contains_str, str_contains};

verus! {

/// The library a benchmark name refers to, by the first of these that the
/// name contains: `f64`; `decimal` but not `bigdecimal`; `bigdecimal`;
/// `fixed`; `half`; otherwise `other`.
pub open spec fn library_type_of(op: Seq<char>) -> Seq<char> {
    if contains_str(op, "f64"@) {
        "f64"@
    } else if contains_str(op, "decimal"@) && !contains_str(op, "bigdecimal"@) {
        "rust_decimal"@
    } else if contains_str(op, "bigdecimal"@) {
        "bigdecimal"@
    } else if contains_str(op, "fixed"@) {
        "fixed"@
    } else if contains_str(op, "half"@) {
        "half"@
    } else {
        "other"@
    }
}

/// The chart group of a benchmark name. Unlike `library_type_of`, any name
/// containing `decimal` (so also every `bigdecimal` name) falls in the
/// `rust_decimal` group.
pub open spec fn chart_group_of(op: Seq<char>) -> Seq<char> {
    if contains_str(op, "f64"@) {
        "f64 (native)"@
    } else if contains_str(op, "decimal"@) {
        "rust_decimal"@
    } else if contains_str(op, "bigdecimal"@) {
        "bigdecimal"@
    } else if contains_str(op, "fixed"@) {
        "fixed-point"@
    } else if contains_str(op, "half"@) {
        "half-precision"@
    } else {
        "other"@
    }
}

/// A `bigdecimal` benchmark (that is not an `f64` one) is classified as
/// `bigdecimal`, while the chart groups count it under `rust_decimal`, since
/// every name that contains `bigdecimal` contains `decimal`.
pub proof fn lemma_bigdecimal_names(op: Seq<char>)
    requires
        contains_str(op, "bigdecimal"@),
        !contains_str(op, "f64"@),
    ensures
        library_type_of(op) == "bigdecimal"@,
        chart_group_of(op) == "rust_decimal"@,
{
    reveal_strlit("bigdecimal");
    reveal_strlit("decimal");
    let at = choose|at: int| crate::text::occurs_at(op, "bigdecimal"@, at);
    assert(op.subrange(at + 3, at + 10) =~= "decimal"@) by {
        assert forall|q: int| 0 <= q < 7 implies op.subrange(at + 3, at + 10)[q] == "decimal"@[q] by {
            assert(op.subrange(at, at + 10)[q + 3] == "bigdecimal"@[q + 3]);
        }
    }
    assert(crate::text::occurs_at(op, "decimal"@, at + 3));
}

/// Every name that contains `bigdecimal` contains `decimal`.
proof fn lemma_bigdecimal_contains_decimal(op: Seq<char>)
    requires
        contains_str(op, "bigdecimal"@),
    ensures
        contains_str(op, "decimal"@),
{
    reveal_strlit("bigdecimal");
    reveal_strlit("decimal");
    let at = choose|at: int| crate::text::occurs_at(op, "bigdecimal"@, at);
    assert(op.subrange(at + 3, at + 10) =~= "decimal"@) by {
        assert forall|q: int| 0 <= q < 7 implies op.subrange(at + 3, at + 10)[q] == "decimal"@[q] by {
            assert(op.subrange(at, at + 10)[q + 3] == "bigdecimal"@[q + 3]);
        }
    }
    assert(crate::text::occurs_at(op, "decimal"@, at + 3));
}

/// Each label is given for what the name contains: `f64` exactly to names
/// containing `f64`; `rust_decimal` exactly to the other names containing
/// `decimal` but not `bigdecimal`; `bigdecimal`, `fixed` and `half` only to
/// names containing that word; and `other` exactly to names containing none
/// of `f64`, `decimal`, `fixed` and `half`.
pub proof fn lemma_library_type_keywords(op: Seq<char>)
    ensures
        library_type_of(op) == "f64"@ <==> contains_str(op, "f64"@),
        library_type_of(op) == "rust_decimal"@ <==> (!contains_str(op, "f64"@) && contains_str(op, "decimal"@)
            && !contains_str(op, "bigdecimal"@)),
        library_type_of(op) == "bigdecimal"@ ==> contains_str(op, "bigdecimal"@),
        library_type_of(op) == "fixed"@ ==> contains_str(op, "fixed"@),
        library_type_of(op) == "half"@ ==> contains_str(op, "half"@),
        library_type_of(op) == "other"@ <==> (!contains_str(op, "f64"@) && !contains_str(op, "decimal"@)
            && !contains_str(op, "fixed"@) && !contains_str(op, "half"@)),
{
    reveal_strlit("f64");
    reveal_strlit("rust_decimal");
    reveal_strlit("bigdecimal");
    reveal_strlit("fixed");
    reveal_strlit("half");
    reveal_strlit("other");
    let labels = seq!["f64"@, "rust_decimal"@, "bigdecimal"@, "fixed"@, "half"@, "other"@];
    assert forall|i: int, j: int| 0 <= i < j < 6 implies labels[i] != labels[j] by {
        if labels[i].len() == labels[j].len() {
            assert(labels[i][0] != labels[j][0]);
        }
    }
    assert(labels[0] == "f64"@ && labels[1] == "rust_decimal"@ && labels[2] == "bigdecimal"@);
    assert(labels[3] == "fixed"@ && labels[4] == "half"@ && labels[5] == "other"@);
    if contains_str(op, "bigdecimal"@) {
        lemma_bigdecimal_contains_decimal(op);
    }
}

/// Every benchmark name gets one of six library labels.
pub proof fn lemma_library_type_labels(op: Seq<char>)
    ensures
        ({
            let t = library_type_of(op);
            t == "f64"@ || t == "rust_decimal"@ || t == "bigdecimal"@ || t == "fixed"@ || t == "half"@ || t == "other"@
        }),
{
}

/// Generates views of benchmark results.
pub struct VisualizationGenerator;

impl VisualizationGenerator {
    /// The library that a benchmark name refers to.
    pub fn determine_library_type(operation: &str) -> (r: &'static str)
        ensures
            r@ == library_type_of(operation@),
    {
        if str_contains(operation, "f64") {
            "f64"
        } else if str_contains(operation, "decimal") && !str_contains(operation, "bigdecimal") {
            "rust_decimal"
        } else if str_contains(operation, "bigdecimal") {
            "bigdecimal"
        } else if str_contains(operation, "fixed") {
            "fixed"
        } else if str_contains(operation, "half") {
            "half"
        } else {
            "other"
        }
    }

    /// The chart group that a benchmark name is summed into.
    pub fn library_group(operation: &str) -> (r: &'static str)
        ensures
            r@ == chart_group_of(operation@),
    {
        if str_contains(operation, "f64") {
            "f64 (native)"
        } else if str_contains(operation, "decimal") {
            "rust_decimal"
        } else if str_contains(operation, "bigdecimal") {
            "bigdecimal"
        } else if str_contains(operation, "fixed") {
            "fixed-point"
        } else if str_contains(operation, "half") {
            "half-precision"
        } else {
            "other"
        }
    }
}

} // verus!
