//! The decimal side of the error analyses: the `Decimal` results that the
//! floating-point results are measured against. The floating-point
//! arithmetic itself, and the errors computed from it, are left to the
//! program.

use vstd::prelude::*;

use crate::decimal::{
    aligned, decimal_difference, decimal_quotient, evaluate_values_text, exact_case, exact_value,
    lemma_canonical_text, max_scale, parse_decimal, parsed_decimal, read_at, result_text, text_view,
    DecimalOp, DecimalValue,
};
use crate::text::{
    all_digits, digits_value, lemma_digits_value_concat, lemma_zero_pad_value, point_at, pow10, zero_pad,
};

verus! {

pub struct AdvancedErrorAnalyzer;

impl AdvancedErrorAnalyzer {
    /// `Decimal::ONE / Decimal::from(3)` written out.
    pub fn decimal_one_third_text() -> (r: Option<String>)
        ensures
            text_view(r) == result_text(
                decimal_quotient(DecimalValue { mantissa: 1, scale: 0 }, DecimalValue { mantissa: 3, scale: 0 }),
            ),
    {
        evaluate_values_text(DecimalOp::Div, DecimalValue::one(), DecimalValue::from_int(3))
    }

    /// `1.000000000000001 - 1` computed with `Decimal` and written out. No
    /// digit is lost to cancellation: the text is `0.000000000000001`.
    pub fn decimal_cancellation_text() -> (r: Option<String>)
        ensures
            text_view(r) == match parsed_decimal("1.000000000000001"@) {
                Some(a) => result_text(decimal_difference(a, DecimalValue { mantissa: 1, scale: 0 })),
                None => None,
            },
            text_view(r) == Some("0.000000000000001"@),
    {
        proof {
            reveal_strlit("1.000000000000001");
            reveal_strlit("0.000000000000001");
            let s = "1.000000000000001"@;
            let t = "0.000000000000001"@;
            let tail = Seq::new(14, |i: int| '0') + seq!['1'];
            assert(zero_pad(seq!['1'], 15) == tail);
            lemma_zero_pad_value(seq!['1'], 15);
            assert(digits_value(seq!['1'].drop_last()) == 0);
            assert(digits_value(seq!['1']) == 1);
            assert(digits_value(seq!['0'].drop_last()) == 0);
            assert(digits_value(seq!['0']) == 0);
            assert(all_digits(tail));
            assert(s.subrange(0, 1) =~= seq!['1']);
            assert(s.subrange(2, 17) =~= tail);
            assert(t.subrange(0, 1) =~= seq!['0']);
            assert(t.subrange(2, 17) =~= tail);
            assert(point_at(s, 1));
            assert(point_at(t, 1));
            lemma_digits_value_concat(seq!['1'], tail);
            lemma_digits_value_concat(seq!['0'], tail);
            assert(pow10(15) == 1000000000000000nat) by {
                reveal_with_fuel(pow10, 16);
            }
            assert(pow10(0) == 1);
            assert(read_at(s, 1) == DecimalValue { mantissa: 1000000000000001, scale: 15 });
            assert(read_at(t, 1) == DecimalValue { mantissa: 1, scale: 15 });
            lemma_canonical_text(t, 1);
            let a = DecimalValue { mantissa: 1000000000000001, scale: 15 };
            let b = DecimalValue { mantissa: 1, scale: 0 };
            assert(max_scale(a, b) == 15);
            assert(pow10((max_scale(a, b) - a.scale) as nat) == 1);
            assert(a.mantissa * 1 == 1000000000000001);
            assert(aligned(a, max_scale(a, b)) == 1000000000000001);
            assert(pow10((max_scale(a, b) - b.scale) as nat) == 1000000000000000nat);
            assert(aligned(b, max_scale(a, b)) == 1000000000000000);
            assert(exact_case(DecimalOp::Sub, a, b));
            assert(exact_value(DecimalOp::Sub, a, b) == read_at(t, 1));
        }
        match parse_decimal("1.000000000000001") {
            Some(a) => evaluate_values_text(DecimalOp::Sub, a, DecimalValue::one()),
            None => None,
        }
    }
}

} // verus!
