//! Character-level text helpers shared by the reporting code: decimal
//! rendering of integers, string equality and substring search.

use vstd::prelude::*;

verus! {

/// Appends one character to a string (`String::push`).
#[verifier::external_body]
pub fn push_char(s: &mut String, c: char)
    ensures
        final(s)@ == old(s)@.push(c),
{
    s.push(c);
}

/// The ASCII digit for `d` (which is below ten).
pub open spec fn digit_char(d: nat) -> char {
    ((48 + d) as u32) as char
}

/// The decimal rendering of `v` without leading zeros (`"0"` for zero).
pub open spec fn decimal_digits(v: nat) -> Seq<char>
    decreases v,
{
    if v < 10 {
        seq![digit_char(v)]
    } else {
        decimal_digits(v / 10).push(digit_char(v % 10))
    }
}

/// The number that a sequence of ASCII digits denotes.
pub open spec fn digits_value(s: Seq<char>) -> nat
    decreases s.len(),
{
    if s.len() == 0 {
        0
    } else {
        digits_value(s.drop_last()) * 10 + ((s.last() as u32) - 48) as nat
    }
}

/// Every character of `s` is an ASCII digit.
pub open spec fn all_digits(s: Seq<char>) -> bool {
    forall|i: int| 0 <= i < s.len() ==> 48 <= (#[trigger] s[i] as u32) <= 57
}

/// `s` left-padded with `'0'` to at least `width` characters.
pub open spec fn zero_pad(s: Seq<char>, width: nat) -> Seq<char> {
    if s.len() >= width {
        s
    } else {
        Seq::new((width - s.len()) as nat, |i: int| '0') + s
    }
}

pub proof fn lemma_decimal_digits(v: nat)
    ensures
        decimal_digits(v).len() >= 1,
        all_digits(decimal_digits(v)),
        digits_value(decimal_digits(v)) == v,
        v < 10 ==> decimal_digits(v).len() == 1,
    decreases v,
{
    lemma_digit_char(v % 10);
    let s = decimal_digits(v);
    if v >= 10 {
        lemma_decimal_digits(v / 10);
        assert(s.drop_last() =~= decimal_digits(v / 10));
        assert(s.last() == digit_char(v % 10));
        assert(digits_value(s) == digits_value(decimal_digits(v / 10)) * 10 + v % 10);
    } else {
        assert(s.drop_last() =~= Seq::<char>::empty());
        assert(digits_value(s.drop_last()) == 0);
        assert(digits_value(s) == v);
    }
}

/// The rendering of a value below `10^k` has at most `k` digits (for `k >= 1`).
pub proof fn lemma_decimal_digits_len(v: nat, k: nat)
    requires
        k >= 1,
        v < pow10(k),
    ensures
        decimal_digits(v).len() <= k,
    decreases k,
{
    if v >= 10 {
        lemma_pow10_pos(k);
        assert(k >= 2) by {
            if k == 1 {
                assert(pow10(1) == 10) by {
                    reveal_with_fuel(pow10, 2);
                }
            }
        }
        assert(pow10(k) == 10 * pow10((k - 1) as nat));
        assert(v / 10 < pow10((k - 1) as nat)) by (nonlinear_arith)
            requires
                v < 10 * pow10((k - 1) as nat),
        ;
        lemma_decimal_digits_len(v / 10, (k - 1) as nat);
    }
}

pub proof fn lemma_digit_char(d: nat)
    requires
        d < 10,
    ensures
        digit_char(d) as u32 == 48 + d,
{
    assert(((48 + d) as u32) as char as u32 == 48 + d);
}

/// Ten to the power `k`.
pub open spec fn pow10(k: nat) -> nat
    decreases k,
{
    if k == 0 {
        1
    } else {
        10 * pow10((k - 1) as nat)
    }
}

pub proof fn lemma_pow10_pos(k: nat)
    ensures
        pow10(k) >= 1,
    decreases k,
{
    if k > 0 {
        lemma_pow10_pos((k - 1) as nat);
    }
}

/// Leading zeros do not change the value of a digit string.
pub proof fn lemma_zero_pad_value(s: Seq<char>, width: nat)
    requires
        all_digits(s),
    ensures
        all_digits(zero_pad(s, width)),
        digits_value(zero_pad(s, width)) == digits_value(s),
        zero_pad(s, width).len() == if s.len() >= width { s.len() } else { width },
{
    if s.len() < width {
        let z = Seq::new((width - s.len()) as nat, |i: int| '0');
        lemma_zeros_then_value(z, s);
    }
}

proof fn lemma_zeros_then_value(z: Seq<char>, s: Seq<char>)
    requires
        forall|i: int| 0 <= i < z.len() ==> z[i] == '0',
        all_digits(s),
    ensures
        digits_value(z + s) == digits_value(s),
        all_digits(z + s),
    decreases s.len(),
{
    if s.len() == 0 {
        assert(z + s =~= z);
        lemma_zeros_value(z);
    } else {
        assert((z + s).drop_last() =~= z + s.drop_last());
        lemma_zeros_then_value(z, s.drop_last());
    }
}

proof fn lemma_zeros_value(z: Seq<char>)
    requires
        forall|i: int| 0 <= i < z.len() ==> z[i] == '0',
    ensures
        digits_value(z) == 0,
    decreases z.len(),
{
    if z.len() > 0 {
        lemma_zeros_value(z.drop_last());
    }
}

/// `s` is a run of digits, a point at position `p`, and another run of
/// digits, neither run empty.
pub open spec fn point_at(s: Seq<char>, p: int) -> bool {
    &&& 1 <= p < s.len() - 1
    &&& s[p] == '.'
    &&& all_digits(s.subrange(0, p))
    &&& all_digits(s.subrange(p + 1, s.len() as int))
}

/// The number that the digits of `s` denote when the point at `p` is
/// dropped.
pub open spec fn digits_without_point(s: Seq<char>, p: int) -> nat {
    digits_value(s.subrange(0, p) + s.subrange(p + 1, s.len() as int))
}

/// Reading two runs of digits one after the other.
pub proof fn lemma_digits_value_concat(a: Seq<char>, b: Seq<char>)
    ensures
        digits_value(a + b) == digits_value(a) * pow10(b.len()) + digits_value(b),
    decreases b.len(),
{
    if b.len() == 0 {
        assert(a + b =~= a);
        assert(pow10(0) == 1);
    } else {
        assert((a + b).drop_last() =~= a + b.drop_last());
        assert((a + b).last() == b.last());
        lemma_digits_value_concat(a, b.drop_last());
        let k = b.drop_last().len();
        assert(pow10(k + 1) == 10 * pow10(k));
        assert(digits_value(a) * pow10(k + 1) == digits_value(a) * pow10(k) * 10) by (nonlinear_arith)
            requires
                pow10(k + 1) == 10 * pow10(k),
        ;
    }
}

/// `k` digits denote a number below `10^k`.
pub proof fn lemma_digits_value_bound(s: Seq<char>)
    requires
        all_digits(s),
    ensures
        digits_value(s) < pow10(s.len()),
    decreases s.len(),
{
    if s.len() > 0 {
        lemma_digits_value_bound(s.drop_last());
        assert(48 <= (s[s.len() - 1] as u32) <= 57);
        assert(pow10(s.len()) == 10 * pow10(s.drop_last().len()));
    }
}

/// Powers of ten grow with the exponent, up to `10^28`.
pub proof fn lemma_pow10_le_28(k: nat)
    requires
        k <= 28,
    ensures
        pow10(k) <= pow10(28),
    decreases 28 - k,
{
    if k < 28 {
        lemma_pow10_le_28(k + 1);
        lemma_pow10_pos(k);
    }
}

/// The digits of `v` without leading zeros, and none at all for zero.
pub open spec fn significant_digits(v: nat) -> Seq<char> {
    if v == 0 {
        Seq::empty()
    } else {
        decimal_digits(v)
    }
}

/// The digit that a character with code `48 + d` is.
pub proof fn lemma_digit_char_of_code(c: char, d: nat)
    requires
        d < 10,
        c as u32 == 48 + d,
    ensures
        digit_char(d) == c,
{
    lemma_digit_char(d);
}

/// A run of digits is its number's significant digits padded with zeros to
/// the run's length.
pub proof fn lemma_digits_canonical(t: Seq<char>)
    requires
        all_digits(t),
    ensures
        zero_pad(significant_digits(digits_value(t)), t.len()) == t,
    decreases t.len(),
{
    if t.len() == 0 {
        assert(zero_pad(Seq::<char>::empty(), 0) =~= t);
    } else {
        let u = t.drop_last();
        let c = t.last();
        assert(all_digits(u)) by {
            assert forall|i: int| 0 <= i < u.len() implies 48 <= (#[trigger] u[i] as u32) <= 57 by {
                assert(u[i] == t[i]);
            }
        }
        assert(48 <= (t[t.len() - 1] as u32) <= 57);
        lemma_digits_canonical(u);
        let v0 = digits_value(u);
        let d = ((c as u32) - 48) as nat;
        let v = digits_value(t);
        assert(v == v0 * 10 + d);
        lemma_digit_char_of_code(c, d);
        let n = t.len();
        if v0 == 0 {
            assert(zero_pad(Seq::<char>::empty(), (n - 1) as nat) == u);
            assert forall|i: int| 0 <= i < u.len() implies u[i] == '0' by {
                assert(zero_pad(Seq::<char>::empty(), (n - 1) as nat)[i] == '0');
            }
            if d == 0 {
                assert(v == 0);
                assert(c == digit_char(0));
                lemma_digit_char_of_code('0', 0);
                assert(c == '0');
                let z = zero_pad(Seq::<char>::empty(), n);
                assert(z.len() == n);
                assert forall|i: int| 0 <= i < n implies z[i] == t[i] by {
                    if i < n - 1 {
                        assert(t[i] == u[i]);
                    } else {
                        assert(t[i] == c);
                    }
                }
                assert(z =~= t);
            } else {
                assert(v == d);
                assert(significant_digits(v) == seq![digit_char(d)]);
                let z = zero_pad(seq![digit_char(d)], n);
                assert(z.len() == n);
                assert forall|i: int| 0 <= i < n implies z[i] == t[i] by {
                    if i < n - 1 {
                        assert(t[i] == u[i]);
                    } else {
                        assert(t[i] == c);
                    }
                }
                assert(z =~= t);
            }
        } else {
            assert(v >= 10);
            assert(v / 10 == v0);
            assert(v % 10 == d);
            assert(significant_digits(v) == decimal_digits(v0).push(digit_char(d)));
            assert(significant_digits(v0) == decimal_digits(v0));
            assert(zero_pad(decimal_digits(v0), (n - 1) as nat) == u);
            assert(zero_pad(significant_digits(v), n) =~= zero_pad(decimal_digits(v0), (n - 1) as nat).push(c));
        }
    }
}

/// Renders `v` in decimal.
pub fn u64_to_decimal(v: u64) -> (r: String)
    ensures
        r@ == decimal_digits(v as nat),
    decreases v,
{
    let d = v % 10;
    let c = digit_to_char(d);
    if v < 10 {
        let mut s = String::new();
        push_char(&mut s, c);
        assert(s@ =~= seq![c]);
        s
    } else {
        let mut s = u64_to_decimal(v / 10);
        push_char(&mut s, c);
        s
    }
}

fn digit_to_char(d: u64) -> (c: char)
    requires
        d < 10,
    ensures
        c == digit_char(d as nat),
{
    let code: u32 = (48 + d) as u32;
    proof {
        assert(code == 48 + d);
    }
    char_from_ascii(code)
}

/// The character whose code is `code`, for an ASCII digit code.
fn char_from_ascii(code: u32) -> (c: char)
    requires
        48 <= code <= 57,
    ensures
        c == (code as char),
{
    if code == 48 { '0' }
    else if code == 49 { '1' }
    else if code == 50 { '2' }
    else if code == 51 { '3' }
    else if code == 52 { '4' }
    else if code == 53 { '5' }
    else if code == 54 { '6' }
    else if code == 55 { '7' }
    else if code == 56 { '8' }
    else { '9' }
}

/// Whether `a` and `b` hold the same characters.
pub fn str_eq(a: &str, b: &str) -> (r: bool)
    ensures
        r == (a@ == b@),
{
    let n = a.unicode_len();
    if n != b.unicode_len() {
        return false;
    }
    let mut i: usize = 0;
    while i < n
        invariant
            n == a@.len() == b@.len(),
            i <= n,
            forall|j: int| 0 <= j < i ==> a@[j] == b@[j],
        decreases n - i,
    {
        if a.get_char(i) != b.get_char(i) {
            return false;
        }
        i = i + 1;
    }
    assert(a@ =~= b@);
    true
}

/// `needle` occurs in `hay` starting at position `at`.
pub open spec fn occurs_at(hay: Seq<char>, needle: Seq<char>, at: int) -> bool {
    0 <= at && at + needle.len() <= hay.len() && hay.subrange(at, at + needle.len()) == needle
}

/// `needle` occurs somewhere in `hay` (`str::contains`).
pub open spec fn contains_str(hay: Seq<char>, needle: Seq<char>) -> bool {
    exists|at: int| occurs_at(hay, needle, at)
}

/// Whether `needle` occurs in `hay`.
pub fn str_contains(hay: &str, needle: &str) -> (r: bool)
    ensures
        r == contains_str(hay@, needle@),
{
    let n = hay.unicode_len();
    let m = needle.unicode_len();
    if m > n {
        assert forall|at: int| !occurs_at(hay@, needle@, at) by {}
        return false;
    }
    let mut at: usize = 0;
    while at <= n - m
        invariant
            n == hay@.len(),
            m == needle@.len(),
            m <= n,
            at <= n - m + 1,
            forall|k: int| 0 <= k < at ==> !occurs_at(hay@, needle@, k),
        decreases n - m + 1 - at,
    {
        let mut j: usize = 0;
        let mut matched = true;
        while j < m
            invariant
                n == hay@.len(),
                m == needle@.len(),
                at + m <= n,
                j <= m,
                matched == (forall|q: int| 0 <= q < j ==> hay@[at + q] == needle@[q]),
            decreases m - j,
        {
            if hay.get_char(at + j) != needle.get_char(j) {
                matched = false;
            }
            j = j + 1;
        }
        if matched {
            assert(hay@.subrange(at as int, at + m) =~= needle@);
            assert(occurs_at(hay@, needle@, at as int));
            return true;
        }
        assert(!occurs_at(hay@, needle@, at as int)) by {
            if hay@.subrange(at as int, at + m) == needle@ {
                assert forall|q: int| 0 <= q < m implies hay@[at + q] == needle@[q] by {
                    assert(hay@.subrange(at as int, at + m)[q] == hay@[at + q]);
                }
            }
        }
        at = at + 1;
    }
    assert forall|k: int| !occurs_at(hay@, needle@, k) by {
        if 0 <= k && k < at {
        }
    }
    false
}

/// Copies a string slice into a new `String`.
pub fn owned(s: &str) -> (r: String)
    ensures
        r@ == s@,
{
    s.to_string()
}

} // verus!
