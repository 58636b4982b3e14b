//! Measured values.
//!
//! A metric is a double precision number. It is kept as the bits of its IEEE 754 form, by which it
//! is ordered, and as the text that shows it with four decimals.
use crate::text;
use vstd::prelude::*;
use vstd::string::*;

verus! {

/// A measured value.
#[derive(Debug, PartialEq, Eq)]
pub struct Metric {
    /// The IEEE 754 bits of the number.
    pub bits: u64,
    /// The number with four decimals.
    pub text: String,
}

/// The sign bit of a double precision number.
pub const SIGN: u64 = 0x8000_0000_0000_0000;

/// The bits of positive infinity; a larger magnitude is no number.
pub const INFINITY: u64 = 0x7ff0_0000_0000_0000;

/// The bits without the sign.
pub open spec fn magnitude(bits: u64) -> int {
    if bits >= SIGN {
        bits - SIGN
    } else {
        bits as int
    }
}

/// The bits of something that is not a number.
pub open spec fn not_a_number(bits: u64) -> bool {
    magnitude(bits) > INFINITY
}

/// Where a number stands in the order of numbers; both zeros have rank zero.
pub open spec fn rank(bits: u64) -> int {
    if bits >= SIGN {
        -magnitude(bits)
    } else {
        magnitude(bits)
    }
}

/// `a` is a smaller number than `b`. What is not a number is smaller than nothing, and nothing
/// is smaller than it.
pub open spec fn less(a: u64, b: u64) -> bool {
    !not_a_number(a) && !not_a_number(b) && rank(a) < rank(b)
}

/// `a` is a number no larger than the number `b`.
pub open spec fn at_most(a: u64, b: u64) -> bool {
    !not_a_number(a) && !not_a_number(b) && rank(a) <= rank(b)
}

/// A character of which shown numbers are made: digits, point and minus sign, and the letters of
/// `inf` and `NaN`.
pub open spec fn is_number_char(c: char) -> bool {
    ('0' <= c <= '9') || c == '.' || c == '-' || c == 'i' || c == 'n' || c == 'f' || c == 'N' || c
        == 'a'
}

/// A text that shows a number.
pub open spec fn shows_number(s: Seq<char>) -> bool {
    s.len() > 0 && forall|i: int| 0 <= i < s.len() ==> is_number_char(#[trigger] s[i])
}

/// The contents of a metric.
pub struct MetricView {
    pub bits: u64,
    pub text: Seq<char>,
}

impl View for Metric {
    type V = MetricView;

    open spec fn view(&self) -> MetricView {
        MetricView { bits: self.bits, text: self.text@ }
    }
}

impl Clone for Metric {
    fn clone(&self) -> (r: Self)
        ensures
            r == *self,
    {
        Metric { bits: self.bits, text: self.text.clone() }
    }
}

/// Whether the bits are those of no number.
pub fn is_nan(bits: u64) -> (r: bool)
    ensures
        r == not_a_number(bits),
{
    let size: u64 = if bits >= SIGN {
        bits - SIGN
    } else {
        bits
    };
    size > INFINITY
}

/// Whether `a` is a smaller number than `b`.
pub fn is_less(a: u64, b: u64) -> (r: bool)
    ensures
        r == less(a, b),
{
    if is_nan(a) || is_nan(b) {
        return false;
    }
    if a >= SIGN {
        if b >= SIGN {
            a > b
        } else {
            a > SIGN || b > 0
        }
    } else {
        b < SIGN && a < b
    }
}

/// Whether `a` is a number no larger than the number `b`.
pub fn is_at_most(a: u64, b: u64) -> (r: bool)
    ensures
        r == at_most(a, b),
{
    !is_nan(a) && !is_nan(b) && !is_less(b, a)
}

/// Numbers are totally ordered: of two different ranks one is less.
pub proof fn numbers_are_totally_ordered(a: u64, b: u64)
    requires
        !not_a_number(a),
        !not_a_number(b),
    ensures
        less(a, b) || less(b, a) || rank(a) == rank(b),
        !(less(a, b) && less(b, a)),
{
}

/// The end of the run of digits at `i`.
pub open spec fn digits_end(s: Seq<char>, i: int) -> int
    decreases s.len() - i,
{
    if 0 <= i < s.len() && text::is_digit(s[i]) {
        digits_end(s, i + 1)
    } else {
        i
    }
}

/// What may follow the digits of a number: nothing, or `e`, a sign where there is one, and at
/// least one digit.
pub open spec fn exponent_at(s: Seq<char>, i: int) -> bool {
    if i == s.len() {
        true
    } else {
        let sign = i + 1 < s.len() && (s[i + 1] == '+' || s[i + 1] == '-');
        let from = if sign {
            i + 2
        } else {
            i + 1
        };
        s[i] == 'e' && digits_end(s, from) > from && digits_end(s, from) == s.len()
    }
}

/// Digits with at most one point among them, and an exponent where there is one.
pub open spec fn decimal_literal(s: Seq<char>) -> bool {
    let whole = digits_end(s, 0);
    if whole < s.len() && s[whole] == '.' {
        let end = digits_end(s, whole + 1);
        whole + (end - whole - 1) > 0 && exponent_at(s, end)
    } else {
        whole > 0 && exponent_at(s, whole)
    }
}

/// A text that reads as a double precision number, in the form that the language documents: a sign
/// where there is one, and a decimal number, `inf`, `infinity` or `nan`, in letters of either case.
pub open spec fn number_literal(s: Seq<char>) -> bool {
    let low = text::lower(s);
    let t = if low.len() > 0 && (low[0] == '+' || low[0] == '-') {
        low.drop_first()
    } else {
        low
    };
    t == "inf"@ || t == "infinity"@ || t == "nan"@ || decimal_literal(t)
}

fn run_of_digits(v: &Vec<char>, i: usize) -> (r: usize)
    requires
        i <= v.len(),
    ensures
        r == digits_end(v@, i as int),
        i <= r <= v.len(),
{
    let mut k: usize = i;
    while k < v.len() && v[k] >= '0' && v[k] <= '9'
        invariant
            i <= k <= v.len(),
            digits_end(v@, i as int) == digits_end(v@, k as int),
        decreases v.len() - k,
    {
        k = k + 1;
    }
    k
}

fn is_exponent(v: &Vec<char>, i: usize) -> (r: bool)
    requires
        i <= v.len(),
    ensures
        r == exponent_at(v@, i as int),
{
    if i == v.len() {
        return true;
    }
    if v[i] != 'e' {
        return false;
    }
    let sign = i + 1 < v.len() && (v[i + 1] == '+' || v[i + 1] == '-');
    let from: usize = if sign {
        i + 2
    } else {
        i + 1
    };
    let end: usize = run_of_digits(v, from);
    end > from && end == v.len()
}

/// Whether a text reads as a double precision number.
pub fn is_number_literal(s: &str) -> (r: bool)
    ensures
        r == number_literal(s@),
{
    let low = text::to_ascii_lowercase(s);
    let n: usize = low.as_str().unicode_len();
    let signed = n > 0 && (low.as_str().get_char(0) == '+' || low.as_str().get_char(0) == '-');
    let t = if signed {
        low.as_str().substring_char(1, n)
    } else {
        low.as_str().substring_char(0, n)
    };
    proof {
        assert(low@.subrange(0, n as int) =~= low@);
        if signed {
            assert(low@.subrange(1, n as int) =~= low@.drop_first());
        }
    }
    if text::same(t, "inf") || text::same(t, "infinity") || text::same(t, "nan") {
        return true;
    }
    let v: Vec<char> = text::chars_of(t);
    let whole: usize = run_of_digits(&v, 0);
    if whole < v.len() && v[whole] == '.' {
        let end: usize = run_of_digits(&v, whole + 1);
        end - 1 > 0 && is_exponent(&v, end)
    } else {
        whole > 0 && is_exponent(&v, whole)
    }
}

} // verus!
