//! Recognizer for the token texts that read as floating-point literals.
//!
//! The grammar is the one Rust documents for parsing an `f64` from a string:
//! an optional sign, then either `inf`, `infinity` or `nan` (case-insensitive)
//! or a decimal number — digits with at most one `.` and at least one digit,
//! optionally followed by an exponent `e`/`E`, an optional sign, and digits.
//! The color resolver paints a bare token in the numeric tone exactly when its
//! trimmed text matches this grammar.

use vstd::prelude::*;

verus! {

/// Is `c` a decimal digit?
pub open spec fn is_digit(c: char) -> bool {
    '0' <= c && c <= '9'
}

/// Executable digit test.
pub fn digit_char(c: char) -> (r: bool)
    ensures
        r == is_digit(c),
{
    '0' <= c && c <= '9'
}

/// The sequence with one leading `+` or `-` removed, if present.
pub open spec fn strip_sign(s: Seq<char>) -> Seq<char> {
    if s.len() > 0 && (s[0] == '+' || s[0] == '-') {
        s.drop_first()
    } else {
        s
    }
}

/// One or more digits and nothing else.
pub open spec fn is_count(s: Seq<char>) -> bool {
    s.len() > 0 && forall|i: int| 0 <= i < s.len() ==> is_digit(#[trigger] s[i])
}

/// `inf`, ignoring case.
pub open spec fn is_inf(s: Seq<char>) -> bool {
    s.len() == 3 && (s[0] == 'i' || s[0] == 'I') && (s[1] == 'n' || s[1] == 'N') && (s[2] == 'f'
        || s[2] == 'F')
}

/// `infinity`, ignoring case.
pub open spec fn is_infinity(s: Seq<char>) -> bool {
    s.len() == 8 && (s[0] == 'i' || s[0] == 'I') && (s[1] == 'n' || s[1] == 'N') && (s[2] == 'f'
        || s[2] == 'F') && (s[3] == 'i' || s[3] == 'I') && (s[4] == 'n' || s[4] == 'N') && (s[5]
        == 'i' || s[5] == 'I') && (s[6] == 't' || s[6] == 'T') && (s[7] == 'y' || s[7] == 'Y')
}

/// `nan`, ignoring case.
pub open spec fn is_nan(s: Seq<char>) -> bool {
    s.len() == 3 && (s[0] == 'n' || s[0] == 'N') && (s[1] == 'a' || s[1] == 'A') && (s[2] == 'n'
        || s[2] == 'N')
}

/// Digits with at most one decimal point and at least one digit.
pub open spec fn is_mantissa(s: Seq<char>) -> bool {
    &&& forall|i: int| 0 <= i < s.len() ==> is_digit(#[trigger] s[i]) || s[i] == '.'
    &&& forall|i: int, j: int|
        0 <= i < s.len() && 0 <= j < s.len() && #[trigger] s[i] == '.' && #[trigger] s[j] == '.'
            ==> i == j
    &&& exists|i: int| 0 <= i < s.len() && is_digit(#[trigger] s[i])
}

/// Index of the first `e` or `E` at or after `i`, or `s.len()`.
pub open spec fn first_exp(s: Seq<char>, i: int) -> int
    decreases s.len() - i,
{
    if i < 0 || i >= s.len() {
        s.len() as int
    } else if s[i] == 'e' || s[i] == 'E' {
        i
    } else {
        first_exp(s, i + 1)
    }
}

/// What may follow the exponent marker: an optional sign, then digits.
pub open spec fn is_exp_tail(t: Seq<char>) -> bool {
    is_count(strip_sign(t))
}

/// A decimal number: a mantissa, optionally followed by an exponent part.
pub open spec fn is_number(s: Seq<char>) -> bool {
    let k = first_exp(s, 0);
    is_mantissa(s.take(k)) && (k == s.len() || is_exp_tail(s.skip(k + 1)))
}

/// Does `s` parse as a floating-point literal?
pub open spec fn is_float_literal(s: Seq<char>) -> bool {
    let b = strip_sign(s);
    is_inf(b) || is_infinity(b) || is_nan(b) || is_number(b)
}

/// Check a run of digits in `v[from..to]`, requiring at least one.
fn check_count_range(v: &Vec<char>, from: usize, to: usize) -> (r: bool)
    requires
        from <= to <= v@.len(),
    ensures
        r == is_count(v@.subrange(from as int, to as int)),
{
    if from == to {
        return false;
    }
    let mut i: usize = from;
    while i < to
        invariant
            from <= i <= to <= v@.len(),
            forall|j: int| from <= j < i ==> is_digit(#[trigger] v@[j]),
        decreases to - i,
    {
        if !digit_char(v[i]) {
            proof {
                assert(!is_digit(v@.subrange(from as int, to as int)[i - from]));
            }
            return false;
        }
        i += 1;
    }
    proof {
        assert forall|j: int| 0 <= j < to - from implies is_digit(
            #[trigger] v@.subrange(from as int, to as int)[j],
        ) by {
            assert(v@.subrange(from as int, to as int)[j] == v@[from + j]);
        }
    }
    true
}

/// Check `v[from..to]` against the exponent tail: optional sign, then digits.
fn check_exp_tail_range(v: &Vec<char>, from: usize, to: usize) -> (r: bool)
    requires
        from <= to <= v@.len(),
    ensures
        r == is_exp_tail(v@.subrange(from as int, to as int)),
{
    let ghost t = v@.subrange(from as int, to as int);
    if from < to && (v[from] == '+' || v[from] == '-') {
        proof {
            assert(strip_sign(t) =~= v@.subrange(from as int + 1, to as int));
        }
        check_count_range(v, from + 1, to)
    } else {
        proof {
            assert(strip_sign(t) == t);
        }
        check_count_range(v, from, to)
    }
}

/// Check `v[from..to]` against the mantissa shape.
fn check_mantissa_range(v: &Vec<char>, from: usize, to: usize) -> (r: bool)
    requires
        from <= to <= v@.len(),
    ensures
        r == is_mantissa(v@.subrange(from as int, to as int)),
{
    let ghost t = v@.subrange(from as int, to as int);
    let mut i: usize = from;
    let mut dots: usize = 0;
    let mut digits: usize = 0;
    let ghost mut dot_at: int = -1;
    while i < to
        invariant
            from <= i <= to <= v@.len(),
            t == v@.subrange(from as int, to as int),
            forall|j: int| 0 <= j < i - from ==> is_digit(#[trigger] t[j]) || t[j] == '.',
            dots <= 1,
            dots == 1 <==> (0 <= dot_at < i - from && t[dot_at] == '.'),
            forall|j: int| 0 <= j < i - from && #[trigger] t[j] == '.' ==> j == dot_at,
            digits > 0 <==> exists|j: int| 0 <= j < i - from && is_digit(#[trigger] t[j]),
            digits <= i,
        decreases to - i,
    {
        let c = v[i];
        proof {
            assert(t[i - from] == v@[i as int]);
        }
        if c == '.' {
            if dots == 1 {
                proof {
                    assert(t[dot_at] == '.' && t[i - from] == '.' && dot_at != i - from);
                }
                return false;
            }
            dots = 1;
            proof {
                dot_at = i - from;
            }
        } else if digit_char(c) {
            digits = digits + 1;
        } else {
            proof {
                assert(!(is_digit(t[i - from]) || t[i - from] == '.'));
            }
            return false;
        }
        i += 1;
    }
    digits > 0
}

/// Executable test for `is_float_literal`.
pub fn float_literal_chars(v: &Vec<char>) -> (r: bool)
    ensures
        r == is_float_literal(v@),
{
    let n = v.len();
    let start: usize = if n > 0 && (v[0] == '+' || v[0] == '-') {
        1
    } else {
        0
    };
    let ghost b = strip_sign(v@);
    proof {
        assert(b =~= v@.subrange(start as int, n as int));
    }
    let m = n - start;
    // The three special words, ignoring case.
    if m == 3 && (v[start] == 'i' || v[start] == 'I') && (v[start + 1] == 'n' || v[start + 1]
        == 'N') && (v[start + 2] == 'f' || v[start + 2] == 'F') {
        return true;
    }
    if m == 8 && (v[start] == 'i' || v[start] == 'I') && (v[start + 1] == 'n' || v[start + 1]
        == 'N') && (v[start + 2] == 'f' || v[start + 2] == 'F') && (v[start + 3] == 'i' || v[start
        + 3] == 'I') && (v[start + 4] == 'n' || v[start + 4] == 'N') && (v[start + 5] == 'i'
        || v[start + 5] == 'I') && (v[start + 6] == 't' || v[start + 6] == 'T') && (v[start + 7]
        == 'y' || v[start + 7] == 'Y') {
        return true;
    }
    if m == 3 && (v[start] == 'n' || v[start] == 'N') && (v[start + 1] == 'a' || v[start + 1]
        == 'A') && (v[start + 2] == 'n' || v[start + 2] == 'N') {
        return true;
    }
    proof {
        assert(!is_inf(b) && !is_infinity(b) && !is_nan(b));
    }
    // Find the first exponent marker within the unsigned body.
    let mut k: usize = start;
    while k < n && v[k] != 'e' && v[k] != 'E'
        invariant
            start <= k <= n,
            n == v@.len(),
            b == v@.subrange(start as int, n as int),
            first_exp(b, 0) == first_exp(b, k - start),
        decreases n - k,
    {
        k += 1;
    }
    proof {
        assert(first_exp(b, 0) == k - start);
        assert(b.take(k - start) =~= v@.subrange(start as int, k as int));
    }
    if !check_mantissa_range(v, start, k) {
        return false;
    }
    if k == n {
        return true;
    }
    proof {
        assert(b.skip(k - start + 1) =~= v@.subrange(k as int + 1, n as int));
    }
    check_exp_tail_range(v, k + 1, n)
}

} // verus!
