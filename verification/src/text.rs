//! Character-level text utilities: whitespace, trimming, line splitting, and
//! the bracket predicates that drive indentation tracking.

use vstd::prelude::*;
use vstd::string::StrSliceExecFns;

verus! {

/// Whitespace as emitted by JSON pretty-printers: space, tab, and the two
/// line-ending characters.
pub open spec fn is_ws(c: char) -> bool {
    c == ' ' || c == '\t' || c == '\r' || c == '\n'
}

/// Executable whitespace test.
pub fn ws_char(c: char) -> (r: bool)
    ensures
        r == is_ws(c),
{
    c == ' ' || c == '\t' || c == '\r' || c == '\n'
}

/// Index of the first non-whitespace character at or after `i`, or `s.len()`.
pub open spec fn first_non_ws(s: Seq<char>, i: int) -> int
    decreases s.len() - i,
{
    if i < 0 || i >= s.len() {
        s.len() as int
    } else if !is_ws(s[i]) {
        i
    } else {
        first_non_ws(s, i + 1)
    }
}

/// One past the index of the last non-whitespace character strictly before
/// `i`, or 0 when everything before `i` is whitespace.
pub open spec fn last_non_ws(s: Seq<char>, i: int) -> int
    decreases i,
{
    if i <= 0 {
        0
    } else if i > s.len() {
        last_non_ws(s, s.len() as int)
    } else if !is_ws(s[i - 1]) {
        i
    } else {
        last_non_ws(s, i - 1)
    }
}

/// The sequence with leading and trailing whitespace removed.
pub open spec fn spec_trim(s: Seq<char>) -> Seq<char> {
    let a = first_non_ws(s, 0);
    let b = last_non_ws(s, s.len() as int);
    if a < b {
        s.subrange(a, b)
    } else {
        Seq::empty()
    }
}

/// Copy the characters of a string into a vector.
pub fn str_chars(s: &str) -> (r: Vec<char>)
    ensures
        r@ == s@,
{
    let n = s.unicode_len();
    let mut r: Vec<char> = Vec::new();
    let mut i: usize = 0;
    while i < n
        invariant
            n == s@.len(),
            i <= n,
            r@ == s@.take(i as int),
        decreases n - i,
    {
        let c = s.get_char(i);
        r.push(c);
        i += 1;
        proof {
            assert(r@ =~= s@.take(i as int));
        }
    }
    proof {
        assert(s@.take(n as int) =~= s@);
    }
    r
}

/// Trim leading and trailing whitespace from a character vector.
pub fn trim_chars(v: &Vec<char>) -> (r: Vec<char>)
    ensures
        r@ == spec_trim(v@),
{
    let n = v.len();
    let mut a: usize = 0;
    while a < n && ws_char(v[a])
        invariant
            n == v@.len(),
            a <= n,
            first_non_ws(v@, 0) == first_non_ws(v@, a as int),
        decreases n - a,
    {
        a += 1;
    }
    let mut b: usize = n;
    while b > 0 && ws_char(v[b - 1])
        invariant
            n == v@.len(),
            b <= n,
            last_non_ws(v@, n as int) == last_non_ws(v@, b as int),
        decreases b,
    {
        b -= 1;
    }
    proof {
        assert(first_non_ws(v@, 0) == a as int);
        assert(last_non_ws(v@, n as int) == b as int);
    }
    let mut r: Vec<char> = Vec::new();
    if a < b {
        let mut i: usize = a;
        while i < b
            invariant
                a <= i <= b <= v@.len(),
                r@ == v@.subrange(a as int, i as int),
            decreases b - i,
        {
            let c = v[i];
            r.push(c);
            i += 1;
            proof {
                assert(r@ =~= v@.subrange(a as int, i as int));
            }
        }
    }
    proof {
        if a >= b {
            assert(r@ =~= spec_trim(v@));
        }
    }
    r
}

/// The view of a document held as one `String` per line.
pub open spec fn lines_view(ls: Seq<String>) -> Seq<Seq<char>> {
    ls.map_values(|l: String| l@)
}

/// Index of the first line feed at or after `i`, or `s.len()`.
pub open spec fn first_nl(s: Seq<char>, i: int) -> int
    decreases s.len() - i,
{
    if i < 0 || i >= s.len() {
        s.len() as int
    } else if s[i] == '\n' {
        i
    } else {
        first_nl(s, i + 1)
    }
}

proof fn lemma_first_nl_ge(s: Seq<char>, i: int)
    requires
        i <= s.len(),
    ensures
        first_nl(s, i) >= i,
        first_nl(s, i) <= s.len(),
    decreases s.len() - i,
{
    if 0 <= i < s.len() && s[i] != '\n' {
        lemma_first_nl_ge(s, i + 1);
    }
}

/// The segment with one trailing carriage return removed, if present.
pub open spec fn strip_cr(t: Seq<char>) -> Seq<char> {
    if t.len() > 0 && t[t.len() - 1] == '\r' {
        t.drop_last()
    } else {
        t
    }
}

/// The lines of `s` from position `i` on: segments split at `\n`, each with a
/// trailing `\r` removed, the last segment kept verbatim and only when it is
/// not empty — the split that `str::lines` documents.
pub open spec fn spec_lines_from(s: Seq<char>, i: int) -> Seq<Seq<char>>
    decreases s.len() - i,
    via spec_lines_from_decreases
{
    if i < 0 || i >= s.len() {
        Seq::empty()
    } else {
        let k = first_nl(s, i);
        if k >= s.len() {
            seq![s.subrange(i, s.len() as int)]
        } else {
            seq![strip_cr(s.subrange(i, k))] + spec_lines_from(s, k + 1)
        }
    }
}

#[via_fn]
proof fn spec_lines_from_decreases(s: Seq<char>, i: int) {
    if 0 <= i < s.len() {
        lemma_first_nl_ge(s, i);
    }
}

/// The lines of a text.
pub open spec fn spec_lines(s: Seq<char>) -> Seq<Seq<char>> {
    spec_lines_from(s, 0)
}

/// Split a text into its lines, as `str::lines` does: line endings are `\n`
/// or `\r\n`, and a final line ending is optional.
pub fn split_lines(s: &str) -> (r: Vec<String>)
    ensures
        lines_view(r@) == spec_lines(s@),
{
    let chars = str_chars(s);
    let n = chars.len();
    let mut out: Vec<String> = Vec::new();
    let mut a: usize = 0;
    let mut i: usize = 0;
    while i < n
        invariant
            a <= i <= n,
            n == s@.len(),
            chars@ == s@,
            spec_lines(s@) == lines_view(out@) + spec_lines_from(s@, a as int),
            first_nl(s@, a as int) == first_nl(s@, i as int),
        decreases n - i,
    {
        if chars[i] == '\n' {
            proof {
                assert(first_nl(s@, a as int) == i as int);
            }
            let end = if i > a && chars[i - 1] == '\r' {
                i - 1
            } else {
                i
            };
            let seg = s.substring_char(a, end).to_owned();
            out.push(seg);
            proof {
                assert(strip_cr(s@.subrange(a as int, i as int)) =~= s@.subrange(
                    a as int,
                    end as int,
                ));
                assert(lines_view(out@) =~= lines_view(out@.drop_last()).push(out@.last()@));
                assert(lines_view(out@) + spec_lines_from(s@, i + 1) =~= (lines_view(
                    out@.drop_last(),
                ) + spec_lines_from(s@, a as int)));
            }
            a = i + 1;
        }
        i += 1;
    }
    if a < n {
        proof {
            assert(first_nl(s@, a as int) == n as int);
        }
        let seg = s.substring_char(a, n).to_owned();
        out.push(seg);
        proof {
            assert(lines_view(out@) =~= lines_view(out@.drop_last()).push(out@.last()@));
            assert(lines_view(out@) =~= lines_view(out@.drop_last()) + spec_lines_from(
                s@,
                a as int,
            ));
        }
    } else {
        proof {
            assert(lines_view(out@) + spec_lines_from(s@, a as int) =~= lines_view(out@));
        }
    }
    out
}

/// Does the trimmed line start by closing a block?
pub open spec fn starts_closing(t: Seq<char>) -> bool {
    t.len() > 0 && (t[0] == '}' || t[0] == ']')
}

/// Does the trimmed line end by opening a block?
pub open spec fn ends_opening(t: Seq<char>) -> bool {
    t.len() > 0 && (t[t.len() - 1] == '{' || t[t.len() - 1] == '[')
}

/// Executable test for `starts_closing`.
pub fn line_starts_closing(t: &Vec<char>) -> (r: bool)
    ensures
        r == starts_closing(t@),
{
    t.len() > 0 && (t[0] == '}' || t[0] == ']')
}

/// Executable test for `ends_opening`.
pub fn line_ends_opening(t: &Vec<char>) -> (r: bool)
    ensures
        r == ends_opening(t@),
{
    t.len() > 0 && (t[t.len() - 1] == '{' || t[t.len() - 1] == '[')
}

} // verus!
