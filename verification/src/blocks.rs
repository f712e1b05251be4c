//! The block matcher: one pass over all lines that pairs every block-opening
//! line with the closing line that returns the indentation to its level, and
//! records how many interior lines the block encloses.

use crate::text::{
    ends_opening, line_ends_opening, line_starts_closing, lines_view, spec_trim, starts_closing,
    str_chars, trim_chars,
};
use std::collections::HashMap;
use vstd::prelude::*;

verus! {

broadcast use vstd::std_specs::hash::group_hash_axioms;

/// Decrement saturating at zero.
pub open spec fn sat_dec(n: usize) -> usize {
    if n == 0 {
        0
    } else {
        (n - 1) as usize
    }
}

/// Subtraction saturating at zero.
pub open spec fn sat_sub(a: usize, b: usize) -> usize {
    if a >= b {
        (a - b) as usize
    } else {
        0
    }
}

/// Matcher state: the running indentation level, the stack of open blocks
/// (line index, indentation level just before that line), and the finished
/// counts.
pub struct MatchSt {
    pub indent: usize,
    pub stack: Seq<(usize, usize)>,
    pub counts: Map<usize, usize>,
}

/// The matcher starts at indentation zero with nothing open.
pub open spec fn match_init() -> MatchSt {
    MatchSt { indent: 0, stack: Seq::empty(), counts: Map::empty() }
}

/// One matcher step on the trimmed line `t` at index `idx`. A closing line
/// first lowers the level; if that returns to the level recorded for the
/// innermost open block, that block closes here and its interior line count
/// is recorded. An opening line (except the first line of the document) is
/// pushed, and raises the level.
pub open spec fn match_step(st: MatchSt, t: Seq<char>, idx: usize) -> MatchSt {
    let st1 = if starts_closing(t) {
        let ni = sat_dec(st.indent);
        if st.stack.len() > 0 && st.stack.last().1 == ni {
            MatchSt {
                indent: ni,
                stack: st.stack.drop_last(),
                counts: st.counts.insert(st.stack.last().0, sat_sub(sat_sub(idx, st.stack.last().0), 1)),
            }
        } else {
            MatchSt { indent: ni, stack: st.stack, counts: st.counts }
        }
    } else {
        st
    };
    let st2 = if ends_opening(t) && idx != 0 {
        MatchSt { indent: st1.indent, stack: st1.stack.push((idx, st.indent)), counts: st1.counts }
    } else {
        st1
    };
    if ends_opening(t) {
        MatchSt { indent: (st2.indent + 1) as usize, stack: st2.stack, counts: st2.counts }
    } else {
        st2
    }
}

/// The matcher state after the first `n` lines.
pub open spec fn match_upto(lines: Seq<Seq<char>>, n: int) -> MatchSt
    decreases n,
{
    if n <= 0 {
        match_init()
    } else {
        match_step(match_upto(lines, n - 1), spec_trim(lines[n - 1]), (n - 1) as usize)
    }
}

/// The number of lines hidden within each collapsible block: a map from the
/// starting line index of every matched block to the count of lines strictly
/// between its opening and its closing line.
pub open spec fn spec_collapse_counts(lines: Seq<Seq<char>>) -> Map<usize, usize> {
    match_upto(lines, lines.len() as int).counts
}

/// Calculates the number of lines hidden within each collapsible block.
/// Returns a map where the key is the starting line index of a block and the
/// value is the count of lines contained within that block.
pub fn calculate_collapse_counts(lines: &Vec<String>) -> (m: HashMap<usize, usize>)
    ensures
        m@ == spec_collapse_counts(lines_view(lines@)),
{
    let ghost lv = lines_view(lines@);
    let mut counts: HashMap<usize, usize> = HashMap::new();
    let mut indent: usize = 0;
    let mut stack: Vec<(usize, usize)> = Vec::new();
    let n = lines.len();
    let mut idx: usize = 0;
    while idx < n
        invariant
            idx <= n,
            n == lines@.len(),
            lv == lines_view(lines@),
            counts@ == match_upto(lv, idx as int).counts,
            stack@ == match_upto(lv, idx as int).stack,
            indent == match_upto(lv, idx as int).indent,
            indent <= idx,
        decreases n - idx,
    {
        let ghost st = match_upto(lv, idx as int);
        let ghost t_spec = spec_trim(lv[idx as int]);
        proof {
            assert(lv[idx as int] == lines@[idx as int]@);
            assert(match_upto(lv, idx + 1) == match_step(st, t_spec, idx));
        }
        let chars = str_chars(lines[idx].as_str());
        let t = trim_chars(&chars);
        let closing = line_starts_closing(&t);
        let opening = line_ends_opening(&t);
        let indent_before = indent;
        if closing {
            indent = if indent == 0 {
                0
            } else {
                indent - 1
            };
            if stack.len() > 0 {
                let top = stack[stack.len() - 1];
                if top.1 == indent {
                    stack.pop();
                    let d = if idx >= top.0 {
                        idx - top.0
                    } else {
                        0
                    };
                    let hidden = if d >= 1 {
                        d - 1
                    } else {
                        0
                    };
                    counts.insert(top.0, hidden);
                }
            }
        }
        if opening && idx != 0 {
            stack.push((idx, indent_before));
        }
        if opening {
            indent += 1;
        }
        idx += 1;
        proof {
            assert(stack@ =~= match_upto(lv, idx as int).stack);
            assert(counts@ =~= match_upto(lv, idx as int).counts);
        }
    }
    counts
}

} // verus!
