//! Document-level laws of the renderer: statelessness, the shape of an
//! uncollapsed render, and the symmetry between the block matcher's counts
//! and the lines a fold actually removes.

use crate::blocks::{match_upto, sat_dec, sat_sub, spec_collapse_counts};
use crate::render::{
    render_upto, spec_colored_tokens, spec_highlight, FoldMarker, RenderLineV,
};
use crate::text::{ends_opening, spec_trim, starts_closing};
use vstd::prelude::*;

verus! {

/// The indentation level the cursor holds just before line `n` is processed.
pub open spec fn indent_at(lines: Seq<Seq<char>>, n: int) -> usize {
    match_upto(lines, n).indent
}

/// The level of line `j` once its own closing bracket is applied.
pub open spec fn eff_at(lines: Seq<Seq<char>>, j: int) -> usize {
    if starts_closing(spec_trim(lines[j])) {
        sat_dec(indent_at(lines, j))
    } else {
        indent_at(lines, j)
    }
}

/// No line both closes a block and opens one: the shape every line of
/// pretty-printed JSON has, where `},` and `{` stand on lines of their own.
pub open spec fn sep_lines(lines: Seq<Seq<char>>) -> bool {
    forall|i: int|
        0 <= i < lines.len() ==> !(starts_closing(spec_trim(#[trigger] lines[i])) && ends_opening(
            spec_trim(lines[i]),
        ))
}

/// The cursor rises by at most one level per line.
proof fn lemma_indent_bound(lines: Seq<Seq<char>>, n: int)
    requires
        0 <= n <= usize::MAX,
    ensures
        indent_at(lines, n) <= n,
    decreases n,
{
    if n > 0 {
        lemma_indent_bound(lines, n - 1);
    }
}

/// The renderer's indentation cursor follows the matcher's exactly, whatever
/// the collapsed-set: both apply the same per-line bracket arithmetic.
proof fn lemma_indent_agrees(lines: Seq<Seq<char>>, collapsed: Set<usize>, n: int)
    requires
        0 <= n,
    ensures
        render_upto(lines, collapsed, n).indent == indent_at(lines, n),
    decreases n,
{
    if n > 0 {
        lemma_indent_agrees(lines, collapsed, n - 1);
    }
}

/// What holds of every entry on the matcher's stack: it names a real,
/// non-initial, block-opening line, and records the level the cursor had just
/// before that line.
pub open spec fn stack_entry_ok(lines: Seq<Seq<char>>, n: int, e: (usize, usize)) -> bool {
    &&& (e.0 as int) < n
    &&& e.0 != 0
    &&& ends_opening(spec_trim(lines[e.0 as int]))
    &&& e.1 == indent_at(lines, e.0 as int)
}

/// The matcher's stack is well-formed: entries are open blocks in document
/// order at strictly rising levels, and the cursor sits strictly above the
/// innermost open block.
pub open spec fn stack_ok(lines: Seq<Seq<char>>, n: int) -> bool {
    let st = match_upto(lines, n);
    &&& forall|k: int| 0 <= k < st.stack.len() ==> stack_entry_ok(lines, n, #[trigger] st.stack[k])
    &&& forall|k1: int, k2: int|
        0 <= k1 < k2 < st.stack.len() ==> (#[trigger] st.stack[k1]).1 < (#[trigger] st.stack[k2]).1
    &&& forall|k1: int, k2: int|
        0 <= k1 < k2 < st.stack.len() ==> (#[trigger] st.stack[k1]).0 < (#[trigger] st.stack[k2]).0
    &&& (st.stack.len() > 0 ==> st.indent > st.stack.last().1)
}

proof fn lemma_stack_ok(lines: Seq<Seq<char>>, n: int)
    requires
        sep_lines(lines),
        lines.len() <= usize::MAX,
        0 <= n <= lines.len(),
    ensures
        stack_ok(lines, n),
    decreases n,
{
    if n > 0 {
        lemma_stack_ok(lines, n - 1);
        lemma_indent_bound(lines, n - 1);
        let st = match_upto(lines, n - 1);
        let st1 = match_upto(lines, n);
        let t = spec_trim(lines[n - 1]);
        let idx = (n - 1) as usize;
        if starts_closing(t) {
            assert(!ends_opening(t));
            let ni = sat_dec(st.indent);
            if st.stack.len() > 0 && st.stack.last().1 == ni {
                // The innermost block closes here; the rest of the stack keeps
                // its order, and the cursor lands strictly above the new top.
                assert(st1.stack == st.stack.drop_last());
                assert forall|k: int| 0 <= k < st1.stack.len() implies stack_entry_ok(
                    lines,
                    n,
                    #[trigger] st1.stack[k],
                ) by {
                    assert(st1.stack[k] == st.stack[k]);
                }
            } else {
                if st.stack.len() > 0 {
                    assert(st.indent > st.stack.last().1);
                    assert(ni >= st.stack.last().1);
                    assert(ni != st.stack.last().1);
                }
            }
        } else if ends_opening(t) && idx != 0 {
            // A new block opens: its entry goes on top, above every older one.
            assert(st1.stack == st.stack.push((idx, st.indent)));
            assert forall|k: int| 0 <= k < st1.stack.len() implies stack_entry_ok(
                lines,
                n,
                #[trigger] st1.stack[k],
            ) by {
                if k < st.stack.len() {
                    assert(st1.stack[k] == st.stack[k]);
                } else {
                    assert(st1.stack[k] == (idx, st.indent));
                }
            }
            assert forall|k1: int, k2: int| 0 <= k1 < k2 < st1.stack.len() implies (
            #[trigger] st1.stack[k1]).1 < (#[trigger] st1.stack[k2]).1 && st1.stack[k1].0
                < st1.stack[k2].0 by {
                if k2 == st.stack.len() {
                    assert(st1.stack[k1] == st.stack[k1]);
                    if k1 < st.stack.len() - 1 {
                        assert(st.stack[k1].1 < st.stack.last().1);
                    }
                    assert(st.stack[k1].1 <= st.stack.last().1);
                    assert(st.stack[k1].1 < st.indent);
                    assert((st.stack[k1].0 as int) < n - 1);
                } else {
                    assert(st1.stack[k1] == st.stack[k1]);
                    assert(st1.stack[k2] == st.stack[k2]);
                }
            }
        }
    }
}

/// Line `j` closes the innermost open block: it starts with a closing
/// bracket and lowers the cursor exactly to the level recorded on top of the
/// matcher's stack.
pub open spec fn pops_block(lines: Seq<Seq<char>>, j: int) -> bool {
    let st = match_upto(lines, j);
    let t = spec_trim(lines[j]);
    &&& starts_closing(t)
    &&& st.stack.len() > 0
    &&& st.stack.last().1 == sat_dec(st.indent)
}

/// Every recorded count comes from a closing line: a key `s` of the counts
/// map was popped at some line `e`, and its value is the saturated
/// `e - s - 1`.
proof fn lemma_counts_from_pop(lines: Seq<Seq<char>>, s: usize, n: int)
    requires
        0 <= n <= lines.len(),
        match_upto(lines, n).counts.contains_key(s),
    ensures
        exists|e: int|
            0 <= e < n && #[trigger] pops_block(lines, e) && match_upto(lines, e).stack.last().0
                == s && match_upto(lines, n).counts[s] == sat_sub(
                sat_sub(e as usize, s),
                1,
            ),
    decreases n,
{
    if n > 0 {
        let st = match_upto(lines, n - 1);
        let st1 = match_upto(lines, n);
        let t = spec_trim(lines[n - 1]);
        if pops_block(lines, n - 1) && st.stack.last().0 == s {
            let e = n - 1;
            assert(pops_block(lines, e) && match_upto(lines, e).stack.last().0 == s
                && match_upto(lines, n).counts[s] == sat_sub(sat_sub(e as usize, s), 1));
        } else {
            assert(st1.counts.contains_key(s) ==> st.counts.contains_key(s) && st1.counts[s]
                == st.counts[s]);
            lemma_counts_from_pop(lines, s, n - 1);
            let e = choose|e: int|
                0 <= e < n - 1 && #[trigger] pops_block(lines, e) && match_upto(
                    lines,
                    e,
                ).stack.last().0 == s && match_upto(lines, n - 1).counts[s] == sat_sub(
                    sat_sub(e as usize, s),
                    1,
                );
            assert(pops_block(lines, e) && match_upto(lines, e).stack.last().0 == s
                && match_upto(lines, n).counts[s] == sat_sub(sat_sub(e as usize, s), 1));
        }
    }
}

/// Entry `(s, d)` sits somewhere on the matcher's stack after `n` lines.
pub open spec fn on_stack(lines: Seq<Seq<char>>, n: int, s: usize, d: usize) -> bool {
    exists|k: int|
        0 <= k < match_upto(lines, n).stack.len() && #[trigger] match_upto(lines, n).stack[k] == (
        s,
        d,
        )
}

/// Stack entries only ever leave from the top: an entry for a line strictly
/// before `m` that is on the stack after line `m` was already there before.
proof fn lemma_member_back(lines: Seq<Seq<char>>, s: usize, d: usize, m: int)
    requires
        0 <= m < lines.len(),
        lines.len() <= usize::MAX,
        (s as int) < m,
        on_stack(lines, m + 1, s, d),
    ensures
        on_stack(lines, m, s, d),
{
    let st = match_upto(lines, m);
    let st1 = match_upto(lines, m + 1);
    let k = choose|k: int| 0 <= k < st1.stack.len() && #[trigger] st1.stack[k] == (s, d);
    let idx = m as usize;
    assert(s != idx);
    let t = spec_trim(lines[m]);
    let base = if starts_closing(t) && st.stack.len() > 0 && st.stack.last().1 == sat_dec(
        st.indent,
    ) {
        st.stack.drop_last()
    } else {
        st.stack
    };
    if ends_opening(t) && idx != 0 {
        assert(st1.stack == base.push((idx, st.indent)));
    } else {
        assert(st1.stack == base);
    }
    assert(k < base.len());
    assert(base[k] == st.stack[k]);
    assert(0 <= k < st.stack.len() && st.stack[k] == (s, d));
}

/// An entry that is still on the stack when its block closes at line `e` was
/// on the stack at every line of the window between its push and `e`.
proof fn lemma_member_range(lines: Seq<Seq<char>>, s: usize, d: usize, e: int, m: int)
    requires
        lines.len() <= usize::MAX,
        0 <= e < lines.len(),
        (s as int) < m <= e,
        on_stack(lines, e, s, d),
    ensures
        on_stack(lines, m, s, d),
    decreases e - m,
{
    if m < e {
        lemma_member_range(lines, s, d, e, m + 1);
        lemma_member_back(lines, s, d, m);
    }
}

/// Strictly between a block's opening line and the closing line that pops it,
/// every line stays strictly deeper than the block's level.
proof fn lemma_window_eff(lines: Seq<Seq<char>>, s: usize, d: usize, e: int, j: int)
    requires
        sep_lines(lines),
        lines.len() <= usize::MAX,
        0 <= e < lines.len(),
        pops_block(lines, e),
        match_upto(lines, e).stack.last() == (s, d),
        (s as int) < j < e,
    ensures
        eff_at(lines, j) > d,
{
    let st_e = match_upto(lines, e);
    assert(st_e.stack[st_e.stack.len() - 1] == (s, d));
    assert(on_stack(lines, e, s, d));
    lemma_member_range(lines, s, d, e, j);
    lemma_stack_ok(lines, j);
    let st = match_upto(lines, j);
    let k = choose|k: int| 0 <= k < st.stack.len() && #[trigger] st.stack[k] == (s, d);
    if k == st.stack.len() - 1 {
        assert(st.indent > d);
        if starts_closing(spec_trim(lines[j])) && eff_at(lines, j) == d {
            // This line would pop the block's own entry, yet the entry is
            // still on the stack after line `j` — at a strictly earlier
            // position, which the document order of entries rules out.
            assert(pops_block(lines, j));
            assert(!ends_opening(spec_trim(lines[j])));
            let st1 = match_upto(lines, j + 1);
            assert(st1.stack == st.stack.drop_last());
            lemma_member_range(lines, s, d, e, j + 1);
            let k2 = choose|k2: int| 0 <= k2 < st1.stack.len() && #[trigger] st1.stack[k2] == (s, d);
            assert(st.stack[k2] == (s, d));
            assert(st.stack[k2].0 < st.stack[k].0);
            assert(false);
        }
    } else {
        assert(st.stack[k].1 < st.stack[st.stack.len() - 1].1);
        assert(st.indent > st.stack.last().1);
    }
}

/// Before the collapsed line, the folded render and the uncollapsed render
/// agree: membership in the collapsed-set decides nothing there.
proof fn lemma_prefix_eq(lines: Seq<Seq<char>>, s: usize, n: int)
    requires
        0 <= n <= s as int,
    ensures
        render_upto(lines, Set::<usize>::empty().insert(s), n) == render_upto(
            lines,
            Set::<usize>::empty(),
            n,
        ),
    decreases n,
{
    if n > 0 {
        lemma_prefix_eq(lines, s, n - 1);
        assert(((n - 1) as usize) as int == n - 1);
        assert(!Set::<usize>::empty().insert(s).contains((n - 1) as usize));
        assert(!Set::<usize>::empty().contains((n - 1) as usize));
    }
}

/// While the fold is active — from the collapsed line up to but not including
/// its closing line — the folded render emits nothing and keeps the fold
/// armed at the block's level.
proof fn lemma_folded_window(lines: Seq<Seq<char>>, s: usize, d: usize, e: int, n: int)
    requires
        sep_lines(lines),
        lines.len() <= usize::MAX,
        0 <= e < lines.len(),
        pops_block(lines, e),
        match_upto(lines, e).stack.last() == (s, d),
        spec_collapse_counts(lines).contains_key(s),
        s as int + 1 <= n <= e,
    ensures
        ({
            let c = Set::<usize>::empty().insert(s);
            &&& render_upto(lines, c, n).skip == Some(d)
            &&& render_upto(lines, c, n).out == render_upto(lines, c, s as int + 1).out
        }),
    decreases n,
{
    let c = Set::<usize>::empty().insert(s);
    lemma_stack_ok(lines, e);
    let st_e = match_upto(lines, e);
    assert(stack_entry_ok(lines, e, st_e.stack[st_e.stack.len() - 1]));
    if n == s as int + 1 {
        // Line `s` itself: rendered with its fold marker, arming the fold at
        // the block's level.
        lemma_prefix_eq(lines, s, s as int);
        lemma_uncollapsed_upto(lines, s as int);
        lemma_indent_agrees(lines, c, s as int);
        assert(ends_opening(spec_trim(lines[s as int])));
        assert(!starts_closing(spec_trim(lines[s as int])));
        assert(c.contains(s));
        assert(render_upto(lines, c, s as int).indent == d);
    } else {
        lemma_folded_window(lines, s, d, e, n - 1);
        lemma_window_eff(lines, s, d, e, n - 1);
        lemma_indent_agrees(lines, c, n - 1);
        assert(((n - 1) as usize) as int == n - 1);
    }
}

/// From the closing line on, the folded render emits one line per remaining
/// source line again, and what it emitted before stays in place.
proof fn lemma_folded_suffix(lines: Seq<Seq<char>>, s: usize, d: usize, e: int, n: int)
    requires
        sep_lines(lines),
        lines.len() <= usize::MAX,
        0 <= e < lines.len(),
        pops_block(lines, e),
        match_upto(lines, e).stack.last() == (s, d),
        spec_collapse_counts(lines).contains_key(s),
        e < n <= lines.len(),
    ensures
        ({
            let c = Set::<usize>::empty().insert(s);
            let stn = render_upto(lines, c, n);
            let base = render_upto(lines, c, e + 1).out;
            &&& stn.skip is None
            &&& stn.out.len() == base.len() + (n - e - 1)
            &&& forall|i: int| 0 <= i < base.len() ==> stn.out[i] == base[i]
            &&& forall|i: int|
                base.len() <= i < stn.out.len() ==> (#[trigger] stn.out[i]).idx == ((i - base.len()
                    + e + 1) as usize)
        }),
    decreases n,
{
    let c = Set::<usize>::empty().insert(s);
    lemma_stack_ok(lines, e);
    let st_e = match_upto(lines, e);
    assert(stack_entry_ok(lines, e, st_e.stack[st_e.stack.len() - 1]));
    if n == e + 1 {
        // The closing line itself: the fold has ended, the line is rendered.
        lemma_folded_window(lines, s, d, e, e);
        lemma_indent_agrees(lines, c, e);
        assert((e as usize) as int == e);
        assert(eff_at(lines, e) == d);
        assert(!c.contains(e as usize));
    } else {
        lemma_folded_suffix(lines, s, d, e, n - 1);
        lemma_indent_agrees(lines, c, n - 1);
        assert(((n - 1) as usize) as int == n - 1);
        assert(!c.contains((n - 1) as usize));
        let st0 = render_upto(lines, c, n - 1);
        let st1 = render_upto(lines, c, n);
        assert(st1.out == st0.out.push(st1.out.last()));
        assert(st1.out.last().idx == (n - 1) as usize);
        let base = render_upto(lines, c, e + 1).out;
        assert forall|i: int| 0 <= i < base.len() implies st1.out[i] == base[i] by {
            assert(st0.out.push(st1.out.last())[i] == st0.out[i]);
        }
        assert forall|i: int| base.len() <= i < st1.out.len() implies (#[trigger] st1.out[i]).idx
            == ((i - base.len() + e + 1) as usize) by {
            if i < st0.out.len() {
                assert(st0.out.push(st1.out.last())[i] == st0.out[i]);
            } else {
                assert(st1.out[i] == st1.out.last());
            }
        }
    }
}

/// Idempotence: the render plan is a pure function of the document and the
/// collapsed-set. Any two results of rendering the same inputs — in
/// particular, two successive calls — are the same plan, because each result
/// is pinned to `spec_highlight` of the inputs.
pub proof fn lemma_render_idempotent(
    lines: Seq<Seq<char>>,
    collapsed: Set<usize>,
    r1: Seq<RenderLineV>,
    r2: Seq<RenderLineV>,
)
    requires
        r1 == spec_highlight(lines, collapsed),
        r2 == spec_highlight(lines, collapsed),
    ensures
        r1 == r2,
{
}

proof fn lemma_uncollapsed_upto(lines: Seq<Seq<char>>, n: int)
    requires
        0 <= n <= lines.len(),
    ensures
        ({
            let st = render_upto(lines, Set::<usize>::empty(), n);
            &&& st.skip is None
            &&& st.out.len() == n
            &&& forall|i: int| 0 <= i < n ==> (#[trigger] st.out[i]).idx == i as usize
            &&& forall|i: int| 0 <= i < n ==> (#[trigger] st.out[i]).marker is None
            &&& forall|i: int|
                0 <= i < n ==> (#[trigger] st.out[i]).tokens == spec_colored_tokens(
                    spec_trim(lines[i]),
                )
        }),
    decreases n,
{
    if n > 0 {
        lemma_uncollapsed_upto(lines, n - 1);
        let st0 = render_upto(lines, Set::<usize>::empty(), n - 1);
        let st1 = render_upto(lines, Set::<usize>::empty(), n);
        assert(!Set::<usize>::empty().contains((n - 1) as usize));
        assert(st1.out == st0.out.push(st1.out.last()));
        assert forall|i: int| 0 <= i < n - 1 implies st1.out[i] == st0.out[i] by {
            assert(st0.out.push(st1.out.last())[i] == st0.out[i]);
        }
    }
}

/// Fold symmetry: collapsing a matched block-opening line `s` removes exactly
/// as many render lines as the matcher counted for that block — the lines
/// strictly inside the block — and line `s`'s fold marker reports that same
/// count, with the delimiter that matches the opening bracket. Every render
/// line up to `s` still shows its own source line, and every one after `s`
/// shows the source line that many places further down. The premise asks only
/// that the input is the shape the matcher is specified for — lines that do
/// not both close one block and open another, as pretty-printed JSON always
/// has — and that the matcher matched the block (its index is a key of the
/// counts map).
pub proof fn lemma_fold_symmetry(lines: Seq<Seq<char>>, s: usize)
    requires
        sep_lines(lines),
        lines.len() <= usize::MAX,
        spec_collapse_counts(lines).contains_key(s),
    ensures
        ({
            let full = spec_highlight(lines, Set::<usize>::empty());
            let folded = spec_highlight(lines, Set::<usize>::empty().insert(s));
            let hidden = spec_collapse_counts(lines)[s];
            &&& folded.len() + hidden == full.len()
            &&& 0 <= (s as int) < folded.len()
            &&& forall|i: int| 0 <= i <= s as int ==> (#[trigger] folded[i]).idx == i as usize
            &&& forall|i: int|
                (s as int) < i < folded.len() ==> ((#[trigger] folded[i]).idx as int) == i + hidden
            &&& folded[s as int].marker == Some(
                FoldMarker {
                    hidden_count: hidden,
                    closing_delimiter: (if spec_trim(lines[s as int])[spec_trim(
                        lines[s as int],
                    ).len() - 1] == '{' {
                        '}'
                    } else {
                        ']'
                    }),
                },
            )
        }),
{
    let c = Set::<usize>::empty().insert(s);
    let len = lines.len() as int;
    let counts = spec_collapse_counts(lines);
    lemma_counts_from_pop(lines, s, len);
    let e = choose|e: int|
        0 <= e < len && #[trigger] pops_block(lines, e) && match_upto(lines, e).stack.last().0 == s
            && match_upto(lines, len).counts[s] == sat_sub(sat_sub(e as usize, s), 1);
    lemma_stack_ok(lines, e);
    let st_e = match_upto(lines, e);
    assert(stack_entry_ok(lines, e, st_e.stack[st_e.stack.len() - 1]));
    let d = st_e.stack.last().1;
    assert((s as int) < e);
    assert(d == indent_at(lines, s as int));
    assert((e as usize) as int == e);
    assert(counts[s] as int == e - s - 1);

    // The full render has one line per source line.
    lemma_uncollapsed_upto(lines, len);

    // Up to line `s` the two renders agree, and the full render has emitted
    // exactly `s` lines there.
    lemma_prefix_eq(lines, s, s as int);
    lemma_uncollapsed_upto(lines, s as int);
    lemma_indent_agrees(lines, c, s as int);

    // Line `s` is rendered with its fold marker.
    assert(ends_opening(spec_trim(lines[s as int])));
    assert(!starts_closing(spec_trim(lines[s as int])));
    assert(c.contains(s));
    let out_s1 = render_upto(lines, c, s as int + 1).out;
    let ml = out_s1.last();
    assert(out_s1 == render_upto(lines, c, s as int).out.push(ml));
    assert(out_s1.len() == s as int + 1);
    assert(ml.idx == s);
    assert(ml.marker == Some(
        FoldMarker {
            hidden_count: counts[s],
            closing_delimiter: (if spec_trim(lines[s as int])[spec_trim(lines[s as int]).len()
                - 1] == '{' {
                '}'
            } else {
                ']'
            }),
        },
    ));

    // The fold swallows the window, ends at the closing line, and the rest of
    // the document renders one line per source line again.
    lemma_folded_window(lines, s, d, e, e);
    lemma_folded_suffix(lines, s, d, e, len);
    lemma_indent_agrees(lines, c, e);
    assert(eff_at(lines, e) == d);
    assert(!c.contains(e as usize));
    let out_e1 = render_upto(lines, c, e + 1).out;
    assert(out_e1 == render_upto(lines, c, e).out.push(out_e1.last()));
    assert(out_e1.len() == s as int + 2);
    assert(out_e1.last().idx == (e as usize));
    assert(out_e1[s as int] == ml);

    let folded = spec_highlight(lines, c);
    assert(folded.len() == s as int + 2 + (len - e - 1));
    assert(folded[s as int] == ml);

    // Which source line each render line shows: its own index up to `s`, and
    // the index shifted past the hidden window after `s`.
    let out_c_s = render_upto(lines, c, s as int).out;
    assert forall|i: int| 0 <= i <= s as int implies (#[trigger] folded[i]).idx == i as usize by {
        assert(folded[i] == out_e1[i]);
        if i < s as int {
            assert(out_e1[i] == render_upto(lines, c, e).out[i]);
            assert(out_s1[i] == out_c_s.push(ml)[i]);
            assert(out_s1[i] == out_c_s[i]);
        }
    }
    let hidden = counts[s];
    assert forall|i: int| (s as int) < i < folded.len() implies ((#[trigger] folded[i]).idx as int)
        == i + hidden by {
        if i == s as int + 1 {
            assert(folded[i] == out_e1[i]);
            assert(out_e1[i] == out_e1.last());
        } else {
            assert(folded[i].idx == ((i - out_e1.len() + e + 1) as usize));
        }
    }
}

/// Round-trip on the uncollapsed set: rendering with an empty collapsed-set
/// yields exactly one render line per source line, in source order, each
/// carrying that line's tokens and no fold marker.
pub proof fn lemma_uncollapsed_round_trip(lines: Seq<Seq<char>>)
    ensures
        ({
            let out = spec_highlight(lines, Set::<usize>::empty());
            &&& out.len() == lines.len()
            &&& forall|i: int| 0 <= i < lines.len() ==> (#[trigger] out[i]).idx == i as usize
            &&& forall|i: int| 0 <= i < lines.len() ==> (#[trigger] out[i]).marker is None
            &&& forall|i: int|
                0 <= i < lines.len() ==> (#[trigger] out[i]).tokens == spec_colored_tokens(
                    spec_trim(lines[i]),
                )
        }),
{
    lemma_uncollapsed_upto(lines, lines.len() as int);
}

} // verus!
