//! The fold renderer: merges the tokenizer, the block matcher and the
//! caller's collapsed-set into a render plan — one line per visible source
//! line, with collapsed blocks reduced to their opening line plus a fold
//! marker that reports how many lines are hidden.

use crate::blocks::{calculate_collapse_counts, sat_dec, spec_collapse_counts};
use crate::color::{color_for_token, spec_color_for_token, Tone};
use crate::text::{
    ends_opening, line_ends_opening, line_starts_closing, lines_view, spec_lines, spec_trim,
    split_lines, starts_closing, str_chars, trim_chars,
};
use crate::token::{spec_tokenize, tokenize_chars, tokens_view, TokenRole, TokenV};
use std::collections::HashSet;
use vstd::prelude::*;

verus! {

broadcast use vstd::std_specs::hash::group_hash_axioms;

/// The summary attached to the opening line of a collapsed block.
#[derive(Clone, Copy, Debug, PartialEq, Eq, Structural)]
pub struct FoldMarker {
    /// How many source lines the fold hides.
    pub hidden_count: usize,
    /// The delimiter that closes the block: `}` or `]`.
    pub closing_delimiter: char,
}

/// One token of a render line, with its resolved display tone.
#[derive(Clone, Debug)]
pub struct ColoredToken {
    pub text: Vec<char>,
    pub role: TokenRole,
    pub tone: Tone,
}

/// The mathematical value of a [`ColoredToken`].
pub struct ColoredTokenV {
    pub text: Seq<char>,
    pub role: TokenRole,
    pub tone: Tone,
}

impl View for ColoredToken {
    type V = ColoredTokenV;

    open spec fn view(&self) -> ColoredTokenV {
        ColoredTokenV { text: self.text@, role: self.role, tone: self.tone }
    }
}

/// One visible line of the render plan.
#[derive(Clone, Debug)]
pub struct RenderLine {
    /// The index of the source line this render line shows.
    pub source_index: usize,
    /// The indentation level to echo as leading whitespace, counted before
    /// the line's own closing bracket lowers the level.
    pub indent_level: usize,
    /// Whether the line can be folded: it opens a block and is not line 0.
    pub is_collapsible: bool,
    /// The line's tokens with their display tones, in order.
    pub tokens: Vec<ColoredToken>,
    /// The fold summary, present exactly when the line is collapsed.
    pub fold_marker: Option<FoldMarker>,
}

/// The mathematical value of a [`RenderLine`].
pub struct RenderLineV {
    pub idx: usize,
    pub indent: usize,
    pub collapsible: bool,
    pub tokens: Seq<ColoredTokenV>,
    pub marker: Option<FoldMarker>,
}

impl View for RenderLine {
    type V = RenderLineV;

    open spec fn view(&self) -> RenderLineV {
        RenderLineV {
            idx: self.source_index,
            indent: self.indent_level,
            collapsible: self.is_collapsible,
            tokens: self.tokens@.map_values(|t: ColoredToken| t@),
            marker: self.fold_marker,
        }
    }
}

/// The values of a render line vector.
pub open spec fn rlines_view(ls: Seq<RenderLine>) -> Seq<RenderLineV> {
    ls.map_values(|l: RenderLine| l@)
}

/// A token with the tone its role and text resolve to.
pub open spec fn colored(t: TokenV) -> ColoredTokenV {
    ColoredTokenV {
        text: t.text,
        role: t.role,
        tone: spec_color_for_token(
            t.text,
            t.role == TokenRole::Key,
            t.role == TokenRole::Key || t.role == TokenRole::StringValue,
        ),
    }
}

/// The colored tokens of one already-trimmed line.
pub open spec fn spec_colored_tokens(t: Seq<char>) -> Seq<ColoredTokenV> {
    spec_tokenize(t).map_values(|tok: TokenV| colored(tok))
}

/// Renderer state: the running indentation level, the skip depth of the
/// collapsed block being crossed (if any), and the lines emitted so far.
pub struct RenderSt {
    pub indent: usize,
    pub skip: Option<usize>,
    pub out: Seq<RenderLineV>,
}

/// Rendering starts at indentation zero with no fold active.
pub open spec fn render_init() -> RenderSt {
    RenderSt { indent: 0, skip: None, out: Seq::empty() }
}

/// One renderer step on source line `line` at index `idx`.
///
/// The line's effective level applies its own closing bracket first. While a
/// fold is active, a line strictly deeper than the fold's depth is interior:
/// it only keeps the indentation cursor current and emits nothing. The line
/// that brings the level back to the fold's depth — the block's closing line —
/// ends the fold and is rendered normally. A visible line is rendered at the
/// level counted before its own closing bracket; collapsing it records the
/// matcher's hidden-line count (zero when the matcher saw no close) and the
/// matching delimiter, and arms the fold at the line's own level.
pub open spec fn render_step(
    st: RenderSt,
    line: Seq<char>,
    idx: usize,
    counts: Map<usize, usize>,
    collapsed: Set<usize>,
) -> RenderSt {
    let t = spec_trim(line);
    let eff = if starts_closing(t) {
        sat_dec(st.indent)
    } else {
        st.indent
    };
    let next_indent = if ends_opening(t) {
        (eff + 1) as usize
    } else {
        eff
    };
    if st.skip is Some && eff > st.skip->0 {
        RenderSt { indent: next_indent, skip: st.skip, out: st.out }
    } else {
        let collapsible = ends_opening(t) && idx != 0;
        let folded = collapsible && collapsed.contains(idx);
        let marker = if folded {
            Some(
                FoldMarker {
                    hidden_count: if counts.contains_key(idx) {
                        counts[idx]
                    } else {
                        0
                    },
                    closing_delimiter: if t[t.len() - 1] == '{' {
                        '}'
                    } else {
                        ']'
                    },
                },
            )
        } else {
            None
        };
        RenderSt {
            indent: next_indent,
            skip: if folded {
                Some(st.indent)
            } else {
                None
            },
            out: st.out.push(
                RenderLineV {
                    idx,
                    indent: st.indent,
                    collapsible,
                    tokens: spec_colored_tokens(t),
                    marker,
                },
            ),
        }
    }
}

/// The renderer state after the first `n` source lines.
pub open spec fn render_upto(lines: Seq<Seq<char>>, collapsed: Set<usize>, n: int) -> RenderSt
    decreases n,
{
    if n <= 0 {
        render_init()
    } else {
        render_step(
            render_upto(lines, collapsed, n - 1),
            lines[n - 1],
            (n - 1) as usize,
            spec_collapse_counts(lines),
            collapsed,
        )
    }
}

/// The full render plan of a document under a collapsed-set.
pub open spec fn spec_highlight(lines: Seq<Seq<char>>, collapsed: Set<usize>) -> Seq<RenderLineV> {
    render_upto(lines, collapsed, lines.len() as int).out
}

/// Copy a character vector.
fn copy_chars(v: &Vec<char>) -> (r: Vec<char>)
    ensures
        r@ == v@,
{
    let mut r: Vec<char> = Vec::new();
    let mut i: usize = 0;
    while i < v.len()
        invariant
            i <= v@.len(),
            r@ == v@.take(i as int),
        decreases v@.len() - i,
    {
        let c = v[i];
        r.push(c);
        i += 1;
        proof {
            assert(r@ =~= v@.take(i as int));
        }
    }
    proof {
        assert(v@.take(v@.len() as int) =~= v@);
    }
    r
}

/// Resolve the tones of one line's tokens.
fn color_tokens(t: &Vec<char>) -> (r: Vec<ColoredToken>)
    ensures
        r@.map_values(|ct: ColoredToken| ct@) == spec_colored_tokens(t@),
{
    let toks = tokenize_chars(t);
    let mut r: Vec<ColoredToken> = Vec::new();
    let mut j: usize = 0;
    while j < toks.len()
        invariant
            j <= toks@.len(),
            r@.len() == j as int,
            tokens_view(toks@) == spec_tokenize(t@),
            r@.map_values(|ct: ColoredToken| ct@) == spec_colored_tokens(t@).take(j as int),
        decreases toks@.len() - j,
    {
        let tok = &toks[j];
        let is_key = tok.role == TokenRole::Key;
        let in_str = tok.role == TokenRole::Key || tok.role == TokenRole::StringValue;
        let tone = color_for_token(&tok.text, is_key, in_str);
        let text = copy_chars(&tok.text);
        r.push(ColoredToken { text, role: tok.role, tone });
        proof {
            let sv = spec_tokenize(t@);
            assert(tokens_view(toks@)[j as int] == toks@[j as int]@);
            assert(sv[j as int] == toks@[j as int]@);
            assert(spec_colored_tokens(t@)[j as int] == colored(sv[j as int]));
            assert(r@[j as int]@.text == colored(sv[j as int]).text);
            assert(r@[j as int]@.tone == colored(sv[j as int]).tone);
            assert(r@[j as int]@ == colored(sv[j as int]));
            assert(r@.map_values(|ct: ColoredToken| ct@) =~= spec_colored_tokens(t@).take(
                j + 1,
            ));
        }
        j += 1;
    }
    proof {
        assert(spec_colored_tokens(t@).take(toks@.len() as int) =~= spec_colored_tokens(t@));
    }
    r
}

/// Render a document held as one `String` per line: one render line per
/// visible source line, in source order, under the caller's collapsed-set.
pub fn render_document(lines: &Vec<String>, collapsed_lines: &HashSet<usize>) -> (r: Vec<
    RenderLine,
>)
    ensures
        rlines_view(r@) == spec_highlight(lines_view(lines@), collapsed_lines@),
{
    let ghost lv = lines_view(lines@);
    let counts = calculate_collapse_counts(lines);
    let mut out: Vec<RenderLine> = Vec::new();
    let mut indent: usize = 0;
    let mut skip: Option<usize> = None;
    let n = lines.len();
    let mut idx: usize = 0;
    while idx < n
        invariant
            idx <= n,
            n == lines@.len(),
            lv == lines_view(lines@),
            counts@ == spec_collapse_counts(lv),
            rlines_view(out@) == render_upto(lv, collapsed_lines@, idx as int).out,
            indent == render_upto(lv, collapsed_lines@, idx as int).indent,
            skip == render_upto(lv, collapsed_lines@, idx as int).skip,
            indent <= idx,
        decreases n - idx,
    {
        let ghost st = render_upto(lv, collapsed_lines@, idx as int);
        proof {
            assert(lv[idx as int] == lines@[idx as int]@);
            assert(render_upto(lv, collapsed_lines@, idx + 1) == render_step(
                st,
                lv[idx as int],
                idx,
                spec_collapse_counts(lv),
                collapsed_lines@,
            ));
        }
        let chars = str_chars(lines[idx].as_str());
        let t = trim_chars(&chars);
        let closing = line_starts_closing(&t);
        let opening = line_ends_opening(&t);
        let eff = if closing {
            if indent == 0 {
                0
            } else {
                indent - 1
            }
        } else {
            indent
        };
        let skipping = match skip {
            Some(d) => eff > d,
            None => false,
        };
        if skipping {
            indent = if opening {
                eff + 1
            } else {
                eff
            };
        } else {
            let collapsible = opening && idx != 0;
            let folded = collapsible && collapsed_lines.contains(&idx);
            let ctoks = color_tokens(&t);
            let marker = if folded {
                let hc = match counts.get(&idx) {
                    Some(c) => *c,
                    None => 0,
                };
                let delim = if t[t.len() - 1] == '{' {
                    '}'
                } else {
                    ']'
                };
                Some(FoldMarker { hidden_count: hc, closing_delimiter: delim })
            } else {
                None
            };
            out.push(
                RenderLine {
                    source_index: idx,
                    indent_level: indent,
                    is_collapsible: collapsible,
                    tokens: ctoks,
                    fold_marker: marker,
                },
            );
            skip = if folded {
                Some(indent)
            } else {
                None
            };
            indent = if opening {
                eff + 1
            } else {
                eff
            };
            proof {
                assert(rlines_view(out@) =~= render_upto(lv, collapsed_lines@, idx + 1).out);
            }
        }
        idx += 1;
    }
    out
}

/// Render pretty-printed JSON text: the text is split into lines as
/// `str::lines` does, then rendered under the caller's collapsed-set.
pub fn highlight_json(json: &str, collapsed_lines: &HashSet<usize>) -> (r: Vec<RenderLine>)
    ensures
        rlines_view(r@) == spec_highlight(spec_lines(json@), collapsed_lines@),
{
    let lines = split_lines(json);
    render_document(&lines, collapsed_lines)
}

/// Flip the membership of `line_index` in the caller-owned collapsed-set.
/// This is the whole toggle interface: the set itself stays with the owning
/// application, and the renderer only ever reads it.
pub fn toggle_line(collapsed_lines: &mut HashSet<usize>, line_index: usize)
    ensures
        final(collapsed_lines)@ == if old(collapsed_lines)@.contains(line_index) {
            old(collapsed_lines)@.remove(line_index)
        } else {
            old(collapsed_lines)@.insert(line_index)
        },
{
    if collapsed_lines.contains(&line_index) {
        collapsed_lines.remove(&line_index);
    } else {
        collapsed_lines.insert(line_index);
    }
}

} // verus!
