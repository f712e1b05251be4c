use json_outline::color::Tone;
use json_outline::render::{highlight_json, render_document, toggle_line, RenderLine};
use json_outline::token::TokenRole;
use std::collections::HashSet;

fn lines_of(r: &[RenderLine]) -> Vec<usize> {
    r.iter().map(|l| l.source_index).collect()
}

fn plan_eq(a: &[RenderLine], b: &[RenderLine]) -> bool {
    a.len() == b.len() && a.iter().zip(b.iter()).all(|(x, y)| {
        x.source_index == y.source_index && x.indent_level == y.indent_level
            && x.is_collapsible == y.is_collapsible && x.fold_marker == y.fold_marker
            && x.tokens.len() == y.tokens.len()
            && x.tokens.iter().zip(y.tokens.iter()).all(|(s, t)| {
                s.text == t.text && s.role == t.role && s.tone == t.tone
            })
    })
}

const DOC: &str = "{\n  \"x\": {\n    \"y\": 1\n  },\n}";

#[test]
fn nested_fold_scenario() {
    // Collapsing the inner opener leaves 4 visible lines; its fold marker
    // reports one hidden line, closed by `}`.
    let mut collapsed = HashSet::new();
    collapsed.insert(1usize);
    let plan = highlight_json(DOC, &collapsed);
    assert_eq!(plan.len(), 4);
    assert_eq!(lines_of(&plan), vec![0, 1, 3, 4]);
    let marker = plan[1].fold_marker.expect("line 1 must carry a fold marker");
    assert_eq!(marker.hidden_count, 1);
    assert_eq!(marker.closing_delimiter, '}');
    assert!(plan[0].fold_marker.is_none());
    assert!(plan[2].fold_marker.is_none());
    assert!(plan[3].fold_marker.is_none());
}

#[test]
fn empty_collapsed_set_round_trip() {
    // One render line per source line, in source order.
    let collapsed = HashSet::new();
    let plan = highlight_json(DOC, &collapsed);
    assert_eq!(plan.len(), 5);
    assert_eq!(lines_of(&plan), vec![0, 1, 2, 3, 4]);
    assert!(plan.iter().all(|l| l.fold_marker.is_none()));
}

#[test]
fn render_is_idempotent() {
    let mut collapsed = HashSet::new();
    collapsed.insert(1usize);
    let first = highlight_json(DOC, &collapsed);
    let second = highlight_json(DOC, &collapsed);
    assert!(plan_eq(&first, &second));
}

#[test]
fn malformed_input_saturates() {
    // Lines of stray closers render at indentation zero without panicking.
    let collapsed = HashSet::new();
    let plan = highlight_json("}\n}\n}\n}", &collapsed);
    assert_eq!(plan.len(), 4);
    assert!(plan.iter().all(|l| l.indent_level == 0));
    assert!(plan.iter().all(|l| !l.is_collapsible));

    let plan = highlight_json("}}}}", &collapsed);
    assert_eq!(plan.len(), 1);
    assert_eq!(plan[0].indent_level, 0);
    assert_eq!(plan[0].tokens.len(), 4);
}

#[test]
fn fold_symmetry_on_each_block() {
    // Collapsing any matched block removes exactly as many lines as its fold
    // marker reports hidden.
    let doc = "{\n  \"a\": [\n    1,\n    2\n  ],\n  \"b\": {\n    \"c\": {\n      \"d\": 3\n    }\n  }\n}";
    let empty = HashSet::new();
    let full = highlight_json(doc, &empty);
    for (s, delim) in [(1usize, ']'), (5, '}'), (6, '}')] {
        let mut collapsed = HashSet::new();
        collapsed.insert(s);
        let folded = highlight_json(doc, &collapsed);
        let line = folded.iter().find(|l| l.source_index == s).unwrap();
        let marker = line.fold_marker.expect("collapsed opener must carry a marker");
        assert_eq!(
            folded.len() + marker.hidden_count,
            full.len(),
            "block at line {s}"
        );
        assert_eq!(marker.closing_delimiter, delim, "block at line {s}");
    }
}

#[test]
fn collapsed_indents_stay_current() {
    // Hidden interior lines still advance the indentation cursor: the lines
    // after the fold keep the indentation they have in the full render.
    let doc = "{\n  \"a\": {\n    \"b\": 1\n  },\n  \"c\": 2\n}";
    let empty = HashSet::new();
    let full = highlight_json(doc, &empty);
    let mut collapsed = HashSet::new();
    collapsed.insert(1usize);
    let folded = highlight_json(doc, &collapsed);
    for line in &folded {
        let same = full.iter().find(|l| l.source_index == line.source_index).unwrap();
        assert_eq!(line.indent_level, same.indent_level);
    }
}

#[test]
fn closing_line_of_fold_stays_visible() {
    let mut collapsed = HashSet::new();
    collapsed.insert(1usize);
    let plan = highlight_json(DOC, &collapsed);
    // Line 3 bears the closing bracket of the collapsed block.
    assert!(plan.iter().any(|l| l.source_index == 3));
    // Lines strictly inside the block are gone.
    assert!(plan.iter().all(|l| l.source_index != 2));
}

#[test]
fn line_zero_is_never_collapsible() {
    let collapsed: HashSet<usize> = [0usize].into_iter().collect();
    let plan = highlight_json(DOC, &collapsed);
    assert_eq!(plan.len(), 5);
    assert!(!plan[0].is_collapsible);
    assert!(plan[0].fold_marker.is_none());
}

#[test]
fn render_document_matches_highlight_json() {
    let lines: Vec<String> = DOC.lines().map(|l| l.to_owned()).collect();
    let collapsed = HashSet::new();
    let a = render_document(&lines, &collapsed);
    let b = highlight_json(DOC, &collapsed);
    assert!(plan_eq(&a, &b));
}

#[test]
fn tones_reach_the_render_plan() {
    let collapsed = HashSet::new();
    let plan = highlight_json(DOC, &collapsed);
    // Line 1 is `  "x": {` — a key, a colon, an opening brace.
    let toks = &plan[1].tokens;
    assert_eq!(toks.len(), 3);
    assert_eq!(toks[0].role, TokenRole::Key);
    assert_eq!(toks[0].tone, Tone::SecondaryBaseText);
    assert_eq!(toks[1].tone, Tone::SecondaryBaseColor);
    assert_eq!(toks[2].tone, Tone::BackgroundWeakColor);
    // Line 2 is `    "y": 1` — its literal takes the numeric tone.
    let toks = &plan[2].tokens;
    assert_eq!(toks[2].role, TokenRole::Literal);
    assert_eq!(toks[2].tone, Tone::SuccessWeakColor);
}

#[test]
fn toggle_flips_membership() {
    let mut collapsed = HashSet::new();
    toggle_line(&mut collapsed, 4);
    assert!(collapsed.contains(&4));
    toggle_line(&mut collapsed, 4);
    assert!(!collapsed.contains(&4));
    toggle_line(&mut collapsed, 4);
    toggle_line(&mut collapsed, 7);
    assert!(collapsed.contains(&4) && collapsed.contains(&7));
}
