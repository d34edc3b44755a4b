use typstfmt::chars::{count_lines, max_line_length};
use typstfmt::ctx::Ctx;
use typstfmt::format_tree;
use typstfmt::render::{is_last_comma, is_trailing_comma, next_is_ignoring};
use typstfmt::tree::{Config, Kind, Node, Tree};

fn chars_of(s: &str) -> Vec<char> {
    s.chars().collect()
}

fn leaf(kind: Kind, text: &str) -> Node {
    Node { kind, text: String::from(text), children: Vec::new() }
}

fn inner(kind: Kind, children: Vec<usize>) -> Node {
    Node { kind, text: String::new(), children }
}

/// `f(aaaaaaaaaa, bbbbbbbbbb)` as an arena: a call node holding an ident
/// and an argument list.
fn call_tree() -> Tree {
    Tree {
        nodes: vec![
            inner(Kind::Other, vec![1, 2]),
            leaf(Kind::Other, "f"),
            inner(Kind::Args, vec![3, 4, 5, 6, 7, 8]),
            leaf(Kind::LeftParen, "("),
            leaf(Kind::Other, "aaaaaaaaaa"),
            leaf(Kind::Comma, ","),
            leaf(Kind::Space, " "),
            leaf(Kind::Other, "bbbbbbbbbb"),
            leaf(Kind::RightParen, ")"),
        ],
    }
}

#[test]
fn ctx_space_suppressed_after_space() {
    let mut ctx = Ctx::from_config(Config { indent_width: 2, max_line_length: 80 });
    assert_eq!(ctx.process(&chars_of(" ")), chars_of(" "));
    assert_eq!(ctx.process(&chars_of(" ")), Vec::<char>::new());
    ctx.pushed_raw();
    assert_eq!(ctx.process(&chars_of(" ")), chars_of(" "));
}

#[test]
fn ctx_third_newline_suppressed() {
    let mut ctx = Ctx::from_config(Config { indent_width: 2, max_line_length: 80 });
    assert_eq!(ctx.process(&chars_of("\n")), chars_of("\n"));
    assert_eq!(ctx.process(&chars_of("\n")), chars_of("\n"));
    assert_eq!(ctx.process(&chars_of("\n")), Vec::<char>::new());
    ctx.pushed_raw();
    assert_eq!(ctx.process(&chars_of("\n")), chars_of("\n"));
}

#[test]
fn ctx_emitted_newline_ends_spacing_window() {
    let mut ctx = Ctx::from_config(Config { indent_width: 2, max_line_length: 80 });
    assert_eq!(ctx.process(&chars_of(" ")), chars_of(" "));
    assert_eq!(ctx.process(&chars_of("\n")), chars_of("\n"));
    // the emitted newline closed the spacing window: this space survives
    assert_eq!(ctx.process(&chars_of(" ")), chars_of(" "));
}

#[test]
fn ctx_suppressed_newline_keeps_spacing_window() {
    let mut ctx = Ctx::from_config(Config { indent_width: 2, max_line_length: 80 });
    assert_eq!(ctx.process(&chars_of("\n")), chars_of("\n"));
    assert_eq!(ctx.process(&chars_of("\n")), chars_of("\n"));
    assert_eq!(ctx.process(&chars_of(" ")), chars_of(" "));
    // this newline is suppressed, so nothing was emitted in between
    assert_eq!(ctx.process(&chars_of("\n")), Vec::<char>::new());
    assert_eq!(ctx.process(&chars_of(" ")), Vec::<char>::new());
}

#[test]
fn ctx_raw_text_resets_counters() {
    let mut ctx = Ctx::from_config(Config { indent_width: 2, max_line_length: 80 });
    assert_eq!(ctx.process(&chars_of(" ")), chars_of(" "));
    assert_eq!(ctx.process(&chars_of("ab")), chars_of("ab"));
    assert_eq!(ctx.process(&chars_of(" ")), chars_of(" "));
}

#[test]
fn ctx_indent_width() {
    let ctx = Ctx::from_config(Config { indent_width: 3, max_line_length: 80 });
    assert_eq!(ctx.indent(), chars_of("   "));
}

#[test]
fn effective_len_discounts_spaces() {
    assert_eq!(max_line_length(&chars_of("ab cd")), 4);
}

#[test]
fn effective_len_uses_last_line() {
    assert_eq!(max_line_length(&chars_of("a\nbb cc")), 4);
}

#[test]
fn effective_len_after_trailing_newline_is_zero() {
    assert_eq!(max_line_length(&chars_of("xy\n")), 0);
}

#[test]
fn effective_len_of_empty_is_zero() {
    assert_eq!(max_line_length(&chars_of("")), 0);
}

#[test]
fn count_lines_examples() {
    assert_eq!(count_lines(&chars_of("")), 0);
    assert_eq!(count_lines(&chars_of("\n\n\n")), 3);
    assert_eq!(count_lines(&chars_of("a\nb")), 2);
    assert_eq!(count_lines(&chars_of("a\n")), 1);
}

#[test]
fn tree_call_breaks_at_limit() {
    let t = call_tree();
    let out = format_tree(&t, Config { indent_width: 2, max_line_length: 20 });
    assert_eq!(out, String::from("f(\n  aaaaaaaaaa,\n  bbbbbbbbbb,\n)"));
}

#[test]
fn tree_call_stays_one_line_below_limit() {
    let t = call_tree();
    let out = format_tree(&t, Config { indent_width: 2, max_line_length: 80 });
    assert_eq!(out, String::from("f(aaaaaaaaaa, bbbbbbbbbb)"));
}

#[test]
fn tree_space_run_collapses() {
    let t = Tree {
        nodes: vec![inner(Kind::Other, vec![1]), leaf(Kind::Space, "    ")],
    };
    let out = format_tree(&t, Config { indent_width: 2, max_line_length: 80 });
    assert_eq!(out, String::from(" "));
}

#[test]
fn tree_parbreak_collapses() {
    let t = Tree {
        nodes: vec![inner(Kind::Other, vec![1]), leaf(Kind::Parbreak, "\n\n\n\n")],
    };
    let out = format_tree(&t, Config { indent_width: 2, max_line_length: 80 });
    assert_eq!(out, String::from("\n\n"));
}

#[test]
fn comma_before_space_and_ident_is_not_trailing() {
    let t = call_tree();
    let kids = vec![3usize, 4, 5, 6, 7, 8];
    assert!(!is_trailing_comma(&t, &kids, 2));
}

#[test]
fn comma_before_closing_paren_is_trailing() {
    let t = Tree {
        nodes: vec![
            inner(Kind::Args, vec![1, 2, 3, 4]),
            leaf(Kind::LeftParen, "("),
            leaf(Kind::Other, "a"),
            leaf(Kind::Comma, ","),
            leaf(Kind::RightParen, ")"),
        ],
    };
    let kids = vec![1usize, 2, 3, 4];
    assert!(is_trailing_comma(&t, &kids, 2));
    assert!(is_last_comma(&t, &kids, 2));
}

#[test]
fn last_comma_walk_passes_spaces_and_idents() {
    let t = call_tree();
    let kids = vec![3usize, 4, 5, 6, 7, 8];
    assert!(is_last_comma(&t, &kids, 2));
}

#[test]
fn next_significant_sibling_skips_spaces() {
    let t = call_tree();
    let kids = vec![3usize, 4, 5, 6, 7, 8];
    let ign = vec![Kind::Space];
    // after `bbbbbbbbbb` (position 4) the next non-space sibling is `)`
    assert!(next_is_ignoring(&t, &kids, 4, Kind::RightParen, &ign));
    // after the comma (position 2) it is `bbbbbbbbbb`, not `)`
    assert!(!next_is_ignoring(&t, &kids, 2, Kind::RightParen, &ign));
}
