use typstfmt::tree::Config;

fn cfg(indent_width: usize, max_line_length: usize) -> Config {
    Config { indent_width, max_line_length }
}

#[test]
fn unchanged() {
    assert_eq!(typstfmt::format(" ", cfg(4, 80)), String::from(" "));
}

#[test]
fn one_space() {
    assert_eq!(typstfmt::format("  ", cfg(4, 80)), String::from(" "));
}

#[test]
fn one_space_b() {
    assert_eq!(typstfmt::format("   ", cfg(4, 80)), String::from(" "));
}

#[test]
fn two_line_max() {
    assert_eq!(typstfmt::format("\n\n\n", cfg(4, 80)), String::from("\n\n"));
}

#[test]
fn let_stmt_unchanged() {
    assert_eq!(
        typstfmt::format("#let ident = variable", cfg(4, 80)),
        String::from("#let ident = variable")
    );
}

#[test]
fn let_stmt_period_terminated() {
    assert_eq!(
        typstfmt::format("#let ident = variable;", cfg(4, 80)),
        String::from("#let ident = variable;")
    );
}

#[test]
fn let_stmt_no_spacing() {
    assert_eq!(
        typstfmt::format("#let ident=variable", cfg(4, 80)),
        String::from("#let ident=variable")
    );
}

#[test]
fn empty_input() {
    assert_eq!(typstfmt::format("", cfg(4, 80)), String::from(""));
}

#[test]
fn spaces_and_blank_lines_collapse_together() {
    assert_eq!(
        typstfmt::format("a  b\n\n\n\nc", cfg(4, 80)),
        String::from("a b\n\nc")
    );
}

#[test]
fn four_newlines_collapse() {
    assert_eq!(typstfmt::format("\n\n\n\n", cfg(4, 80)), String::from("\n\n"));
}

#[test]
fn call_below_limit_stays_one_line() {
    assert_eq!(typstfmt::format("#f(a, b)", cfg(2, 20)), String::from("#f(a, b)"));
}

#[test]
fn call_trailing_comma_dropped_one_line() {
    assert_eq!(typstfmt::format("#f(a, b,)", cfg(2, 20)), String::from("#f(a, b)"));
}

#[test]
fn call_at_limit_breaks() {
    assert_eq!(
        typstfmt::format("#f(aaaaaaaaaa, bbbbbbbbbb)", cfg(2, 20)),
        String::from("#f(\n  aaaaaaaaaa,\n  bbbbbbbbbb,\n)")
    );
}

#[test]
fn call_at_limit_breaks_with_existing_trailing_comma() {
    assert_eq!(
        typstfmt::format("#f(aaaaaaaaaa, bbbbbbbbbb,)", cfg(2, 20)),
        String::from("#f(\n  aaaaaaaaaa,\n  bbbbbbbbbb,\n)")
    );
}

#[test]
fn broken_call_uses_configured_indent() {
    assert_eq!(
        typstfmt::format("#f(aaaaaaaaaa, bbbbbbbbbb)", cfg(4, 20)),
        String::from("#f(\n    aaaaaaaaaa,\n    bbbbbbbbbb,\n)")
    );
}

#[test]
fn broken_call_with_zero_indent() {
    assert_eq!(
        typstfmt::format("#f(aaaaaaaaaa, bbbbbbbbbb)", cfg(0, 20)),
        String::from("#f(\naaaaaaaaaa,\nbbbbbbbbbb,\n)")
    );
}

#[test]
fn nested_call_stays_one_line_below_limit() {
    assert_eq!(
        typstfmt::format("#f(g(a), b)", cfg(2, 40)),
        String::from("#f(g(a), b)")
    );
}

#[test]
fn output_has_no_double_space() {
    let out = typstfmt::format("x   y  z w", cfg(4, 80));
    assert!(!out.contains("  "));
    assert_eq!(out, String::from("x y z w"));
}

#[test]
fn output_has_no_triple_newline() {
    let out = typstfmt::format("a\n\n\n\n\nb\n\n\nc", cfg(4, 80));
    assert!(!out.contains("\n\n\n"));
    assert_eq!(out, String::from("a\n\nb\n\nc"));
}

#[test]
fn two_runs_agree() {
    let a = typstfmt::format("#f(aaaaaaaaaa, bbbbbbbbbb)\n\n\nx  y", cfg(2, 20));
    let b = typstfmt::format("#f(aaaaaaaaaa, bbbbbbbbbb)\n\n\nx  y", cfg(2, 20));
    assert_eq!(a, b);
}

#[test]
fn idempotent_on_canonical_space() {
    let once = typstfmt::format("  ", cfg(4, 80));
    let twice = typstfmt::format(&once, cfg(4, 80));
    assert_eq!(once, twice);
}

#[test]
fn idempotent_on_canonical_let() {
    let once = typstfmt::format("#let ident = variable;", cfg(4, 80));
    let twice = typstfmt::format(&once, cfg(4, 80));
    assert_eq!(once, twice);
}

#[test]
fn idempotent_on_one_line_call() {
    let once = typstfmt::format("#f(a, b,)", cfg(2, 20));
    let twice = typstfmt::format(&once, cfg(2, 20));
    assert_eq!(once, twice);
}

#[test]
fn idempotent_on_broken_call() {
    let once = typstfmt::format("#f(aaaaaaaaaa, bbbbbbbbbb)", cfg(2, 20));
    let twice = typstfmt::format(&once, cfg(2, 20));
    assert_eq!(once, twice);
}
