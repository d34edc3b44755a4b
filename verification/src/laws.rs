//! Global statements about the formatter, proved once and for all: the
//! whitespace-collapsing discipline of the formatting context, the
//! collapsing of space and paragraph-break nodes, the whitespace
//! normalization of whole outputs over plain markup, idempotence on
//! canonical trees, and the layout selection for argument lists.

use vstd::prelude::*;
use crate::tree::{CfgV, Kind, NodeV, tree_wf};
use crate::ctx::{CtxV, fresh_ctx, spec_process};
use crate::chars::{count_char, effective_len, lemma_count_char_le, lemma_push_facts, lines_count, rep_char};
use crate::render::{min_i, spec_args, spec_breaking, spec_cat, spec_format, spec_frag, spec_is_last, spec_next_is, spec_one_line, spec_trailing};

verus! {

/// No two consecutive literal spaces anywhere in `s`.
pub open spec fn no_two_spaces(s: Seq<char>) -> bool {
    forall|i: int| #![trigger s[i]] 0 < i < s.len() ==> !(s[i - 1] == ' ' && s[i] == ' ')
}

/// No run of three or more consecutive newlines anywhere in `s`.
pub open spec fn no_three_newlines(s: Seq<char>) -> bool {
    forall|i: int|
        #![trigger s[i]]
        1 < i < s.len() ==> !(s[i - 2] == '\n' && s[i - 1] == '\n' && s[i] == '\n')
}

pub open spec fn ends_space(s: Seq<char>) -> bool {
    s.len() > 0 && s.last() == ' '
}

/// How many newlines `s` ends with.
pub open spec fn trailing_newlines(s: Seq<char>) -> int
    decreases s.len(),
{
    if s.len() == 0 || s.last() != '\n' {
        0
    } else {
        1 + trailing_newlines(s.drop_last())
    }
}

/// One token pushed through the formatting context: a single space, a
/// single newline, or a raw text.
pub enum Tok {
    SpaceTok,
    NewlineTok,
    Raw(Seq<char>),
}

/// A raw token is admissible when it is non-empty and itself free of
/// literal spaces and newlines.
pub open spec fn tok_ok(tk: Tok) -> bool {
    match tk {
        Tok::Raw(s) => s.len() > 0 && !s.contains(' ') && !s.contains('\n'),
        _ => true,
    }
}

pub open spec fn tok_text(tk: Tok) -> Seq<char> {
    match tk {
        Tok::SpaceTok => seq![' '],
        Tok::NewlineTok => seq!['\n'],
        Tok::Raw(s) => s,
    }
}

/// The text a whole token stream emits through the context.
pub open spec fn stream_out(c: CtxV, toks: Seq<Tok>) -> Seq<char>
    decreases toks.len(),
{
    if toks.len() == 0 {
        Seq::empty()
    } else {
        let step = spec_process(c, tok_text(toks[0]));
        step.1 + stream_out(step.0, toks.drop_first())
    }
}

proof fn lemma_trailing_nonneg(s: Seq<char>)
    ensures
        trailing_newlines(s) >= 0,
    decreases s.len(),
{
    if s.len() > 0 && s.last() == '\n' {
        lemma_trailing_nonneg(s.drop_last());
    }
}

proof fn lemma_two_trailing(s: Seq<char>)
    requires
        s.len() >= 2,
        s[s.len() - 1] == '\n',
        s[s.len() - 2] == '\n',
    ensures
        trailing_newlines(s) >= 2,
{
    let d = s.drop_last();
    assert(d.last() == s[s.len() - 2]);
    lemma_trailing_nonneg(d.drop_last());
    assert(trailing_newlines(s) == 1 + trailing_newlines(d));
    assert(trailing_newlines(d) == 1 + trailing_newlines(d.drop_last()));
}

proof fn lemma_clean_push(s: Seq<char>, c: char)
    requires
        no_two_spaces(s),
        no_three_newlines(s),
        c == ' ' ==> !ends_space(s),
        c == '\n' ==> trailing_newlines(s) <= 1,
    ensures
        no_two_spaces(s.push(c)),
        no_three_newlines(s.push(c)),
        trailing_newlines(s.push(c)) == if c == '\n' {
            trailing_newlines(s) + 1
        } else {
            0int
        },
        ends_space(s.push(c)) == (c == ' '),
{
    lemma_push_facts(s, c);
    let p = s.push(c);
    assert forall|i: int| 0 < i < p.len() implies !(p[i - 1] == ' ' && #[trigger] p[i] == ' ') by {
        if i < s.len() {
            assert(p[i - 1] == s[i - 1] && p[i] == s[i]);
        } else {
            assert(p[i] == c);
            if c == ' ' {
                assert(p[i - 1] == s[s.len() - 1]);
            }
        }
    }
    assert forall|i: int| 1 < i < p.len() implies !(p[i - 2] == '\n' && p[i - 1] == '\n'
        && #[trigger] p[i] == '\n') by {
        if i < s.len() {
            assert(p[i - 2] == s[i - 2] && p[i - 1] == s[i - 1] && p[i] == s[i]);
        } else {
            assert(p[i] == c);
            if c == '\n' && p[i - 1] == '\n' && p[i - 2] == '\n' {
                assert(s[s.len() - 1] == '\n' && s[s.len() - 2] == '\n');
                lemma_two_trailing(s);
            }
        }
    }
}

proof fn lemma_clean_append(a: Seq<char>, b: Seq<char>)
    requires
        no_two_spaces(a),
        no_three_newlines(a),
        b.len() > 0,
        !b.contains(' '),
        !b.contains('\n'),
    ensures
        no_two_spaces(a + b),
        no_three_newlines(a + b),
        trailing_newlines(a + b) == 0,
        !ends_space(a + b),
{
    let p = a + b;
    assert forall|j: int| 0 <= j < b.len() implies b[j] != ' ' && b[j] != '\n' by {
        if b[j] == ' ' {
            assert(b.contains(' '));
        }
        if b[j] == '\n' {
            assert(b.contains('\n'));
        }
    }
    assert forall|i: int| 0 < i < p.len() implies !(p[i - 1] == ' ' && #[trigger] p[i] == ' ') by {
        if i < a.len() {
            assert(p[i - 1] == a[i - 1] && p[i] == a[i]);
        } else {
            assert(p[i] == b[i - a.len()]);
        }
    }
    assert forall|i: int| 1 < i < p.len() implies !(p[i - 2] == '\n' && p[i - 1] == '\n'
        && #[trigger] p[i] == '\n') by {
        if i < a.len() {
            assert(p[i - 2] == a[i - 2] && p[i - 1] == a[i - 1] && p[i] == a[i]);
        } else {
            assert(p[i] == b[i - a.len()]);
        }
    }
    assert(p.last() == b.last());
    assert(p.last() != '\n' && p.last() != ' ');
}

proof fn lemma_stream_clean(c: CtxV, toks: Seq<Tok>, acc: Seq<char>)
    requires
        forall|k: int| 0 <= k < toks.len() ==> tok_ok(#[trigger] toks[k]),
        no_two_spaces(acc),
        no_three_newlines(acc),
        ends_space(acc) ==> c.just_spaced,
        0 <= c.consec_new_line,
        trailing_newlines(acc) <= c.consec_new_line,
    ensures
        no_two_spaces(acc + stream_out(c, toks)),
        no_three_newlines(acc + stream_out(c, toks)),
    decreases toks.len(),
{
    if toks.len() == 0 {
        assert(acc + stream_out(c, toks) =~= acc);
    } else {
        let tk = toks[0];
        let rest = toks.drop_first();
        assert(tok_ok(tk));
        assert forall|k: int| 0 <= k < rest.len() implies tok_ok(#[trigger] rest[k]) by {
            assert(rest[k] == toks[k + 1]);
        }
        assert(seq!['\n'] != seq![' ']) by {
            assert(seq!['\n'][0] == '\n');
            assert(seq![' '][0] == ' ');
        }
        let step = spec_process(c, tok_text(tk));
        let c2 = step.0;
        let piece = step.1;
        let acc2 = acc + piece;
        match tk {
            Tok::SpaceTok => {
                if c.just_spaced {
                    assert(acc2 =~= acc);
                    lemma_stream_clean(c2, rest, acc2);
                } else {
                    assert(acc2 =~= acc.push(' '));
                    lemma_clean_push(acc, ' ');
                    lemma_stream_clean(c2, rest, acc2);
                }
            },
            Tok::NewlineTok => {
                if c.consec_new_line <= 1 {
                    assert(acc2 =~= acc.push('\n'));
                    lemma_clean_push(acc, '\n');
                    lemma_stream_clean(c2, rest, acc2);
                } else {
                    assert(acc2 =~= acc);
                    lemma_stream_clean(c2, rest, acc2);
                }
            },
            Tok::Raw(r) => {
                assert(r != seq![' ']) by {
                    if r == seq![' '] {
                        assert(r[0] == ' ');
                        assert(r.contains(' '));
                    }
                }
                assert(r != seq!['\n']) by {
                    if r == seq!['\n'] {
                        assert(r[0] == '\n');
                        assert(r.contains('\n'));
                    }
                }
                assert(piece == r && c2.consec_new_line == 0 && !c2.just_spaced);
                lemma_clean_append(acc, r);
                lemma_stream_clean(c2, rest, acc2);
            },
        }
        assert(acc + stream_out(c, toks) =~= acc2 + stream_out(c2, rest));
    }
}

/// Net effect of the formatting context's token rules: whatever token
/// stream a run pushes through a fresh context, the emitted text never
/// holds two consecutive literal spaces, nor a run of three or more
/// consecutive newlines — provided every raw token is non-empty and itself
/// free of literal spaces and newlines.
pub proof fn lemma_context_output_clean(cfg: CfgV, toks: Seq<Tok>)
    requires
        forall|k: int| 0 <= k < toks.len() ==> tok_ok(#[trigger] toks[k]),
    ensures
        no_two_spaces(stream_out(fresh_ctx(cfg), toks)),
        no_three_newlines(stream_out(fresh_ctx(cfg), toks)),
{
    lemma_stream_clean(fresh_ctx(cfg), toks, Seq::empty());
    assert(Seq::<char>::empty() + stream_out(fresh_ctx(cfg), toks) =~= stream_out(
        fresh_ctx(cfg),
        toks,
    ));
}

/// A whitespace run collapses: a space node renders as exactly one space,
/// whatever whitespace run its text records.
pub proof fn lemma_space_collapses(t: Seq<NodeV>, cfg: CfgV, i: int)
    requires
        tree_wf(t),
        0 <= i < t.len(),
        t[i].kind == Kind::Space,
    ensures
        spec_frag(t, cfg, i) == seq![' '],
{
}

/// A paragraph break collapses: it renders as one newline per physical
/// line of its span, but never more than two — at most one blank line
/// survives.
pub proof fn lemma_parbreak_collapses(t: Seq<NodeV>, cfg: CfgV, i: int)
    requires
        tree_wf(t),
        0 <= i < t.len(),
        t[i].kind == Kind::Parbreak,
    ensures
        spec_frag(t, cfg, i) == rep_char('\n', min_i(lines_count(t[i].text), 2)),
        spec_frag(t, cfg, i).len() <= 2,
{
}

/// How many newlines `s` begins with.
pub open spec fn leading_newlines(s: Seq<char>) -> int
    decreases s.len(),
{
    if s.len() == 0 || s[0] != '\n' {
        0
    } else {
        1 + leading_newlines(s.drop_first())
    }
}

proof fn lemma_trailing_bounds(s: Seq<char>)
    ensures
        0 <= trailing_newlines(s) <= s.len(),
    decreases s.len(),
{
    if s.len() > 0 && s.last() == '\n' {
        lemma_trailing_bounds(s.drop_last());
    }
}

proof fn lemma_leading_bounds(s: Seq<char>)
    ensures
        0 <= leading_newlines(s) <= s.len(),
    decreases s.len(),
{
    if s.len() > 0 && s[0] == '\n' {
        lemma_leading_bounds(s.drop_first());
    }
}

proof fn lemma_two_leading(s: Seq<char>)
    requires
        s.len() >= 2,
        s[0] == '\n',
        s[1] == '\n',
    ensures
        leading_newlines(s) >= 2,
{
    let d = s.drop_first();
    assert(d[0] == s[1]);
    lemma_leading_bounds(d.drop_first());
    assert(leading_newlines(s) == 1 + leading_newlines(d));
    assert(leading_newlines(d) == 1 + leading_newlines(d.drop_first()));
}

proof fn lemma_trailing_append(a: Seq<char>, b: Seq<char>)
    ensures
        trailing_newlines(a + b) == if trailing_newlines(b) == b.len() {
            trailing_newlines(a) + b.len()
        } else {
            trailing_newlines(b)
        },
    decreases b.len(),
{
    if b.len() == 0 {
        assert(a + b =~= a);
    } else if b.last() != '\n' {
        assert((a + b).last() == b.last());
        lemma_trailing_bounds(b);
    } else {
        assert((a + b).drop_last() =~= a + b.drop_last());
        assert((a + b).last() == b.last());
        lemma_trailing_append(a, b.drop_last());
        lemma_trailing_bounds(b.drop_last());
    }
}

proof fn lemma_leading_append(a: Seq<char>, b: Seq<char>)
    ensures
        leading_newlines(a + b) == if leading_newlines(a) == a.len() {
            a.len() + leading_newlines(b)
        } else {
            leading_newlines(a)
        },
    decreases a.len(),
{
    if a.len() == 0 {
        assert(a + b =~= b);
    } else if a[0] != '\n' {
        assert((a + b)[0] == a[0]);
        lemma_leading_bounds(a);
    } else {
        assert((a + b).drop_first() =~= a.drop_first() + b);
        assert((a + b)[0] == a[0]);
        lemma_leading_append(a.drop_first(), b);
        lemma_leading_bounds(a.drop_first());
    }
}

proof fn lemma_all_nl_of_trailing(s: Seq<char>)
    requires
        trailing_newlines(s) == s.len(),
    ensures
        forall|j: int| 0 <= j < s.len() ==> s[j] == '\n',
    decreases s.len(),
{
    if s.len() > 0 {
        lemma_trailing_bounds(s.drop_last());
        if s.last() != '\n' {
            lemma_trailing_bounds(s);
            assert(false);
        }
        lemma_all_nl_of_trailing(s.drop_last());
        assert forall|j: int| 0 <= j < s.len() implies s[j] == '\n' by {
            if j < s.len() - 1 {
                assert(s[j] == s.drop_last()[j]);
            }
        }
    }
}

proof fn lemma_leading_of_all_nl(s: Seq<char>)
    requires
        forall|j: int| 0 <= j < s.len() ==> s[j] == '\n',
    ensures
        leading_newlines(s) == s.len(),
    decreases s.len(),
{
    if s.len() > 0 {
        assert forall|j: int| 0 <= j < s.drop_first().len() implies s.drop_first()[j] == '\n' by {
            assert(s.drop_first()[j] == s[j + 1]);
        }
        lemma_leading_of_all_nl(s.drop_first());
    }
}

/// Concatenation keeps both whitespace properties as long as the two
/// pieces do not clash at the boundary: no space meeting a space, and at
/// most two newlines in the run that straddles the seam.
proof fn lemma_append_general(a: Seq<char>, b: Seq<char>)
    requires
        no_two_spaces(a),
        no_three_newlines(a),
        no_two_spaces(b),
        no_three_newlines(b),
        a.len() > 0,
        b.len() > 0,
        !(ends_space(a) && b[0] == ' '),
        trailing_newlines(a) + leading_newlines(b) <= 2,
    ensures
        no_two_spaces(a + b),
        no_three_newlines(a + b),
{
    let p = a + b;
    assert forall|i: int| 0 < i < p.len() implies !(p[i - 1] == ' ' && #[trigger] p[i] == ' ') by {
        if i < a.len() {
            assert(p[i - 1] == a[i - 1] && p[i] == a[i]);
        } else if i == a.len() {
            assert(p[i - 1] == a[a.len() - 1] && p[i] == b[0]);
        } else {
            assert(p[i - 1] == b[i - a.len() - 1] && p[i] == b[i - a.len()]);
        }
    }
    assert forall|i: int| 1 < i < p.len() implies !(p[i - 2] == '\n' && p[i - 1] == '\n'
        && #[trigger] p[i] == '\n') by {
        if i < a.len() {
            assert(p[i - 2] == a[i - 2] && p[i - 1] == a[i - 1] && p[i] == a[i]);
        } else if i == a.len() {
            assert(p[i - 2] == a[a.len() - 2] && p[i - 1] == a[a.len() - 1] && p[i] == b[0]);
            if p[i - 2] == '\n' && p[i - 1] == '\n' && p[i] == '\n' {
                lemma_two_trailing(a);
                lemma_leading_bounds(b.drop_first());
                assert(leading_newlines(b) == 1 + leading_newlines(b.drop_first()));
                lemma_trailing_bounds(a);
            }
        } else if i == a.len() + 1 {
            assert(p[i - 2] == a[a.len() - 1] && p[i - 1] == b[0] && p[i] == b[1]);
            if p[i - 2] == '\n' && p[i - 1] == '\n' && p[i] == '\n' {
                lemma_two_leading(b);
                lemma_trailing_nonneg(a.drop_last());
                assert(trailing_newlines(a) == 1 + trailing_newlines(a.drop_last()));
                lemma_leading_bounds(b);
            }
        } else {
            assert(p[i - 2] == b[i - a.len() - 2] && p[i - 1] == b[i - a.len() - 1] && p[i] == b[i
                - a.len()]);
        }
    }
}

/// A solid text: non-empty and free of spaces and newlines.
proof fn lemma_solid_text(s: Seq<char>)
    requires
        s.len() > 0,
        !s.contains(' '),
        !s.contains('\n'),
    ensures
        no_two_spaces(s),
        no_three_newlines(s),
        leading_newlines(s) == 0,
        trailing_newlines(s) == 0,
        !ends_space(s),
        s[0] != ' ',
{
    assert forall|j: int| 0 <= j < s.len() implies s[j] != ' ' && s[j] != '\n' by {
        if s[j] == ' ' {
            assert(s.contains(' '));
        }
        if s[j] == '\n' {
            assert(s.contains('\n'));
        }
    }
}

proof fn lemma_rep_nl(m: int)
    requires
        0 <= m,
    ensures
        rep_char('\n', m).len() == m,
        leading_newlines(rep_char('\n', m)) == m,
        trailing_newlines(rep_char('\n', m)) == m,
        no_two_spaces(rep_char('\n', m)),
        m <= 2 ==> no_three_newlines(rep_char('\n', m)),
    decreases m,
{
    let r = rep_char('\n', m);
    if m > 0 {
        lemma_rep_nl(m - 1);
        assert(r.drop_first() =~= rep_char('\n', m - 1));
        assert(r.drop_last() =~= rep_char('\n', m - 1));
        assert(r[0] == '\n' && r.last() == '\n');
    }
}

proof fn lemma_lines_pos(s: Seq<char>)
    requires
        s.len() > 0,
    ensures
        lines_count(s) >= 1,
{
    lemma_count_char_le(s.drop_last(), '\n');
    lemma_count_char_le(s, '\n');
}

/// A whitespace-carrying node kind: its rendering is whitespace only.
pub open spec fn ws_kind(k: Kind) -> bool {
    k == Kind::Space || k == Kind::Parbreak
}

/// Plain-markup trees: no argument list; whitespace nodes are leaves with
/// a non-empty span; every other node is either a leaf with a solid text
/// or an inner node with empty text whose children neither start nor end
/// with a whitespace node, with no two whitespace nodes adjacent.
pub open spec fn clean_node(t: Seq<NodeV>, n: NodeV) -> bool {
    &&& n.kind != Kind::Args
    &&& ws_kind(n.kind) ==> n.children.len() == 0 && n.text.len() > 0
    &&& !ws_kind(n.kind) ==> {
        &&& !n.text.contains(' ')
        &&& !n.text.contains('\n')
        &&& (n.text.len() > 0 ==> n.children.len() == 0)
        &&& (n.text.len() == 0 ==> n.children.len() > 0)
        &&& (n.children.len() > 0 ==> !ws_kind(t[n.children[0] as int].kind) && !ws_kind(
            t[n.children[n.children.len() - 1] as int].kind,
        ))
        &&& forall|j: int|
            #![trigger n.children[j]]
            0 <= j && j + 1 < n.children.len() ==> !(ws_kind(t[n.children[j] as int].kind)
                && ws_kind(t[n.children[j + 1] as int].kind))
    }
}

pub open spec fn clean_tree(t: Seq<NodeV>) -> bool {
    forall|i: int| 0 <= i < t.len() ==> clean_node(t, #[trigger] t[i])
}

proof fn lemma_ws_frag(t: Seq<NodeV>, cfg: CfgV, i: int)
    requires
        tree_wf(t),
        clean_tree(t),
        0 <= i < t.len(),
    ensures
        no_two_spaces(spec_frag(t, cfg, i)),
        no_three_newlines(spec_frag(t, cfg, i)),
        spec_frag(t, cfg, i).len() > 0,
        0 <= leading_newlines(spec_frag(t, cfg, i)) <= 2,
        leading_newlines(spec_frag(t, cfg, i)) >= 1 ==> t[i].kind == Kind::Parbreak,
        spec_frag(t, cfg, i)[0] == ' ' ==> t[i].kind == Kind::Space,
        0 <= trailing_newlines(spec_frag(t, cfg, i)) <= 2,
        trailing_newlines(spec_frag(t, cfg, i)) >= 1 ==> t[i].kind == Kind::Parbreak,
        ends_space(spec_frag(t, cfg, i)) ==> t[i].kind == Kind::Space,
        t[i].kind == Kind::Parbreak ==> leading_newlines(spec_frag(t, cfg, i)) == spec_frag(
            t,
            cfg,
            i,
        ).len() && trailing_newlines(spec_frag(t, cfg, i)) == spec_frag(t, cfg, i).len(),
        t[i].kind == Kind::Space ==> spec_frag(t, cfg, i) == seq![' '],
    decreases t.len() - i, 1int, 0int,
{
    assert(clean_node(t, t[i]));
    let fr = spec_frag(t, cfg, i);
    if t[i].kind == Kind::Space {
        assert(fr == seq![' ']);
        assert(fr[0] == ' ' && fr.last() == ' ' && fr.len() == 1);
    } else if t[i].kind == Kind::Parbreak {
        lemma_lines_pos(t[i].text);
        let m = min_i(lines_count(t[i].text), 2);
        assert(1 <= m <= 2);
        lemma_rep_nl(m);
        assert(fr == rep_char('\n', m));
    } else {
        if t[i].text.len() > 0 {
            assert(t[i].children.len() == 0);
            assert(spec_cat(t, cfg, i, 0) =~= Seq::<char>::empty());
            assert(fr =~= t[i].text);
            lemma_solid_text(t[i].text);
        } else {
            assert(t[i].children.len() > 0);
            lemma_ws_cat(t, cfg, i, 0);
            assert(fr =~= spec_cat(t, cfg, i, 0));
        }
    }
}

#[verifier::rlimit(100)]
proof fn lemma_ws_cat(t: Seq<NodeV>, cfg: CfgV, i: int, k: int)
    requires
        tree_wf(t),
        clean_tree(t),
        0 <= i < t.len(),
        0 <= k < t[i].children.len(),
    ensures
        no_two_spaces(spec_cat(t, cfg, i, k)),
        no_three_newlines(spec_cat(t, cfg, i, k)),
        spec_cat(t, cfg, i, k).len() > 0,
        0 <= leading_newlines(spec_cat(t, cfg, i, k)) <= 2,
        leading_newlines(spec_cat(t, cfg, i, k)) >= 1 ==> t[t[i].children[k] as int].kind
            == Kind::Parbreak,
        spec_cat(t, cfg, i, k)[0] == ' ' ==> t[t[i].children[k] as int].kind == Kind::Space,
        0 <= trailing_newlines(spec_cat(t, cfg, i, k)) <= 2,
        trailing_newlines(spec_cat(t, cfg, i, k)) >= 1 ==> t[t[i].children[t[i].children.len()
            - 1] as int].kind == Kind::Parbreak,
        ends_space(spec_cat(t, cfg, i, k)) ==> t[t[i].children[t[i].children.len()
            - 1] as int].kind == Kind::Space,
    decreases t.len() - i, 0int, t[i].children.len() - k,
{
    crate::render::lemma_node_kids(t, i);
    assert(clean_node(t, t[i]));
    let kids = t[i].children;
    let c = kids[k] as int;
    lemma_ws_frag(t, cfg, c);
    let a = spec_frag(t, cfg, c);
    if k == kids.len() - 1 {
        assert(spec_cat(t, cfg, i, k + 1) =~= Seq::<char>::empty());
        assert(spec_cat(t, cfg, i, k) =~= a);
    } else {
        lemma_ws_cat(t, cfg, i, k + 1);
        let b = spec_cat(t, cfg, i, k + 1);
        let cn = kids[k + 1] as int;
        assert(!(ws_kind(t[c].kind) && ws_kind(t[cn].kind)));
        if trailing_newlines(a) >= 1 && leading_newlines(b) >= 1 {
            assert(false);
        }
        lemma_trailing_bounds(a);
        lemma_leading_bounds(b);
        lemma_append_general(a, b);
        lemma_leading_append(a, b);
        lemma_trailing_append(a, b);
        if leading_newlines(a) == a.len() {
            assert(leading_newlines(a) >= 1);
            assert(t[c].kind == Kind::Parbreak);
            assert(leading_newlines(b) == 0);
        }
        if trailing_newlines(b) == b.len() {
            assert(trailing_newlines(b) >= 1);
            lemma_all_nl_of_trailing(b);
            lemma_leading_of_all_nl(b);
            assert(leading_newlines(b) >= 1);
            assert(t[cn].kind == Kind::Parbreak);
            assert(trailing_newlines(a) == 0);
        }
        assert(spec_cat(t, cfg, i, k) == a + b);
        assert((a + b)[0] == a[0]);
        assert(b.len() > 0 ==> (a + b).last() == b.last());
    }
}

/// The whitespace-normalization guarantee for whole outputs, over plain
/// markup: for a tree with no argument list, whitespace nodes never
/// adjacent, and every other node either a solid leaf or an inner node
/// whose children begin and end solid, the full rendering holds no two
/// consecutive literal spaces and no run of three or more consecutive
/// newlines. (With an argument list present the guarantee can fail by
/// design: the breaking layout indents lines by `indent_width` literal
/// spaces, and a node's own text is emitted verbatim.)
pub proof fn lemma_output_whitespace_normal(t: Seq<NodeV>, cfg: CfgV)
    requires
        tree_wf(t),
        clean_tree(t),
    ensures
        no_two_spaces(spec_format(t, cfg)),
        no_three_newlines(spec_format(t, cfg)),
{
    lemma_ws_frag(t, cfg, 0);
}

/// The source text a subtree stands for: its own literal text followed by
/// its children's, in order.
pub open spec fn flatten(t: Seq<NodeV>, i: int) -> Seq<char>
    decreases t.len() - i, 1int, 0int,
{
    if tree_wf(t) && 0 <= i < t.len() {
        t[i].text + flat_cat(t, i, 0)
    } else {
        Seq::empty()
    }
}

pub open spec fn flat_cat(t: Seq<NodeV>, i: int, k: int) -> Seq<char>
    decreases t.len() - i, 0int, t[i].children.len() - k,
{
    if tree_wf(t) && 0 <= i < t.len() && 0 <= k <= t[i].children.len() {
        if k == t[i].children.len() {
            Seq::empty()
        } else {
            flatten(t, t[i].children[k] as int) + flat_cat(t, i, k + 1)
        }
    } else {
        Seq::empty()
    }
}

/// A tree already in canonical form: every whitespace run is a single
/// space, every paragraph break spans one newline or two, and no argument
/// list occurs, so no layout decision is pending.
pub open spec fn canonical(t: Seq<NodeV>) -> bool {
    forall|i: int|
        0 <= i < t.len() ==> {
            &&& (#[trigger] t[i]).kind != Kind::Args
            &&& t[i].kind == Kind::Space ==> t[i].text == seq![' '] && t[i].children.len() == 0
            &&& t[i].kind == Kind::Parbreak ==> (t[i].text == seq!['\n'] || t[i].text == seq![
                '\n',
                '\n',
            ]) && t[i].children.len() == 0
        }
}

/// Idempotence on canonical input: a canonical tree renders as exactly the
/// source text it stands for, so formatting text that is already in
/// canonical form reproduces it unchanged.
pub proof fn lemma_canonical_identity(t: Seq<NodeV>, cfg: CfgV, i: int)
    requires
        tree_wf(t),
        0 <= i < t.len(),
        canonical(t),
    ensures
        spec_frag(t, cfg, i) == flatten(t, i),
    decreases t.len() - i, 1int, 0int,
{
    if t[i].kind == Kind::Space {
        assert(flatten(t, i) =~= t[i].text);
    } else if t[i].kind == Kind::Parbreak {
        assert(seq!['\n', '\n'].drop_last() =~= seq!['\n']);
        assert(seq!['\n'].drop_last() =~= Seq::<char>::empty());
        assert(count_char(Seq::<char>::empty(), '\n') == 0);
        assert(count_char(seq!['\n'], '\n') == 1);
        assert(count_char(seq!['\n', '\n'], '\n') == 2);
        if t[i].text == seq!['\n'] {
            assert(lines_count(t[i].text) == 1);
            assert(rep_char('\n', 1) =~= seq!['\n']);
        } else {
            assert(lines_count(t[i].text) == 2);
            assert(rep_char('\n', 2) =~= seq!['\n', '\n']);
        }
        assert(flatten(t, i) =~= t[i].text);
    } else {
        lemma_canonical_cat(t, cfg, i, 0);
    }
}

proof fn lemma_canonical_cat(t: Seq<NodeV>, cfg: CfgV, i: int, k: int)
    requires
        tree_wf(t),
        0 <= i < t.len(),
        0 <= k <= t[i].children.len(),
        canonical(t),
    ensures
        spec_cat(t, cfg, i, k) == flat_cat(t, i, k),
    decreases t.len() - i, 0int, t[i].children.len() - k,
{
    if k < t[i].children.len() {
        lemma_canonical_identity(t, cfg, t[i].children[k] as int);
        lemma_canonical_cat(t, cfg, i, k + 1);
    }
}

/// Layout selection for an argument list: a one-line candidate whose
/// effective length stays strictly below the configured limit is the
/// result; one that reaches the limit is discarded for the breaking
/// layout.
pub proof fn lemma_args_layout(t: Seq<NodeV>, cfg: CfgV, i: int)
    requires
        tree_wf(t),
        0 <= i < t.len(),
        t[i].kind == Kind::Args,
    ensures
        effective_len(spec_one_line(t, cfg, i, 0)) < cfg.max_line_length ==> spec_frag(t, cfg, i)
            == spec_one_line(t, cfg, i, 0),
        effective_len(spec_one_line(t, cfg, i, 0)) >= cfg.max_line_length ==> spec_frag(t, cfg, i)
            == spec_breaking(t, cfg, i, 0),
{
    assert(spec_frag(t, cfg, i) == spec_args(t, cfg, i));
}


/// `s` holds no newline at all.
pub open spec fn newline_free(s: Seq<char>) -> bool {
    forall|j: int| #![trigger s[j]] 0 <= j < s.len() ==> s[j] != '\n'
}

proof fn lemma_nf_concat(a: Seq<char>, b: Seq<char>)
    requires
        newline_free(a),
        newline_free(b),
    ensures
        newline_free(a + b),
{
    assert forall|j: int| 0 <= j < (a + b).len() implies #[trigger] (a + b)[j] != '\n' by {
        if j < a.len() {
            assert((a + b)[j] == a[j]);
        } else {
            assert((a + b)[j] == b[j - a.len()]);
        }
    }
}

/// Every child of the argument list at `i` feeds the one-line walk a
/// newline-free piece: comma texts and non-comma fragments hold none.
pub open spec fn one_line_inputs_flat(t: Seq<NodeV>, cfg: CfgV, i: int) -> bool {
    forall|m: int|
        #![trigger t[i].children[m]]
        0 <= m < t[i].children.len() ==> {
            let c = t[i].children[m] as int;
            if t[c].kind == Kind::Space {
                true
            } else if t[c].kind == Kind::Comma {
                newline_free(t[c].text)
            } else {
                newline_free(spec_frag(t, cfg, c))
            }
        }
}

/// The one-line layout keeps all arguments on one line: when every
/// argument's fragment and every comma's text is newline-free, the whole
/// one-line candidate is.
pub proof fn lemma_one_line_single_line(t: Seq<NodeV>, cfg: CfgV, i: int, k: int)
    requires
        tree_wf(t),
        0 <= i < t.len(),
        0 <= k <= t[i].children.len(),
        one_line_inputs_flat(t, cfg, i),
    ensures
        newline_free(spec_one_line(t, cfg, i, k)),
    decreases t[i].children.len() - k,
{
    if k < t[i].children.len() {
        lemma_one_line_single_line(t, cfg, i, k + 1);
        let kids = t[i].children;
        let c = kids[k] as int;
        let rest = spec_one_line(t, cfg, i, k + 1);
        assert(0 <= k < t[i].children.len() && kids[k] == t[i].children[k]);
        assert(newline_free(seq![' '])) by {
            assert(seq![' '][0] == ' ');
        }
        if t[c].kind == Kind::Comma && !spec_trailing(t, kids, k) {
            lemma_nf_concat(t[c].text, seq![' ']);
            lemma_nf_concat(t[c].text + seq![' '], rest);
        } else if t[c].kind != Kind::Comma && t[c].kind != Kind::Space {
            lemma_nf_concat(spec_frag(t, cfg, c), rest);
        }
    }
}

/// `s` ends in a newline followed only by a closing parenthesis.
pub open spec fn ends_closer_unindented(s: Seq<char>) -> bool {
    s.len() >= 2 && s[s.len() - 1] == ')' && s[s.len() - 2] == '\n'
}

proof fn lemma_ends_transport(x: Seq<char>, y: Seq<char>)
    requires
        ends_closer_unindented(y),
    ensures
        ends_closer_unindented(x + y),
{
    assert((x + y)[(x + y).len() - 1] == y[y.len() - 1]);
    assert((x + y)[(x + y).len() - 2] == y[y.len() - 2]);
}

/// A proper last argument position: the child before the closing
/// delimiter is either a trailing last comma, or a non-comma argument
/// whose next significant sibling is the closing parenthesis (so a comma
/// is synthesized after it).
pub open spec fn breaking_closes_properly(t: Seq<NodeV>, i: int) -> bool {
    let kids = t[i].children;
    let last = kids.len() - 1;
    &&& kids.len() >= 2
    &&& t[kids[last] as int].kind == Kind::RightParen
    &&& t[kids[last] as int].text == seq![')']
    &&& t[kids[last] as int].children.len() == 0
    &&& {
        let c = kids[last - 1] as int;
        ||| (t[c].kind == Kind::Comma && spec_is_last(t, kids, last) && spec_trailing(
            t,
            kids,
            last - 1,
        ))
        ||| (t[c].kind != Kind::Comma && t[c].kind != Kind::Space && t[c].kind != Kind::LeftParen
            && spec_next_is(t, kids, last, Kind::RightParen, seq![Kind::Space]))
    }
}

proof fn lemma_breaking_ends(t: Seq<NodeV>, cfg: CfgV, i: int, j: int, p: int)
    requires
        tree_wf(t),
        0 <= i < t.len(),
        0 <= j <= p < t[i].children.len(),
        ends_closer_unindented(spec_breaking(t, cfg, i, p)),
    ensures
        ends_closer_unindented(spec_breaking(t, cfg, i, j)),
    decreases p - j,
{
    if j < p {
        lemma_breaking_ends(t, cfg, i, j + 1, p);
        let kids = t[i].children;
        let c = kids[j] as int;
        let rest = spec_breaking(t, cfg, i, j + 1);
        if t[c].kind == Kind::LeftParen {
            lemma_ends_transport(t[c].text + seq!['\n'] + rep_char(' ', cfg.indent_width), rest);
        } else if t[c].kind == Kind::Space {
        } else if t[c].kind == Kind::Comma {
            if spec_is_last(t, kids, j + 1) && spec_trailing(t, kids, j) {
                lemma_ends_transport(t[c].text + seq!['\n'], rest);
            } else {
                lemma_ends_transport(t[c].text + seq!['\n'] + rep_char(' ', cfg.indent_width), rest);
            }
        } else {
            if spec_next_is(t, kids, j + 1, Kind::RightParen, seq![Kind::Space]) {
                lemma_ends_transport(t[c].text + seq![','] + seq!['\n'], rest);
            } else {
                lemma_ends_transport(spec_frag(t, cfg, c), rest);
            }
        }
    }
}

/// In the breaking layout the final argument is always followed by a
/// comma — the source's trailing comma is kept, or one is synthesized —
/// and the closing delimiter sits alone on its own unindented line: the
/// output ends in a newline followed only by the closing parenthesis.
pub proof fn lemma_breaking_closer_alone(t: Seq<NodeV>, cfg: CfgV, i: int)
    requires
        tree_wf(t),
        0 <= i < t.len(),
        breaking_closes_properly(t, i),
    ensures
        ends_closer_unindented(spec_breaking(t, cfg, i, 0)),
{
    let kids = t[i].children;
    let last = kids.len() - 1;
    let cl = kids[last] as int;
    let cp = kids[last - 1] as int;
    assert(0 <= last - 1 < t[i].children.len() && 0 <= last < t[i].children.len());
    assert(spec_breaking(t, cfg, i, last + 1) =~= Seq::<char>::empty());
    assert(spec_cat(t, cfg, cl, 0) =~= Seq::<char>::empty());
    assert(spec_frag(t, cfg, cl) =~= seq![')']);
    assert(spec_breaking(t, cfg, i, last) =~= seq![')']);
    let rest = spec_breaking(t, cfg, i, last);
    if t[cp].kind == Kind::Comma {
        let piece = t[cp].text + seq!['\n'];
        assert(spec_breaking(t, cfg, i, last - 1) == piece + rest);
        assert(ends_closer_unindented(piece + rest)) by {
            assert((piece + rest)[(piece + rest).len() - 1] == ')');
            assert((piece + rest)[(piece + rest).len() - 2] == piece[piece.len() - 1]);
        }
    } else {
        let piece = t[cp].text + seq![','] + seq!['\n'];
        assert(spec_breaking(t, cfg, i, last - 1) == piece + rest);
        assert(ends_closer_unindented(piece + rest)) by {
            assert((piece + rest)[(piece + rest).len() - 1] == ')');
            assert((piece + rest)[(piece + rest).len() - 2] == piece[piece.len() - 1]);
        }
    }
    if last - 1 > 0 {
        lemma_breaking_ends(t, cfg, i, 0, last - 1);
    }
}


/// `s` holds no literal space at all.
pub open spec fn space_free(s: Seq<char>) -> bool {
    forall|j: int| #![trigger s[j]] 0 <= j < s.len() ==> s[j] != ' '
}

/// What may follow a newline at position `j` of `s`: nothing (the text
/// ends there), the closing delimiter's own line, or an argument line
/// opened by exactly `w` spaces and then a printable character.
pub open spec fn line_after_ok(s: Seq<char>, j: int, w: int) -> bool {
    ||| j + 1 == s.len()
    ||| s[j + 1] == ')'
    ||| ((forall|m: int| j < m <= j + w ==> s[m] == ' ') && j + w + 1 < s.len() && s[j + w + 1]
        != ' ')
}

/// Every newline of `s` from position `start` on opens an admissible line.
pub open spec fn li_from(s: Seq<char>, w: int, start: int) -> bool {
    forall|j: int| #![trigger s[j]] start <= j < s.len() && s[j] == '\n' ==> line_after_ok(s, j, w)
}

pub open spec fn lines_indented(s: Seq<char>, w: int) -> bool {
    li_from(s, w, 0)
}

proof fn lemma_li_shift(x: Seq<char>, y: Seq<char>, w: int)
    requires
        lines_indented(y, w),
        0 <= w,
    ensures
        li_from(x + y, w, x.len() as int),
{
    let s = x + y;
    assert forall|j: int| x.len() <= j < s.len() && #[trigger] s[j] == '\n' implies line_after_ok(
        s,
        j,
        w,
    ) by {
        let jj = j - x.len();
        assert(y[jj] == s[j]);
        assert(line_after_ok(y, jj, w));
        if jj + 1 == y.len() {
        } else if y[jj + 1] == ')' {
            assert(s[j + 1] == y[jj + 1]);
        } else {
            assert forall|m: int| j < m <= j + w implies s[m] == ' ' by {
                assert(s[m] == y[m - x.len()]);
            }
            assert(s[j + w + 1] == y[jj + w + 1]);
        }
    }
}

/// A delimiter-regular argument list: the closing parenthesis is exactly
/// the last child (and no other terminator kind occurs), the opener and
/// the commas carry space- and newline-free texts, and every other child
/// has a newline-free text and a non-empty, newline-free fragment that
/// does not start with a space.
pub open spec fn breaking_inputs_flat(t: Seq<NodeV>, cfg: CfgV, i: int) -> bool {
    let kids = t[i].children;
    &&& kids.len() >= 2
    &&& forall|m: int|
        #![trigger kids[m]]
        0 <= m < kids.len() ==> {
            let c = kids[m] as int;
            &&& (t[c].kind == Kind::RightParen <==> m == kids.len() - 1)
            &&& t[c].kind != Kind::Terminator
            &&& (t[c].kind == Kind::RightParen ==> t[c].text == seq![')'] && t[c].children.len()
                == 0)
            &&& (t[c].kind == Kind::LeftParen ==> newline_free(t[c].text) && space_free(t[c].text)
                && t[c].text.len() > 0)
            &&& (t[c].kind == Kind::Comma ==> newline_free(t[c].text) && space_free(t[c].text))
            &&& (t[c].kind != Kind::RightParen && t[c].kind != Kind::LeftParen && t[c].kind
                != Kind::Comma && t[c].kind != Kind::Space ==> newline_free(t[c].text) && (
            t[c].text.len() > 0 ==> t[c].text[0] != ' ') && newline_free(spec_frag(t, cfg, c))
                && spec_frag(t, cfg, c).len() > 0 && spec_frag(t, cfg, c)[0] != ' ')
        }
}

/// Behind a child whose next significant sibling is the closing
/// parenthesis, the breaking walk renders exactly that delimiter.
proof fn lemma_breaking_tail_closer(t: Seq<NodeV>, cfg: CfgV, i: int, j: int)
    requires
        tree_wf(t),
        0 <= i < t.len(),
        breaking_inputs_flat(t, cfg, i),
        0 <= j < t[i].children.len(),
        spec_next_is(t, t[i].children, j, Kind::RightParen, seq![Kind::Space]),
    ensures
        spec_breaking(t, cfg, i, j) == seq![')'],
    decreases t[i].children.len() - j,
{
    let kids = t[i].children;
    let c = kids[j] as int;
    assert(0 <= j < kids.len() && kids[j] == t[i].children[j]);
    assert(seq![Kind::Space].contains(t[c].kind) <==> t[c].kind == Kind::Space) by {
        assert(seq![Kind::Space][0] == Kind::Space);
    }
    if t[c].kind == Kind::Space {
        lemma_breaking_tail_closer(t, cfg, i, j + 1);
    } else {
        assert(t[c].kind == Kind::RightParen);
        assert(j == kids.len() - 1);
        assert(spec_breaking(t, cfg, i, j + 1) =~= Seq::<char>::empty());
        assert(spec_cat(t, cfg, c, 0) =~= Seq::<char>::empty());
        assert(spec_frag(t, cfg, c) =~= seq![')']);
        assert(spec_breaking(t, cfg, i, j) =~= seq![')']);
    }
}

/// In the breaking layout every line after the first is an argument line
/// indented by exactly one indent level, or the closing delimiter's own
/// unindented line: after every newline of the output comes either the
/// closing parenthesis, or exactly `indent_width` spaces and then a
/// printable character.
pub proof fn lemma_breaking_lines_indented(t: Seq<NodeV>, cfg: CfgV, i: int, k: int)
    requires
        tree_wf(t),
        0 <= i < t.len(),
        breaking_inputs_flat(t, cfg, i),
        0 <= k <= t[i].children.len(),
        0 <= cfg.indent_width,
    ensures
        lines_indented(spec_breaking(t, cfg, i, k), cfg.indent_width),
        k < t[i].children.len() ==> spec_breaking(t, cfg, i, k).len() > 0,
        spec_breaking(t, cfg, i, k).len() > 0 ==> spec_breaking(t, cfg, i, k)[0] != ' ',
    decreases t[i].children.len() - k,
{
    let kids = t[i].children;
    let w = cfg.indent_width;
    let b = spec_breaking(t, cfg, i, k);
    if k == kids.len() {
        assert(b =~= Seq::<char>::empty());
    } else {
        lemma_breaking_lines_indented(t, cfg, i, k + 1);
        let c = kids[k] as int;
        let rest = spec_breaking(t, cfg, i, k + 1);
        assert(0 <= k < kids.len() && kids[k] == t[i].children[k]);
        assert(seq![Kind::Space].contains(t[c].kind) <==> t[c].kind == Kind::Space) by {
            assert(seq![Kind::Space][0] == Kind::Space);
        }
        if t[c].kind == Kind::Space {
            assert(k < kids.len() - 1);
            assert(b == rest);
            assert(b.len() > 0 && b[0] != ' ');
        } else if t[c].kind == Kind::RightParen {
            assert(k == kids.len() - 1);
            assert(spec_next_is(t, kids, k + 1, Kind::RightParen, seq![Kind::Space]) == false);
            assert(spec_cat(t, cfg, c, 0) =~= Seq::<char>::empty());
            assert(spec_frag(t, cfg, c) =~= seq![')']);
            assert(b =~= seq![')']);
            assert(b[0] == ')');
            assert forall|j: int| 0 <= j < b.len() && #[trigger] b[j] == '\n' implies line_after_ok(
                b,
                j,
                w,
            ) by {
                assert(b[0] == ')');
            }
        } else if t[c].kind == Kind::Comma && spec_is_last(t, kids, k + 1) && spec_trailing(
            t,
            kids,
            k,
        ) {
            // a trailing last comma: its next significant sibling is the
            // closing parenthesis, which renders alone
            assert(k + 1 < kids.len() && kids[k + 1] == t[i].children[k + 1]);
            if k + 1 < kids.len() && t[(kids[k + 1]) as int].kind == Kind::Space {
                assert(k + 2 < kids.len() && kids[k + 2] == t[i].children[k + 2]);
                assert(t[(kids[k + 2]) as int].kind == Kind::RightParen);
                assert(spec_next_is(t, kids, k + 1, Kind::RightParen, seq![Kind::Space])) by {
                    assert(seq![Kind::Space].contains(t[(kids[k + 1]) as int].kind)) by {
                        assert(seq![Kind::Space][0] == Kind::Space);
                    }
                    assert(!seq![Kind::Space].contains(t[(kids[k + 2]) as int].kind)) by {
                        assert(seq![Kind::Space][0] == Kind::Space);
                    }
                    assert(spec_next_is(t, kids, k + 2, Kind::RightParen, seq![Kind::Space]));
                }
            } else {
                assert(t[(kids[k + 1]) as int].kind == Kind::RightParen);
                assert(spec_next_is(t, kids, k + 1, Kind::RightParen, seq![Kind::Space])) by {
                    assert(!seq![Kind::Space].contains(t[(kids[k + 1]) as int].kind)) by {
                        assert(seq![Kind::Space][0] == Kind::Space);
                    }
                }
            }
            lemma_breaking_tail_closer(t, cfg, i, k + 1);
            let x = t[c].text + seq!['\n'];
            assert(b == x + rest);
            let u = t[c].text.len() as int;
            assert(lines_indented(rest, w)) by {
                assert forall|j: int| 0 <= j < rest.len() && #[trigger] rest[j] == '\n'
                    implies line_after_ok(rest, j, w) by {
                    assert(rest[0] == ')');
                }
            }
            lemma_li_shift(x, rest, w);
            assert forall|j: int| 0 <= j < b.len() && #[trigger] b[j] == '\n' implies line_after_ok(
                b,
                j,
                w,
            ) by {
                if j < u {
                    assert(b[j] == t[c].text[j]);
                } else if j == u {
                    assert(b[j + 1] == rest[0]);
                    assert(rest[0] == ')');
                }
            }
            assert(b.len() > 0);
            if u > 0 {
                assert(b[0] == t[c].text[0]);
            } else {
                assert(b[0] == '\n');
            }
            assert(b[0] != ' ');
        } else if t[c].kind == Kind::Comma || t[c].kind == Kind::LeftParen {
            // a comma between arguments, or the opener: a newline and one
            // indent level follow, then the next piece, which starts solid
            let x = t[c].text + seq!['\n'] + rep_char(' ', w);
            assert(b == x + rest);
            let u = t[c].text.len() as int;
            assert(k < kids.len() - 1);
            assert(rest.len() > 0 && rest[0] != ' ');
            assert(x.len() == u + 1 + w);
            lemma_li_shift(x, rest, w);
            assert forall|j: int| 0 <= j < b.len() && #[trigger] b[j] == '\n' implies line_after_ok(
                b,
                j,
                w,
            ) by {
                if j < u {
                    assert(b[j] == t[c].text[j]);
                } else if j == u {
                    assert(line_after_ok(b, j, w)) by {
                        assert forall|m: int| j < m <= j + w implies b[m] == ' ' by {
                            assert(b[m] == x[m]);
                            assert(x[m] == rep_char(' ', w)[m - u - 1]);
                        }
                        assert(b[j + w + 1] == rest[0]);
                    }
                } else if j < u + 1 + w {
                    assert(b[j] == rep_char(' ', w)[j - u - 1]);
                }
            }
            assert(b.len() > 0);
            if u > 0 {
                assert(b[0] == t[c].text[0]);
            } else {
                assert(b[0] == '\n');
            }
            assert(b[0] != ' ');
        } else {
            // a plain argument: passed through, or closed with a
            // synthesized trailing comma when the closer follows it
            if spec_next_is(t, kids, k + 1, Kind::RightParen, seq![Kind::Space]) {
                lemma_breaking_tail_closer(t, cfg, i, k + 1);
                let x = t[c].text + seq![','] + seq!['\n'];
                assert(b == x + rest);
                let u = t[c].text.len() as int;
                assert(lines_indented(rest, w)) by {
                    assert forall|j: int| 0 <= j < rest.len() && #[trigger] rest[j] == '\n'
                        implies line_after_ok(rest, j, w) by {
                        assert(rest[0] == ')');
                    }
                }
                lemma_li_shift(x, rest, w);
                assert forall|j: int| 0 <= j < b.len() && #[trigger] b[j] == '\n'
                    implies line_after_ok(b, j, w) by {
                    if j < u {
                        assert(b[j] == t[c].text[j]);
                    } else if j == u {
                        assert(b[j] == ',');
                    } else if j == u + 1 {
                        assert(b[j + 1] == rest[0]);
                        assert(rest[0] == ')');
                    }
                }
                assert(b.len() > 0);
                if u > 0 {
                    assert(b[0] == t[c].text[0]);
                } else {
                    assert(b[0] == ',');
                }
                assert(b[0] != ' ');
            } else {
                let x = spec_frag(t, cfg, c);
                assert(b == x + rest);
                assert(k < kids.len() - 1);
                lemma_li_shift(x, rest, w);
                assert forall|j: int| 0 <= j < b.len() && #[trigger] b[j] == '\n'
                    implies line_after_ok(b, j, w) by {
                    if j < x.len() {
                        assert(b[j] == x[j]);
                    }
                }
                assert(b.len() > 0);
                assert(b[0] == x[0]);
                assert(b[0] != ' ');
            }
        }
    }
}

} // verus!
