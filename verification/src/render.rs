//! The rendering engine: a post-order traversal over the tree that emits
//! normalized text, with the one-line versus breaking layout decision for
//! argument lists.
//!
//! Every executable function is specified against a pure mathematical
//! rendering (`spec_frag` and its companions) that states exactly what text
//! a node produces.

use vstd::prelude::*;
use crate::tree::{CfgV, Kind, NodeV, Tree, is_term, tree_wf};
use crate::ctx::{Ctx, ctx_reset};
use crate::chars::{
    dup,
    effective_len,
    lines_count,
    max_line_length,
    rep_char,
    str_chars,
};

verus! {

pub open spec fn min_i(a: int, b: int) -> int {
    if a <= b {
        a
    } else {
        b
    }
}

/// A comma is *trailing* when its next sibling, skipping at most one space
/// sibling, is a terminator.
pub open spec fn spec_trailing(t: Seq<NodeV>, kids: Seq<usize>, k: int) -> bool {
    if k + 1 < kids.len() && t[kids[k + 1] as int].kind == Kind::Space {
        k + 2 < kids.len() && is_term(t[kids[k + 2] as int].kind)
    } else {
        k + 1 < kids.len() && is_term(t[kids[k + 1] as int].kind)
    }
}

/// Walking forward from position `j`: true when a terminator comes before
/// any further comma. A walk that leaves the sibling list finds no further
/// comma either, so it counts as reaching the end of the list.
pub open spec fn spec_is_last(t: Seq<NodeV>, kids: Seq<usize>, j: int) -> bool
    decreases kids.len() - j,
{
    if 0 <= j < kids.len() {
        if t[kids[j] as int].kind == Kind::Comma {
            false
        } else if is_term(t[kids[j] as int].kind) {
            true
        } else {
            spec_is_last(t, kids, j + 1)
        }
    } else {
        true
    }
}

/// Skipping any run of siblings whose kind is in `ign`, true iff the first
/// other sibling from position `j` on has kind `want`.
pub open spec fn spec_next_is(
    t: Seq<NodeV>,
    kids: Seq<usize>,
    j: int,
    want: Kind,
    ign: Seq<Kind>,
) -> bool
    decreases kids.len() - j,
{
    if 0 <= j < kids.len() {
        if ign.contains(t[kids[j] as int].kind) {
            spec_next_is(t, kids, j + 1, want, ign)
        } else {
            t[kids[j] as int].kind == want
        }
    } else {
        false
    }
}

/// The text node `i` renders to.
pub open spec fn spec_frag(t: Seq<NodeV>, cfg: CfgV, i: int) -> Seq<char>
    decreases t.len() - i, 3int, 0int,
{
    if tree_wf(t) && 0 <= i < t.len() {
        if t[i].kind == Kind::Args {
            spec_args(t, cfg, i)
        } else if t[i].kind == Kind::Space {
            seq![' ']
        } else {
            spec_default(t, cfg, i)
        }
    } else {
        Seq::empty()
    }
}

/// An argument list: the one-line candidate, unless its effective length
/// reaches the configured limit, in which case the breaking layout.
pub open spec fn spec_args(t: Seq<NodeV>, cfg: CfgV, i: int) -> Seq<char>
    decreases t.len() - i, 2int, 0int,
{
    if tree_wf(t) && 0 <= i < t.len() {
        let ol = spec_one_line(t, cfg, i, 0);
        if effective_len(ol) >= cfg.max_line_length {
            spec_breaking(t, cfg, i, 0)
        } else {
            ol
        }
    } else {
        Seq::empty()
    }
}

/// Any non-argument-list node: a paragraph break collapses to at most two
/// newlines; everything else is its literal text followed by its children's
/// fragments.
pub open spec fn spec_default(t: Seq<NodeV>, cfg: CfgV, i: int) -> Seq<char>
    decreases t.len() - i, 2int, 0int,
{
    if tree_wf(t) && 0 <= i < t.len() {
        if t[i].kind == Kind::Parbreak {
            rep_char('\n', min_i(lines_count(t[i].text), 2))
        } else {
            t[i].text + spec_cat(t, cfg, i, 0)
        }
    } else {
        Seq::empty()
    }
}

/// The children's fragments of node `i`, concatenated, from child `k` on.
pub open spec fn spec_cat(t: Seq<NodeV>, cfg: CfgV, i: int, k: int) -> Seq<char>
    decreases t.len() - i, 1int, t[i].children.len() - k,
{
    if tree_wf(t) && 0 <= i < t.len() && 0 <= k <= t[i].children.len() {
        if k == t[i].children.len() {
            Seq::empty()
        } else {
            spec_frag(t, cfg, t[i].children[k] as int) + spec_cat(t, cfg, i, k + 1)
        }
    } else {
        Seq::empty()
    }
}

/// One-line layout of an argument list, from child `k` on: spaces dropped,
/// a trailing comma dropped, any other comma followed by exactly one space,
/// everything else passed through.
pub open spec fn spec_one_line(t: Seq<NodeV>, cfg: CfgV, i: int, k: int) -> Seq<char>
    decreases t.len() - i, 1int, t[i].children.len() - k,
{
    if tree_wf(t) && 0 <= i < t.len() && 0 <= k <= t[i].children.len() {
        if k == t[i].children.len() {
            Seq::empty()
        } else {
            let kids = t[i].children;
            let c = kids[k] as int;
            let rest = spec_one_line(t, cfg, i, k + 1);
            if t[c].kind == Kind::Space {
                rest
            } else if t[c].kind == Kind::Comma {
                if spec_trailing(t, kids, k) {
                    rest
                } else {
                    t[c].text + seq![' '] + rest
                }
            } else {
                spec_frag(t, cfg, c) + rest
            }
        }
    } else {
        Seq::empty()
    }
}

/// Breaking layout of an argument list, from child `k` on: one argument per
/// line, each line indented by one indent level, the last comma before the
/// terminator left unindented, and a trailing comma synthesized after a
/// final argument that has none.
pub open spec fn spec_breaking(t: Seq<NodeV>, cfg: CfgV, i: int, k: int) -> Seq<char>
    decreases t.len() - i, 1int, t[i].children.len() - k,
{
    if tree_wf(t) && 0 <= i < t.len() && 0 <= k <= t[i].children.len() {
        if k == t[i].children.len() {
            Seq::empty()
        } else {
            let kids = t[i].children;
            let c = kids[k] as int;
            let rest = spec_breaking(t, cfg, i, k + 1);
            if t[c].kind == Kind::LeftParen {
                t[c].text + seq!['\n'] + rep_char(' ', cfg.indent_width) + rest
            } else if t[c].kind == Kind::Space {
                rest
            } else if t[c].kind == Kind::Comma {
                if spec_is_last(t, kids, k + 1) && spec_trailing(t, kids, k) {
                    t[c].text + seq!['\n'] + rest
                } else {
                    t[c].text + seq!['\n'] + rep_char(' ', cfg.indent_width) + rest
                }
            } else {
                if spec_next_is(t, kids, k + 1, Kind::RightParen, seq![Kind::Space]) {
                    t[c].text + seq![','] + seq!['\n'] + rest
                } else {
                    spec_frag(t, cfg, c) + rest
                }
            }
        }
    } else {
        Seq::empty()
    }
}

/// The whole run: the fragment of the root node.
pub open spec fn spec_format(t: Seq<NodeV>, cfg: CfgV) -> Seq<char> {
    spec_frag(t, cfg, 0)
}

/// Every entry of `kids` indexes into the tree.
pub open spec fn kids_in(t: Seq<NodeV>, kids: Seq<usize>) -> bool {
    forall|j: int| 0 <= j < kids.len() ==> (#[trigger] kids[j] as int) < t.len()
}

fn is_terminator(k: Kind) -> (r: bool)
    ensures
        r == is_term(k),
{
    k == Kind::RightParen || k == Kind::Terminator
}

fn kind_in(ks: &Vec<Kind>, k: Kind) -> (r: bool)
    ensures
        r == ks@.contains(k),
{
    let mut m: usize = 0;
    while m < ks.len()
        invariant
            m <= ks@.len(),
            forall|n: int| 0 <= n < m ==> ks@[n] != k,
        decreases ks@.len() - m,
    {
        if ks[m] == k {
            return true;
        }
        m = m + 1;
    }
    false
}

/// True iff the first sibling after `pos`, skipping kinds in `ignoring`,
/// has kind `is`.
pub fn next_is_ignoring(
    t: &Tree,
    kids: &Vec<usize>,
    pos: usize,
    is: Kind,
    ignoring: &Vec<Kind>,
) -> (r: bool)
    requires
        kids_in(t@, kids@),
        pos < kids@.len(),
    ensures
        r == spec_next_is(t@, kids@, pos + 1, is, ignoring@),
{
    let n = kids.len();
    let mut j: usize = pos + 1;
    while j < n
        invariant
            n == kids@.len(),
            kids_in(t@, kids@),
            pos < j <= kids@.len(),
            spec_next_is(t@, kids@, pos + 1, is, ignoring@) == spec_next_is(
                t@,
                kids@,
                j as int,
                is,
                ignoring@,
            ),
        decreases kids@.len() - j,
    {
        let kk = t.nodes[kids[j]].kind;
        if kind_in(ignoring, kk) {
            j = j + 1;
        } else {
            return kk == is;
        }
    }
    false
}

/// True iff this comma's next sibling, skipping at most one space sibling,
/// is a terminator.
pub fn is_trailing_comma(t: &Tree, kids: &Vec<usize>, pos: usize) -> (r: bool)
    requires
        kids_in(t@, kids@),
        pos < kids@.len(),
        t@[kids@[pos as int] as int].kind == Kind::Comma,
    ensures
        r == spec_trailing(t@, kids@, pos as int),
{
    let n = kids.len();
    if pos + 1 < n && t.nodes[kids[pos + 1]].kind == Kind::Space {
        if pos + 2 < n {
            is_terminator(t.nodes[kids[pos + 2]].kind)
        } else {
            false
        }
    } else {
        if pos + 1 < n {
            is_terminator(t.nodes[kids[pos + 1]].kind)
        } else {
            false
        }
    }
}

/// True iff no further comma comes before a terminator among this comma's
/// forward siblings. A list whose walk leaves the sibling list without
/// meeting a terminator is malformed upstream; the walk then counts the end
/// of the list as terminating.
pub fn is_last_comma(t: &Tree, kids: &Vec<usize>, pos: usize) -> (r: bool)
    requires
        kids_in(t@, kids@),
        pos < kids@.len(),
        t@[kids@[pos as int] as int].kind == Kind::Comma,
    ensures
        r == spec_is_last(t@, kids@, pos + 1),
{
    let n = kids.len();
    let mut j: usize = pos + 1;
    while j < n
        invariant
            n == kids@.len(),
            kids_in(t@, kids@),
            pos < j <= kids@.len(),
            spec_is_last(t@, kids@, pos + 1) == spec_is_last(t@, kids@, j as int),
        decreases kids@.len() - j,
    {
        let kk = t.nodes[kids[j]].kind;
        if kk == Kind::Comma {
            return false;
        }
        if is_terminator(kk) {
            return true;
        }
        j = j + 1;
    }
    true
}

/// The children of a well-formed tree's node index into the tree, strictly
/// past the node itself.
pub proof fn lemma_node_kids(t: Seq<NodeV>, i: int)
    requires
        tree_wf(t),
        0 <= i < t.len(),
    ensures
        kids_in(t, t[i].children),
        forall|j: int|
            0 <= j < t[i].children.len() ==> i < #[trigger] t[i].children[j] as int,
{
    assert forall|j: int|
        0 <= j < t[i].children.len() implies i < #[trigger] t[i].children[j] as int && (t[i].children[j] as int)
        < t.len() by {
        assert(0 <= i < t.len() && 0 <= j < t[i].children.len());
    }
}

/// The requirement the renderers put on the already-rendered child
/// fragments handed to them: one fragment per child, each the child's own
/// rendering.
pub open spec fn frags_ok(t: Seq<NodeV>, cfg: CfgV, i: int, frs: Seq<Vec<char>>) -> bool {
    &&& frs.len() == t[i].children.len()
    &&& forall|m: int|
        0 <= m < frs.len() ==> (#[trigger] frs[m])@ == spec_frag(t, cfg, t[i].children[m] as int)
}

/// Renders the one-line candidate of an argument list from its children's
/// fragments.
pub fn format_args_one_line(t: &Tree, i: usize, children: &Vec<Vec<char>>, ctx: &mut Ctx) -> (res:
    Vec<char>)
    requires
        t.wf(),
        (i as int) < t@.len(),
        frags_ok(t@, old(ctx)@.cfg, i as int, children@),
    ensures
        res@ == spec_one_line(t@, old(ctx)@.cfg, i as int, 0),
        final(ctx)@.cfg == old(ctx)@.cfg,
{
    let ghost cfg = old(ctx)@.cfg;
    let mut res: Vec<char> = Vec::new();
    let n = t.nodes[i].children.len();
    proof {
        lemma_node_kids(t@, i as int);
    }
    let mut k: usize = 0;
    while k < n
        invariant
            t.wf(),
            (i as int) < t@.len(),
            frags_ok(t@, cfg, i as int, children@),
            n == t@[i as int].children.len(),
            k <= n,
            ctx@.cfg == cfg,
            spec_one_line(t@, cfg, i as int, 0) == res@ + spec_one_line(
                t@,
                cfg,
                i as int,
                k as int,
            ),
        decreases n - k,
    {
        proof {
            lemma_node_kids(t@, i as int);
        }
        let c: usize = t.nodes[i].children[k];
        let kk = t.nodes[c].kind;
        let ghost pre = res@;
        let ghost rest = spec_one_line(t@, cfg, i as int, k as int + 1);
        if kk == Kind::Space {
        } else if kk == Kind::Comma {
            if is_trailing_comma(t, &t.nodes[i].children, k) {
            } else {
                let mut txt = str_chars(t.nodes[c].text.as_str());
                res.append(&mut txt);
                res.push(' ');
                ctx.pushed_raw();
                proof {
                    assert(res@ =~= pre + (t@[c as int].text + seq![' ']));
                    assert(pre + (t@[c as int].text + seq![' '] + rest) =~= res@ + rest);
                }
            }
        } else {
            let mut f = dup(&children[k]);
            res.append(&mut f);
            ctx.pushed_raw();
            proof {
                assert(pre + (spec_frag(t@, cfg, c as int) + rest) =~= res@ + rest);
            }
        }
        k = k + 1;
    }
    proof {
        assert(res@ + spec_one_line(t@, cfg, i as int, n as int) =~= res@);
    }
    res
}

/// Renders the breaking layout of an argument list from its children's
/// fragments: one argument per line, indented one level, the closing
/// delimiter alone on its own unindented line.
///
/// A comma with no terminator among its forward siblings marks a
/// malformed tree — a contract breach by the upstream parser, which
/// always terminates its lists. This renderer stays total on such a tree
/// instead of aborting: the trailing check below guards the forward walk,
/// and the walk counts the end of the sibling list as terminating.
pub fn format_args_breaking(t: &Tree, i: usize, children: &Vec<Vec<char>>, ctx: &mut Ctx) -> (res:
    Vec<char>)
    requires
        t.wf(),
        (i as int) < t@.len(),
        frags_ok(t@, old(ctx)@.cfg, i as int, children@),
    ensures
        res@ == spec_breaking(t@, old(ctx)@.cfg, i as int, 0),
        final(ctx)@.cfg == old(ctx)@.cfg,
{
    let ghost cfg = old(ctx)@.cfg;
    let mut res: Vec<char> = Vec::new();
    let n = t.nodes[i].children.len();
    proof {
        lemma_node_kids(t@, i as int);
    }
    let mut ign: Vec<Kind> = Vec::new();
    ign.push(Kind::Space);
    proof {
        assert(ign@ =~= seq![Kind::Space]);
    }
    let mut k: usize = 0;
    while k < n
        invariant
            t.wf(),
            (i as int) < t@.len(),
            frags_ok(t@, cfg, i as int, children@),
            n == t@[i as int].children.len(),
            k <= n,
            ign@ == seq![Kind::Space],
            ctx@.cfg == cfg,
            spec_breaking(t@, cfg, i as int, 0) == res@ + spec_breaking(
                t@,
                cfg,
                i as int,
                k as int,
            ),
        decreases n - k,
    {
        proof {
            lemma_node_kids(t@, i as int);
        }
        let c: usize = t.nodes[i].children[k];
        let kk = t.nodes[c].kind;
        let ghost pre = res@;
        let ghost rest = spec_breaking(t@, cfg, i as int, k as int + 1);
        if kk == Kind::LeftParen {
            let mut txt = str_chars(t.nodes[c].text.as_str());
            res.append(&mut txt);
            res.push('\n');
            let mut ind = ctx.indent();
            res.append(&mut ind);
            proof {
                assert(res@ =~= pre + (t@[c as int].text + seq!['\n'] + rep_char(
                    ' ',
                    cfg.indent_width,
                )));
                assert(pre + (t@[c as int].text + seq!['\n'] + rep_char(' ', cfg.indent_width)
                    + rest) =~= res@ + rest);
            }
        } else if kk == Kind::Space {
        } else if kk == Kind::Comma {
            // the trailing check comes first: a trailing comma has a
            // terminator at most two siblings ahead, so the forward walk
            // of the last-comma check always stops inside the list
            let trail = is_trailing_comma(t, &t.nodes[i].children, k);
            let last = if trail {
                is_last_comma(t, &t.nodes[i].children, k)
            } else {
                false
            };
            if last && trail {
                let mut txt = str_chars(t.nodes[c].text.as_str());
                res.append(&mut txt);
                res.push('\n');
                ctx.pushed_raw();
                proof {
                    assert(res@ =~= pre + (t@[c as int].text + seq!['\n']));
                    assert(pre + (t@[c as int].text + seq!['\n'] + rest) =~= res@ + rest);
                }
            } else {
                let mut txt = str_chars(t.nodes[c].text.as_str());
                res.append(&mut txt);
                res.push('\n');
                let mut ind = ctx.indent();
                res.append(&mut ind);
                ctx.pushed_raw();
                proof {
                    assert(res@ =~= pre + (t@[c as int].text + seq!['\n'] + rep_char(
                        ' ',
                        cfg.indent_width,
                    )));
                    assert(pre + (t@[c as int].text + seq!['\n'] + rep_char(' ', cfg.indent_width)
                        + rest) =~= res@ + rest);
                }
            }
        } else {
            if next_is_ignoring(t, &t.nodes[i].children, k, Kind::RightParen, &ign) {
                let mut txt = str_chars(t.nodes[c].text.as_str());
                res.append(&mut txt);
                res.push(',');
                res.push('\n');
                ctx.pushed_raw();
                proof {
                    assert(res@ =~= pre + (t@[c as int].text + seq![','] + seq!['\n']));
                    assert(pre + (t@[c as int].text + seq![','] + seq!['\n'] + rest) =~= res@
                        + rest);
                }
            } else {
                let mut f = dup(&children[k]);
                res.append(&mut f);
                ctx.pushed_raw();
                proof {
                    assert(pre + (spec_frag(t@, cfg, c as int) + rest) =~= res@ + rest);
                }
            }
        }
        k = k + 1;
    }
    proof {
        assert(res@ + spec_breaking(t@, cfg, i as int, n as int) =~= res@);
    }
    res
}

/// Renders an argument list: measures the one-line candidate and falls back
/// to the breaking layout when its effective length reaches the limit.
pub fn format_args(t: &Tree, i: usize, children: &Vec<Vec<char>>, ctx: &mut Ctx) -> (res: Vec<
    char,
>)
    requires
        t.wf(),
        (i as int) < t@.len(),
        frags_ok(t@, old(ctx)@.cfg, i as int, children@),
    ensures
        res@ == spec_args(t@, old(ctx)@.cfg, i as int),
        final(ctx)@.cfg == old(ctx)@.cfg,
{
    let res = format_args_one_line(t, i, children, ctx);
    let m = max_line_length(&res);
    if m >= ctx.config.max_line_length {
        ctx.pushed_raw();
        format_args_breaking(t, i, children, ctx)
    } else {
        res
    }
}

/// Renders any non-argument-list node: a paragraph break becomes at most
/// two newlines pushed through the context; anything else is its literal
/// text followed by its children's fragments, a raw push after each.
///
/// The context arrives reset: the traversal raw-pushes after every child,
/// so every dispatch sees a cleared context, and under it a paragraph
/// break of `n` lines emits exactly `min(n, 2)` newlines. On exit the
/// context records what was emitted: the newline counter after a
/// paragraph break, a cleared state otherwise.
pub fn format_default(t: &Tree, i: usize, children: &Vec<Vec<char>>, ctx: &mut Ctx) -> (res: Vec<
    char,
>)
    requires
        t.wf(),
        (i as int) < t@.len(),
        frags_ok(t@, old(ctx)@.cfg, i as int, children@),
        ctx_reset(old(ctx)@),
    ensures
        res@ == spec_default(t@, old(ctx)@.cfg, i as int),
        final(ctx)@.cfg == old(ctx)@.cfg,
        t@[i as int].kind == Kind::Parbreak ==> final(ctx)@.just_spaced == false
            && final(ctx)@.consec_new_line == min_i(lines_count(t@[i as int].text), 2),
        t@[i as int].kind != Kind::Parbreak ==> ctx_reset(final(ctx)@),
{
    let ghost cfg = old(ctx)@.cfg;
    if t.nodes[i].kind == Kind::Parbreak {
        let txt = str_chars(t.nodes[i].text.as_str());
        let total = crate::chars::count_lines(&txt);
        let mut nlv: Vec<char> = Vec::new();
        nlv.push('\n');
        proof {
            assert(nlv@ =~= seq!['\n']);
            assert(seq!['\n'] != seq![' ']) by {
                assert(seq!['\n'][0] == '\n');
                assert(seq![' '][0] == ' ');
            }
        }
        let mut res: Vec<char> = Vec::new();
        let mut p: usize = 0;
        while p < total
            invariant
                p <= total,
                nlv@ == seq!['\n'],
                ctx@.cfg == cfg,
                ctx@.just_spaced == false,
                ctx@.consec_new_line == min_i(p as int, 2),
                res@ == rep_char('\n', min_i(p as int, 2)),
            decreases total - p,
        {
            let ghost pre = res@;
            let mut piece = ctx.process(&nlv);
            res.append(&mut piece);
            proof {
                assert(seq!['\n'] != seq![' ']) by {
                    assert(seq!['\n'][0] == '\n');
                    assert(seq![' '][0] == ' ');
                }
                if min_i(p as int, 2) <= 1 {
                    assert(pre.push('\n') =~= rep_char('\n', min_i(p as int + 1, 2)));
                    assert(pre + seq!['\n'] =~= pre.push('\n'));
                } else {
                    assert(pre + Seq::<char>::empty() =~= pre);
                }
            }
            p = p + 1;
        }
        proof {
            assert(total == lines_count(t@[i as int].text));
        }
        res
    } else {
        let mut res = str_chars(t.nodes[i].text.as_str());
        let n = t.nodes[i].children.len();
        proof {
            lemma_node_kids(t@, i as int);
            assert(res@ + spec_cat(t@, cfg, i as int, 0) =~= t@[i as int].text + spec_cat(
                t@,
                cfg,
                i as int,
                0,
            ));
        }
        let mut k: usize = 0;
        while k < n
            invariant
                t.wf(),
                (i as int) < t@.len(),
                t@[i as int].kind != Kind::Parbreak,
                frags_ok(t@, cfg, i as int, children@),
                n == t@[i as int].children.len(),
                k <= n,
                ctx@.cfg == cfg,
                ctx_reset(ctx@),
                spec_default(t@, cfg, i as int) == res@ + spec_cat(t@, cfg, i as int, k as int),
            decreases n - k,
        {
            proof {
                lemma_node_kids(t@, i as int);
            }
            let ghost pre = res@;
            let ghost rest = spec_cat(t@, cfg, i as int, k as int + 1);
            let mut f = dup(&children[k]);
            res.append(&mut f);
            ctx.pushed_raw();
            proof {
                let c = t@[i as int].children[k as int] as int;
                assert(pre + (spec_frag(t@, cfg, c) + rest) =~= res@ + rest);
            }
            k = k + 1;
        }
        proof {
            assert(res@ + spec_cat(t@, cfg, i as int, n as int) =~= res@);
        }
        res
    }
}

/// Renders node `i`: children first, left to right, each followed by a raw
/// push into the context; then the node itself, dispatched on its kind.
pub fn visit(t: &Tree, i: usize, ctx: &mut Ctx) -> (res: Vec<char>)
    requires
        t.wf(),
        (i as int) < t@.len(),
        ctx_reset(old(ctx)@),
    ensures
        res@ == spec_frag(t@, old(ctx)@.cfg, i as int),
        final(ctx)@.cfg == old(ctx)@.cfg,
    decreases t@.len() - i,
{
    let ghost cfg = old(ctx)@.cfg;
    let mut frags: Vec<Vec<char>> = Vec::new();
    let n = t.nodes[i].children.len();
    proof {
        lemma_node_kids(t@, i as int);
    }
    let mut k: usize = 0;
    while k < n
        invariant
            t.wf(),
            (i as int) < t@.len(),
            n == t@[i as int].children.len(),
            k <= n,
            frags@.len() == k,
            forall|m: int|
                0 <= m < k ==> (#[trigger] frags@[m])@ == spec_frag(
                    t@,
                    cfg,
                    t@[i as int].children[m] as int,
                ),
            ctx@.cfg == cfg,
            ctx_reset(ctx@),
        decreases n - k,
    {
        proof {
            lemma_node_kids(t@, i as int);
        }
        let c: usize = t.nodes[i].children[k];
        let f = visit(t, c, ctx);
        frags.push(f);
        ctx.pushed_raw();
        k = k + 1;
    }
    let kd = t.nodes[i].kind;
    if kd == Kind::Args {
        format_args(t, i, &frags, ctx)
    } else if kd == Kind::Space {
        let mut r: Vec<char> = Vec::new();
        r.push(' ');
        proof {
            assert(r@ =~= seq![' ']);
        }
        r
    } else {
        format_default(t, i, &frags, ctx)
    }
}

} // verus!
