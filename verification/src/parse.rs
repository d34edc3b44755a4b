//! The edge to the external parser: the formatter consumes a read-only
//! syntax tree produced by typst-syntax, copied into the library's own
//! arena so the verified renderer can walk it.
//!
//! The parser is a pure function of the source text, so the arena built
//! from its tree by the fixed scheme below is one too; `parse_of` names
//! that arena, and everything downstream of this edge is verified against
//! it.

use vstd::prelude::*;
use crate::tree::{Kind, Node, NodeV, Tree, tree_wf};

verus! {

#[verifier::external_type_specification]
#[verifier::external_body]
pub struct ExSyntaxNode(typst_syntax::SyntaxNode);

/// The arena image of the syntax tree that typst_syntax::parse assigns to
/// a text: node 0 the root, each node's children appended after it in
/// order, exactly as `parse_to_tree` lays them out. The parser depends on
/// the text alone, so this is a function of the text.
pub uninterp spec fn parse_of(s: Seq<char>) -> Seq<NodeV>;

/// Relies on SyntaxNode::kind and the SyntaxKind enumeration: classifies a
/// node into the kinds the formatter distinguishes. The kinds that
/// SyntaxKind::is_terminator names, other than the right parenthesis, map
/// to Terminator.
#[verifier::external_body]
fn node_kind(n: &typst_syntax::SyntaxNode) -> Kind {
    match n.kind() {
        typst_syntax::SyntaxKind::Space => Kind::Space,
        typst_syntax::SyntaxKind::Parbreak => Kind::Parbreak,
        typst_syntax::SyntaxKind::Comma => Kind::Comma,
        typst_syntax::SyntaxKind::LeftParen => Kind::LeftParen,
        typst_syntax::SyntaxKind::RightParen => Kind::RightParen,
        typst_syntax::SyntaxKind::End => Kind::Terminator,
        typst_syntax::SyntaxKind::Semicolon => Kind::Terminator,
        typst_syntax::SyntaxKind::RightBrace => Kind::Terminator,
        typst_syntax::SyntaxKind::RightBracket => Kind::Terminator,
        typst_syntax::SyntaxKind::Args => Kind::Args,
        _ => Kind::Other,
    }
}

/// Relies on typst_syntax::parse, SyntaxNode::leaf_text and
/// SyntaxNode::children: the parser is total on any text, recovers from
/// errors, and yields a tree determined by the text alone, so the arena
/// built below is the named `parse_of(s@)`. The first clause only names
/// that arena; the second one holds by the construction in this body: the
/// worklist starts with the root, and each child's index is recorded as
/// the worklist length right before the child is appended, so it points
/// strictly past its parent and inside the arena, and the arena is
/// non-empty.
#[verifier::external_body]
pub(crate) fn parse_to_tree(s: &str) -> (t: Tree)
    ensures
        t@ == parse_of(s@),
        tree_wf(t@),
{
    let mut syn = vec![typst_syntax::parse(s)];
    let mut nodes: Vec<Node> = Vec::new();
    let mut cur: usize = 0;
    while cur < syn.len() {
        let mut children: Vec<usize> = Vec::new();
        for c in syn[cur].children().cloned().collect::<Vec<_>>() {
            children.push(syn.len());
            syn.push(c);
        }
        let text = String::from(syn[cur].leaf_text().as_str());
        nodes.push(Node { kind: node_kind(&syn[cur]), text, children });
        cur += 1;
    }
    Tree { nodes }
}

} // verus!
