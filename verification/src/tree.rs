//! The syntax-tree model the formatter works on, and the style configuration.
//!
//! The tree is an arena: nodes live in one vector, and a node names its
//! children by index. Well-formedness demands that every child index points
//! strictly past its parent, which makes every walk down the tree terminate.

use vstd::prelude::*;

verus! {

/// Style parameters for one formatting run.
#[derive(Clone, Copy)]
pub struct Config {
    /// Number of spaces per indent level.
    pub indent_width: usize,
    /// Threshold deciding between the one-line and the breaking layout
    /// of an argument list.
    pub max_line_length: usize,
}

/// Mathematical image of a `Config`.
pub struct CfgV {
    pub indent_width: int,
    pub max_line_length: int,
}

impl View for Config {
    type V = CfgV;

    open spec fn view(&self) -> CfgV {
        CfgV { indent_width: self.indent_width as int, max_line_length: self.max_line_length as int }
    }
}

/// The closed set of node classes the formatter distinguishes.
/// Everything else the source language knows falls under `Other`.
#[derive(Clone, Copy, PartialEq, Eq, Structural, Debug)]
pub enum Kind {
    /// A run of horizontal whitespace.
    Space,
    /// A paragraph break: one or more blank lines.
    Parbreak,
    /// A comma inside an argument list.
    Comma,
    /// The opening delimiter of an argument list.
    LeftParen,
    /// The closing delimiter of an argument list.
    RightParen,
    /// Any other kind that closes a structural list.
    Terminator,
    /// An argument or parameter list.
    Args,
    /// Any other node: rendered as literal text plus its children.
    Other,
}

/// A terminator closes a structural list: the closing parenthesis, or any
/// of the other closing kinds the parser treats as list terminators.
pub open spec fn is_term(k: Kind) -> bool {
    k == Kind::RightParen || k == Kind::Terminator
}

/// One node of the arena.
pub struct Node {
    pub kind: Kind,
    /// The node's own literal text span (empty for non-terminal nodes).
    pub text: String,
    /// Indices of the children, in order, each strictly greater than the
    /// index of this node.
    pub children: Vec<usize>,
}

/// Mathematical image of a `Node`.
pub struct NodeV {
    pub kind: Kind,
    pub text: Seq<char>,
    pub children: Seq<usize>,
}

impl View for Node {
    type V = NodeV;

    open spec fn view(&self) -> NodeV {
        NodeV { kind: self.kind, text: self.text@, children: self.children@ }
    }
}

/// A whole parsed source file: the arena of nodes. The root is node 0.
pub struct Tree {
    pub nodes: Vec<Node>,
}

impl View for Tree {
    type V = Seq<NodeV>;

    open spec fn view(&self) -> Seq<NodeV> {
        self.nodes@.map_values(|n: Node| n@)
    }
}

/// Every child index points strictly past its parent and stays inside the
/// arena; the arena is non-empty so a root exists.
pub open spec fn tree_wf(t: Seq<NodeV>) -> bool {
    &&& t.len() > 0
    &&& forall|i: int, j: int|
        0 <= i < t.len() && 0 <= j < t[i].children.len() ==> (i < #[trigger] t[i].children[j] as int
            && (t[i].children[j] as int) < t.len())
}

impl Tree {
    pub open spec fn wf(&self) -> bool {
        tree_wf(self@)
    }
}

} // verus!
