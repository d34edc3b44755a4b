//! A whitespace-normalizing source formatter.
//!
//! Given syntactically valid source text and a small style configuration,
//! the formatter renders the same text with normalized whitespace: runs of
//! spaces collapse to one space, runs of blank lines collapse to at most one
//! surviving blank line, and argument lists are laid out on one line or
//! broken across indented lines depending on the resulting width.

pub mod chars;
pub mod laws;
pub mod ctx;
pub mod parse;
pub mod render;
pub mod tree;

use vstd::prelude::*;

verus! {

use crate::tree::{Config, Tree};
use crate::ctx::Ctx;
use crate::render::{spec_format, visit};
use crate::chars::chars_to_string;
use crate::parse::{parse_of, parse_to_tree};

/// Formats an already-parsed tree: builds one fresh context and renders
/// the root. The result is exactly the mathematical rendering of the tree
/// under the given configuration.
pub fn format_tree(t: &Tree, config: Config) -> (r: String)
    requires
        t.wf(),
    ensures
        r@ == spec_format(t@, config@),
{
    let mut context = Ctx::from_config(config);
    let v = visit(t, 0, &mut context);
    chars_to_string(&v)
}

/// Formats source text: asks the external parser for the syntax tree and
/// renders it. The result is the exact mathematical rendering of the
/// arena the parser's tree maps to (`parse_of`), so two calls on equal
/// arguments return equal text: the whole run is a pure function of the
/// source and the configuration.
pub fn format(s: &str, config: Config) -> (r: String)
    ensures
        r@ == spec_format(parse_of(s@), config@),
{
    let tree = parse_to_tree(s);
    format_tree(&tree, config)
}

} // verus!
