//! The formatting context: the per-run whitespace-collapsing state.
//!
//! Two whitespace tokens are special-cased when pushed through the context:
//! a single space is suppressed right after another emitted space, and a
//! single newline is suppressed once two consecutive newlines have been
//! emitted. Any other text resets both counters (a "raw push").

use vstd::prelude::*;
use crate::tree::{CfgV, Config};
use crate::chars::dup;
use crate::chars::rep_char;

verus! {

/// Mutable per-run state of one formatting traversal, plus the immutable
/// style configuration.
pub struct Ctx {
    pub config: Config,
    /// A single space was just emitted and not yet followed by other text.
    pub just_spaced: bool,
    /// Consecutive newlines emitted since the last non-newline emission.
    pub consec_new_line: i32,
}

/// Mathematical image of a `Ctx`.
pub struct CtxV {
    pub cfg: CfgV,
    pub just_spaced: bool,
    pub consec_new_line: int,
}

impl View for Ctx {
    type V = CtxV;

    open spec fn view(&self) -> CtxV {
        CtxV {
            cfg: self.config@,
            just_spaced: self.just_spaced,
            consec_new_line: self.consec_new_line as int,
        }
    }
}

/// The context of a freshly started run: nothing emitted yet.
pub open spec fn fresh_ctx(cfg: CfgV) -> CtxV {
    CtxV { cfg, just_spaced: false, consec_new_line: 0 }
}

/// A context that behaves as right after a raw push: the next space and the
/// next newline pushed through it will be emitted.
pub open spec fn ctx_reset(c: CtxV) -> bool {
    !c.just_spaced && c.consec_new_line == 0
}

/// What processing one token does: the successor state and the text that
/// actually reaches the output.
pub open spec fn spec_process(c: CtxV, s: Seq<char>) -> (CtxV, Seq<char>) {
    if s == seq![' '] {
        if c.just_spaced {
            (c, Seq::empty())
        } else {
            (CtxV { just_spaced: true, ..c }, s)
        }
    } else if s == seq!['\n'] {
        if c.consec_new_line <= 1 {
            (CtxV { just_spaced: false, consec_new_line: c.consec_new_line + 1, ..c }, s)
        } else {
            (c, Seq::empty())
        }
    } else {
        (CtxV { just_spaced: false, consec_new_line: 0, ..c }, s)
    }
}

impl Ctx {
    pub fn from_config(config: Config) -> (r: Ctx)
        ensures
            r@ == fresh_ctx(config@),
    {
        Ctx { config, just_spaced: false, consec_new_line: 0 }
    }

    /// Pushes one token through the context and returns the text to emit:
    /// the token itself, or nothing where it is suppressed. Avoids putting
    /// two consecutive spaces, and more than two consecutive newlines. An
    /// emitted newline ends the spacing window: the space flag is true only
    /// strictly between two space decisions with nothing else emitted in
    /// between.
    pub fn process(&mut self, s: &Vec<char>) -> (r: Vec<char>)
        ensures
            final(self)@ == spec_process(old(self)@, s@).0,
            r@ == spec_process(old(self)@, s@).1,
    {
        if s.len() == 1 && s[0] == ' ' {
            proof {
                assert(s@ =~= seq![' ']);
            }
            if self.just_spaced {
                Vec::new()
            } else {
                self.just_spaced = true;
                dup(s)
            }
        } else if s.len() == 1 && s[0] == '\n' {
            proof {
                assert(s@ =~= seq!['\n']);
            }
            if self.consec_new_line <= 1 {
                self.just_spaced = false;
                self.consec_new_line = self.consec_new_line + 1;
                dup(s)
            } else {
                Vec::new()
            }
        } else {
            proof {
                assert(s@ != seq![' ']);
                assert(s@ != seq!['\n']);
            }
            self.pushed_raw();
            dup(s)
        }
    }

    /// Makes the context aware that text went to the output directly:
    /// called whenever something is pushed without going through `process`.
    pub fn pushed_raw(&mut self)
        ensures
            final(self)@ == (CtxV { just_spaced: false, consec_new_line: 0, ..old(self)@ }),
    {
        self.just_spaced = false;
        self.consec_new_line = 0;
    }

    /// One indent level, as spaces.
    pub fn indent(&self) -> (r: Vec<char>)
        ensures
            r@ == rep_char(' ', self@.cfg.indent_width),
    {
        crate::chars::spaces(self.config.indent_width)
    }
}

} // verus!
