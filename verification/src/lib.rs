//! A recursive-descent parsing engine that turns Markdown-flavored text into
//! an ordered tree of typed nodes, producing no rendered output. It resolves
//! overlapping and nested delimiter runs (`*`, `**`, `***`, `~~`, `==`),
//! decides at each scan position which candidate syntax matches, re-enters
//! itself on captured interior spans, and in strict mode applies
//! whitespace-adjacency and run-disambiguation rules so that plain text is
//! not misread as markup. Malformed markup is never rejected, only
//! reinterpreted as literal text, and the produced nodes cover their input
//! losslessly: both facts are stated in the contracts and proved, together
//! with termination on every finite input.

pub mod ast;
pub mod code;
pub mod escape;
pub mod head;
pub mod link;
pub mod math;
pub mod model;
pub mod parse;
pub mod text;
pub mod utils;

use vstd::prelude::*;

verus! {

/// Parsing policy: lenient matching takes the first literal occurrence of a
/// closing delimiter; strict matching resolves asterisk-run ambiguity and
/// demotes whitespace-adjacent spans to literal text.
#[derive(Debug, Clone, Copy, PartialEq, Eq)]
pub enum Mode {
    Lenient,
    Strict,
}

impl Mode {
    pub open spec fn spec_is_strict(self) -> bool {
        self is Strict
    }

    #[verifier::when_used_as_spec(spec_is_strict)]
    pub fn is_strict(self) -> (r: bool)
        ensures
            r == self.spec_is_strict(),
    {
        match self {
            Mode::Strict => true,
            Mode::Lenient => false,
        }
    }
}

} // verus!
