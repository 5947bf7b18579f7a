//! Inline math spans: a `$`-fenced capture, handled exactly as inline code,
//! including the strict-mode whitespace demotion.

use vstd::prelude::*;

use crate::Mode;
use crate::ast::Markdown;
use crate::code::{opt_node_view, refence, ws_demote_exec};
use crate::model::math_spec;
use crate::utils::fenced;

verus! {

pub fn math<'a>(mode: Mode, input: &'a str) -> (r: Option<(&'a str, Markdown)>)
    ensures
        opt_node_view(r) == math_spec(mode, input@),
{
    proof {
        reveal_strlit("$");
        assert("$"@ =~= seq!['$']);
    }
    match fenced("$", "$", input) {
        Some((rem, cap)) => {
            if mode.is_strict() && ws_demote_exec(cap) {
                Some((rem, Markdown::Text(refence("$", cap))))
            } else {
                Some((rem, Markdown::Math(cap.to_owned())))
            }
        },
        None => None,
    }
}

} // verus!
