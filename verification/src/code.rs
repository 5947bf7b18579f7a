//! Inline code spans: a backtick-fenced capture whose interior is verbatim,
//! never recursively parsed. Strict mode demotes a whitespace-adjacent
//! interior to a literal text span covering boundary, interior and boundary.

use vstd::prelude::*;

use crate::Mode;
use crate::ast::{Markdown, md_view, NodeModel};
use crate::model::{code_block_spec, code_spec, ws_demote};
use crate::utils::{fenced, find_sub, is_ws, lemma_find_sub_props, starts_with_at};

verus! {

/// The view of a single-node parser result.
pub open spec fn opt_node_view(r: Option<(&str, Markdown)>) -> Option<(Seq<char>, NodeModel)> {
    match r {
        Some((rem, m)) => Some((rem@, md_view(m))),
        None => None,
    }
}

/// Demotion test on a captured slice, as executable code.
pub fn ws_demote_exec(cap: &str) -> (r: bool)
    ensures
        r == ws_demote(cap@),
{
    let n = cap.unicode_len();
    if n == 0 {
        false
    } else {
        is_ws(cap.get_char(0)) || is_ws(cap.get_char(n - 1))
    }
}

/// Wrap a fenced capture in its delimiters again, as an owned string.
pub fn refence(mark: &str, cap: &str) -> (r: String)
    ensures
        r@ == mark@ + cap@ + mark@,
{
    let mut t = mark.to_owned();
    t.append(cap);
    t.append(mark);
    t
}

pub fn code<'a>(mode: Mode, input: &'a str) -> (r: Option<(&'a str, Markdown)>)
    ensures
        opt_node_view(r) == code_spec(mode, input@),
{
    proof {
        reveal_strlit("`");
        assert("`"@ =~= seq!['`']);
    }
    match fenced("`", "`", input) {
        Some((rem, cap)) => {
            if mode.is_strict() && ws_demote_exec(cap) {
                Some((rem, Markdown::Text(refence("`", cap))))
            } else {
                Some((rem, Markdown::Code(cap.to_owned())))
            }
        },
        None => None,
    }
}

/// The code-block stub: a triple-backtick fence, the language tag up to the
/// first newline, the body up to the closing fence.
pub fn code_block<'a>(input: &'a str) -> (r: Option<(&'a str, Markdown)>)
    ensures
        opt_node_view(r) == code_block_spec(input@),
{
    proof {
        reveal_strlit("```");
        reveal_strlit("\n");
        assert("```"@ =~= seq!['`', '`', '`']);
        assert("\n"@ =~= seq!['\n']);
    }
    if !starts_with_at(input, "```", 0) {
        return None;
    }
    let n = input.unicode_len();
    match find_sub(input, "\n", 3) {
        Some(pn) => {
            proof {
                lemma_find_sub_props(input@, "\n"@, 3);
            }
            match find_sub(input, "```", pn) {
                Some(pc) => {
                    proof {
                        lemma_find_sub_props(input@, "```"@, pn as int);
                    }
                    let lang = input.substring_char(3, pn);
                    let code = input.substring_char(pn, pc);
                    let rem = input.substring_char(pc + 3, n);
                    proof {
                        assert(rem@ =~= input@.skip(pc + 3));
                    }
                    Some(
                        (
                            rem,
                            Markdown::CodeBlock { lang: lang.to_owned(), code: code.to_owned() },
                        ),
                    )
                },
                None => None,
            }
        },
        None => None,
    }
}

} // verus!
