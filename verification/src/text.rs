//! The delimiter text engine: bold-italic, bold, italic, strike and
//! highlight spans, with the strict-mode asterisk-run disambiguation and the
//! whitespace demotion rule, recursively parsing every captured interior.

use vstd::prelude::*;

use crate::Mode;
use crate::ast::{
    append_nodes, lemma_md_views_push, md_view, md_views, Markdown, NodeModel,
};
use crate::model::{
    boundary_token, boundary_wrap, delim_spec, italic_close_spec, take_until_spec, text_spec,
    Boundary,
};
use crate::parse::line_element_parser;
use crate::utils::{
    find_sub, lemma_find_sub_props, opt_str2_view, starts_with_at, str_eq,
};
use crate::code::ws_demote_exec;

verus! {

/// The literal token of a boundary.
pub fn boundary_str(bd: Boundary) -> (r: &'static str)
    ensures
        r@ == boundary_token(bd),
{
    match bd {
        Boundary::BoldItalic => {
            proof {
                reveal_strlit("***");
                assert("***"@ =~= seq!['*', '*', '*']);
            }
            "***"
        },
        Boundary::Bold => {
            proof {
                reveal_strlit("**");
                assert("**"@ =~= seq!['*', '*']);
            }
            "**"
        },
        Boundary::Italic => {
            proof {
                reveal_strlit("*");
                assert("*"@ =~= seq!['*']);
            }
            "*"
        },
        Boundary::Strike => {
            proof {
                reveal_strlit("~~");
                assert("~~"@ =~= seq!['~', '~']);
            }
            "~~"
        },
        Boundary::Highlight => {
            proof {
                reveal_strlit("==");
                assert("=="@ =~= seq!['=', '=']);
            }
            "=="
        },
    }
}

/// Search for the closing boundary and cut the input there: the result is
/// `(remainder, interior)` with the closing token consumed. Lenient mode
/// closes on the first literal occurrence. Strict mode resolves asterisk-run
/// ambiguity: a `**` search that finds `**` followed by a third `*` shifts
/// the cut one character right, and a `*` search skips doubled `**` runs and
/// closes only on a lone `*`.
pub fn take_until_boundary<'a>(mode: Mode, boundary: &str, input: &'a str) -> (r: Option<
    (&'a str, &'a str),
>)
    ensures
        opt_str2_view(r) == take_until_spec(mode, boundary@, input@),
{
    proof {
        reveal_strlit("**");
        reveal_strlit("*");
        assert("**"@ =~= seq!['*', '*']);
        assert("*"@ =~= seq!['*']);
    }
    let n = input.unicode_len();
    let bl = boundary.unicode_len();
    let strict = mode.is_strict();
    let is_double_star = str_eq(boundary, "**");
    let is_single_star = str_eq(boundary, "*");
    if strict && is_double_star {
        match find_sub(input, boundary, 0) {
            Some(pos) => {
                proof {
                    lemma_find_sub_props(input@, boundary@, 0);
                }
                if pos + 2 < n && input.get_char(pos + 2) == '*' {
                    let parsed = input.substring_char(0, pos + 1);
                    let rem = input.substring_char(pos + 3, n);
                    Some((rem, parsed))
                } else {
                    let parsed = input.substring_char(0, pos);
                    let rem = input.substring_char(pos + 2, n);
                    Some((rem, parsed))
                }
            },
            None => None,
        }
    } else if strict && is_single_star {
        let mut i: usize = 0;
        loop
            invariant
                n == input@.len(),
                i <= n,
                mode.spec_is_strict(),
                boundary@ == seq!['*'],
                italic_close_spec(input@, i as int) == italic_close_spec(input@, 0),
            decreases n - i,
        {
            if i >= n {
                proof {
                    assert(italic_close_spec(input@, i as int) is None);
                }
                return None;
            }
            let c = input.get_char(i);
            if c == '*' {
                if i + 1 < n && input.get_char(i + 1) == '*' {
                    i += 2;
                } else {
                    proof {
                        assert(italic_close_spec(input@, i as int) == Some(i as int));
                    }
                    let parsed = input.substring_char(0, i);
                    let rem = input.substring_char(i + 1, n);
                    proof {
                        assert(parsed@ =~= input@.take(i as int));
                        assert(rem@ =~= input@.skip(i + 1));
                    }
                    return Some((rem, parsed));
                }
            } else {
                i += 1;
            }
        }
    } else {
        match find_sub(input, boundary, 0) {
            Some(pos) => {
                proof {
                    lemma_find_sub_props(input@, boundary@, 0);
                }
                let parsed = input.substring_char(0, pos);
                let rem = input.substring_char(pos + bl, n);
                Some((rem, parsed))
            },
            None => None,
        }
    }
}

/// One delimiter text variant: consume the opening boundary, capture and
/// recursively parse the interior, consume the closing boundary, and wrap
/// the children in the variant belonging to the boundary. In strict mode a
/// whitespace-adjacent interior is demoted to the flat sequence
/// `[Text(boundary), ...interior children..., Text(boundary)]`.
fn delim<'a>(mode: Mode, bd: Boundary, input: &'a str) -> (r: Option<(&'a str, Vec<Markdown>)>)
    ensures
        crate::ast::opt_nodes_view(r) == delim_spec(mode, bd, input@),
    decreases input@.len(), 0int,
{
    let tok = boundary_str(bd);
    let bl = tok.unicode_len();
    let n = input.unicode_len();
    if !starts_with_at(input, tok, 0) {
        return None;
    }
    let rest = input.substring_char(bl, n);
    match take_until_boundary(mode, tok, rest) {
        None => None,
        Some((rem, interior)) => {
            proof {
                crate::model::lemma_take_until_structure(mode, boundary_token(bd), rest@);
            }
            let children = line_element_parser(mode, interior);
            let ghost spec_children = crate::model::scan_spec(mode, interior@, 0);
            if mode.is_strict() && ws_demote_exec(interior) {
                let mut ns: Vec<Markdown> = Vec::new();
                let m1 = Markdown::Text(tok.to_owned());
                let ghost gm1 = m1;
                ns.push(m1);
                proof {
                    lemma_md_views_push(Seq::<Markdown>::empty(), gm1);
                    assert(md_views(ns@) =~= seq![NodeModel::Text(tok@)]);
                }
                append_nodes(&mut ns, children);
                proof {
                    assert(md_views(ns@) =~= seq![NodeModel::Text(tok@)] + spec_children);
                }
                let ghost mid2 = ns@;
                let m2 = Markdown::Text(tok.to_owned());
                let ghost gm2 = m2;
                ns.push(m2);
                proof {
                    lemma_md_views_push(mid2, gm2);
                    assert(md_views(ns@) =~= (seq![NodeModel::Text(tok@)] + spec_children).push(
                        NodeModel::Text(tok@),
                    ));
                    assert(md_views(ns@) =~= seq![NodeModel::Text(boundary_token(bd))]
                        + spec_children + seq![NodeModel::Text(boundary_token(bd))]);
                }
                Some((rem, ns))
            } else {
                let node = match bd {
                    Boundary::BoldItalic => Markdown::BoldItalic(children),
                    Boundary::Bold => Markdown::Bold(children),
                    Boundary::Italic => Markdown::Italic(children),
                    Boundary::Strike => Markdown::Strike(children),
                    Boundary::Highlight => Markdown::Highlight(children),
                };
                let ghost gnode = node;
                let mut ns: Vec<Markdown> = Vec::new();
                ns.push(node);
                proof {
                    assert(md_view(gnode) == boundary_wrap(bd, spec_children));
                    lemma_md_views_push(Seq::<Markdown>::empty(), gnode);
                    assert(md_views(ns@) =~= seq![boundary_wrap(bd, spec_children)]);
                }
                Some((rem, ns))
            }
        },
    }
}

/// The delimiter alternation in fixed order: bold-italic, bold, italic,
/// strike, highlight.
pub fn text_parser<'a>(mode: Mode, input: &'a str) -> (r: Option<(&'a str, Vec<Markdown>)>)
    ensures
        crate::ast::opt_nodes_view(r) == text_spec(mode, input@),
    decreases input@.len(), 1int,
{
    let r = delim(mode, Boundary::BoldItalic, input);
    if r.is_some() {
        return r;
    }
    let r = delim(mode, Boundary::Bold, input);
    if r.is_some() {
        return r;
    }
    let r = delim(mode, Boundary::Italic, input);
    if r.is_some() {
        return r;
    }
    let r = delim(mode, Boundary::Strike, input);
    if r.is_some() {
        return r;
    }
    delim(mode, Boundary::Highlight, input)
}

} // verus!
