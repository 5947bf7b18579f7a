//! The document/line scanner: skip to the next character that can open a
//! syntax form, try the dispatch alternation there, emit the skipped prefix
//! as literal text before each match, and fall back to one literal text node
//! when nothing matches in the whole remainder.

use vstd::prelude::*;

use crate::Mode;
use crate::ast::{
    append_nodes, lemma_md_views_push, md_view, md_views, nodes_text, opt_nodes_view, Markdown,
    NodeModel,
};
use crate::code::{code, code_block, opt_node_view};
use crate::escape::escape;
use crate::head::head;
use crate::link::link_here;
use crate::math::math;
use crate::model::{
    command_spec, dispatch_spec, hrule_spec, is_syntax_char, lemma_dispatch_text,
    lemma_round_trip, lemma_scan_step_match, lemma_scan_step_none, newline_spec, scan_lossless,
    scan_spec,
};
use crate::text::text_parser;
use crate::utils::{fenced, starts_with_at};

verus! {

/// A character that can open a syntax form (see `is_syntax_char`).
pub fn is_syntax(c: char) -> (r: bool)
    ensures
        r == is_syntax_char(c),
{
    c == '\n' || c == '\\' || c == '#' || c == '*' || c == '~' || c == '=' || c == '-' || c == '['
        || c == '!' || c == '`' || c == '{' || c == '$' || c == 'h' || c == 'H' || c == 'f'
        || c == 'F' || c == 'm' || c == 'M' || c == 'n' || c == 'N' || c == 'g' || c == 'G'
        || c == 's' || c == 'S'
}

/// A horizontal rule: exactly the marker `---`.
pub fn horizontal_rule<'a>(input: &'a str) -> (r: Option<(&'a str, Markdown)>)
    ensures
        opt_node_view(r) == hrule_spec(input@),
{
    proof {
        reveal_strlit("---");
        assert("---"@ =~= seq!['-', '-', '-']);
    }
    if starts_with_at(input, "---", 0) {
        let n = input.unicode_len();
        let rem = input.substring_char(3, n);
        proof {
            assert(rem@ =~= input@.skip(3));
        }
        Some((rem, Markdown::HorizontalRule))
    } else {
        None
    }
}

/// A command span: a double-brace fenced capture, verbatim.
pub fn command<'a>(input: &'a str) -> (r: Option<(&'a str, Markdown)>)
    ensures
        opt_node_view(r) == command_spec(input@),
{
    proof {
        reveal_strlit("{{");
        reveal_strlit("}}");
        assert("{{"@ =~= seq!['{', '{']);
        assert("}}"@ =~= seq!['}', '}']);
    }
    match fenced("{{", "}}", input) {
        Some((rem, cap)) => Some((rem, Markdown::Command(cap.to_owned()))),
        None => None,
    }
}

/// A newline: exactly one `\n`, so that every terminator keeps its own node.
pub fn newline<'a>(input: &'a str) -> (r: Option<(&'a str, Markdown)>)
    ensures
        opt_node_view(r) == newline_spec(input@),
{
    let n = input.unicode_len();
    if n >= 1 && input.get_char(0) == '\n' {
        let rem = input.substring_char(1, n);
        proof {
            assert(rem@ =~= input@.skip(1));
        }
        Some((rem, Markdown::NewLine))
    } else {
        None
    }
}

/// One parsed node and its remainder, as a one-element result vector.
fn single_node<'a>(rem: &'a str, m: Markdown) -> (r: Option<(&'a str, Vec<Markdown>)>)
    ensures
        opt_nodes_view(r) == Some((rem@, seq![md_view(m)])),
{
    let ghost gm = m;
    let mut ns: Vec<Markdown> = Vec::new();
    ns.push(m);
    proof {
        lemma_md_views_push(Seq::<Markdown>::empty(), gm);
        assert(md_views(ns@) =~= seq![md_view(gm)]);
    }
    Some((rem, ns))
}

/// The dispatch alternation at one position, in fixed order: the escape
/// handler, the heading parser, the delimiter text variants, the horizontal
/// rule, the link resolver, the code-block stub, inline code, inline math,
/// the command span, and the newline. The result is the unconsumed remainder
/// and the produced nodes.
pub fn line_element_syntax<'a>(mode: Mode, input: &'a str) -> (r: Option<
    (&'a str, Vec<Markdown>),
>)
    ensures
        opt_nodes_view(r) == dispatch_spec(mode, input@),
    decreases input@.len(), 2int,
{
    proof {
        reveal(dispatch_spec);
    }
    match escape(input) {
        Some((rem, m)) => {
            return single_node(rem, m);
        },
        None => {},
    }
    match head(input) {
        Some((rem, (level, title, id))) => {
            return single_node(
                rem,
                Markdown::Head { level, title: title.to_owned(), id: id.to_owned() },
            );
        },
        None => {},
    }
    let r = text_parser(mode, input);
    if r.is_some() {
        return r;
    }
    match horizontal_rule(input) {
        Some((rem, m)) => {
            return single_node(rem, m);
        },
        None => {},
    }
    let r = link_here(input);
    if r.is_some() {
        return r;
    }
    match code_block(input) {
        Some((rem, m)) => {
            return single_node(rem, m);
        },
        None => {},
    }
    match code(mode, input) {
        Some((rem, m)) => {
            return single_node(rem, m);
        },
        None => {},
    }
    match math(mode, input) {
        Some((rem, m)) => {
            return single_node(rem, m);
        },
        None => {},
    }
    match command(input) {
        Some((rem, m)) => {
            return single_node(rem, m);
        },
        None => {},
    }
    match newline(input) {
        Some((rem, m)) => single_node(rem, m),
        None => None,
    }
}

/// Parse a whole input span into an ordered node sequence. Every input is
/// accepted: malformed markup is never rejected, only reinterpreted as
/// literal text. The produced nodes cover the input losslessly wherever the
/// scan consumed no escape and no heading, the two forms whose nodes do not
/// carry all their consumed marker characters. Termination on every finite
/// input is proved by the decreases measures on the scanner loop and on the
/// mutual recursion with the delimiter engine: every successful match
/// consumes at least one character.
pub fn line_element_parser(mode: Mode, input: &str) -> (r: Vec<Markdown>)
    ensures
        md_views(r@) == scan_spec(mode, input@, 0),
        scan_lossless(mode, input@, 0) ==> nodes_text(md_views(r@)) == input@,
    decreases input@.len(), 3int,
{
    let mut nodes: Vec<Markdown> = Vec::new();
    let mut cur: &str = input;
    let mut k: usize = 0;
    proof {
        assert(md_views(nodes@) + scan_spec(mode, cur@, 0) =~= scan_spec(mode, input@, 0));
    }
    loop
        invariant_except_break
            k <= cur@.len(),
            cur@.len() <= input@.len(),
            md_views(nodes@) + scan_spec(mode, cur@, k as int) == scan_spec(mode, input@, 0),
        ensures
            md_views(nodes@) == scan_spec(mode, input@, 0),
        decreases cur@.len() - k,
    {
        let n = cur.unicode_len();
        if k >= n {
            if n > 0 {
                let m = Markdown::Text(cur.to_owned());
                let ghost gm = m;
                let ghost pre = nodes@;
                nodes.push(m);
                proof {
                    lemma_md_views_push(pre, gm);
                    assert(scan_spec(mode, cur@, k as int) =~= seq![NodeModel::Text(cur@)]);
                    assert(md_views(nodes@) =~= md_views(pre) + seq![NodeModel::Text(cur@)]);
                }
            } else {
                proof {
                    assert(scan_spec(mode, cur@, k as int) =~= Seq::<NodeModel>::empty());
                    assert(md_views(nodes@) + Seq::<NodeModel>::empty() =~= md_views(nodes@));
                }
            }
            break;
        }
        let c = cur.get_char(k);
        if is_syntax(c) {
            let suffix = cur.substring_char(k, n);
            match line_element_syntax(mode, suffix) {
                Some((rem2, ns2)) => {
                    proof {
                        lemma_dispatch_text(mode, suffix@);
                        assert(suffix@ =~= cur@.skip(k as int));
                        lemma_scan_step_match(mode, cur@, k as int, rem2@, md_views(ns2@));
                    }
                    let ghost pre = nodes@;
                    let ghost sns = md_views(ns2@);
                    let ghost prefix: Seq<NodeModel> = if k > 0 {
                        seq![NodeModel::Text(cur@.take(k as int))]
                    } else {
                        Seq::empty()
                    };
                    if k > 0 {
                        let m = Markdown::Text(cur.substring_char(0, k).to_owned());
                        let ghost gm = m;
                        nodes.push(m);
                        proof {
                            lemma_md_views_push(pre, gm);
                            assert(cur@.subrange(0, k as int) =~= cur@.take(k as int));
                            assert(md_views(nodes@) =~= md_views(pre) + prefix);
                        }
                    }
                    let ghost pre2 = md_views(nodes@);
                    append_nodes(&mut nodes, ns2);
                    proof {
                        assert(md_views(nodes@) =~= md_views(pre) + prefix + sns);
                        assert(scan_spec(mode, cur@, k as int) =~= prefix + sns + scan_spec(
                            mode,
                            rem2@,
                            0,
                        ));
                        assert(md_views(nodes@) + scan_spec(mode, rem2@, 0) =~= md_views(pre)
                            + scan_spec(mode, cur@, k as int));
                    }
                    cur = rem2;
                    k = 0;
                },
                None => {
                    proof {
                        assert(suffix@ =~= cur@.skip(k as int));
                        lemma_scan_step_none(mode, cur@, k as int);
                    }
                    k += 1;
                },
            }
        } else {
            proof {
                lemma_scan_step_none(mode, cur@, k as int);
            }
            k += 1;
        }
    }
    proof {
        if scan_lossless(mode, input@, 0) {
            lemma_round_trip(mode, input@);
        }
    }
    nodes
}

} // verus!
