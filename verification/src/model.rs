//! Ghost model of the parsing engine: the dispatch alternation, the delimiter
//! text engine and the document scanner as mutually recursive spec functions,
//! together with the lemmas that state losslessness (round-trip) and the
//! literal-text fallback.

use vstd::prelude::*;

use crate::Mode;
use crate::ast::{
    NodeModel, node_text, nodes_text, lemma_nodes_text_concat, lemma_nodes_text_single,
};
use crate::escape::escape_spec;
use crate::head::{
    hash_end, head_spec, lemma_hash_end_bounds, lemma_line_end_bounds, lemma_ws_end_bounds, ws_end,
};
use crate::link::{
    explicit_link_spec, image_spec, lemma_raw_scan_bounds, lemma_url_link_structure,
    link_here_spec, locator_within_limits, raw_link_spec, url_link_spec,
};
use crate::utils::{
    has_prefix_at, find_sub_spec, lemma_find_sub_props, fenced_spec, lemma_fenced_structure,
    is_ws_char,
};

verus! {

/// The five delimiter tokens of the text engine, most specific first.
#[derive(Debug, Clone, Copy, PartialEq, Eq)]
pub enum Boundary {
    BoldItalic,
    Bold,
    Italic,
    Strike,
    Highlight,
}

pub open spec fn boundary_token(bd: Boundary) -> Seq<char> {
    match bd {
        Boundary::BoldItalic => seq!['*', '*', '*'],
        Boundary::Bold => seq!['*', '*'],
        Boundary::Italic => seq!['*'],
        Boundary::Strike => seq!['~', '~'],
        Boundary::Highlight => seq!['=', '='],
    }
}

pub open spec fn boundary_wrap(bd: Boundary, children: Seq<NodeModel>) -> NodeModel {
    match bd {
        Boundary::BoldItalic => NodeModel::BoldItalic(children),
        Boundary::Bold => NodeModel::Bold(children),
        Boundary::Italic => NodeModel::Italic(children),
        Boundary::Strike => NodeModel::Strike(children),
        Boundary::Highlight => NodeModel::Highlight(children),
    }
}

/// A letter that can begin a URL scheme known to the raw-link state machine,
/// in either case: http(s), ftp, file, mailto, news, gemini, git, gopher, ssh.
pub open spec fn is_scheme_start(c: char) -> bool {
    ||| c == 'h' || c == 'H'
    ||| c == 'f' || c == 'F'
    ||| c == 'm' || c == 'M'
    ||| c == 'n' || c == 'N'
    ||| c == 'g' || c == 'G'
    ||| c == 's' || c == 'S'
}

/// Characters that can open a syntax form, derived from the registered
/// parsers' leading characters: escape (`\`), heading (`#`), the delimiter
/// runs (`*`, `~`, `=`), the horizontal rule (`-`), explicit links and images
/// (`[`, `!`), raw links (any scheme-starting letter), code blocks and inline
/// code (`` ` ``), commands (`{`), inline math (`$`) and the newline. The
/// scanner attempts the dispatch alternation only at these and skips over
/// plain text in between.
pub open spec fn is_syntax_char(c: char) -> bool {
    ||| c == '\n'
    ||| c == '\\'
    ||| c == '#'
    ||| c == '*'
    ||| c == '~'
    ||| c == '='
    ||| c == '-'
    ||| c == '['
    ||| c == '!'
    ||| c == '`'
    ||| c == '{'
    ||| c == '$'
    ||| is_scheme_start(c)
}

/// The strict-mode demotion test: the captured interior starts or ends with
/// whitespace, so the span reads as plain text rather than markup.
pub open spec fn ws_demote(cap: Seq<char>) -> bool {
    cap.len() > 0 && (is_ws_char(cap[0]) || is_ws_char(cap[cap.len() - 1]))
}

/// Position of the first lone (non-doubled) `*` at or after `i`: a doubled
/// `**` run is skipped whole, so only a single closing `*` is found.
pub open spec fn italic_close_spec(s: Seq<char>, i: int) -> Option<int>
    decreases s.len() - i,
{
    if !(0 <= i < s.len()) {
        None
    } else if s[i] == '*' {
        if i + 1 < s.len() && s[i + 1] == '*' {
            italic_close_spec(s, i + 2)
        } else {
            Some(i)
        }
    } else {
        italic_close_spec(s, i + 1)
    }
}

pub proof fn lemma_italic_close_props(s: Seq<char>, i: int)
    ensures
        match italic_close_spec(s, i) {
            Some(p) => i <= p < s.len() && s[p] == '*',
            None => true,
        },
    decreases s.len() - i,
{
    if !(0 <= i < s.len()) {
    } else if s[i] == '*' {
        if i + 1 < s.len() && s[i + 1] == '*' {
            lemma_italic_close_props(s, i + 2);
        }
    } else {
        lemma_italic_close_props(s, i + 1);
    }
}

/// Search for the closing boundary: capture the interior, consume the closing
/// token, return `(remainder, interior)`. Lenient mode closes on the first
/// literal occurrence; strict mode resolves the `*` / `**` / `***` run
/// ambiguity (a `**` immediately followed by a third `*` shifts the cut by
/// one, and a lone `*` search skips doubled runs).
pub open spec fn take_until_spec(mode: Mode, b: Seq<char>, s: Seq<char>) -> Option<
    (Seq<char>, Seq<char>),
> {
    if mode.spec_is_strict() && b == seq!['*', '*'] {
        match find_sub_spec(s, b, 0) {
            Some(pos) => if pos + 2 < s.len() && s[pos + 2] == '*' {
                Some((s.skip(pos + 3), s.take(pos + 1)))
            } else {
                Some((s.skip(pos + 2), s.take(pos)))
            },
            None => None,
        }
    } else if mode.spec_is_strict() && b == seq!['*'] {
        match italic_close_spec(s, 0) {
            Some(p) => Some((s.skip(p + 1), s.take(p))),
            None => None,
        }
    } else {
        match find_sub_spec(s, b, 0) {
            Some(pos) => Some((s.skip(pos + b.len()), s.take(pos))),
            None => None,
        }
    }
}

/// A successful boundary search splits its input exactly as
/// `s == interior + b + remainder`: whichever strict rule applied, the
/// consumed closing characters equal the boundary token itself.
pub proof fn lemma_take_until_structure(mode: Mode, b: Seq<char>, s: Seq<char>)
    requires
        b.len() >= 1,
        take_until_spec(mode, b, s) is Some,
    ensures
        ({
            let (rem, interior) = take_until_spec(mode, b, s)->Some_0;
            &&& s =~= interior + b + rem
            &&& interior.len() + b.len() + rem.len() == s.len()
        }),
{
    let (rem, interior) = take_until_spec(mode, b, s)->Some_0;
    if mode.spec_is_strict() && b == seq!['*', '*'] {
        lemma_find_sub_props(s, b, 0);
        let pos = find_sub_spec(s, b, 0)->Some_0;
        assert(s.subrange(pos, pos + 2) == b);
        assert(s[pos] == '*') by {
            assert(s.subrange(pos, pos + 2)[0] == '*');
        }
        assert(s[pos + 1] == '*') by {
            assert(s.subrange(pos, pos + 2)[1] == '*');
        }
        if pos + 2 < s.len() && s[pos + 2] == '*' {
            assert(s.subrange(pos + 1, pos + 3) =~= b);
            assert(s =~= s.take(pos + 1) + s.subrange(pos + 1, pos + 3) + s.skip(pos + 3));
        } else {
            assert(s =~= s.take(pos) + s.subrange(pos, pos + 2) + s.skip(pos + 2));
        }
    } else if mode.spec_is_strict() && b == seq!['*'] {
        lemma_italic_close_props(s, 0);
        let p = italic_close_spec(s, 0)->Some_0;
        assert(s.subrange(p, p + 1) =~= b);
        assert(s =~= s.take(p) + s.subrange(p, p + 1) + s.skip(p + 1));
    } else {
        lemma_find_sub_props(s, b, 0);
        let pos = find_sub_spec(s, b, 0)->Some_0;
        assert(s.subrange(pos, pos + b.len() as int) == b);
        assert(s =~= s.take(pos) + s.subrange(pos, pos + b.len() as int) + s.skip(
            pos + b.len() as int,
        ));
    }
}

/// One inline code span: a backtick-fenced capture, demoted to a literal text
/// span in strict mode when the interior is whitespace-adjacent. The interior
/// is verbatim, never recursively parsed.
pub open spec fn code_spec(mode: Mode, s: Seq<char>) -> Option<(Seq<char>, NodeModel)> {
    match fenced_spec(seq!['`'], seq!['`'], s) {
        Some((rem, cap)) => if mode.spec_is_strict() && ws_demote(cap) {
            Some((rem, NodeModel::Text(seq!['`'] + cap + seq!['`'])))
        } else {
            Some((rem, NodeModel::Code(cap)))
        },
        None => None,
    }
}

/// One inline math span: as `code_spec`, with a `$` fence.
pub open spec fn math_spec(mode: Mode, s: Seq<char>) -> Option<(Seq<char>, NodeModel)> {
    match fenced_spec(seq!['$'], seq!['$'], s) {
        Some((rem, cap)) => if mode.spec_is_strict() && ws_demote(cap) {
            Some((rem, NodeModel::Text(seq!['$'] + cap + seq!['$'])))
        } else {
            Some((rem, NodeModel::Math(cap)))
        },
        None => None,
    }
}

/// A horizontal rule: exactly the marker `---`.
pub open spec fn hrule_spec(s: Seq<char>) -> Option<(Seq<char>, NodeModel)> {
    if has_prefix_at(s, seq!['-', '-', '-'], 0) {
        Some((s.skip(3), NodeModel::HorizontalRule))
    } else {
        None
    }
}

/// A newline: exactly one `\n`, so that every terminator keeps its own node.
pub open spec fn newline_spec(s: Seq<char>) -> Option<(Seq<char>, NodeModel)> {
    if s.len() >= 1 && s[0] == '\n' {
        Some((s.skip(1), NodeModel::NewLine))
    } else {
        None
    }
}

/// A command span: a double-brace fenced capture, verbatim.
pub open spec fn command_spec(s: Seq<char>) -> Option<(Seq<char>, NodeModel)> {
    match fenced_spec(seq!['{', '{'], seq!['}', '}'], s) {
        Some((rem, cap)) => Some((rem, NodeModel::Command(cap))),
        None => None,
    }
}

/// The code-block stub: a triple-backtick fence, the language tag up to the
/// first newline, the body up to the closing fence. Simple bracket capture
/// only — the block's internal grammar belongs to an external collaborator.
pub open spec fn code_block_spec(s: Seq<char>) -> Option<(Seq<char>, NodeModel)> {
    if has_prefix_at(s, seq!['`', '`', '`'], 0) {
        match find_sub_spec(s, seq!['\n'], 3) {
            Some(pn) => match find_sub_spec(s, seq!['`', '`', '`'], pn) {
                Some(pc) => Some(
                    (
                        s.skip(pc + 3),
                        NodeModel::CodeBlock { lang: s.subrange(3, pn), code: s.subrange(pn, pc) },
                    ),
                ),
                None => None,
            },
            None => None,
        }
    } else {
        None
    }
}

pub proof fn lemma_code_structure(mode: Mode, s: Seq<char>)
    requires
        code_spec(mode, s) is Some,
    ensures
        ({
            let (rem, n) = code_spec(mode, s)->Some_0;
            &&& node_text(n) + rem =~= s
            &&& rem.len() < s.len()
        }),
{
    lemma_fenced_structure(seq!['`'], seq!['`'], s);
}

pub proof fn lemma_math_structure(mode: Mode, s: Seq<char>)
    requires
        math_spec(mode, s) is Some,
    ensures
        ({
            let (rem, n) = math_spec(mode, s)->Some_0;
            &&& node_text(n) + rem =~= s
            &&& rem.len() < s.len()
        }),
{
    lemma_fenced_structure(seq!['$'], seq!['$'], s);
}

pub proof fn lemma_command_structure(s: Seq<char>)
    requires
        command_spec(s) is Some,
    ensures
        ({
            let (rem, n) = command_spec(s)->Some_0;
            &&& node_text(n) + rem =~= s
            &&& rem.len() < s.len()
        }),
{
    lemma_fenced_structure(seq!['{', '{'], seq!['}', '}'], s);
}

pub proof fn lemma_code_block_structure(s: Seq<char>)
    requires
        code_block_spec(s) is Some,
    ensures
        ({
            let (rem, n) = code_block_spec(s)->Some_0;
            &&& node_text(n) + rem =~= s
            &&& rem.len() < s.len()
        }),
{
    lemma_find_sub_props(s, seq!['\n'], 3);
    let pn = find_sub_spec(s, seq!['\n'], 3)->Some_0;
    lemma_find_sub_props(s, seq!['`', '`', '`'], pn);
    let pc = find_sub_spec(s, seq!['`', '`', '`'], pn)->Some_0;
    assert(s.subrange(0, 3) == seq!['`', '`', '`']);
    assert(s.subrange(pc, pc + 3) == seq!['`', '`', '`']);
    assert(s =~= s.subrange(0, 3) + s.subrange(3, pn) + s.subrange(pn, pc) + s.subrange(
        pc,
        pc + 3,
    ) + s.skip(pc + 3));
}

/// A matched explicit link or image covers exactly its markers and captures.
pub proof fn lemma_explicit_link_text(s: Seq<char>)
    ensures
        match explicit_link_spec(s) {
            Some((rem, ns)) => nodes_text(ns) + rem =~= s && rem.len() < s.len(),
            None => true,
        },
{
    if url_link_spec(s) is Some {
        lemma_url_link_structure(s);
        let (rem, (t, u)) = url_link_spec(s)->Some_0;
        lemma_nodes_text_single(NodeModel::Link { title: t, url: u });
    } else if image_spec(s) is Some {
        let (rem, (t, u)) = image_spec(s)->Some_0;
        lemma_url_link_structure(s.skip(1));
        lemma_nodes_text_single(NodeModel::Image { alt: t, url: u });
        assert(s.take(1) =~= seq!['!']);
        assert(s =~= s.take(1) + s.skip(1));
        assert(node_text(NodeModel::Image { alt: t, url: u }) + rem =~= s);
    }
}

/// One delimiter text variant: consume the opening boundary, capture the
/// interior up to the matching closing boundary, consume the closing
/// boundary, recursively parse the interior, and wrap the children in the
/// variant belonging to the boundary. In strict mode a whitespace-adjacent
/// interior is demoted: the two boundary instances and the parsed interior
/// are returned as a flat node sequence.
pub open spec fn delim_spec(mode: Mode, bd: Boundary, s: Seq<char>) -> Option<
    (Seq<char>, Seq<NodeModel>),
>
    decreases s.len(), 0int, 0int,
{
    let b = boundary_token(bd);
    if !has_prefix_at(s, b, 0) {
        None
    } else {
        let rest = s.skip(b.len() as int);
        match take_until_spec(mode, b, rest) {
            Some((rem, interior)) => if interior.len() < s.len() {
                let children = scan_spec(mode, interior, 0);
                if mode.spec_is_strict() && ws_demote(interior) {
                    Some(
                        (
                            rem,
                            seq![NodeModel::Text(b)] + children + seq![NodeModel::Text(b)],
                        ),
                    )
                } else {
                    Some((rem, seq![boundary_wrap(bd, children)]))
                }
            } else {
                None
            },
            None => None,
        }
    }
}

/// The delimiter alternation in fixed order: bold-italic, bold, italic,
/// strike, highlight — longest boundary first, since `*` is a prefix of `**`
/// and `***`.
pub open spec fn text_spec(mode: Mode, s: Seq<char>) -> Option<(Seq<char>, Seq<NodeModel>)>
    decreases s.len(), 0int, 1int,
{
    if delim_spec(mode, Boundary::BoldItalic, s) is Some {
        delim_spec(mode, Boundary::BoldItalic, s)
    } else if delim_spec(mode, Boundary::Bold, s) is Some {
        delim_spec(mode, Boundary::Bold, s)
    } else if delim_spec(mode, Boundary::Italic, s) is Some {
        delim_spec(mode, Boundary::Italic, s)
    } else if delim_spec(mode, Boundary::Strike, s) is Some {
        delim_spec(mode, Boundary::Strike, s)
    } else {
        delim_spec(mode, Boundary::Highlight, s)
    }
}

/// The dispatch alternation tried at a scan position, in fixed order: the
/// escape handler, the heading parser, the delimiter text variants, the
/// horizontal rule, the link resolver (a raw link only where its confirmed
/// span begins at this very position), the code-block stub, inline code,
/// inline math, the command span, and the newline.
#[verifier::opaque]
pub open spec fn dispatch_spec(mode: Mode, s: Seq<char>) -> Option<(Seq<char>, Seq<NodeModel>)>
    decreases s.len(), 0int, 2int,
{
    if escape_spec(s) is Some {
        let (rem, cap) = escape_spec(s)->Some_0;
        Some((rem, seq![NodeModel::Text(cap)]))
    } else if head_spec(s) is Some {
        let (rem, (level, title, id)) = head_spec(s)->Some_0;
        Some((rem, seq![NodeModel::Head { level: level as nat, title, id }]))
    } else if text_spec(mode, s) is Some {
        text_spec(mode, s)
    } else if hrule_spec(s) is Some {
        let (rem, n) = hrule_spec(s)->Some_0;
        Some((rem, seq![n]))
    } else if link_here_spec(s) is Some {
        link_here_spec(s)
    } else if code_block_spec(s) is Some {
        let (rem, n) = code_block_spec(s)->Some_0;
        Some((rem, seq![n]))
    } else if code_spec(mode, s) is Some {
        let (rem, n) = code_spec(mode, s)->Some_0;
        Some((rem, seq![n]))
    } else if math_spec(mode, s) is Some {
        let (rem, n) = math_spec(mode, s)->Some_0;
        Some((rem, seq![n]))
    } else if command_spec(s) is Some {
        let (rem, n) = command_spec(s)->Some_0;
        Some((rem, seq![n]))
    } else {
        match newline_spec(s) {
            Some((rem, n)) => Some((rem, seq![n])),
            None => None,
        }
    }
}

/// The document scanner: from offset `k`, try the dispatch alternation at
/// each syntax-capable character. On the first match, everything before it
/// becomes one literal text node, the matched nodes follow, and scanning
/// restarts on the unconsumed remainder. If nothing matches anywhere, the
/// whole remaining input is one literal text node.
pub open spec fn scan_spec(mode: Mode, s: Seq<char>, k: int) -> Seq<NodeModel>
    decreases s.len(), s.len() - k, 3int,
{
    if !(0 <= k < s.len()) {
        if s.len() > 0 {
            seq![NodeModel::Text(s)]
        } else {
            Seq::empty()
        }
    } else if is_syntax_char(s[k]) {
        match dispatch_spec(mode, s.skip(k)) {
            Some((rem, nodes)) => {
                let prefix: Seq<NodeModel> = if k > 0 {
                    seq![NodeModel::Text(s.take(k))]
                } else {
                    Seq::empty()
                };
                if rem.len() < s.len() {
                    prefix + nodes + scan_spec(mode, rem, 0)
                } else {
                    prefix + nodes
                }
            },
            None => scan_spec(mode, s, k + 1),
        }
    } else {
        scan_spec(mode, s, k + 1)
    }
}

/// The matched delimiter span reconstructs its consumed text exactly, as far
/// as the recursively scanned interior does.
pub open spec fn delim_lossless(mode: Mode, bd: Boundary, s: Seq<char>) -> bool
    decreases s.len(), 0int, 0int,
{
    let b = boundary_token(bd);
    if !has_prefix_at(s, b, 0) {
        true
    } else {
        let rest = s.skip(b.len() as int);
        match take_until_spec(mode, b, rest) {
            Some((rem, interior)) => if interior.len() < s.len() {
                scan_lossless(mode, interior, 0)
            } else {
                true
            },
            None => true,
        }
    }
}

pub open spec fn text_lossless(mode: Mode, s: Seq<char>) -> bool
    decreases s.len(), 0int, 1int,
{
    if delim_spec(mode, Boundary::BoldItalic, s) is Some {
        delim_lossless(mode, Boundary::BoldItalic, s)
    } else if delim_spec(mode, Boundary::Bold, s) is Some {
        delim_lossless(mode, Boundary::Bold, s)
    } else if delim_spec(mode, Boundary::Italic, s) is Some {
        delim_lossless(mode, Boundary::Italic, s)
    } else if delim_spec(mode, Boundary::Strike, s) is Some {
        delim_lossless(mode, Boundary::Strike, s)
    } else {
        delim_lossless(mode, Boundary::Highlight, s)
    }
}

/// The dispatch match at this position consumes exactly the text its nodes
/// carry. An escape match does not (its backslash is consumed but not
/// stored), nor does a heading match (the whitespace after its marker run
/// and its id fence are not stored); every other alternative does.
pub open spec fn dispatch_lossless(mode: Mode, s: Seq<char>) -> bool
    decreases s.len(), 0int, 2int,
{
    if escape_spec(s) is Some {
        false
    } else if head_spec(s) is Some {
        false
    } else if text_spec(mode, s) is Some {
        text_lossless(mode, s)
    } else {
        true
    }
}

/// No escape and no heading is consumed anywhere in the scan from offset
/// `k`, down through every recursively parsed delimiter interior.
pub open spec fn scan_lossless(mode: Mode, s: Seq<char>, k: int) -> bool
    decreases s.len(), s.len() - k, 3int,
{
    if !(0 <= k < s.len()) {
        true
    } else if is_syntax_char(s[k]) {
        match dispatch_spec(mode, s.skip(k)) {
            Some((rem, nodes)) => dispatch_lossless(mode, s.skip(k)) && (if rem.len() < s.len() {
                scan_lossless(mode, rem, 0)
            } else {
                true
            }),
            None => scan_lossless(mode, s, k + 1),
        }
    } else {
        scan_lossless(mode, s, k + 1)
    }
}

/// The flat demoted sequence covers boundary, interior children and boundary.
proof fn lemma_nodes_text_demoted(b: Seq<char>, children: Seq<NodeModel>)
    ensures
        nodes_text(seq![NodeModel::Text(b)] + children + seq![NodeModel::Text(b)]) == b
            + nodes_text(children) + b,
{
    lemma_nodes_text_concat(seq![NodeModel::Text(b)] + children, seq![NodeModel::Text(b)]);
    lemma_nodes_text_concat(seq![NodeModel::Text(b)], children);
    lemma_nodes_text_single(NodeModel::Text(b));
    assert(nodes_text(seq![NodeModel::Text(b)] + children + seq![NodeModel::Text(b)]) =~= b
        + nodes_text(children) + b);
}

/// A wrapped variant covers its boundary token, its children and the token.
proof fn lemma_nodes_text_wrapped(bd: Boundary, children: Seq<NodeModel>)
    ensures
        nodes_text(seq![boundary_wrap(bd, children)]) == boundary_token(bd) + nodes_text(children)
            + boundary_token(bd),
{
    lemma_nodes_text_single(boundary_wrap(bd, children));
    assert(node_text(boundary_wrap(bd, children)) =~= boundary_token(bd) + nodes_text(children)
        + boundary_token(bd));
}

#[verifier::rlimit(100)]
#[verifier::spinoff_prover]
pub proof fn lemma_delim_text(mode: Mode, bd: Boundary, s: Seq<char>)
    ensures
        match delim_spec(mode, bd, s) {
            Some((rem, ns)) => rem.len() < s.len() && (delim_lossless(mode, bd, s)
                ==> nodes_text(ns) + rem =~= s),
            None => true,
        },
    decreases s.len(), 0int, 0int,
{
    let b = boundary_token(bd);
    if delim_spec(mode, bd, s) is Some {
        let rest = s.skip(b.len() as int);
        lemma_take_until_structure(mode, b, rest);
        let (rem, interior) = take_until_spec(mode, b, rest)->Some_0;
        assert(s =~= b + rest) by {
            assert(s.subrange(0, b.len() as int) == b);
            assert(s =~= s.subrange(0, b.len() as int) + s.skip(b.len() as int));
        }
        let children = scan_spec(mode, interior, 0);
        lemma_scan_text(mode, interior, 0);
        let (rrem, ns) = delim_spec(mode, bd, s)->Some_0;
        if delim_lossless(mode, bd, s) {
            if mode.spec_is_strict() && ws_demote(interior) {
                lemma_nodes_text_demoted(b, children);
            } else {
                lemma_nodes_text_wrapped(bd, children);
            }
            assert(nodes_text(ns) =~= b + interior + b);
            assert(nodes_text(ns) + rem =~= s);
        }
    }
}

pub proof fn lemma_text_text(mode: Mode, s: Seq<char>)
    ensures
        match text_spec(mode, s) {
            Some((rem, ns)) => rem.len() < s.len() && (text_lossless(mode, s) ==> nodes_text(ns)
                + rem =~= s),
            None => true,
        },
    decreases s.len(), 0int, 1int,
{
    lemma_delim_text(mode, Boundary::BoldItalic, s);
    lemma_delim_text(mode, Boundary::Bold, s);
    lemma_delim_text(mode, Boundary::Italic, s);
    lemma_delim_text(mode, Boundary::Strike, s);
    lemma_delim_text(mode, Boundary::Highlight, s);
}

#[verifier::rlimit(60)]
pub proof fn lemma_dispatch_text(mode: Mode, s: Seq<char>)
    ensures
        match dispatch_spec(mode, s) {
            Some((rem, ns)) => rem.len() < s.len() && (dispatch_lossless(mode, s)
                ==> nodes_text(ns) + rem =~= s),
            None => true,
        },
    decreases s.len(), 0int, 2int,
{
    reveal(dispatch_spec);
    if escape_spec(s) is Some {
    } else if head_spec(s) is Some {
        lemma_hash_end_bounds(s, 0);
        let h = hash_end(s, 0);
        lemma_ws_end_bounds(s, h);
        let t0 = ws_end(s, h);
        lemma_line_end_bounds(s, t0);
    } else if text_spec(mode, s) is Some {
        lemma_text_text(mode, s);
    } else if hrule_spec(s) is Some {
        lemma_nodes_text_single(NodeModel::HorizontalRule);
        assert(s.subrange(0, 3) == seq!['-', '-', '-']);
        assert(s =~= s.subrange(0, 3) + s.skip(3));
    } else if link_here_spec(s) is Some {
        let raw = if locator_within_limits(s) {
            raw_link_spec(s)
        } else {
            None
        };
        match raw {
            Some((a, b)) => {
                if a == 0 {
                    lemma_raw_scan_bounds(s, 0, None);
                    lemma_nodes_text_single(NodeModel::RawLink(s.take(b)));
                    assert(s =~= s.take(b) + s.skip(b));
                } else {
                    lemma_explicit_link_text(s);
                }
            },
            None => {
                lemma_explicit_link_text(s);
            },
        }
    } else if code_block_spec(s) is Some {
        lemma_code_block_structure(s);
        let (rem, n) = code_block_spec(s)->Some_0;
        lemma_nodes_text_single(n);
    } else if code_spec(mode, s) is Some {
        lemma_code_structure(mode, s);
        let (rem, n) = code_spec(mode, s)->Some_0;
        lemma_nodes_text_single(n);
    } else if math_spec(mode, s) is Some {
        lemma_math_structure(mode, s);
        let (rem, n) = math_spec(mode, s)->Some_0;
        lemma_nodes_text_single(n);
    } else if command_spec(s) is Some {
        lemma_command_structure(s);
        let (rem, n) = command_spec(s)->Some_0;
        lemma_nodes_text_single(n);
    } else if newline_spec(s) is Some {
        lemma_nodes_text_single(NodeModel::NewLine);
        assert(s.take(1) =~= seq!['\n']);
        assert(s =~= s.take(1) + s.skip(1));
    }
}

/// One scanner step with a dispatch match: the skipped prefix becomes a
/// text node, the matched nodes follow, and the scan restarts on the
/// remainder.
pub proof fn lemma_scan_step_match(
    mode: Mode,
    s: Seq<char>,
    k: int,
    rem: Seq<char>,
    nodes: Seq<NodeModel>,
)
    requires
        0 <= k < s.len(),
        is_syntax_char(s[k]),
        dispatch_spec(mode, s.skip(k)) == Some((rem, nodes)),
        rem.len() < s.len(),
    ensures
        scan_spec(mode, s, k) == (if k > 0 {
            seq![NodeModel::Text(s.take(k))]
        } else {
            Seq::empty()
        }) + nodes + scan_spec(mode, rem, 0),
{
    reveal(dispatch_spec);
}

/// One scanner step without a match: the scan moves one position right.
pub proof fn lemma_scan_step_none(mode: Mode, s: Seq<char>, k: int)
    requires
        0 <= k < s.len(),
        is_syntax_char(s[k]) ==> dispatch_spec(mode, s.skip(k)) is None,
    ensures
        scan_spec(mode, s, k) == scan_spec(mode, s, k + 1),
{
    reveal(dispatch_spec);
}

/// Losslessness of the scanner from any offset: wherever the scan consumed
/// no escape and no heading, concatenating the covered text of every
/// produced node reproduces the scanned input exactly.
pub proof fn lemma_scan_text(mode: Mode, s: Seq<char>, k: int)
    ensures
        scan_lossless(mode, s, k) ==> nodes_text(scan_spec(mode, s, k)) =~= s,
    decreases s.len(), s.len() - k, 3int,
{
    reveal(dispatch_spec);
    if !(0 <= k < s.len()) {
        if s.len() > 0 {
            lemma_nodes_text_single(NodeModel::Text(s));
        }
    } else if is_syntax_char(s[k]) {
        lemma_dispatch_text(mode, s.skip(k));
        match dispatch_spec(mode, s.skip(k)) {
            Some((rem, nodes)) => {
                if scan_lossless(mode, s, k) {
                    let prefix: Seq<NodeModel> = if k > 0 {
                        seq![NodeModel::Text(s.take(k))]
                    } else {
                        Seq::empty()
                    };
                    lemma_scan_text(mode, rem, 0);
                    lemma_nodes_text_concat(prefix + nodes, scan_spec(mode, rem, 0));
                    lemma_nodes_text_concat(prefix, nodes);
                    if k > 0 {
                        lemma_nodes_text_single(NodeModel::Text(s.take(k)));
                    }
                    assert(s.take(k) + s.skip(k) =~= s);
                }
            },
            None => {
                lemma_scan_text(mode, s, k + 1);
            },
        }
    } else {
        lemma_scan_text(mode, s, k + 1);
    }
}

/// Round-trip law: wherever the scan consumed no escape and no heading —
/// the two forms whose nodes do not carry all their consumed marker
/// characters — re-concatenating the spans and delimiters of the AST
/// produced by the document scanner yields the input, with no gaps and no
/// overlaps.
pub proof fn lemma_round_trip(mode: Mode, s: Seq<char>)
    requires
        scan_lossless(mode, s, 0),
    ensures
        nodes_text(scan_spec(mode, s, 0)) == s,
{
    lemma_scan_text(mode, s, 0);
}

proof fn lemma_literal_fallback_from(mode: Mode, s: Seq<char>, k: int)
    requires
        0 <= k <= s.len(),
        s.len() > 0,
        forall|j: int|
            k <= j < s.len() && is_syntax_char(s[j]) ==> dispatch_spec(mode, s.skip(j)) is None,
    ensures
        scan_spec(mode, s, k) == seq![NodeModel::Text(s)],
    decreases s.len() - k,
{
    reveal(dispatch_spec);
    if k < s.len() {
        lemma_literal_fallback_from(mode, s, k + 1);
    }
}

/// Idempotence on literal fallback: when a nonempty input holds no
/// recognizable syntax — the dispatch alternation matches at no position —
/// the scan yields exactly one literal text node equal to the whole input.
pub proof fn lemma_literal_fallback(mode: Mode, s: Seq<char>)
    requires
        s.len() > 0,
        forall|j: int|
            0 <= j < s.len() && is_syntax_char(s[j]) ==> dispatch_spec(mode, s.skip(j)) is None,
    ensures
        scan_spec(mode, s, 0) == seq![NodeModel::Text(s)],
{
    lemma_literal_fallback_from(mode, s, 0);
}

} // verus!
