//! The link resolver. Three alternatives, tried in order: an autodetected
//! raw URL, found by feeding the input character by character through
//! urlocator's streaming URL state machine; an explicit `[title](url)` link;
//! and the image form, which is the explicit link prefixed by `!`.

use vstd::prelude::*;

use crate::ast::{
    lemma_md_views_push, md_view, md_views, opt_nodes_view, Markdown, NodeModel,
};
use crate::utils::{
    fenced, fenced_spec, find_sub, find_sub_spec, lemma_fenced_structure, lemma_find_sub_props,
};

verus! {

#[verifier::external_type_specification]
#[verifier::external_body]
pub struct ExUrlLocator(urlocator::UrlLocator);

/// The characters a locator has been fed so far, oldest first.
pub uninterp spec fn locator_fed(l: urlocator::UrlLocator) -> Seq<char>;

/// What the locator reports after being fed exactly this character stream:
/// `None` when the last character reset the parser, `Some(None)` while a
/// possible URL scheme is being read, and `Some(Some((length, end_offset)))`
/// when the stream currently ends in a valid URL of `length` characters
/// whose last `end_offset` characters are trailing punctuation outside it.
pub uninterp spec fn url_step(fed: Seq<char>) -> Option<Option<(u16, u16)>>;

/// One advancement of the URL state machine, as reported to verified code.
pub enum UrlStep {
    Url(u16, u16),
    Scheme,
    Reset,
}

pub open spec fn step_code(s: UrlStep) -> Option<Option<(u16, u16)>> {
    match s {
        UrlStep::Url(length, offset) => Some(Some((length, offset))),
        UrlStep::Scheme => Some(None),
        UrlStep::Reset => None,
    }
}

/// How many times `c` occurs in `s`.
pub open spec fn count_char(s: Seq<char>, c: char) -> int
    decreases s,
{
    if s.len() == 0 {
        0
    } else {
        count_char(s.drop_last(), c) + if s.last() == c {
            1int
        } else {
            0int
        }
    }
}

pub proof fn lemma_count_char_nonneg(s: Seq<char>, c: char)
    ensures
        count_char(s, c) >= 0,
    decreases s,
{
    if s.len() > 0 {
        lemma_count_char_nonneg(s.drop_last(), c);
    }
}

pub proof fn lemma_count_char_take_step(s: Seq<char>, c: char, i: int)
    requires
        0 <= i < s.len(),
    ensures
        count_char(s.take(i + 1), c) == count_char(s.take(i), c) + if s[i] == c {
            1int
        } else {
            0int
        },
{
    assert(s.take(i + 1).drop_last() =~= s.take(i));
    assert(s.take(i + 1).last() == s[i]);
}

/// Occurrences in a prefix never exceed those in the whole stream.
pub proof fn lemma_count_char_take_le(s: Seq<char>, c: char, i: int)
    requires
        0 <= i <= s.len(),
    ensures
        count_char(s.take(i), c) <= count_char(s, c),
    decreases s.len() - i,
{
    if i == s.len() {
        assert(s.take(i) =~= s);
    } else {
        lemma_count_char_take_step(s, c, i);
        lemma_count_char_take_le(s, c, i + 1);
    }
}

/// The stream sizes under which the locator's internal counters cannot
/// overflow on the next advancement: it counts the characters fed since the
/// last reset in a `u16` and the open parentheses and brackets of a URL run
/// in a `u8`, all incremented unchecked.
pub open spec fn locator_within_limits(fed: Seq<char>) -> bool {
    &&& fed.len() <= 65534
    &&& count_char(fed, '(') <= 254
    &&& count_char(fed, '[') <= 254
}

/// Relies on urlocator::UrlLocator::new: a fresh locator has been fed
/// nothing.
#[verifier::external_body]
fn locator_new() -> (r: urlocator::UrlLocator)
    ensures
        locator_fed(r) == Seq::<char>::empty(),
{
    urlocator::UrlLocator::new()
}

/// Relies on urlocator::UrlLocator::advance: the locator is a deterministic
/// state machine, so what it reports is a function of the complete character
/// stream fed so far and of nothing else. The precondition keeps its
/// unchecked internal counters — a `u16` stream counter and `u8` bracket
/// counters — from overflowing on this advancement.
#[verifier::external_body]
fn locator_advance(l: &mut urlocator::UrlLocator, c: char) -> (r: UrlStep)
    requires
        locator_within_limits(locator_fed(*old(l))),
    ensures
        locator_fed(*final(l)) == locator_fed(*old(l)).push(c),
        step_code(r) == url_step(locator_fed(*old(l)).push(c)),
{
    match l.advance(c) {
        urlocator::UrlLocation::Url(length, offset) => UrlStep::Url(length, offset),
        urlocator::UrlLocation::Scheme => UrlStep::Scheme,
        urlocator::UrlLocation::Reset => UrlStep::Reset,
    }
}

/// The raw-link scan over `s` from position `i` carrying the best confirmed
/// URL span so far: each reported URL refines the span, the first reset
/// after a confirmed span ends the scan, and the scan otherwise runs to the
/// end of the input.
pub open spec fn raw_scan_spec(s: Seq<char>, i: int, best: Option<(int, int)>) -> Option<
    (int, int),
>
    decreases s.len() - i,
{
    if !(0 <= i < s.len()) {
        best
    } else {
        match url_step(s.take(i + 1)) {
            None => if best is Some {
                best
            } else {
                raw_scan_spec(s, i + 1, best)
            },
            Some(None) => raw_scan_spec(s, i + 1, best),
            Some(Some((length, offset))) => raw_scan_spec(
                s,
                i + 1,
                if 1 <= length && length + offset <= i + 1 {
                    Some((i + 1 - offset - length, i + 1 - offset))
                } else {
                    best
                },
            ),
        }
    }
}

/// The confirmed URL span of the input, if the scan confirms one.
pub open spec fn raw_link_spec(s: Seq<char>) -> Option<(int, int)> {
    raw_scan_spec(s, 0, None)
}

/// A confirmed span lies inside the input and is nonempty.
pub proof fn lemma_raw_scan_bounds(s: Seq<char>, i: int, best: Option<(int, int)>)
    requires
        0 <= i,
        match best {
            Some((a, b)) => 0 <= a < b <= s.len(),
            None => true,
        },
    ensures
        match raw_scan_spec(s, i, best) {
            Some((a, b)) => 0 <= a < b <= s.len(),
            None => true,
        },
    decreases s.len() - i,
{
    if !(0 <= i < s.len()) {
    } else {
        match url_step(s.take(i + 1)) {
            None => {
                if !(best is Some) {
                    lemma_raw_scan_bounds(s, i + 1, best);
                }
            },
            Some(None) => {
                lemma_raw_scan_bounds(s, i + 1, best);
            },
            Some(Some((length, offset))) => {
                let nb = if 1 <= length && length + offset <= i + 1 {
                    Some((i + 1 - offset - length, i + 1 - offset))
                } else {
                    best
                };
                lemma_raw_scan_bounds(s, i + 1, nb);
            },
        }
    }
}

/// Locate a raw URL: the result is its span as character positions. The
/// precondition keeps the locator's internal counters within their machine
/// limits while every input character is fed.
fn raw_link(input: &str) -> (r: Option<(usize, usize)>)
    requires
        locator_within_limits(input@),
    ensures
        match r {
            Some((a, b)) => raw_link_spec(input@) == Some((a as int, b as int)) && a < b <= input@.len(),
            None => raw_link_spec(input@) is None,
        },
{
    let n = input.unicode_len();
    let mut loc = locator_new();
    let mut best: Option<(usize, usize)> = None;
    let mut i: usize = 0;
    while i < n
        invariant
            n == input@.len(),
            i <= n,
            locator_within_limits(input@),
            locator_fed(loc) == input@.take(i as int),
            match best {
                Some((a, b)) => a < b <= i && raw_scan_spec(
                    input@,
                    i as int,
                    Some((a as int, b as int)),
                ) == raw_link_spec(input@),
                None => raw_scan_spec(input@, i as int, None) == raw_link_spec(input@),
            },
        decreases n - i,
    {
        let c = input.get_char(i);
        proof {
            lemma_count_char_take_le(input@, '(', i as int);
            lemma_count_char_take_le(input@, '[', i as int);
        }
        let step = locator_advance(&mut loc, c);
        proof {
            assert(input@.take(i as int).push(c) =~= input@.take(i + 1));
        }
        match step {
            UrlStep::Reset => {
                if let Some((a, b)) = best {
                    return Some((a, b));
                }
            },
            UrlStep::Scheme => {},
            UrlStep::Url(length, offset) => {
                let l = length as usize;
                let o = offset as usize;
                if 1 <= l && l + o <= i + 1 {
                    best = Some((i + 1 - o - l, i + 1 - o));
                }
            },
        }
        i += 1;
    }
    best
}

/// An explicit link: a `[`…`]` fenced title capture immediately followed by
/// a parenthesised url capture of at least one character, which excludes the
/// closing parenthesis.
pub open spec fn url_link_spec(s: Seq<char>) -> Option<(Seq<char>, (Seq<char>, Seq<char>))> {
    match fenced_spec(seq!['['], seq![']'], s) {
        Some((rem1, title)) => if rem1.len() >= 1 && rem1[0] == '(' {
            match find_sub_spec(rem1, seq![')'], 1) {
                Some(q) => if q == 1 {
                    None
                } else {
                    Some((rem1.skip(q + 1), (title, rem1.subrange(1, q))))
                },
                None => None,
            }
        } else {
            None
        },
        None => None,
    }
}

/// The image form: the explicit link prefixed by `!`.
pub open spec fn image_spec(s: Seq<char>) -> Option<(Seq<char>, (Seq<char>, Seq<char>))> {
    if s.len() >= 1 && s[0] == '!' {
        url_link_spec(s.skip(1))
    } else {
        None
    }
}

pub fn url_link<'a>(input: &'a str) -> (r: Option<(&'a str, (&'a str, &'a str))>)
    ensures
        match (r, url_link_spec(input@)) {
            (Some((rem, (title, url))), Some((srem, (st, su)))) => {
                &&& rem@ == srem
                &&& title@ == st
                &&& url@ == su
            },
            (None, None) => true,
            _ => false,
        },
{
    proof {
        reveal_strlit("[");
        reveal_strlit("]");
        reveal_strlit(")");
        assert("["@ =~= seq!['[']);
        assert("]"@ =~= seq![']']);
        assert(")"@ =~= seq![')']);
    }
    match fenced("[", "]", input) {
        Some((rem1, title)) => {
            let m = rem1.unicode_len();
            if m >= 1 && rem1.get_char(0) == '(' {
                match find_sub(rem1, ")", 1) {
                    Some(q) => if q == 1 {
                        None
                    } else {
                        proof {
                            lemma_find_sub_props(rem1@, ")"@, 1);
                        }
                        let url = rem1.substring_char(1, q);
                        let rem = rem1.substring_char(q + 1, m);
                        proof {
                            assert(rem@ =~= rem1@.skip(q + 1));
                        }
                        Some((rem, (title, url)))
                    },
                    None => None,
                }
            } else {
                None
            }
        },
        None => None,
    }
}

pub fn image<'a>(input: &'a str) -> (r: Option<(&'a str, (&'a str, &'a str))>)
    ensures
        match (r, image_spec(input@)) {
            (Some((rem, (alt, url))), Some((srem, (st, su)))) => {
                &&& rem@ == srem
                &&& alt@ == st
                &&& url@ == su
            },
            (None, None) => true,
            _ => false,
        },
{
    let n = input.unicode_len();
    if n >= 1 && input.get_char(0) == '!' {
        let tail = input.substring_char(1, n);
        proof {
            assert(tail@ =~= input@.skip(1));
        }
        url_link(tail)
    } else {
        None
    }
}

/// A matched explicit link splits its input exactly as
/// `s == [ + title + ]( + url + ) + remainder`.
pub proof fn lemma_url_link_structure(s: Seq<char>)
    requires
        url_link_spec(s) is Some,
    ensures
        ({
            let (rem, (title, url)) = url_link_spec(s)->Some_0;
            &&& s =~= seq!['['] + title + seq![']', '('] + url + seq![')'] + rem
            &&& rem.len() < s.len()
        }),
{
    lemma_fenced_structure(seq!['['], seq![']'], s);
    let (rem1, title) = fenced_spec(seq!['['], seq![']'], s)->Some_0;
    lemma_find_sub_props(rem1, seq![')'], 1);
    let q = find_sub_spec(rem1, seq![')'], 1)->Some_0;
    assert(rem1[q] == ')') by {
        assert(rem1.subrange(q, q + 1)[0] == ')');
    }
    assert(rem1 =~= seq!['('] + rem1.subrange(1, q) + seq![')'] + rem1.skip(q + 1));
    let (rem, (title2, url)) = url_link_spec(s)->Some_0;
    assert(s =~= seq!['['] + title + seq![']', '('] + url + seq![')'] + rem);
}

/// The explicit alternatives alone: a bracket link, then the image form.
pub open spec fn explicit_link_spec(s: Seq<char>) -> Option<(Seq<char>, Seq<NodeModel>)> {
    match url_link_spec(s) {
        Some((rem, (t, u))) => Some((rem, seq![NodeModel::Link { title: t, url: u }])),
        None => match image_spec(s) {
            Some((rem, (t, u))) => Some((rem, seq![NodeModel::Image { alt: t, url: u }])),
            None => None,
        },
    }
}

fn link_explicit<'a>(input: &'a str) -> (r: Option<(&'a str, Vec<Markdown>)>)
    ensures
        opt_nodes_view(r) == explicit_link_spec(input@),
{
    match url_link(input) {
        Some((rem, (title, url))) => {
            let m = Markdown::Link { title: title.to_owned(), url: url.to_owned() };
            let ghost gm = m;
            let mut ns: Vec<Markdown> = Vec::new();
            ns.push(m);
            proof {
                lemma_md_views_push(Seq::<Markdown>::empty(), gm);
                assert(md_views(ns@) =~= seq![md_view(gm)]);
            }
            return Some((rem, ns));
        },
        None => {},
    }
    match image(input) {
        Some((rem, (alt, url))) => {
            let m = Markdown::Image { alt: alt.to_owned(), url: url.to_owned() };
            let ghost gm = m;
            let mut ns: Vec<Markdown> = Vec::new();
            ns.push(m);
            proof {
                lemma_md_views_push(Seq::<Markdown>::empty(), gm);
                assert(md_views(ns@) =~= seq![md_view(gm)]);
            }
            Some((rem, ns))
        },
        None => None,
    }
}

fn count_occurrences(s: &str, c: char) -> (r: usize)
    ensures
        r as int == count_char(s@, c),
{
    let n = s.unicode_len();
    let mut cnt: usize = 0;
    let mut i: usize = 0;
    proof {
        assert(s@.take(0) =~= Seq::<char>::empty());
    }
    while i < n
        invariant
            n == s@.len(),
            i <= n,
            cnt <= i,
            cnt as int == count_char(s@.take(i as int), c),
        decreases n - i,
    {
        proof {
            lemma_count_char_take_step(s@, c, i as int);
        }
        if s.get_char(i) == c {
            cnt += 1;
        }
        i += 1;
    }
    proof {
        assert(s@.take(n as int) =~= s@);
    }
    cnt
}

/// Whether the whole input may be fed to the locator without reaching its
/// counter limits.
fn within_limits(input: &str) -> (r: bool)
    ensures
        r == locator_within_limits(input@),
{
    let n = input.unicode_len();
    if n > 65534 {
        return false;
    }
    let parens = count_occurrences(input, '(');
    let brackets = count_occurrences(input, '[');
    parens <= 254 && brackets <= 254
}

/// The alternation of the three link forms. A raw link carries leading plain
/// text (if any) as its own text node before the URL span, and is attempted
/// only on inputs small enough for the locator's counters; explicit links
/// and images are single nodes.
pub open spec fn parse_link_spec(s: Seq<char>) -> Option<(Seq<char>, Seq<NodeModel>)> {
    let raw = if locator_within_limits(s) {
        raw_link_spec(s)
    } else {
        None
    };
    match raw {
        Some((a, b)) => Some(
            (
                s.skip(b),
                (if a > 0 {
                    seq![NodeModel::Text(s.take(a))]
                } else {
                    Seq::empty()
                }) + seq![NodeModel::RawLink(s.subrange(a, b))],
            ),
        ),
        None => explicit_link_spec(s),
    }
}

pub fn parse_link<'a>(input: &'a str) -> (r: Option<(&'a str, Vec<Markdown>)>)
    ensures
        opt_nodes_view(r) == parse_link_spec(input@),
{
    let n = input.unicode_len();
    if !within_limits(input) {
        return link_explicit(input);
    }
    match raw_link(input) {
        Some((a, b)) => {
            let mut ns: Vec<Markdown> = Vec::new();
            if a > 0 {
                let m = Markdown::Text(input.substring_char(0, a).to_owned());
                let ghost gm = m;
                ns.push(m);
                proof {
                    lemma_md_views_push(Seq::<Markdown>::empty(), gm);
                    assert(input@.subrange(0, a as int) =~= input@.take(a as int));
                    assert(md_views(ns@) =~= seq![NodeModel::Text(input@.take(a as int))]);
                }
            }
            let ghost pre = ns@;
            let m2 = Markdown::RawLink(input.substring_char(a, b).to_owned());
            let ghost gm2 = m2;
            ns.push(m2);
            proof {
                lemma_md_views_push(pre, gm2);
                assert(md_views(ns@) =~= md_views(pre) + seq![
                    NodeModel::RawLink(input@.subrange(a as int, b as int)),
                ]);
            }
            let rem = input.substring_char(b, n);
            proof {
                assert(rem@ =~= input@.skip(b as int));
            }
            Some((rem, ns))
        },
        None => link_explicit(input),
    }
}

/// The link alternation as the document scanner tries it at one position: a
/// raw link is taken only when its confirmed span begins exactly at that
/// position — the scanner itself carries any skipped prefix as a text node —
/// and otherwise the explicit and image forms are tried.
pub open spec fn link_here_spec(s: Seq<char>) -> Option<(Seq<char>, Seq<NodeModel>)> {
    let raw = if locator_within_limits(s) {
        raw_link_spec(s)
    } else {
        None
    };
    match raw {
        Some((a, b)) => if a == 0 {
            Some((s.skip(b), seq![NodeModel::RawLink(s.take(b))]))
        } else {
            explicit_link_spec(s)
        },
        None => explicit_link_spec(s),
    }
}

pub fn link_here<'a>(input: &'a str) -> (r: Option<(&'a str, Vec<Markdown>)>)
    ensures
        opt_nodes_view(r) == link_here_spec(input@),
{
    let n = input.unicode_len();
    if !within_limits(input) {
        return link_explicit(input);
    }
    match raw_link(input) {
        Some((a, b)) => {
            if a == 0 {
                let m = Markdown::RawLink(input.substring_char(0, b).to_owned());
                let ghost gm = m;
                let mut ns: Vec<Markdown> = Vec::new();
                ns.push(m);
                proof {
                    lemma_md_views_push(Seq::<Markdown>::empty(), gm);
                    assert(input@.subrange(0, b as int) =~= input@.take(b as int));
                    assert(md_views(ns@) =~= seq![NodeModel::RawLink(input@.take(b as int))]);
                }
                let rem = input.substring_char(b, n);
                proof {
                    assert(rem@ =~= input@.skip(b as int));
                }
                Some((rem, ns))
            } else {
                link_explicit(input)
            }
        },
        None => link_explicit(input),
    }
}

} // verus!
