//! The heading parser: a run of `#` marks gives the level (unbounded; levels
//! beyond six are the caller's concern), following whitespace is consumed,
//! and the rest of the line is the content. The content is split on an
//! optional trailing `{#identifier}` fenced span: when present it supplies
//! the custom id, otherwise the id defaults to the title text. The line may
//! end at a terminator (`\r\n` or `\n`, left unconsumed) or at end of input.

use vstd::prelude::*;

use crate::utils::{fenced, fenced_spec, find_sub, find_sub_spec, lemma_find_sub_props};

verus! {

/// Whitespace consumed between the marker run and the title: space, tab,
/// carriage return and newline.
pub open spec fn is_multispace(c: char) -> bool {
    c == ' ' || c == '\t' || c == '\r' || c == '\n'
}

/// First position at or after `i` that does not carry a `#`.
pub open spec fn hash_end(s: Seq<char>, i: int) -> int
    decreases s.len() - i,
{
    if 0 <= i < s.len() && s[i] == '#' {
        hash_end(s, i + 1)
    } else {
        i
    }
}

/// First position at or after `i` that does not carry whitespace.
pub open spec fn ws_end(s: Seq<char>, i: int) -> int
    decreases s.len() - i,
{
    if 0 <= i < s.len() && is_multispace(s[i]) {
        ws_end(s, i + 1)
    } else {
        i
    }
}

/// First position at or after `i` that carries a line terminator, or the end
/// of the input.
pub open spec fn line_end(s: Seq<char>, i: int) -> int
    decreases s.len() - i,
{
    if 0 <= i < s.len() && !(s[i] == '\r' || s[i] == '\n') {
        line_end(s, i + 1)
    } else {
        i
    }
}

/// Split the line content on an optional trailing `{#identifier}` span:
/// the title is the text before the first `{`; a `{#`…`}` capture right
/// after it supplies the id, and otherwise the id is the title itself.
pub open spec fn head_id_spec(content: Seq<char>) -> (Seq<char>, Seq<char>) {
    let p = match find_sub_spec(content, seq!['{'], 0) {
        Some(q) => q,
        None => content.len() as int,
    };
    let title = content.take(p);
    match fenced_spec(seq!['{', '#'], seq!['}'], content.skip(p)) {
        Some((frem, id)) => (title, id),
        None => (title, title),
    }
}

/// A heading needs at least one `#` and nonempty line content; the
/// terminator, if any, stays in the remainder.
pub open spec fn head_spec(s: Seq<char>) -> Option<(Seq<char>, (int, Seq<char>, Seq<char>))> {
    let h = hash_end(s, 0);
    if h == 0 {
        None
    } else {
        let t0 = ws_end(s, h);
        let t1 = line_end(s, t0);
        if t1 == t0 {
            None
        } else {
            let content = s.subrange(t0, t1);
            let (title, id) = head_id_spec(content);
            Some((s.skip(t1), (h, title, id)))
        }
    }
}

pub proof fn lemma_hash_end_bounds(s: Seq<char>, i: int)
    requires
        0 <= i <= s.len(),
    ensures
        i <= hash_end(s, i) <= s.len(),
    decreases s.len() - i,
{
    if 0 <= i < s.len() && s[i] == '#' {
        lemma_hash_end_bounds(s, i + 1);
    }
}

pub proof fn lemma_ws_end_bounds(s: Seq<char>, i: int)
    requires
        0 <= i <= s.len(),
    ensures
        i <= ws_end(s, i) <= s.len(),
    decreases s.len() - i,
{
    if 0 <= i < s.len() && is_multispace(s[i]) {
        lemma_ws_end_bounds(s, i + 1);
    }
}

pub proof fn lemma_line_end_bounds(s: Seq<char>, i: int)
    requires
        0 <= i <= s.len(),
    ensures
        i <= line_end(s, i) <= s.len(),
    decreases s.len() - i,
{
    if 0 <= i < s.len() && !(s[i] == '\r' || s[i] == '\n') {
        lemma_line_end_bounds(s, i + 1);
    }
}

fn multispace(c: char) -> (r: bool)
    ensures
        r == is_multispace(c),
{
    c == ' ' || c == '\t' || c == '\r' || c == '\n'
}

/// Parse a heading at the start of the input. The result is the remainder
/// and `(level, title, id)`.
pub fn head<'a>(input: &'a str) -> (r: Option<(&'a str, (usize, &'a str, &'a str))>)
    ensures
        match (r, head_spec(input@)) {
            (Some((rem, (level, title, id))), Some((srem, (sl, st, si)))) => {
                &&& rem@ == srem
                &&& level as int == sl
                &&& title@ == st
                &&& id@ == si
            },
            (None, None) => true,
            _ => false,
        },
{
    proof {
        reveal_strlit("{");
        reveal_strlit("{#");
        reveal_strlit("}");
        assert("{"@ =~= seq!['{']);
        assert("{#"@ =~= seq!['{', '#']);
        assert("}"@ =~= seq!['}']);
    }
    let n = input.unicode_len();
    let mut h: usize = 0;
    while h < n && input.get_char(h) == '#'
        invariant
            n == input@.len(),
            0 <= h <= n,
            hash_end(input@, h as int) == hash_end(input@, 0),
        decreases n - h,
    {
        h += 1;
    }
    proof {
        assert(hash_end(input@, h as int) == h as int);
    }
    if h == 0 {
        return None;
    }
    let mut t0: usize = h;
    while t0 < n && multispace(input.get_char(t0))
        invariant
            n == input@.len(),
            h <= t0 <= n,
            ws_end(input@, t0 as int) == ws_end(input@, h as int),
        decreases n - t0,
    {
        t0 += 1;
    }
    proof {
        assert(ws_end(input@, t0 as int) == t0 as int);
    }
    let mut t1: usize = t0;
    while t1 < n && input.get_char(t1) != '\r' && input.get_char(t1) != '\n'
        invariant
            n == input@.len(),
            t0 <= t1 <= n,
            line_end(input@, t1 as int) == line_end(input@, t0 as int),
        decreases n - t1,
    {
        t1 += 1;
    }
    proof {
        assert(line_end(input@, t1 as int) == t1 as int);
    }
    if t1 == t0 {
        return None;
    }
    let content = input.substring_char(t0, t1);
    let rem = input.substring_char(t1, n);
    proof {
        assert(rem@ =~= input@.skip(t1 as int));
    }
    let cl = content.unicode_len();
    let p = match find_sub(content, "{", 0) {
        Some(q) => {
            proof {
                lemma_find_sub_props(content@, "{"@, 0);
            }
            q
        },
        None => cl,
    };
    let title = content.substring_char(0, p);
    proof {
        assert(title@ =~= content@.take(p as int));
    }
    let tail = content.substring_char(p, cl);
    proof {
        assert(tail@ =~= content@.skip(p as int));
    }
    match fenced("{#", "}", tail) {
        Some((_frem, id)) => Some((rem, (h, title, id))),
        None => Some((rem, (h, title, title))),
    }
}

} // verus!
