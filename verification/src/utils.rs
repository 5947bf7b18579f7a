//! String-scanning primitives shared by every parser: prefix tests, first
//! occurrence search, and the fenced-span primitive (consume a start marker,
//! capture up to the first end marker, consume the end marker).

use vstd::prelude::*;

verus! {

/// `p` occurs in `s` starting at position `i`.
pub open spec fn has_prefix_at(s: Seq<char>, p: Seq<char>, i: int) -> bool {
    0 <= i && i + p.len() <= s.len() && s.subrange(i, i + p.len()) == p
}

/// Position of the first occurrence of `p` in `s` at or after `from`.
pub open spec fn find_sub_spec(s: Seq<char>, p: Seq<char>, from: int) -> Option<int>
    decreases s.len() - from,
{
    if p.len() == 0 {
        if 0 <= from <= s.len() {
            Some(from)
        } else {
            None
        }
    } else if from + p.len() > s.len() {
        None
    } else if has_prefix_at(s, p, from) {
        Some(from)
    } else {
        find_sub_spec(s, p, from + 1)
    }
}

/// What a found (or absent) occurrence means: the match is at or after `from`,
/// lies inside `s`, and no earlier position at or after `from` matches.
pub proof fn lemma_find_sub_props(s: Seq<char>, p: Seq<char>, from: int)
    requires
        0 <= from,
    ensures
        match find_sub_spec(s, p, from) {
            Some(pos) => {
                &&& from <= pos
                &&& pos + p.len() <= s.len()
                &&& has_prefix_at(s, p, pos)
                &&& forall|j: int| from <= j < pos ==> !has_prefix_at(s, p, j)
            },
            None => forall|j: int| from <= j ==> !has_prefix_at(s, p, j),
        },
    decreases s.len() - from,
{
    if p.len() == 0 {
        if 0 <= from <= s.len() {
            assert(s.subrange(from, from) =~= p);
        }
    } else if from + p.len() > s.len() {
    } else if has_prefix_at(s, p, from) {
    } else {
        lemma_find_sub_props(s, p, from + 1);
    }
}

/// Whitespace in the sense of `char::is_whitespace` (the Unicode
/// `White_Space` property), used by the strict-mode demotion rule.
pub open spec fn is_ws_char(c: char) -> bool {
    ||| c == ' '
    ||| c == '\t'
    ||| c == '\n'
    ||| c == '\r'
    ||| c == '\u{b}'
    ||| c == '\u{c}'
    ||| c == '\u{85}'
    ||| c == '\u{a0}'
    ||| c == '\u{1680}'
    ||| ('\u{2000}' as u32) <= (c as u32) <= ('\u{200a}' as u32)
    ||| c == '\u{2028}'
    ||| c == '\u{2029}'
    ||| c == '\u{202f}'
    ||| c == '\u{205f}'
    ||| c == '\u{3000}'
}

pub fn is_ws(c: char) -> (r: bool)
    ensures
        r == is_ws_char(c),
{
    let n = c as u32;
    n == 0x20 || n == 0x9 || n == 0xa || n == 0xd || n == 0xb || n == 0xc || n == 0x85
        || n == 0xa0 || n == 0x1680 || (0x2000 <= n && n <= 0x200a) || n == 0x2028 || n == 0x2029
        || n == 0x202f || n == 0x205f || n == 0x3000
}

/// `p` occurs in `s` at position `i`, checked character by character.
pub fn starts_with_at(s: &str, p: &str, i: usize) -> (r: bool)
    ensures
        r == has_prefix_at(s@, p@, i as int),
{
    let n = s.unicode_len();
    let m = p.unicode_len();
    if i > n || m > n - i {
        return false;
    }
    let mut j: usize = 0;
    while j < m
        invariant
            i + m <= n,
            n == s@.len(),
            m == p@.len(),
            j <= m,
            forall|jj: int| 0 <= jj < j ==> s@[i + jj] == p@[jj],
        decreases m - j,
    {
        if s.get_char(i + j) != p.get_char(j) {
            assert(s@.subrange(i as int, i + m) != p@) by {
                assert(s@.subrange(i as int, i + m)[j as int] != p@[j as int]);
            }
            return false;
        }
        j += 1;
    }
    assert(s@.subrange(i as int, i + m) =~= p@);
    true
}

/// The views of two string slices are equal.
pub fn str_eq(a: &str, b: &str) -> (r: bool)
    ensures
        r == (a@ == b@),
{
    let n = a.unicode_len();
    if n != b.unicode_len() {
        assert(a@ != b@) by {
            assert(a@.len() != b@.len());
        }
        return false;
    }
    let r = starts_with_at(a, b, 0);
    if r {
        assert(a@.subrange(0, a@.len() as int) =~= a@);
    } else {
        assert(a@.subrange(0, a@.len() as int) =~= a@);
    }
    r
}

/// First occurrence of `p` in `s` at or after `from`.
pub fn find_sub(s: &str, p: &str, from: usize) -> (r: Option<usize>)
    ensures
        match r {
            Some(pos) => find_sub_spec(s@, p@, from as int) == Some(pos as int),
            None => find_sub_spec(s@, p@, from as int) is None,
        },
{
    let n = s.unicode_len();
    let m = p.unicode_len();
    if m == 0 {
        if from <= n {
            return Some(from);
        } else {
            return None;
        }
    }
    if m > n {
        return None;
    }
    let mut i: usize = from;
    while i <= n - m
        invariant
            n == s@.len(),
            m == p@.len(),
            1 <= m <= n,
            from <= i,
            find_sub_spec(s@, p@, from as int) == find_sub_spec(s@, p@, i as int),
        decreases n - i,
    {
        if starts_with_at(s, p, i) {
            return Some(i);
        }
        i += 1;
    }
    None
}

pub open spec fn opt_str2_view(r: Option<(&str, &str)>) -> Option<(Seq<char>, Seq<char>)> {
    match r {
        Some((a, b)) => Some((a@, b@)),
        None => None,
    }
}

/// The fenced-span primitive: consume `start`, capture everything up to the
/// first occurrence of `end` (non-greedy), consume `end`. The result is
/// `(remainder, captured)`; absence of either marker is a plain no-match.
pub open spec fn fenced_spec(start: Seq<char>, end: Seq<char>, s: Seq<char>) -> Option<
    (Seq<char>, Seq<char>),
> {
    if has_prefix_at(s, start, 0) {
        match find_sub_spec(s, end, start.len() as int) {
            Some(pos) => Some((s.skip(pos + end.len()), s.subrange(start.len() as int, pos))),
            None => None,
        }
    } else {
        None
    }
}

/// A successful fenced capture splits its input exactly:
/// `s == start + captured + end + remainder`.
pub proof fn lemma_fenced_structure(start: Seq<char>, end: Seq<char>, s: Seq<char>)
    requires
        fenced_spec(start, end, s) is Some,
    ensures
        ({
            let (rem, cap) = fenced_spec(start, end, s)->Some_0;
            &&& s =~= start + cap + end + rem
            &&& rem.len() == s.len() - start.len() - cap.len() - end.len()
        }),
{
    lemma_find_sub_props(s, end, start.len() as int);
    let pos = find_sub_spec(s, end, start.len() as int)->Some_0;
    let (rem, cap) = fenced_spec(start, end, s)->Some_0;
    assert(s.subrange(0, start.len() as int) == start);
    assert(s.subrange(pos, pos + end.len()) == end);
    assert(s =~= s.subrange(0, start.len() as int) + s.subrange(start.len() as int, pos)
        + s.subrange(pos, pos + end.len()) + s.skip(pos + end.len()));
}

pub fn fenced<'a>(start: &str, end: &str, input: &'a str) -> (r: Option<(&'a str, &'a str)>)
    ensures
        opt_str2_view(r) == fenced_spec(start@, end@, input@),
{
    let sl = start.unicode_len();
    let el = end.unicode_len();
    let n = input.unicode_len();
    if !starts_with_at(input, start, 0) {
        return None;
    }
    match find_sub(input, end, sl) {
        Some(pos) => {
            proof {
                lemma_find_sub_props(input@, end@, sl as int);
            }
            let cap = input.substring_char(sl, pos);
            let rem = input.substring_char(pos + el, n);
            assert(rem@ == input@.skip(pos + el as int));
            Some((rem, cap))
        },
        None => None,
    }
}

} // verus!
