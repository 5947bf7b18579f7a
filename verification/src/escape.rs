//! The escape handler: a backslash followed by exactly one character from a
//! fixed escapable set yields that character as literal text, consuming two
//! characters. Any other character after a backslash is not consumed; the
//! backslash then becomes literal text through the scanner's fallback.

use vstd::prelude::*;

use crate::ast::{md_view, Markdown, NodeModel};

verus! {

/// The fixed escapable set.
pub open spec fn is_escapable(c: char) -> bool {
    ||| c == '\\'
    ||| c == '`'
    ||| c == '*'
    ||| c == '<'
    ||| c == '>'
    ||| c == '#'
    ||| c == '+'
    ||| c == '-'
    ||| c == '.'
    ||| c == '|'
}

/// A match consumes exactly two characters and captures the second one.
pub open spec fn escape_spec(s: Seq<char>) -> Option<(Seq<char>, Seq<char>)> {
    if s.len() >= 2 && s[0] == '\\' && is_escapable(s[1]) {
        Some((s.skip(2), s.subrange(1, 2)))
    } else {
        None
    }
}

pub fn escapable(c: char) -> (r: bool)
    ensures
        r == is_escapable(c),
{
    c == '\\' || c == '`' || c == '*' || c == '<' || c == '>' || c == '#' || c == '+' || c == '-'
        || c == '.' || c == '|'
}

/// The escaped character is emitted as a literal text node.
pub fn escape<'a>(input: &'a str) -> (r: Option<(&'a str, Markdown)>)
    ensures
        match (r, escape_spec(input@)) {
            (Some((rem, m)), Some((srem, cap))) => rem@ == srem && md_view(m) == NodeModel::Text(
                cap,
            ),
            (None, None) => true,
            _ => false,
        },
{
    let n = input.unicode_len();
    if n >= 2 && input.get_char(0) == '\\' && escapable(input.get_char(1)) {
        let cap = input.substring_char(1, 2);
        let rem = input.substring_char(2, n);
        proof {
            assert(rem@ =~= input@.skip(2));
        }
        Some((rem, Markdown::Text(cap.to_owned())))
    } else {
        None
    }
}

} // verus!
