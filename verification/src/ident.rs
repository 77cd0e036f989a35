//! Validation of user-supplied identifiers, such as field names.

use vstd::prelude::*;
use vstd::string::StrSliceExecFns;

verus! {

/// The Unicode numeric-character class, as std classifies characters.
pub uninterp spec fn is_numeric_char(c: char) -> bool;

/// The Unicode whitespace-character class, as std classifies characters.
pub uninterp spec fn is_whitespace_char(c: char) -> bool;

/// Relies on `char::is_numeric`: the result depends on the character
/// alone.  The ASCII digits are numeric; ASCII letters are not.
#[verifier::external_body]
fn char_is_numeric(c: char) -> (r: bool)
    ensures
        r == is_numeric_char(c),
        ('0' as u32) <= (c as u32) && (c as u32) <= ('9' as u32) ==> r,
        ('a' as u32) <= (c as u32) && (c as u32) <= ('z' as u32) ==> !r,
        ('A' as u32) <= (c as u32) && (c as u32) <= ('Z' as u32) ==> !r,
{
    c.is_numeric()
}

/// Relies on `char::is_whitespace`: the result depends on the character
/// alone.  Space, tab and newline are whitespace; ASCII letters and
/// digits are not.
#[verifier::external_body]
fn char_is_whitespace(c: char) -> (r: bool)
    ensures
        r == is_whitespace_char(c),
        c == ' ' || c == '\t' || c == '\n' ==> r,
        ('0' as u32) <= (c as u32) && (c as u32) <= ('9' as u32) ==> !r,
        ('a' as u32) <= (c as u32) && (c as u32) <= ('z' as u32) ==> !r,
        ('A' as u32) <= (c as u32) && (c as u32) <= ('Z' as u32) ==> !r,
{
    c.is_whitespace()
}

/// A well-formed identifier: non-empty, not opening with a numeric
/// character, and holding no whitespace anywhere.
pub open spec fn spec_valid_ident(s: Seq<char>) -> bool {
    &&& s.len() > 0
    &&& !is_numeric_char(s[0])
    &&& forall|i: int| 0 <= i < s.len() ==> !is_whitespace_char(#[trigger] s[i])
}

/// Checks a user-supplied name: it must be non-empty, must not start
/// with a number, and must contain no whitespace.
pub fn is_valid_ident(name: &str) -> (r: bool)
    ensures
        r == spec_valid_ident(name@),
{
    let len = name.unicode_len();
    if len == 0 {
        return false;
    }
    if char_is_numeric(name.get_char(0)) {
        return false;
    }
    let mut i: usize = 0;
    while i < len
        invariant
            len == name@.len(),
            i <= len,
            !is_numeric_char(name@[0]),
            forall|j: int| 0 <= j < i ==> !is_whitespace_char(#[trigger] name@[j]),
        decreases len - i,
    {
        if char_is_whitespace(name.get_char(i)) {
            return false;
        }
        i = i + 1;
    }
    true
}

} // verus!
