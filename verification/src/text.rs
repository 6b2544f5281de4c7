//! Case normalisation of names.

use vstd::prelude::*;

verus! {

/// The ASCII lower-case form of a character: `A` to `Z` map to `a` to `z`,
/// every other character to itself.
pub open spec fn ascii_lower(c: char) -> char {
    if 'A' <= c && c <= 'Z' {
        ((c as u8 + 32) as u8) as char
    } else {
        c
    }
}

/// The text with each character in its ASCII lower-case form.
pub open spec fn lowercased(text: Seq<char>) -> Seq<char> {
    Seq::new(text.len(), |i: int| ascii_lower(text[i]))
}

/// Calls `str::to_ascii_lowercase`, which returns a copy of the string in
/// which the ASCII letters `A` to `Z` are replaced by `a` to `z` and every
/// other character is kept.
#[verifier::external_body]
pub(crate) fn to_lowercase_ascii(text: &String) -> (lower: String)
    ensures
        lower@ == lowercased(text@),
{
    text.to_ascii_lowercase()
}

} // verus!
