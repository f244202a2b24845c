//! Upper and lower case.

use convert_case::{Case, Casing};
use vstd::prelude::*;

verus! {

/// What convert_case makes of a text when it converts it to camel case.
pub uninterp spec fn camel_case(s: Seq<char>) -> Seq<char>;

/// `to_case(Case::Camel)` of convert_case: the words of the text without separators, each but the
/// first with a capital. The result depends on the text alone.
#[verifier::external_body]
pub(crate) fn to_camel_case(s: &str) -> (r: String)
    ensures
        r@ == camel_case(s@),
{
    s.to_case(Case::Camel)
}

/// What the standard library makes of a text when it converts it to lower case.
pub uninterp spec fn lower_case(s: Seq<char>) -> Seq<char>;

pub open spec fn is_ascii_upper(c: char) -> bool {
    'A' <= c <= 'Z'
}

pub open spec fn is_ascii_lower(c: char) -> bool {
    'a' <= c <= 'z'
}

pub open spec fn is_ascii_alphanumeric(c: char) -> bool {
    is_ascii_upper(c) || is_ascii_lower(c) || '0' <= c <= '9'
}

pub open spec fn ascii_lower(c: char) -> char {
    if is_ascii_upper(c) {
        (c as u32 + 32) as char
    } else {
        c
    }
}

pub open spec fn ascii_upper(c: char) -> char {
    if is_ascii_lower(c) {
        (c as u32 - 32) as char
    } else {
        c
    }
}

pub open spec fn all_ascii(s: Seq<char>) -> bool {
    forall|i: int| 0 <= i < s.len() ==> #[trigger] (s[i] as u32) < 128
}

/// `str::to_lowercase` of the standard library maps a text to lower case by the rules of Unicode.
/// In a text of ASCII characters it changes exactly the letters `A` to `Z`.
#[verifier::external_body]
pub(crate) fn to_lower_case(s: &str) -> (r: String)
    ensures
        r@ == lower_case(s@),
        all_ascii(s@) ==> r@ == s@.map_values(|c: char| ascii_lower(c)),
{
    s.to_lowercase()
}

/// What the standard library makes of a character when it converts it to upper case: one or more
/// characters.
pub uninterp spec fn upper_case_char(c: char) -> Seq<char>;

/// `char::to_uppercase` of the standard library maps a character to upper case by the rules of
/// Unicode. Of the ASCII characters it changes exactly the letters `a` to `z`.
#[verifier::external_body]
pub(crate) fn to_upper_case_char(c: char) -> (r: String)
    ensures
        r@ == upper_case_char(c),
        (c as u32) < 128 ==> r@ == seq![ascii_upper(c)],
{
    c.to_uppercase().to_string()
}

/// Whether the standard library takes a character for an upper case one.
pub uninterp spec fn is_upper_case(c: char) -> bool;

/// `char::is_uppercase` of the standard library tells whether a character has the Unicode property
/// `Uppercase`. Of the ASCII characters these are the letters `A` to `Z`.
#[verifier::external_body]
pub(crate) fn upper_case(c: char) -> (r: bool)
    ensures
        r == is_upper_case(c),
        (c as u32) < 128 ==> r == is_ascii_upper(c),
{
    c.is_uppercase()
}

} // verus!
