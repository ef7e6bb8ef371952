//! The lowercase form of a string, by which two strings are compared
//! without regard to letter case.

use vstd::prelude::*;
use vstd::string::*;

verus! {

/// The characters of the string that `str::to_lowercase` returns for a string
/// with the characters `text`.
pub uninterp spec fn unicode_lowercase(text: Seq<char>) -> Seq<char>;

/// The lowercase form of `text`: the empty text is its own, and any other
/// text has the one that the Unicode rules of the standard library give it.
pub open spec fn lowercase(text: Seq<char>) -> Seq<char> {
    if text.len() == 0 {
        text
    } else {
        unicode_lowercase(text)
    }
}

/// Calls `str::to_lowercase`, which converts the whole string by the Unicode
/// rules for lowercase and depends on nothing but the string. The contract
/// gives that result its name and claims nothing else of it.
#[verifier::external_body]
fn str_to_lowercase(text: &str) -> (lowered: String)
    ensures
        lowered@ == unicode_lowercase(text@),
{
    text.to_lowercase()
}

/// The lowercase form of `text`, as a new string.
pub fn to_lowercase(text: &str) -> (lowered: String)
    ensures
        lowered@ == lowercase(text@),
{
    if text.is_empty() {
        String::new()
    } else {
        str_to_lowercase(text)
    }
}

} // verus!
