//! Case conversions done by outside code, named for use in contracts.

use vstd::prelude::*;

verus! {

/// The title-cased image of a character sequence, as heck computes it.
pub uninterp spec fn title_of(s: Seq<char>) -> Seq<char>;

/// Relies on heck's `ToTitleCase`: capitalizes each word, separated by
/// spaces; the result depends on the input characters alone, and an empty
/// input stays empty.
#[verifier::external_body]
pub(crate) fn to_title_case(s: &str) -> (r: String)
    ensures
        r@ == title_of(s@),
        s@.len() == 0 ==> r@.len() == 0,
{
    heck::ToTitleCase::to_title_case(s)
}

/// The lower-cased image of a character sequence, as the standard library
/// computes it.
pub uninterp spec fn lower_of(s: Seq<char>) -> Seq<char>;

/// Relies on `str::to_lowercase`: the Unicode lowercase mapping, which
/// depends on the input characters alone; an empty input stays empty.
#[verifier::external_body]
pub(crate) fn to_lowercase(s: &str) -> (r: String)
    ensures
        r@ == lower_of(s@),
        s@.len() == 0 ==> r@.len() == 0,
{
    s.to_lowercase()
}

} // verus!
