//! What the standard library knows of characters and texts by the tables
//! of Unicode, and the making of a `String` from characters. None of this
//! is proved here: each function hands on what the standard library gives.

use vstd::prelude::*;

verus! {

/// What `str::to_lowercase` makes of a text: each character replaced by its
/// lowercase form as Unicode defines it.
pub uninterp spec fn lowercase_of(text: Seq<char>) -> Seq<char>;

/// `str::to_lowercase`: the lowercase equivalent of `text` as a new
/// `String`. The result is a function of the text alone.
#[verifier::external_body]
pub(crate) fn str_to_lowercase(text: &str) -> (r: String)
    ensures
        r@ == lowercase_of(text@),
{
    text.to_lowercase()
}

/// What `char::is_whitespace` says of a character: whether it has the
/// Unicode property White_Space.
pub uninterp spec fn is_white_space(c: char) -> bool;

/// `char::is_whitespace`. The result is a function of the character alone.
#[verifier::external_body]
pub(crate) fn char_is_whitespace(c: char) -> (r: bool)
    ensures
        r == is_white_space(c),
{
    c.is_whitespace()
}

/// What `char::is_alphanumeric` says of a character: whether Unicode
/// counts it as a letter or a number.
pub uninterp spec fn is_alphanumeric(c: char) -> bool;

/// `char::is_alphanumeric`. The result is a function of the character
/// alone.
#[verifier::external_body]
pub(crate) fn char_is_alphanumeric(c: char) -> (r: bool)
    ensures
        r == is_alphanumeric(c),
{
    c.is_alphanumeric()
}

/// `String::from_iter` over characters: the text made of `chars`, in order.
#[verifier::external_body]
pub(crate) fn string_from_chars(chars: &Vec<char>) -> (r: String)
    ensures
        r@ == chars@,
{
    String::from_iter(chars.iter())
}

} // verus!
