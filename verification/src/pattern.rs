//! Regular expressions, matched by the `regex` crate.

use vstd::prelude::*;

verus! {

/// Why `regex` refused a pattern.
#[verifier::external_type_specification]
#[verifier::external_body]
pub struct ExRegexError(regex::Error);

/// Whether `Regex::new` takes a pattern. It refuses a pattern that is not
/// well formed, and one whose compiled program is larger than the limit
/// that `Regex::new` sets.
pub uninterp spec fn compiles(pattern: Seq<char>) -> bool;

/// What the first match of a pattern in a text captures: `None` where the
/// pattern matches nowhere; else for each group of the pattern, the whole
/// match being group 0, the part of the text that it took, or `None` for a
/// group that took no part.
pub uninterp spec fn captured(pattern: Seq<char>, text: Seq<char>) -> Option<
    Seq<Option<Seq<char>>>,
>;

/// The groups of a match as texts.
pub open spec fn groups_view(groups: Seq<Option<String>>) -> Seq<Option<Seq<char>>> {
    Seq::new(
        groups.len(),
        |k: int|
            match groups[k] {
                Some(g) => Some(g@),
                None => None,
            },
    )
}

/// The outcome of a search as texts.
pub open spec fn found_view(found: Option<Vec<Option<String>>>) -> Option<Seq<Option<Seq<char>>>> {
    match found {
        Some(groups) => Some(groups_view(groups@)),
        None => None,
    }
}

/// `Regex::new` on `pattern`, then `Regex::captures` on `text`, each group
/// of the match copied out through `Captures::iter` and `Match::as_str`.
/// The call fails where `Regex::new` refuses the pattern, and only there;
/// which patterns it refuses is not said here. Where it takes the pattern,
/// the outcome is `captured` of the two texts.
#[verifier::external_body]
pub(crate) fn regex_captures(pattern: &str, text: &str) -> (r: Result<
    Option<Vec<Option<String>>>,
    regex::Error,
>)
    ensures
        r is Ok <==> compiles(pattern@),
        r matches Ok(found) ==> found_view(found) == captured(pattern@, text@),
{
    let re = regex::Regex::new(pattern)?;
    Ok(re.captures(text).map(|c| c.iter().map(|m| m.map(|g| g.as_str().to_string())).collect()))
}

/// A pattern of this library that `regex` did not take.
#[derive(Clone, Copy, Debug, PartialEq, Eq, Structural)]
pub struct PatternError {}

/// What group `k` of a match took, as a text of its own: `None` where
/// there is no match, no such group, or the group took no part.
pub open spec fn group_of(found: Option<Seq<Option<Seq<char>>>>, k: int) -> Option<Seq<char>> {
    match found {
        Some(groups) => if 0 <= k < groups.len() {
            groups[k]
        } else {
            None
        },
        None => None,
    }
}

/// Copies out what group `k` of a match took.
pub fn group_text(found: &Option<Vec<Option<String>>>, k: usize) -> (r: Option<String>)
    ensures
        match r {
            Some(g) => group_of(found_view(*found), k as int) == Some(g@),
            None => group_of(found_view(*found), k as int) is None,
        },
{
    match found {
        Some(groups) => {
            if k < groups.len() {
                match &groups[k] {
                    Some(g) => Some(g.clone()),
                    None => None,
                }
            } else {
                None
            }
        },
        None => None,
    }
}

/// Searches `text` for `pattern` and gives what the first match captures.
/// Fails where the pattern does not compile, and only there.
pub fn captures(pattern: &str, text: &str) -> (r: Result<Option<Vec<Option<String>>>, PatternError>)
    ensures
        r is Ok <==> compiles(pattern@),
        r matches Ok(found) ==> found_view(found) == captured(pattern@, text@),
{
    match regex_captures(pattern, text) {
        Ok(found) => Ok(found),
        Err(_) => Err(PatternError {  }),
    }
}

} // verus!
