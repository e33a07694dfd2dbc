//! Matching a text against a pattern, by the `regex` crate.

use vstd::prelude::*;

verus! {

/// `regex::Error`: why a pattern did not compile. Nothing is read from it.
#[verifier::external_type_specification]
#[verifier::external_body]
pub struct ExRegexError(regex::Error);

/// Whether `regex::Regex::new` accepts `pattern`.
pub uninterp spec fn compiles(pattern: Seq<char>) -> bool;

/// What `regex::Regex::captures` finds of `pattern` in `haystack`: `None`
/// where there is no match, else for the first match the text of each
/// capture group by its index, the whole match being group 0, and `None`
/// for a group that took no part in the match.
pub uninterp spec fn captured(pattern: Seq<char>, haystack: Seq<char>) -> Option<
    Seq<Option<Seq<char>>>,
>;

/// `regex::Regex::new` on `pattern`, then `regex::Regex::captures` on
/// `haystack`. Trusted: it fails, with the error of `new`, where and only
/// where the pattern does not compile; else it gives what `captures` found,
/// `None` for no match, and for the first match its capture groups in the
/// order in which `Captures::iter` yields them, each as the text that
/// `Match::as_str` gives, `None` for a group that took no part.
#[verifier::external_body]
pub(crate) fn captures(pattern: &str, haystack: &str) -> (r: Result<
    Option<Vec<Option<String>>>,
    regex::Error,
>)
    ensures
        r is Ok <==> compiles(pattern@),
        r matches Ok(found) ==> found.deep_view() == captured(pattern@, haystack@),
{
    let re = regex::Regex::new(pattern)?;
    Ok(re.captures(haystack).map(|found| {
        found.iter().map(|group| group.map(|text| text.as_str().to_owned())).collect()
    }))
}

} // verus!
