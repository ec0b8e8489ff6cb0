//! Pattern matching, done by the `regex` crate. What a pattern matches is not
//! modelled here: each result has a name, and the contracts of the parser
//! speak of those names.

use vstd::prelude::*;

verus! {

/// The error with which `regex` refuses a pattern.
#[verifier::external_type_specification]
#[verifier::external_body]
pub struct ExRegexError(regex::Error);

/// Whether `regex::Regex::new` accepts the pattern.
pub uninterp spec fn regex_compiles(pattern: Seq<char>) -> bool;

/// What the given capture group holds in the leftmost match that
/// `regex::Regex::captures` finds for the pattern in the text: `None` where
/// there is no match or the group took no part in it.
pub uninterp spec fn regex_group(pattern: Seq<char>, text: Seq<char>, group: nat) -> Option<
    Seq<char>,
>;

/// The pieces into which `regex::Regex::split` cuts the text at the matches
/// of the pattern.
pub uninterp spec fn regex_pieces(pattern: Seq<char>, text: Seq<char>) -> Seq<Seq<char>>;

/// The model of an optional string.
pub open spec fn option_text(s: Option<String>) -> Option<Seq<char>> {
    match s {
        Some(s) => Some(s@),
        None => None,
    }
}

/// `regex::Regex::new`, then `regex::Regex::captures` and
/// `regex::Captures::get`: compiles the pattern, searches the text for its
/// leftmost match and hands out the text of one capture group. The call
/// fails exactly when the pattern is refused; what it finds depends on the
/// pattern, the text and the group's number alone.
#[verifier::external_body]
pub(crate) fn capture_group(pattern: &str, text: &str, group: usize) -> (r: Result<
    Option<String>,
    regex::Error,
>)
    ensures
        r is Ok <==> regex_compiles(pattern@),
        r matches Ok(found) ==> option_text(found) == regex_group(pattern@, text@, group as nat),
{
    let re = regex::Regex::new(pattern)?;
    Ok(re.captures(text).and_then(|c| c.get(group)).map(|m| m.as_str().to_string()))
}

/// `regex::Regex::new`, then `regex::Regex::split`: compiles the pattern and
/// cuts the text at each of its matches. The call fails exactly when the
/// pattern is refused; the pieces depend on the pattern and the text alone.
#[verifier::external_body]
pub(crate) fn split_at_matches(pattern: &str, text: &str) -> (r: Result<Vec<String>, regex::Error>)
    ensures
        r is Ok <==> regex_compiles(pattern@),
        r matches Ok(pieces) ==> crate::types::strings_view(pieces@) == regex_pieces(
            pattern@,
            text@,
        ),
{
    let re = regex::Regex::new(pattern)?;
    Ok(re.split(text).map(|piece| piece.to_string()).collect())
}

} // verus!
