//! Regular-expression searches, done by the `regex` crate. The patterns themselves belong
//! to the callers; here stand only the calls and what the crate's results are named.
use regex::Regex;
use vstd::prelude::*;

verus! {

/// The texts of the successive non-overlapping matches of `pattern` in `text`, leftmost
/// first, as `Regex::find_iter` of the `regex` crate gives them; none when the crate
/// rejects the pattern.
pub uninterp spec fn regex_matches(pattern: Seq<char>, text: Seq<char>) -> Seq<Seq<char>>;

/// Whether `pattern` matches somewhere in `text`, as `Regex::is_match` decides; false when
/// the crate rejects the pattern.
pub uninterp spec fn regex_found(pattern: Seq<char>, text: Seq<char>) -> bool;

/// The text of capture group 1 of the first match of `pattern` in `text`, as
/// `Regex::captures` gives it; none when there is no match, the group took no part, or the
/// crate rejects the pattern.
pub uninterp spec fn regex_first_capture(pattern: Seq<char>, text: Seq<char>) -> Option<Seq<char>>;

/// `text` with every non-overlapping match of `pattern` replaced by the expansion of
/// `replacement` (`$1` and the like standing for capture groups), as `Regex::replace_all`
/// gives it; `text` itself when the crate rejects the pattern.
pub uninterp spec fn regex_replaced(pattern: Seq<char>, text: Seq<char>, replacement: Seq<char>) -> Seq<char>;

/// `text` with every regular-expression meta character escaped, as `regex::escape` gives it.
pub uninterp spec fn regex_escaped(text: Seq<char>) -> Seq<char>;

/// Calls `Regex::new` and `Regex::find_iter`. Claimed: the match texts are the named ones.
#[verifier::external_body]
pub(crate) fn find_all(pattern: &str, text: &str) -> (found: Vec<String>)
    ensures
        found@.map_values(|t: String| t@) == regex_matches(pattern@, text@),
{
    match Regex::new(pattern) {
        Ok(re) => re.find_iter(text).map(|m| m.as_str().to_owned()).collect(),
        Err(_) => Vec::new(),
    }
}

/// Calls `Regex::new` and `Regex::is_match`. Claimed: the answer is the named one.
#[verifier::external_body]
pub(crate) fn is_match(pattern: &str, text: &str) -> (b: bool)
    ensures
        b == regex_found(pattern@, text@),
{
    match Regex::new(pattern) {
        Ok(re) => re.is_match(text),
        Err(_) => false,
    }
}

/// Calls `Regex::new` and `Regex::captures`, and reads group 1. Claimed: the capture is the
/// named one.
#[verifier::external_body]
pub(crate) fn first_capture(pattern: &str, text: &str) -> (capture: Option<String>)
    ensures
        capture is Some <==> regex_first_capture(pattern@, text@) is Some,
        capture matches Some(c) ==> c@ == regex_first_capture(pattern@, text@).unwrap(),
{
    match Regex::new(pattern) {
        Ok(re) => re.captures(text).and_then(|c| c.get(1)).map(|m| m.as_str().to_owned()),
        Err(_) => None,
    }
}

/// Calls `Regex::new` and `Regex::replace_all`. Claimed: the result is the named
/// replacement. Also, as the output is made of pieces of `text` and expansions of
/// `replacement`, which consist of characters of `replacement` and captured pieces of
/// `text`, every character of the output is one of `text` or of `replacement`.
#[verifier::external_body]
pub(crate) fn replace_all(pattern: &str, text: &str, replacement: &str) -> (out: String)
    ensures
        out@ == regex_replaced(pattern@, text@, replacement@),
        forall|i: int|
            0 <= i < out@.len() ==> text@.contains(#[trigger] out@[i]) || replacement@.contains(out@[i]),
{
    match Regex::new(pattern) {
        Ok(re) => re.replace_all(text, replacement).into_owned(),
        Err(_) => text.to_owned(),
    }
}

/// Calls `regex::escape`. Claimed: the result is the named escaping of `text`.
#[verifier::external_body]
pub(crate) fn escape(text: &str) -> (out: String)
    ensures
        out@ == regex_escaped(text@),
{
    regex::escape(text)
}

} // verus!
