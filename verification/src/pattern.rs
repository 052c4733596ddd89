//! Regular expressions, as far as the scanners need them.
//!
//! Matching is done by the `regex` crate. Nothing about its matching engine is
//! proved here: every contract in this module is believed, and the rest of the
//! crate is proved from these contracts.

use vstd::prelude::*;

verus! {

#[verifier::external_type_specification]
#[verifier::external_body]
pub struct ExRegex(regex::Regex);

#[verifier::external_type_specification]
#[verifier::external_body]
pub struct ExRegexError(regex::Error);

/// The expression that compiling `pattern` gives, where it gives one.
pub uninterp spec fn regex_of(pattern: Seq<char>) -> regex::Regex;

/// Whether the expression `re` matches somewhere in `text`.
pub uninterp spec fn regex_is_match(re: regex::Regex, text: Seq<char>) -> bool;

/// The capture groups of the leftmost match of `re` in `text`: `None` where
/// there is no match, else one entry per group of the expression, group 0
/// (the whole match) first, each `None` where the group took no part.
pub uninterp spec fn regex_captures(re: regex::Regex, text: Seq<char>) -> Option<
    Seq<Option<Seq<char>>>,
>;

/// `regex::Regex::new`: the expression that comes of a pattern depends on
/// the text of the pattern alone. Whether a pattern is accepted is left
/// open: it may turn on limits of the machine.
#[verifier::external_body]
pub(crate) fn compile(pattern: &str) -> (r: Result<regex::Regex, regex::Error>)
    ensures
        r is Ok ==> r->Ok_0 == regex_of(pattern@),
{
    regex::Regex::new(pattern)
}

/// `regex::Regex::is_match`: the answer depends on the expression and the
/// text alone.
#[verifier::external_body]
pub(crate) fn is_match(re: &regex::Regex, text: &str) -> (r: bool)
    ensures
        r == regex_is_match(*re, text@),
{
    re.is_match(text)
}

/// `regex::Regex::captures`, with every group copied out as owned text: the
/// groups depend on the expression and the text alone.
#[verifier::external_body]
pub(crate) fn captures(re: &regex::Regex, text: &str) -> (r: Option<Vec<Option<String>>>)
    ensures
        r.deep_view() == regex_captures(*re, text@),
{
    match re.captures(text) {
        Some(caps) => Some(caps.iter().map(|m| m.map(|m| m.as_str().to_string())).collect()),
        None => None,
    }
}

} // verus!
