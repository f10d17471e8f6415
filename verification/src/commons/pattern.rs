//! Regular-expression matching, done by the `regex` crate.
use vstd::prelude::*;
use regex::Regex;

verus! {

/// Whether the regular expression `pattern` (in the syntax of the `regex`
/// crate) matches somewhere in `text`; `None` when `pattern` is not a valid
/// expression.
pub uninterp spec fn spec_regex_match(pattern: Seq<char>, text: Seq<char>) -> Option<bool>;

/// Compiles `pattern` with `Regex::new` of the `regex` crate and, when it
/// compiles, tells whether it matches somewhere in `text` (`Regex::is_match`).
/// The contract names the result as a function of the pattern and the text
/// alone, and says nothing more of it: what a pattern matches is the crate's
/// to decide.
#[verifier::external_body]
pub fn regex_is_match(pattern: &str, text: &str) -> (r: Option<bool>)
    ensures
        r == spec_regex_match(pattern@, text@),
{
    match Regex::new(pattern) {
        Ok(re) => Some(re.is_match(text)),
        Err(_) => None,
    }
}

} // verus!
