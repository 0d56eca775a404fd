//! Regular expressions, as the `regex` crate reads them.
use vstd::prelude::*;

verus! {

/// A compiled regular expression.
#[verifier::external_type_specification]
#[verifier::external_body]
pub struct ExRegex(regex::Regex);

/// Whether the pattern is found somewhere in the text; `None` where the pattern is no regular
/// expression.
pub uninterp spec fn regex_search(pattern: Seq<char>, text: Seq<char>) -> Option<bool>;

/// What `regex::Regex::new` says is wrong with a pattern; `None` where it compiles.
pub uninterp spec fn regex_error(pattern: Seq<char>) -> Option<Seq<char>>;

/// The pattern that a regular expression was made from.
pub uninterp spec fn regex_pattern(re: regex::Regex) -> Seq<char>;

/// `regex::Regex::new` compiles a pattern, or says what is wrong with it: which of the two, and
/// the words of the error, depend on the pattern alone. What it makes is the expression of that
/// pattern.
#[verifier::external_body]
pub(crate) fn compile(pattern: &str) -> (r: Result<regex::Regex, String>)
    ensures
        match r {
            Ok(re) => regex_error(pattern@) is None && regex_pattern(re) == pattern@,
            Err(e) => regex_error(pattern@) == Some(e@),
        },
{
    regex::Regex::new(pattern).map_err(|e| e.to_string())
}

/// `regex::Regex::is_match` on what `regex::Regex::new` makes of the pattern: the answer depends
/// on the pattern and the text alone, and there is one for each pattern that compiles.
#[verifier::external_body]
pub(crate) fn search(pattern: &str, text: &str) -> (r: Option<bool>)
    ensures
        r == regex_search(pattern@, text@),
        r is None <==> regex_error(pattern@) is Some,
{
    regex::Regex::new(pattern).ok().map(|re| re.is_match(text))
}

/// Whether the pattern compiles and is found in the text.
pub open spec fn found(pattern: Seq<char>, text: Seq<char>) -> bool {
    regex_search(pattern, text) == Some(true)
}

/// Whether the pattern compiles and is found in the text.
pub fn is_found(pattern: &str, text: &str) -> (r: bool)
    ensures
        r == found(pattern@, text@),
{
    match search(pattern, text) {
        Some(b) => b,
        None => false,
    }
}

/// An expression is found exactly where it is valid and a search for it succeeds.
pub proof fn law_found_expressions(pattern: Seq<char>, text: Seq<char>)
    ensures
        regex_search(pattern, text) == Some(true) ==> found(pattern, text),
        regex_search(pattern, text) == Some(false) ==> !found(pattern, text),
        regex_search(pattern, text) is None ==> !found(pattern, text),
{
}

} // verus!
