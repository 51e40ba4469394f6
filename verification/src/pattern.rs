//! Regular-expression substitution on file names, done by the `regex` crate.
use regex::Regex;
use vstd::prelude::*;

verus! {

/// Whether `Regex::new` accepts `pattern`.
pub uninterp spec fn regex_compiles(pattern: Seq<char>) -> bool;

/// What `Regex::replace_all` gives when the regex compiled from `pattern`
/// replaces every non-overlapping match in `haystack` by `replacement`
/// (where `$n`, `${n}` and `$name` stand for capture groups).
pub uninterp spec fn regex_replace_all(
    pattern: Seq<char>,
    haystack: Seq<char>,
    replacement: Seq<char>,
) -> Seq<char>;

/// The text (`Display`) of the error that `Regex::new` returns for a
/// pattern it refuses.
pub uninterp spec fn regex_error_text(pattern: Seq<char>) -> Seq<char>;

/// Calls `Regex::new` on `pattern`, keeping only whether it succeeded and,
/// when it did not, the error's text: it succeeds exactly when
/// `regex_compiles(pattern@)`, and the text is the named value
/// `regex_error_text(pattern@)`.
#[verifier::external_body]
pub(crate) fn check_pattern(pattern: &str) -> (r: Result<(), String>)
    ensures
        r is Ok <==> regex_compiles(pattern@),
        r matches Err(text) ==> text@ == regex_error_text(pattern@),
{
    match Regex::new(pattern) {
        Ok(_) => Ok(()),
        Err(e) => Err(e.to_string()),
    }
}

/// Compiles `pattern` with `Regex::new` and calls `Regex::replace_all` on
/// `haystack`; the result is the named value
/// `regex_replace_all(pattern@, haystack@, replacement@)`. The pattern is
/// required to compile, so the `unwrap` never fails.
#[verifier::external_body]
pub(crate) fn replace_all(pattern: &str, haystack: &str, replacement: &str) -> (r: String)
    requires
        regex_compiles(pattern@),
    ensures
        r@ == regex_replace_all(pattern@, haystack@, replacement@),
{
    Regex::new(pattern).unwrap().replace_all(haystack, replacement).into_owned()
}

} // verus!
