//! Regular-expression matching, through the `regex` crate.
use vstd::prelude::*;

verus! {

#[verifier::external_type_specification]
#[verifier::external_body]
pub struct ExRegexError(regex::Error);

/// Whether `regex::Regex::new` accepts `pattern` (with the default limits).
pub uninterp spec fn regex_compiles(pattern: Seq<char>) -> bool;

/// Whether `haystack` contains a match of the regular expression `pattern`
/// (as the `regex` crate reads it).
pub uninterp spec fn regex_matches(pattern: Seq<char>, haystack: Seq<char>) -> bool;

/// The version pattern: one or more digits, a dot, one or more digits, and
/// nothing else.
pub open spec fn version_pattern() -> Seq<char> {
    "^\\d+\\.\\d+$"@
}

pub open spec fn is_ascii_digit_char(c: char) -> bool {
    '0' <= c && c <= '9'
}

/// `MAJOR.MINOR` with ASCII digits: a dot with at least one digit on each
/// side, and nothing else.
pub open spec fn version_shape(t: Seq<char>) -> bool {
    exists|k: int|
        0 < k < t.len() - 1 && #[trigger] t[k] == '.' && (forall|j: int|
            0 <= j < k ==> is_ascii_digit_char(#[trigger] t[j])) && (forall|j: int|
            k < j < t.len() ==> is_ascii_digit_char(#[trigger] t[j]))
}

/// Compiles `pattern` with `regex::Regex::new` and, when that succeeds,
/// tests `haystack` with `Regex::is_match`.
///
/// Claimed: the call succeeds exactly when `Regex::new` accepts the
/// pattern ([`regex_compiles`], which depends on the pattern alone); a
/// successful test gives [`regex_matches`] of the two texts; the version
/// pattern compiles; and on ASCII text it matches exactly the texts of
/// [`version_shape`] (`\d` is Unicode `Nd`, whose ASCII members are
/// `0`-`9`, and `^`/`$` anchor at the ends of the haystack). Not stated:
/// which other patterns compile.
#[verifier::external_body]
pub(crate) fn regex_is_match(pattern: &str, haystack: &str) -> (r: Result<bool, regex::Error>)
    ensures
        r is Ok <==> regex_compiles(pattern@),
        r is Ok ==> r->Ok_0 == regex_matches(pattern@, haystack@),
        pattern@ == version_pattern() ==> r is Ok,
        pattern@ == version_pattern() && vstd::utf8::is_ascii_chars(haystack@) ==> (r is Ok && (r->Ok_0 <==> version_shape(haystack@))),
{
    match regex::Regex::new(pattern) {
        Ok(re) => Ok(re.is_match(haystack)),
        Err(e) => Err(e),
    }
}

} // verus!
