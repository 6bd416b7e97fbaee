//! The one rewrite a fetcher knows: from the page of a repository's workflow
//! runs, which answers "not found" to anonymous visitors, to the repository.

use crate::outcome::opt_text;
use vstd::prelude::*;

verus! {

/// What `regex::Regex::is_match` answers for the expression compiled from
/// `pattern` by `regex::Regex::new`, searched anywhere in `haystack`; `None`
/// where `pattern` does not compile.
pub uninterp spec fn regex_is_match(pattern: Seq<char>, haystack: Seq<char>) -> Option<bool>;

/// What `regex::Regex::replace_all` makes of `haystack` for the expression
/// compiled from `pattern` by `regex::Regex::new` and the template
/// `replacement`; `None` where `pattern` does not compile.
pub uninterp spec fn regex_replace_all(
    pattern: Seq<char>,
    haystack: Seq<char>,
    replacement: Seq<char>,
) -> Option<Seq<char>>;

/// Compiles `pattern` with `regex::Regex::new` and asks `regex::Regex::is_match`
/// whether it matches anywhere in `haystack`. Nothing is claimed beyond the
/// name of the answer: the same pattern and haystack always give the same one.
#[verifier::external_body]
fn is_match(pattern: &str, haystack: &str) -> (found: Option<bool>)
    ensures
        found == regex_is_match(pattern@, haystack@),
{
    match regex::Regex::new(pattern) {
        Ok(expression) => Some(expression.is_match(haystack)),
        Err(_) => None,
    }
}

/// Compiles `pattern` with `regex::Regex::new` and has `regex::Regex::replace_all`
/// put `replacement`, with its `$name` references filled in, in place of every
/// match in `haystack`. Nothing is claimed beyond the name of the result.
#[verifier::external_body]
fn replace_all(pattern: &str, haystack: &str, replacement: &str) -> (replaced: Option<String>)
    ensures
        opt_text(replaced) == regex_replace_all(pattern@, haystack@, replacement@),
{
    match regex::Regex::new(pattern) {
        Ok(expression) => Some(expression.replace_all(haystack, replacement).into_owned()),
        Err(_) => None,
    }
}

/// The expression that recognises the address of a repository's workflow
/// runs, with or without a query behind it, and nothing else: it takes the
/// whole address, from the scheme to the end.
pub fn actions_pattern() -> (pattern: &'static str)
    ensures
        pattern@ == actions_pattern_text(),
{
    r"^https://github\.com/(?P<org>[^/?#]+)/(?P<repo>[^/?#]+)/actions(?:\?.*)?$"
}

/// The characters of [`actions_pattern`].
pub open spec fn actions_pattern_text() -> Seq<char> {
    r"^https://github\.com/(?P<org>[^/?#]+)/(?P<repo>[^/?#]+)/actions(?:\?.*)?$"@
}

/// The template that writes the address of the repository itself.
pub fn repository_template() -> (template: &'static str)
    ensures
        template@ == repository_template_text(),
{
    "https://github.com/$org/$repo"
}

/// The characters of [`repository_template`].
pub open spec fn repository_template_text() -> Seq<char> {
    "https://github.com/$org/$repo"@
}

/// The address to check in place of `url` after a "not found", if any: where
/// the expression matches in `url`, what the replacement makes of `url`.
pub open spec fn actions_rewrite_of(url: Seq<char>) -> Option<Seq<char>> {
    if regex_is_match(actions_pattern_text(), url) == Some(true) {
        regex_replace_all(actions_pattern_text(), url, repository_template_text())
    } else {
        None
    }
}

/// The address to check in place of `url` after a "not found", if `url` is
/// the address of a repository's workflow runs.
pub fn actions_rewrite(url: &str) -> (target: Option<String>)
    ensures
        opt_text(target) == actions_rewrite_of(url@),
{
    match is_match(actions_pattern(), url) {
        Some(true) => replace_all(actions_pattern(), url, repository_template()),
        _ => None,
    }
}

} // verus!
