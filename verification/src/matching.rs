//! Regular expressions, from the `regex` crate.
use vstd::prelude::*;

verus! {

/// What `Regex::new(pattern)` then `replace_all(text, replacement)` gives (with `$name`
/// references to capture groups in the replacement); `None` where the pattern does not compile.
pub uninterp spec fn regex_replace_all_result(
    pattern: Seq<char>,
    text: Seq<char>,
    replacement: Seq<char>,
) -> Option<Seq<char>>;

/// What `Regex::new(pattern)` then `captures_iter(text)` gives: the whole text of each
/// match, leftmost first and not overlapping; `None` where the pattern does not compile.
pub uninterp spec fn regex_matches_result(pattern: Seq<char>, text: Seq<char>) -> Option<
    Seq<Seq<char>>,
>;

/// What `Regex::new(pattern)` then `captures(text)` gives: the groups of the first match
/// (group 0 is the whole match), `Some(None)` where there is no match, `None` where the
/// pattern does not compile.
pub uninterp spec fn regex_captures_result(pattern: Seq<char>, text: Seq<char>) -> Option<
    Option<Seq<Option<Seq<char>>>>,
>;

/// The views of optional strings.
pub open spec fn opt_views(v: Seq<Option<String>>) -> Seq<Option<Seq<char>>> {
    v.map_values(
        |o: Option<String>|
            match o {
                Some(s) => Some(s@),
                None => None,
            },
    )
}

/// Replaces every match of `pattern` in `text` with `replacement`.
#[verifier::external_body]
pub(crate) fn regex_replace_all(pattern: &str, text: &str, replacement: &str) -> (r: Option<String>)
    ensures
        match r {
            Some(s) => regex_replace_all_result(pattern@, text@, replacement@) == Some(s@),
            None => regex_replace_all_result(pattern@, text@, replacement@) is None,
        },
{
    regex::Regex::new(pattern).ok().map(|re| re.replace_all(text, replacement).into_owned())
}

/// The text of every match of `pattern` in `text`.
#[verifier::external_body]
pub(crate) fn regex_matches(pattern: &str, text: &str) -> (r: Option<Vec<String>>)
    ensures
        match r {
            Some(v) => regex_matches_result(pattern@, text@) == Some(
                v@.map_values(|s: String| s@),
            ),
            None => regex_matches_result(pattern@, text@) is None,
        },
{
    regex::Regex::new(pattern).ok().map(
        |re| re.captures_iter(text).map(|cap| cap[0].to_string()).collect(),
    )
}

/// The groups of the first match of `pattern` in `text`.
#[verifier::external_body]
pub(crate) fn regex_captures(pattern: &str, text: &str) -> (r: Option<Option<Vec<Option<String>>>>)
    ensures
        match r {
            Some(Some(v)) => regex_captures_result(pattern@, text@) == Some(Some(opt_views(v@))),
            Some(None) => regex_captures_result(pattern@, text@) == Some(
                None::<Seq<Option<Seq<char>>>>,
            ),
            None => regex_captures_result(pattern@, text@) is None,
        },
{
    regex::Regex::new(pattern).ok().map(
        |re|
            re.captures(text).map(
                |caps| caps.iter().map(|m| m.map(|m| m.as_str().to_string())).collect(),
            ),
    )
}

} // verus!
