//! Regular expressions, through the `regex` crate.
//!
//! A pattern is compiled once into a `Pattern` and then searched with; what
//! the crate answers is named, not restated: `regex_compiles`,
//! `regex_matches` and `regex_is_match`.

use vstd::prelude::*;

use crate::text::bytes_of;

verus! {

#[verifier::external_type_specification]
#[verifier::external_body]
pub struct ExRegex(regex::Regex);

/// Whether `Regex::new(pattern)` succeeds.
pub uninterp spec fn regex_compiles(pattern: Seq<char>) -> bool;

/// What `find_iter(haystack)` yields on the regex compiled from `pattern`: the
/// successive non-overlapping matches, each as its text and the byte offset at
/// which it starts.
pub uninterp spec fn regex_matches(pattern: Seq<char>, haystack: Seq<char>) -> Seq<(Seq<char>, nat)>;

/// What `is_match(haystack)` yields on the regex compiled from `pattern`:
/// whether the pattern matches anywhere in the haystack.
pub uninterp spec fn regex_is_match(pattern: Seq<char>, haystack: Seq<char>) -> bool;

/// A pattern together with the regex compiled from it. Only `compile` makes
/// one, so the regex is always the one compiled from the pattern.
pub struct Pattern<'p> {
    text: &'p str,
    regex: regex::Regex,
}

impl<'p> View for Pattern<'p> {
    type V = Seq<char>;

    /// The pattern's text.
    closed spec fn view(&self) -> Seq<char> {
        self.text@
    }
}

/// Compiles a pattern; `None` when the regex crate rejects it.
///
/// Calls `regex::Regex::new`. Trusted: whether it succeeds is the named
/// `regex_compiles`, and the pattern kept is the one given.
#[verifier::external_body]
pub fn compile<'p>(pattern: &'p str) -> (res: Option<Pattern<'p>>)
    ensures
        res is Some == regex_compiles(pattern@),
        res matches Some(p) ==> p@ == pattern@,
{
    match regex::Regex::new(pattern) {
        Ok(regex) => Some(Pattern { text: pattern, regex }),
        Err(_) => None,
    }
}

/// The matches of a pattern in `haystack`, each as its text and start offset.
///
/// Calls `regex::Regex::find_iter`. Trusted: the result is the named
/// `regex_matches` of the pattern's text (the regex was compiled from it);
/// besides, the `regex` documentation states that each match's text is the
/// slice of the haystack at its byte range (so it lies inside the haystack)
/// and that the matches come in order without overlapping. What the matches
/// are is not stated.
#[verifier::external_body]
pub fn find_matches<'h>(pattern: &Pattern, haystack: &'h str) -> (res: Vec<(&'h str, usize)>)
    ensures
        res@.len() == regex_matches(pattern@, haystack@).len(),
        forall|i: int|
            0 <= i < res@.len() ==> (#[trigger] res@[i]).0@ == regex_matches(pattern@, haystack@)[i].0
                && res@[i].1 == regex_matches(pattern@, haystack@)[i].1,
        forall|i: int|
            0 <= i < res@.len() ==> {
                let start = (#[trigger] res@[i]).1 as int;
                let len = bytes_of(res@[i].0@).len() as int;
                &&& start + len <= bytes_of(haystack@).len()
                &&& bytes_of(haystack@).subrange(start, start + len) == bytes_of(res@[i].0@)
            },
        forall|i: int, j: int|
            0 <= i < j < res@.len() ==> (#[trigger] res@[i]).1 + bytes_of(res@[i].0@).len()
                <= (#[trigger] res@[j]).1,
{
    pattern.regex.find_iter(haystack).map(|m| (m.as_str(), m.start())).collect()
}

/// Whether a pattern matches anywhere in `haystack`.
///
/// Calls `regex::Regex::is_match`. Trusted: the result is the named
/// `regex_is_match` of the pattern's text (the regex was compiled from it).
#[verifier::external_body]
pub fn pattern_matches(pattern: &Pattern, haystack: &str) -> (res: bool)
    ensures
        res == regex_is_match(pattern@, haystack@),
{
    pattern.regex.is_match(haystack)
}

} // verus!
