//! The regular-expression engine.
//!
//! Matching is done by the `fancy_regex` crate. What it finds is handed to
//! the rest of the library as byte offsets into the searched text, and
//! nothing about those offsets is taken on trust: the code that receives
//! them checks each range before it reads the text.

use fancy_regex::Regex;
use vstd::prelude::*;

verus! {

/// What [`all_captures`] yields for a pattern, a text and a list of group
/// names: one entry per match, in the order in which the matches are found.
/// An entry holds the range of the whole match and then, for each name in
/// turn, the range of the group of that name; a group that took no part in
/// the match has `None`.
pub uninterp spec fn captures_iter_spans(
    pattern: Seq<char>,
    text: Seq<char>,
    names: Seq<Seq<char>>,
) -> Seq<Seq<Option<(usize, usize)>>>;

/// What [`first_captures`] yields for a pattern, a text and a list of group
/// names: the entry of the first match, laid out as in
/// [`captures_iter_spans`], or `None` where nothing matches.
pub uninterp spec fn captures_spans(
    pattern: Seq<char>,
    text: Seq<char>,
    names: Seq<Seq<char>>,
) -> Option<Seq<Option<(usize, usize)>>>;

/// Compiles `pattern` with `fancy_regex::Regex::new` and walks
/// `Regex::captures_iter` over `text`.
///
/// Not proved: that the result is determined by the three arguments. Each
/// match is handed on through `Captures::get(0)` and `Captures::name`, as the
/// `Match::start` and `Match::end` of each group. A pattern that does not
/// compile gives no entries; an error of the engine in the middle of the walk
/// ends the walk after the entries found so far.
#[verifier::external_body]
pub(crate) fn all_captures(
    pattern: &str,
    text: &str,
    names: &Vec<&str>,
) -> (found: Vec<Vec<Option<(usize, usize)>>>)
    ensures
        found.deep_view() == captures_iter_spans(pattern@, text@, names.deep_view()),
{
    let Ok(re) = Regex::new(pattern) else { return Vec::new() };
    re.captures_iter(text)
        .map_while(|caps| caps.ok())
        .map(|caps| {
            std::iter::once(caps.get(0))
                .chain(names.iter().map(|name| caps.name(name)))
                .map(|group| group.map(|m| (m.start(), m.end())))
                .collect()
        })
        .collect()
}

/// Compiles `pattern` with `fancy_regex::Regex::new` and asks
/// `Regex::captures` for the first match in `text`.
///
/// Not proved: that the result is determined by the three arguments. The
/// match is handed on as in [`all_captures`]. A pattern that does not compile
/// and an error of the engine both give `None`.
#[verifier::external_body]
pub(crate) fn first_captures(
    pattern: &str,
    text: &str,
    names: &Vec<&str>,
) -> (found: Option<Vec<Option<(usize, usize)>>>)
    ensures
        found.deep_view() == captures_spans(pattern@, text@, names.deep_view()),
{
    let caps = Regex::new(pattern).ok()?.captures(text).ok()??;
    Some(
        std::iter::once(caps.get(0))
            .chain(names.iter().map(|name| caps.name(name)))
            .map(|group| group.map(|m| (m.start(), m.end())))
            .collect(),
    )
}

} // verus!
