//! Row and column annotations: what a match of the suffix pattern says, all
//! annotations of a line, and the annotation that ends a text.

use vstd::prelude::*;
use vstd::utf8::*;

use crate::engine::all_captures;
use crate::engine::captures_iter_spans;
use crate::engine::captures_spans;
use crate::engine::first_captures;
use crate::link::LinkPartialRange;
use crate::link::LinkSuffix;
use crate::link::SpanView;
use crate::link::SuffixView;
use crate::pattern::generate_link_suffix_regex;
use crate::pattern::link_suffix_group_names;
use crate::pattern::link_suffix_pattern;
use crate::pattern::suffix_group_names;
use crate::text::byte_len;
use crate::text::decimal_u32;
use crate::text::lemma_text_at_bytes;
use crate::text::parse_u32;
use crate::text::slice;
use crate::text::text_at;
use crate::text::valid_range;

verus! {

/// Entry `i` of a match; `None` where the match has no such entry.
pub open spec fn group_at(groups: Seq<Option<(usize, usize)>>, i: int) -> Option<(usize, usize)> {
    if 0 <= i < groups.len() {
        groups[i]
    } else {
        None
    }
}

/// The text that a group took from `line`; `None` for a group that took no
/// part in the match, and for a range that names no text of `line`.
pub open spec fn group_text(line: Seq<char>, group: Option<(usize, usize)>) -> Option<Seq<char>> {
    match group {
        Some((from, to)) => if valid_range(line, from as int, to as int) {
            Some(text_at(line, from as int, to as int))
        } else {
            None
        },
        None => None,
    }
}

/// The number that a group took from `line`.
pub open spec fn group_number(line: Seq<char>, group: Option<(usize, usize)>) -> Option<u32> {
    match group_text(line, group) {
        Some(text) => decimal_u32(text),
        None => None,
    }
}

/// The number of a family of three groups whose first is entry `first`: that
/// of the first group of the three that holds a number.
pub open spec fn family_number(
    line: Seq<char>,
    groups: Seq<Option<(usize, usize)>>,
    first: int,
) -> Option<u32> {
    if group_number(line, group_at(groups, first)) is Some {
        group_number(line, group_at(groups, first))
    } else if group_number(line, group_at(groups, first + 1)) is Some {
        group_number(line, group_at(groups, first + 1))
    } else {
        group_number(line, group_at(groups, first + 2))
    }
}

/// The annotation that a match of the suffix pattern stands for. The match
/// lists its whole range and then the groups named by
/// [`suffix_group_names`]. A match without a row is no annotation.
pub open spec fn suffix_of_captures(
    line: Seq<char>,
    groups: Seq<Option<(usize, usize)>>,
) -> Option<SuffixView> {
    match group_text(line, group_at(groups, 0)) {
        Some(text) => if family_number(line, groups, 1) is Some {
            Some(
                SuffixView {
                    row: family_number(line, groups, 1),
                    col: family_number(line, groups, 4),
                    row_end: family_number(line, groups, 7),
                    col_end: family_number(line, groups, 10),
                    suffix: SpanView { index: group_at(groups, 0).unwrap().0 as int, text },
                },
            )
        } else {
            None
        },
        None => None,
    }
}

/// The annotations of a list of matches, in the order of the matches.
pub open spec fn suffixes_of_matches(
    line: Seq<char>,
    found: Seq<Seq<Option<(usize, usize)>>>,
) -> Seq<SuffixView>
    decreases found.len(),
{
    if found.len() == 0 {
        Seq::empty()
    } else {
        let before = suffixes_of_matches(line, found.drop_last());
        match suffix_of_captures(line, found.last()) {
            Some(suffix) => before.push(suffix),
            None => before,
        }
    }
}

/// All annotations of `line`, in the order in which the search finds them.
pub open spec fn line_suffixes(line: Seq<char>) -> Seq<SuffixView> {
    suffixes_of_matches(
        line,
        captures_iter_spans(link_suffix_pattern(false), line, suffix_group_names()),
    )
}

/// The annotation that ends `link`, if there is one.
pub open spec fn end_suffix(link: Seq<char>) -> Option<SuffixView> {
    match captures_spans(link_suffix_pattern(true), link, suffix_group_names()) {
        Some(groups) => suffix_of_captures(link, groups),
        None => None,
    }
}

/// `link` without the annotation that ends it.
pub open spec fn without_suffix(link: Seq<char>) -> Seq<char> {
    match end_suffix(link) {
        Some(suffix) => text_at(link, 0, suffix.suffix.index),
        None => link,
    }
}

/// The text of a group, as a piece of `line`.
pub(crate) fn text_of_group<'a>(
    line: &'a str,
    group: Option<(usize, usize)>,
) -> (text: Option<&'a str>)
    ensures
        match text {
            Some(text) => group_text(line@, group) == Some(text@),
            None => group_text(line@, group) is None,
        },
{
    match group {
        Some((from, to)) => slice(line, from, to),
        None => None,
    }
}

/// Entry `i` of a match.
pub(crate) fn entry(
    captures: &Vec<Option<(usize, usize)>>,
    i: usize,
) -> (group: Option<(usize, usize)>)
    ensures
        group == group_at(captures@, i as int),
{
    if i < captures.len() {
        captures[i]
    } else {
        None
    }
}

/// The number that entry `i` of a match took from `line`.
fn number_of_entry(
    line: &str,
    captures: &Vec<Option<(usize, usize)>>,
    i: usize,
) -> (number: Option<u32>)
    ensures
        number == group_number(line@, group_at(captures@, i as int)),
{
    match text_of_group(line, entry(captures, i)) {
        Some(text) => parse_u32(text),
        None => None,
    }
}

/// The number of the family of groups that starts at entry `first`.
fn number_of_family(
    line: &str,
    captures: &Vec<Option<(usize, usize)>>,
    first: usize,
) -> (number: Option<u32>)
    requires
        first <= 10,
    ensures
        number == family_number(line@, captures@, first as int),
{
    let number = number_of_entry(line, captures, first);
    if number.is_some() {
        return number;
    }
    let number = number_of_entry(line, captures, first + 1);
    if number.is_some() {
        return number;
    }
    number_of_entry(line, captures, first + 2)
}

/// Reads a match of the suffix pattern in `line`: `captures` holds the range
/// of the whole match and then the ranges of the groups named by
/// [`suffix_group_names`]. There is no annotation without a row.
pub fn to_link_suffix(
    line: &str,
    captures: &Vec<Option<(usize, usize)>>,
) -> (suffix: Option<LinkSuffix>)
    ensures
        suffix.deep_view() == suffix_of_captures(line@, captures@),
        suffix is Some ==> suffix.unwrap().row is Some,
        suffix is Some ==> suffix.unwrap().suffix@.lies_in(line@),
{
    let whole = entry(captures, 0);
    let text = match text_of_group(line, whole) {
        Some(text) => text,
        None => { return None; },
    };
    let row = number_of_family(line, captures, 1);
    let col = number_of_family(line, captures, 4);
    let row_end = number_of_family(line, captures, 7);
    let col_end = number_of_family(line, captures, 10);
    if row.is_none() {
        return None;
    }
    let index = match whole {
        Some((from, _)) => from,
        None => { return None; },
    };
    proof {
        let to = whole.unwrap().1;
        lemma_text_at_bytes(line@, index as int, to as int);
    }
    Some(
        LinkSuffix {
            row,
            col,
            row_end,
            col_end,
            suffix: LinkPartialRange { index, text: text.to_owned() },
        },
    )
}

/// Reads every match of the suffix pattern in `line`, in the order given,
/// and keeps the annotations.
pub fn suffixes_of_captures(
    line: &str,
    found: &Vec<Vec<Option<(usize, usize)>>>,
) -> (suffixes: Vec<LinkSuffix>)
    ensures
        suffixes.deep_view() == suffixes_of_matches(line@, found.deep_view()),
        forall|i: int| 0 <= i < suffixes.len() ==> (#[trigger] suffixes[i]).row is Some,
        forall|i: int| 0 <= i < suffixes.len() ==> (#[trigger] suffixes[i]).suffix@.lies_in(line@),
{
    let mut suffixes: Vec<LinkSuffix> = Vec::new();
    let mut i: usize = 0;
    assert(found.deep_view().take(0) =~= Seq::empty());
    assert(suffixes.deep_view() =~= Seq::empty());
    while i < found.len()
        invariant
            i <= found.len(),
            suffixes.deep_view() == suffixes_of_matches(line@, found.deep_view().take(i as int)),
            forall|k: int| 0 <= k < suffixes.len() ==> (#[trigger] suffixes[k]).row is Some,
            forall|k: int|
                0 <= k < suffixes.len() ==> (#[trigger] suffixes[k]).suffix@.lies_in(line@),
        decreases found.len() - i,
    {
        let ghost before = suffixes.deep_view();
        proof {
            assert(found.deep_view().take(i + 1).drop_last() =~= found.deep_view().take(i as int));
            assert(found.deep_view().take(i + 1).last() == found.deep_view()[i as int]);
            assert(found.deep_view()[i as int] =~= found[i as int]@);
        }
        match to_link_suffix(line, &found[i]) {
            Some(suffix) => {
                suffixes.push(suffix);
                assert(suffixes.deep_view() =~= before.push(suffix@));
            },
            None => {},
        }
        i += 1;
    }
    assert(found.deep_view().take(found.len() as int) =~= found.deep_view());
    suffixes
}

/// Finds the row and column annotations of `line`, in the order in which
/// the search walks the line. Every one of them has a row.
pub fn detect_link_suffixes(line: &str) -> (suffixes: Vec<LinkSuffix>)
    ensures
        suffixes.deep_view() == line_suffixes(line@),
        forall|i: int| 0 <= i < suffixes.len() ==> (#[trigger] suffixes[i]).row is Some,
        forall|i: int| 0 <= i < suffixes.len() ==> (#[trigger] suffixes[i]).suffix@.lies_in(line@),
{
    let pattern = generate_link_suffix_regex(false);
    let names = link_suffix_group_names();
    let found = all_captures(pattern.as_str(), line, &names);
    suffixes_of_captures(line, &found)
}

/// Reads what the search for an annotation at the end of `link` gave.
pub fn suffix_of_first_captures(
    link: &str,
    found: &Option<Vec<Option<(usize, usize)>>>,
) -> (suffix: Option<LinkSuffix>)
    ensures
        suffix.deep_view() == match found.deep_view() {
            Some(groups) => suffix_of_captures(link@, groups),
            None => None,
        },
        suffix is Some ==> suffix.unwrap().row is Some,
        suffix is Some ==> suffix.unwrap().suffix@.lies_in(link@),
{
    match found {
        Some(captures) => {
            assert(found.deep_view().unwrap() =~= captures@);
            to_link_suffix(link, captures)
        },
        None => None,
    }
}

/// The row and column annotation that ends `link`, if there is one.
pub fn get_link_suffix(link: &str) -> (suffix: Option<LinkSuffix>)
    ensures
        suffix.deep_view() == end_suffix(link@),
        suffix is Some ==> suffix.unwrap().row is Some,
        suffix is Some ==> suffix.unwrap().suffix@.lies_in(link@),
{
    let pattern = generate_link_suffix_regex(true);
    let names = link_suffix_group_names();
    let found = first_captures(pattern.as_str(), link, &names);
    suffix_of_first_captures(link, &found)
}

/// Removes the row and column annotation that ends `link`. A text without
/// one comes back unchanged; where the annotation reaches the end of `link`,
/// what comes back and the text of the annotation make up `link`.
pub fn remove_link_suffix(link: &str) -> (rest: String)
    ensures
        rest@ == without_suffix(link@),
        end_suffix(link@) is None ==> rest@ == link@,
        end_suffix(link@) is Some && end_suffix(link@).unwrap().suffix.end() == byte_len(link@)
            ==> rest@ + end_suffix(link@).unwrap().suffix.text == link@,
{
    proof {
        lemma_remove_link_suffix(link@);
    }
    match get_link_suffix(link) {
        Some(suffix) => {
            proof {
                encode_utf8_valid_utf8(link@);
                is_char_boundary_start_end_of_seq(encode_utf8(link@));
            }
            match slice(link, 0, suffix.suffix.index) {
                Some(rest) => rest.to_owned(),
                None => link.to_owned(),
            }
        },
        None => link.to_owned(),
    }
}

/// Taking the annotation off a text and putting it back gives the text:
/// where an annotation ends `link` and reaches the end of it, `link` is what
/// is left of it followed by the text of the annotation. A text that no
/// annotation ends is left as it is.
pub proof fn lemma_remove_link_suffix(link: Seq<char>)
    ensures
        end_suffix(link) is None ==> without_suffix(link) == link,
        end_suffix(link) is Some && end_suffix(link).unwrap().suffix.end() == byte_len(link)
            ==> without_suffix(link) + end_suffix(link).unwrap().suffix.text == link,
{
    if end_suffix(link) is Some && end_suffix(link).unwrap().suffix.end() == byte_len(link) {
        let span = end_suffix(link).unwrap().suffix;
        let groups = captures_spans(link_suffix_pattern(true), link, suffix_group_names()).unwrap();
        let to = group_at(groups, 0).unwrap().1 as int;
        lemma_text_at_bytes(link, span.index, to);
        let bytes = encode_utf8(link);
        encode_utf8_valid_utf8(link);
        decode_utf8_split(bytes, span.index);
        encode_utf8_decode_utf8(link);
    }
}


/// A text at whose end the suffix pattern finds nothing has no annotation,
/// and nothing is removed from it.
pub proof fn lemma_nothing_found_no_suffix(link: Seq<char>)
    requires
        captures_spans(link_suffix_pattern(true), link, suffix_group_names()) is None,
    ensures
        end_suffix(link) is None,
        without_suffix(link) == link,
{
}

} // verus!
