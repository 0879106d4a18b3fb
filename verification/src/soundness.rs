//! What it means for a link to be sound, and why the links that are built
//! from the matches of the patterns are.

use vstd::prelude::*;
use vstd::utf8::*;

use crate::anchored::begins_with_byte;
use crate::anchored::lemma_anchored_link_sound;
use crate::anchored::link_of_suffix;
use crate::anchored::links_of_suffixes;
use crate::anchored::path_group_names;
use crate::anchored::quote_found;
use crate::anchored::DOUBLE_QUOTE;
use crate::bare::bare_link_of_captures;
use crate::bare::bare_links_of_matches;
use crate::engine::captures_iter_spans;
use crate::engine::captures_spans;
use crate::link::LinkView;
use crate::link::SpanView;
use crate::link::SuffixView;
use crate::pattern::link_suffix_pattern;
use crate::pattern::path_before_suffix_pattern;
use crate::pattern::suffix_group_names;
use crate::suffix::end_suffix;
use crate::suffix::group_at;
use crate::suffix::line_suffixes;
use crate::suffix::suffix_of_captures;
use crate::suffix::suffixes_of_matches;
use crate::text::byte_len;
use crate::text::lemma_text_at_bytes;
use crate::text::lemma_text_at_nested;
use crate::text::text_at;
use crate::text::valid_range;

verus! {

/// An annotation has a row, and its span is a piece of `line`.
pub open spec fn sound_suffix(line: Seq<char>, suffix: SuffixView) -> bool {
    &&& suffix.row is Some
    &&& suffix.suffix.lies_in(line)
}

/// A link of `line` is sound.
///
/// - Its path ends within `line`.
/// - The annotation that it carries has a row and is a piece of `line`, and
///   the path ends where the annotation starts, or before. Only a link with
///   an annotation has a prefix.
/// - Its prefix is a piece of `line`. The path starts where the prefix ends,
///   unless it starts at offset 1 and opens with a double quote.
/// - Its path is a piece of `line`, if it starts where the prefix ends or
///   has no prefix.
pub open spec fn sound_link(line: Seq<char>, link: LinkView) -> bool {
    &&& 0 <= link.path.index
    &&& link.path.end() <= byte_len(line)
    &&& match link.suffix {
        Some(suffix) => sound_suffix(line, suffix) && link.path.end() <= suffix.suffix.index,
        None => link.prefix is None,
    }
    &&& match link.prefix {
        Some(prefix) => {
            &&& prefix.lies_in(line)
            &&& link.path.index == prefix.end() || (link.path.index == 1 && begins_with_byte(
                link.path.text,
                DOUBLE_QUOTE,
            ))
            &&& link.path.index == prefix.end() ==> link.path.lies_in(line)
        },
        None => link.path.lies_in(line),
    }
}

/// What a match of the suffix pattern yields is sound.
pub proof fn lemma_suffix_of_captures_sound(line: Seq<char>, groups: Seq<Option<(usize, usize)>>)
    ensures
        suffix_of_captures(line, groups) is Some ==> sound_suffix(
            line,
            suffix_of_captures(line, groups).unwrap(),
        ),
{
    if suffix_of_captures(line, groups) is Some {
        let (from, to) = group_at(groups, 0).unwrap();
        lemma_text_at_bytes(line, from as int, to as int);
    }
}

/// Every annotation read from a list of matches is sound.
pub proof fn lemma_suffixes_of_matches_sound(
    line: Seq<char>,
    found: Seq<Seq<Option<(usize, usize)>>>,
)
    ensures
        forall|i: int|
            0 <= i < suffixes_of_matches(line, found).len() ==> sound_suffix(
                line,
                #[trigger] suffixes_of_matches(line, found)[i],
            ),
    decreases found.len(),
{
    if found.len() > 0 {
        lemma_suffixes_of_matches_sound(line, found.drop_last());
        lemma_suffix_of_captures_sound(line, found.last());
        let before = suffixes_of_matches(line, found.drop_last());
        let all = suffixes_of_matches(line, found);
        assert forall|i: int| 0 <= i < all.len() implies sound_suffix(line, #[trigger] all[i]) by {
            if i < before.len() {
                assert(all[i] == before[i]);
            }
        }
    }
}

/// No annotation without a row: every annotation detected in a line has a
/// row, and its span is a piece of the line. The same holds of the
/// annotation that ends a text.
pub proof fn lemma_suffixes_sound(line: Seq<char>)
    ensures
        forall|i: int|
            0 <= i < line_suffixes(line).len() ==> sound_suffix(
                line,
                #[trigger] line_suffixes(line)[i],
            ),
        end_suffix(line) is Some ==> sound_suffix(line, end_suffix(line).unwrap()),
{
    lemma_suffixes_of_matches_sound(
        line,
        captures_iter_spans(link_suffix_pattern(false), line, suffix_group_names()),
    );
    match captures_spans(link_suffix_pattern(true), line, suffix_group_names()) {
        Some(groups) => lemma_suffix_of_captures_sound(line, groups),
        None => {},
    }
}

/// A span that is a piece of a piece of a line is a piece of the line.
pub proof fn lemma_lies_in_piece(line: Seq<char>, from: int, to: int, span: SpanView)
    requires
        valid_range(line, from, to),
        span.lies_in_from(text_at(line, from, to), from),
    ensures
        span.lies_in(line),
{
    lemma_text_at_nested(line, from, to, span.index - from, span.end() - from);
}

/// The link built for a sound annotation is sound.
pub proof fn lemma_link_of_suffix_sound(line: Seq<char>, suffix: SuffixView)
    requires
        sound_suffix(line, suffix),
    ensures
        link_of_suffix(line, suffix) is Some ==> sound_link(
            line,
            link_of_suffix(line, suffix).unwrap(),
        ),
{
    if link_of_suffix(line, suffix) is Some {
        let link = link_of_suffix(line, suffix).unwrap();
        let cut = suffix.suffix.index;
        let before = text_at(line, 0, cut);
        let found = captures_spans(path_before_suffix_pattern(), before, path_group_names());
        let groups = found.unwrap();
        let (from, to) = group_at(groups, 1).unwrap();
        let captured = text_at(before, from as int, to as int);
        lemma_text_at_bytes(line, 0, cut);
        lemma_text_at_bytes(before, from as int, to as int);
        lemma_text_at_nested(line, 0, cut, from as int, to as int);
        lemma_anchored_link_sound(captured, from as int, quote_found(captured), suffix);
        match link.prefix {
            Some(prefix) => {
                lemma_lies_in_piece(line, from as int, to as int, prefix);
                if link.path.index == prefix.end() {
                    lemma_lies_in_piece(line, from as int, to as int, link.path);
                }
            },
            None => {
                lemma_lies_in_piece(line, from as int, to as int, link.path);
            },
        }
    }
}

/// Every link built for a list of sound annotations is sound.
pub proof fn lemma_links_of_suffixes_sound(line: Seq<char>, suffixes: Seq<SuffixView>)
    requires
        forall|i: int| 0 <= i < suffixes.len() ==> sound_suffix(line, #[trigger] suffixes[i]),
    ensures
        forall|k: int|
            0 <= k < links_of_suffixes(line, suffixes).len() ==> sound_link(
                line,
                #[trigger] links_of_suffixes(line, suffixes)[k],
            ),
    decreases suffixes.len(),
{
    if suffixes.len() > 0 {
        lemma_links_of_suffixes_sound(line, suffixes.drop_last());
        assert(sound_suffix(line, suffixes[suffixes.len() - 1]));
        lemma_link_of_suffix_sound(line, suffixes.last());
        let before = links_of_suffixes(line, suffixes.drop_last());
        let all = links_of_suffixes(line, suffixes);
        assert forall|k: int| 0 <= k < all.len() implies sound_link(line, #[trigger] all[k]) by {
            if k < before.len() {
                assert(all[k] == before[k]);
            }
        }
    }
}

/// What a match of a path pattern yields is sound.
pub proof fn lemma_bare_link_of_captures_sound(
    line: Seq<char>,
    groups: Seq<Option<(usize, usize)>>,
)
    ensures
        bare_link_of_captures(line, groups) is Some ==> sound_link(
            line,
            bare_link_of_captures(line, groups).unwrap(),
        ),
{
    if bare_link_of_captures(line, groups) is Some {
        let (from, to) = group_at(groups, 0).unwrap();
        let link = bare_link_of_captures(line, groups).unwrap();
        lemma_text_at_bytes(line, from as int, to as int);
        if link.path.index != from {
            let text = text_at(line, from as int, to as int);
            lemma_text_at_nested(line, from as int, to as int, 2, byte_len(text) as int);
            lemma_text_at_bytes(line, from + 2, to as int);
        }
    }
}

/// Every link read from a list of matches of a path pattern is sound.
pub proof fn lemma_bare_links_of_matches_sound(
    line: Seq<char>,
    found: Seq<Seq<Option<(usize, usize)>>>,
)
    ensures
        forall|k: int|
            0 <= k < bare_links_of_matches(line, found).len() ==> sound_link(
                line,
                #[trigger] bare_links_of_matches(line, found)[k],
            ),
    decreases found.len(),
{
    if found.len() > 0 {
        lemma_bare_links_of_matches_sound(line, found.drop_last());
        lemma_bare_link_of_captures_sound(line, found.last());
        let before = bare_links_of_matches(line, found.drop_last());
        let all = bare_links_of_matches(line, found);
        assert forall|k: int| 0 <= k < all.len() implies sound_link(line, #[trigger] all[k]) by {
            if k < before.len() {
                assert(all[k] == before[k]);
            }
        }
    }
}

} // verus!
