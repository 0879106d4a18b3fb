//! Paths that stand in front of an annotation, and the quote that may open
//! such a path.

use vstd::prelude::*;
use vstd::string::*;
use vstd::utf8::*;

use crate::engine::captures_spans;
use crate::engine::first_captures;
use crate::link::LinkPartialRange;
use crate::link::LinkSuffix;
use crate::link::LinkView;
use crate::link::ParsedLink;
use crate::link::SpanView;
use crate::link::SuffixView;
use crate::pattern::link_with_suffix_path_characters;
use crate::pattern::path_before_suffix_pattern;
use crate::pattern::quote_prefix;
use crate::pattern::quote_prefix_pattern;
use crate::soundness::lemma_links_of_suffixes_sound;
use crate::soundness::lemma_suffixes_sound;
use crate::soundness::sound_link;
use crate::suffix::detect_link_suffixes;
use crate::suffix::entry;
use crate::suffix::group_at;
use crate::suffix::group_text;
use crate::suffix::line_suffixes;
use crate::suffix::text_of_group;
use crate::text::blank;
use crate::text::byte_len;
use crate::text::is_blank;
use crate::text::lemma_ascii_ends_char;
use crate::text::lemma_ascii_starts_char;
use crate::text::lemma_text_at_bytes;
use crate::text::lemma_text_at_nested;
use crate::text::len;
use crate::text::slice;
use crate::text::text_at;
use crate::text::valid_range;

verus! {

/// The byte of `'`.
pub const SINGLE_QUOTE: u8 = 0x27;

/// The byte of `"`.
pub const DOUBLE_QUOTE: u8 = 0x22;

/// `text` begins with the ASCII character of the byte `first`.
pub open spec fn begins_with_byte(text: Seq<char>, first: u8) -> bool {
    byte_len(text) > 0 && encode_utf8(text)[0] == first
}

/// `captured` opens with a single quote that a double quote follows.
pub open spec fn nested_quotes(captured: Seq<char>) -> bool {
    &&& byte_len(captured) > 1
    &&& encode_utf8(captured)[0] == SINGLE_QUOTE
    &&& encode_utf8(captured)[1] == DOUBLE_QUOTE
}

/// What `captured` holds behind its first `cut` bytes.
pub open spec fn behind(captured: Seq<char>, cut: int) -> Seq<char> {
    text_at(captured, cut, byte_len(captured) as int)
}

/// The length in bytes of the quote that opens `captured`, as a search with
/// the quote pattern found it: the end of the group `prefix`, which is
/// entry 1 of the match. A group that does not start the capture, or that
/// holds no character, is no quote.
pub open spec fn quote_len_of_captures(
    captured: Seq<char>,
    found: Option<Seq<Option<(usize, usize)>>>,
) -> Option<int> {
    match found {
        Some(groups) => match group_at(groups, 1) {
            Some((from, to)) => if from == 0 && to > 0 && valid_range(captured, 0, to as int) {
                Some(to as int)
            } else {
                None
            },
            None => None,
        },
        None => None,
    }
}

/// The span recorded for the quote `quote` that opens a capture at
/// `link_start`. A quote of one byte is recorded as it is. Of a longer one
/// only the last character is kept, where the annotation behind the path
/// opens with a quote character and that character ends `quote`.
pub open spec fn quote_span(link_start: int, quote: Seq<char>, suffix_text: Seq<char>) -> SpanView {
    let q = encode_utf8(quote);
    let s = encode_utf8(suffix_text);
    if q.len() > 1 && s.len() > 0 && (s[0] == SINGLE_QUOTE || s[0] == DOUBLE_QUOTE) && q.last()
        == s[0] {
        SpanView {
            index: link_start + q.len() - 1,
            text: text_at(quote, q.len() - 1, q.len() as int),
        }
    } else {
        SpanView { index: link_start, text: quote }
    }
}

/// The offset recorded for a path: behind the prefix where there is one,
/// else where the capture starts. There is one departure: a path that
/// still opens with a double quote behind a prefix, in a capture that starts
/// the line, is recorded at offset 1 whatever the prefix is.
pub open spec fn path_start(link_start: int, path: Seq<char>, prefix: Option<SpanView>) -> int {
    match prefix {
        Some(prefix) => if link_start == 0 && begins_with_byte(path, DOUBLE_QUOTE) {
            1
        } else {
            prefix.end()
        },
        None => link_start,
    }
}

/// The link for the text `captured`, found at `link_start` right in front of
/// the annotation `suffix`; `quote_len` is the length of the quote that the
/// quote pattern found at the start of `captured`, and it is not looked at
/// where the capture opens with nested quotes.
///
/// - Nested quotes: the double quote is the prefix, the path is what follows it.
/// - A quote: it is the prefix and the path is what follows it. There is no
///   link where that path is blank.
/// - Else the capture is the path.
pub open spec fn anchored_link(
    captured: Seq<char>,
    link_start: int,
    quote_len: Option<int>,
    suffix: SuffixView,
) -> Option<LinkView> {
    if nested_quotes(captured) {
        let path = behind(captured, 2);
        let prefix = Some(SpanView { index: link_start + 1, text: "\""@ });
        Some(
            LinkView {
                path: SpanView { index: path_start(link_start, path, prefix), text: path },
                prefix,
                suffix: Some(suffix),
            },
        )
    } else {
        match quote_len {
            Some(quote_len) => {
                let quote = text_at(captured, 0, quote_len);
                let path = behind(captured, quote_len);
                let prefix = Some(quote_span(link_start, quote, suffix.suffix.text));
                if blank(path) {
                    None
                } else {
                    Some(
                        LinkView {
                            path: SpanView {
                                index: path_start(link_start, path, prefix),
                                text: path,
                            },
                            prefix,
                            suffix: Some(suffix),
                        },
                    )
                }
            },
            None => Some(
                LinkView {
                    path: SpanView { index: link_start, text: captured },
                    prefix: None,
                    suffix: Some(suffix),
                },
            ),
        }
    }
}

/// Whether `text` begins with the ASCII character of the byte `first`.
fn first_byte_is(text: &str, first: u8) -> (b: bool)
    ensures
        b == begins_with_byte(text@, first),
{
    let bytes = text.as_bytes();
    bytes.len() > 0 && bytes[0] == first
}

/// Whether `captured` opens with a single quote that a double quote follows.
fn has_nested_quotes(captured: &str) -> (b: bool)
    ensures
        b == nested_quotes(captured@),
{
    let bytes = captured.as_bytes();
    bytes.len() > 1 && bytes[0] == SINGLE_QUOTE && bytes[1] == DOUBLE_QUOTE
}

/// Records the quote `quote` that opens a capture at `link_start`.
fn record_quote(link_start: usize, quote: &str, suffix_text: &str) -> (span: LinkPartialRange)
    requires
        link_start + byte_len(quote@) <= usize::MAX,
    ensures
        span@ == quote_span(link_start as int, quote@, suffix_text@),
{
    let q = quote.as_bytes();
    let s = suffix_text.as_bytes();
    let n = q.len();
    if n > 1 && s.len() > 0 && (s[0] == SINGLE_QUOTE || s[0] == DOUBLE_QUOTE) && q[n - 1] == s[0] {
        proof {
            lemma_ascii_starts_char(quote@, n - 1);
            encode_utf8_valid_utf8(quote@);
            is_char_boundary_start_end_of_seq(encode_utf8(quote@));
        }
        match slice(quote, n - 1, n) {
            Some(last) => LinkPartialRange { index: link_start + (n - 1), text: last.to_owned() },
            None => LinkPartialRange { index: link_start, text: quote.to_owned() },
        }
    } else {
        LinkPartialRange { index: link_start, text: quote.to_owned() }
    }
}

/// The offset to record for `path` behind `prefix`.
fn start_of_path(link_start: usize, path: &str, prefix: &Option<LinkPartialRange>) -> (index: usize)
    requires
        prefix is Some ==> prefix.unwrap()@.end() <= usize::MAX,
    ensures
        index == path_start(link_start as int, path@, prefix.deep_view()),
{
    match prefix {
        Some(prefix) => if link_start == 0 && first_byte_is(path, DOUBLE_QUOTE) {
            1
        } else {
            prefix.index + len(prefix.text.as_str())
        },
        None => link_start,
    }
}

/// The quote that opens `captured`, read from what the search for it gave.
fn quote_of<'a>(
    captured: &'a str,
    found: &Option<Vec<Option<(usize, usize)>>>,
) -> (quote: Option<&'a str>)
    ensures
        match quote {
            Some(quote) => {
                &&& quote_len_of_captures(captured@, found.deep_view()) == Some(
                    byte_len(quote@) as int,
                )
                &&& quote@ == text_at(captured@, 0, byte_len(quote@) as int)
            },
            None => quote_len_of_captures(captured@, found.deep_view()) is None,
        },
{
    let group = match found {
        Some(groups) => {
            assert(found.deep_view().unwrap() =~= groups@);
            entry(groups, 1)
        },
        None => None,
    };
    match group {
        Some((from, to)) => if from == 0 && to > 0 {
            let quote = slice(captured, 0, to);
            proof {
                if quote is Some {
                    lemma_text_at_bytes(captured@, 0, to as int);
                }
            }
            quote
        } else {
            None
        },
        None => None,
    }
}

/// Builds the link for the text `captured`, found at offset `link_start`
/// right in front of the annotation `suffix`. `quote` is what the search for
/// a quote at the start of `captured` gave.
///
/// A link whose path was cut off a quote never has a blank path.
pub fn link_before_suffix(
    captured: &str,
    link_start: usize,
    quote: &Option<Vec<Option<(usize, usize)>>>,
    suffix: LinkSuffix,
) -> (link: Option<ParsedLink>)
    requires
        link_start + byte_len(captured@) <= usize::MAX,
    ensures
        link.deep_view() == anchored_link(
            captured@,
            link_start as int,
            quote_len_of_captures(captured@, quote.deep_view()),
            suffix@,
        ),
        link is Some && !nested_quotes(captured@) && link.unwrap().prefix is Some ==> !blank(
            link.unwrap().path.text@,
        ),
{
    let n = len(captured);
    proof {
        encode_utf8_valid_utf8(captured@);
        is_char_boundary_start_end_of_seq(encode_utf8(captured@));
    }
    if has_nested_quotes(captured) {
        proof {
            lemma_ascii_ends_char(captured@, 1);
        }
        let path = match slice(captured, 2, n) {
            Some(path) => path,
            None => { return None; },
        };
        let prefix = Some(LinkPartialRange { index: link_start + 1, text: String::from_str("\"") });
        proof {
            reveal_strlit("\"");
            is_ascii_chars_encode_utf8("\""@);
        }
        let index = start_of_path(link_start, path, &prefix);
        return Some(
            ParsedLink {
                path: LinkPartialRange { index, text: path.to_owned() },
                prefix,
                suffix: Some(suffix),
            },
        );
    }
    match quote_of(captured, quote) {
        Some(quote) => {
            let path = match slice(captured, len(quote), n) {
                Some(path) => path,
                None => { return None; },
            };
            if is_blank(path) {
                return None;
            }
            let prefix = Some(record_quote(link_start, quote, suffix.suffix.text.as_str()));
            proof {
                let q = byte_len(quote@) as int;
                if prefix.unwrap()@.index != link_start as int {
                    lemma_ascii_starts_char(quote@, q - 1);
                    encode_utf8_valid_utf8(quote@);
                    is_char_boundary_start_end_of_seq(encode_utf8(quote@));
                    lemma_text_at_bytes(quote@, q - 1, q);
                }
            }
            let index = start_of_path(link_start, path, &prefix);
            Some(
                ParsedLink {
                    path: LinkPartialRange { index, text: path.to_owned() },
                    prefix,
                    suffix: Some(suffix),
                },
            )
        },
        None => Some(
            ParsedLink {
                path: LinkPartialRange { index: link_start, text: captured.to_owned() },
                prefix: None,
                suffix: Some(suffix),
            },
        ),
    }
}

/// The names of the groups read from a match of the pattern of a path in
/// front of an annotation.
pub open spec fn path_group_names() -> Seq<Seq<char>> {
    seq!["path"@]
}

/// The names of the groups read from a match of the quote pattern.
pub open spec fn quote_group_names() -> Seq<Seq<char>> {
    seq!["prefix"@]
}

/// The length of the quote that opens `captured`, as the quote pattern
/// finds it. A capture with nested quotes is not searched.
pub open spec fn quote_found(captured: Seq<char>) -> Option<int> {
    if nested_quotes(captured) {
        None
    } else {
        quote_len_of_captures(
            captured,
            captures_spans(quote_prefix_pattern(), captured, quote_group_names()),
        )
    }
}

/// The link for the annotation `suffix`, given what the search for a path at
/// the end of `before`, the text in front of the annotation, found. The path
/// is the group `path`, entry 1 of the match.
pub open spec fn link_of_path_captures(
    before: Seq<char>,
    found: Option<Seq<Option<(usize, usize)>>>,
    suffix: SuffixView,
) -> Option<LinkView> {
    match found {
        Some(groups) => match group_text(before, group_at(groups, 1)) {
            Some(captured) => anchored_link(
                captured,
                group_at(groups, 1).unwrap().0 as int,
                quote_found(captured),
                suffix,
            ),
            None => None,
        },
        None => None,
    }
}

/// The link for an annotation of `line`: its path is looked for at the end
/// of what `line` holds in front of the annotation.
pub open spec fn link_of_suffix(line: Seq<char>, suffix: SuffixView) -> Option<LinkView> {
    if valid_range(line, 0, suffix.suffix.index) {
        let before = text_at(line, 0, suffix.suffix.index);
        link_of_path_captures(
            before,
            captures_spans(path_before_suffix_pattern(), before, path_group_names()),
            suffix,
        )
    } else {
        None
    }
}

/// The links of a list of annotations of `line`, in the order of the
/// annotations.
pub open spec fn links_of_suffixes(line: Seq<char>, suffixes: Seq<SuffixView>) -> Seq<LinkView>
    decreases suffixes.len(),
{
    if suffixes.len() == 0 {
        Seq::empty()
    } else {
        let before = links_of_suffixes(line, suffixes.drop_last());
        match link_of_suffix(line, suffixes.last()) {
            Some(link) => before.push(link),
            None => before,
        }
    }
}

/// The links of `line` that carry an annotation, in the order of their
/// annotations.
pub open spec fn line_anchored_links(line: Seq<char>) -> Seq<LinkView> {
    links_of_suffixes(line, line_suffixes(line))
}

/// Builds the link for the annotation `suffix` from what the search for a
/// path at the end of `before` found. Searches the path for a quote.
pub fn link_for_path_captures(
    before: &str,
    found: &Option<Vec<Option<(usize, usize)>>>,
    suffix: LinkSuffix,
) -> (link: Option<ParsedLink>)
    ensures
        link.deep_view() == link_of_path_captures(before@, found.deep_view(), suffix@),
{
    let group = match found {
        Some(groups) => {
            assert(found.deep_view().unwrap() =~= groups@);
            entry(groups, 1)
        },
        None => None,
    };
    let captured = match text_of_group(before, group) {
        Some(captured) => captured,
        None => { return None; },
    };
    let link_start = match group {
        Some((from, _)) => from,
        None => { return None; },
    };
    proof {
        lemma_text_at_bytes(before@, link_start as int, group.unwrap().1 as int);
    }
    let quote = if has_nested_quotes(captured) {
        None
    } else {
        let names = vec!["prefix"];
        assert(names.deep_view() =~= quote_group_names());
        first_captures(quote_prefix(), captured, &names)
    };
    link_before_suffix(captured, link_start, &quote, suffix)
}

/// Builds the link for an annotation of `line`.
pub fn link_for_suffix(line: &str, suffix: LinkSuffix) -> (link: Option<ParsedLink>)
    ensures
        link.deep_view() == link_of_suffix(line@, suffix@),
{
    let before = match slice(line, 0, suffix.suffix.index) {
        Some(before) => before,
        None => { return None; },
    };
    let names = vec!["path"];
    assert(names.deep_view() =~= path_group_names());
    let found = first_captures(link_with_suffix_path_characters(), before, &names);
    link_for_path_captures(before, &found, suffix)
}

/// Finds the links of `line` that carry a row and column annotation, in the
/// order of their annotations.
pub fn detect_links_via_suffix(line: &str) -> (links: Vec<ParsedLink>)
    ensures
        links.deep_view() == line_anchored_links(line@),
        forall|k: int| 0 <= k < links.len() ==> sound_link(line@, (#[trigger] links[k])@),
{
    let suffixes = detect_link_suffixes(line);
    let ghost annotations = suffixes.deep_view();
    let mut links: Vec<ParsedLink> = Vec::new();
    assert(links.deep_view() =~= Seq::empty());
    for suffix in it: suffixes
        invariant
            it.seq().len() == annotations.len(),
            forall|k: int|
                0 <= k < annotations.len() ==> (#[trigger] it.seq()[k])@ == annotations[k],
            links.deep_view() == links_of_suffixes(line@, annotations.take(it.index() as int)),
    {
        let ghost before = links.deep_view();
        assert(annotations.take(it.index() + 1).drop_last() =~= annotations.take(
            it.index() as int,
        ));
        match link_for_suffix(line, suffix) {
            Some(link) => {
                links.push(link);
                assert(links.deep_view() =~= before.push(link@));
            },
            None => {},
        }
    }
    proof {
        assert(annotations.take(annotations.len() as int) =~= annotations);
        lemma_suffixes_sound(line@);
        lemma_links_of_suffixes_sound(line@, line_suffixes(line@));
        assert forall|k: int| 0 <= k < links.len() implies sound_link(
            line@,
            (#[trigger] links[k])@,
        ) by {
            assert(line_anchored_links(line@)[k] == links[k]@);
        }
    }
    links
}

/// The parts of a link in front of an annotation, within the capture that
/// they were cut from. The link carries the annotation. Its prefix is a
/// piece of the capture, and so is its path where it starts at the end of
/// the prefix or has no prefix. The path starts where the prefix ends, but
/// for the one departure that [`path_start`] names, and it ends where the
/// capture ends or before.
pub proof fn lemma_anchored_link_sound(
    captured: Seq<char>,
    link_start: int,
    quote_len: Option<int>,
    suffix: SuffixView,
)
    requires
        0 <= link_start,
        quote_len is Some ==> 0 < quote_len.unwrap() && valid_range(
            captured,
            0,
            quote_len.unwrap(),
        ),
    ensures
        match anchored_link(captured, link_start, quote_len, suffix) {
            Some(link) => {
                &&& link.suffix == Some(suffix)
                &&& link.path.index >= 0
                &&& link.path.end() <= link_start + byte_len(captured)
                &&& match link.prefix {
                    Some(prefix) => {
                        &&& prefix.lies_in_from(captured, link_start)
                        &&& link.path.index == prefix.end() || (link.path.index == 1
                            && begins_with_byte(link.path.text, DOUBLE_QUOTE))
                        &&& link.path.index == prefix.end() ==> link.path.lies_in_from(
                            captured,
                            link_start,
                        )
                    },
                    None => link.path.lies_in_from(captured, link_start),
                }
            },
            None => true,
        },
{
    let bytes = encode_utf8(captured);
    let n = byte_len(captured) as int;
    encode_utf8_valid_utf8(captured);
    is_char_boundary_start_end_of_seq(bytes);
    if nested_quotes(captured) {
        lemma_ascii_starts_char(captured, 1);
        lemma_ascii_ends_char(captured, 1);
        lemma_text_at_bytes(captured, 2, n);
        reveal_strlit("\"");
        is_ascii_chars_encode_utf8("\""@);
        assert(bytes.subrange(1, 2) =~= encode_utf8("\""@));
        encode_utf8_decode_utf8("\""@);
    } else if quote_len is Some {
        let q = quote_len.unwrap();
        let quote = text_at(captured, 0, q);
        lemma_text_at_bytes(captured, 0, q);
        lemma_text_at_bytes(captured, q, n);
        let prefix = quote_span(link_start, quote, suffix.suffix.text);
        if prefix.index != link_start {
            lemma_ascii_starts_char(quote, q - 1);
            encode_utf8_valid_utf8(quote);
            is_char_boundary_start_end_of_seq(encode_utf8(quote));
            lemma_text_at_bytes(quote, q - 1, q);
            lemma_text_at_nested(captured, 0, q, q - 1, q);
        }
    } else {
        encode_utf8_decode_utf8(captured);
        assert(bytes.subrange(0, n) =~= bytes);
    }
}

} // verus!
