//! Paths that stand in a line without an annotation.

use vstd::prelude::*;
use vstd::utf8::*;

use crate::engine::all_captures;
use crate::engine::captures_iter_spans;
use crate::link::LinkPartialRange;
use crate::link::LinkView;
use crate::link::OperatingSystem;
use crate::link::ParsedLink;
use crate::link::SpanView;
use crate::pattern::unix_local_link_clause;
use crate::pattern::unix_local_link_pattern;
use crate::pattern::win_local_link_clause;
use crate::pattern::win_local_link_pattern;
use crate::soundness::lemma_bare_links_of_matches_sound;
use crate::soundness::sound_link;
use crate::suffix::group_at;
use crate::suffix::group_text;
use crate::text::begins_with;
use crate::text::byte_len;
use crate::text::lemma_text_at_bytes;
use crate::text::len;
use crate::text::slice;
use crate::text::starts_with;
use crate::text::text_at;
use crate::text::valid_range;

verus! {

/// The pattern of a path under `os`. Linux and Macintosh share one.
pub open spec fn local_link_pattern(os: OperatingSystem) -> Seq<char> {
    match os {
        OperatingSystem::Windows => win_local_link_pattern(),
        _ => unix_local_link_pattern(),
    }
}

/// A path at offset `index` of `line`, with the text `text`, carries a
/// prefix `a/` or `b/` of a git diff: the line names a file of a diff and
/// the path stands at offset 4, or the line opens a diff and the path begins
/// with `a/` or `b/`.
pub open spec fn in_git_diff(line: Seq<char>, index: int, text: Seq<char>) -> bool {
    ||| (begins_with(line, "--- a/"@) || begins_with(line, "+++ b/"@)) && index == 4
    ||| begins_with(line, "diff --git"@) && (begins_with(text, "a/"@) || begins_with(text, "b/"@))
}

/// The span of a path found at offset `index` with the text `text`: in a git
/// diff the path loses its first two bytes, where they are characters of
/// their own, and starts two bytes later.
pub open spec fn bare_path_span(line: Seq<char>, index: int, text: Seq<char>) -> SpanView {
    if in_git_diff(line, index, text) && valid_range(text, 2, byte_len(text) as int) {
        SpanView { index: index + 2, text: text_at(text, 2, byte_len(text) as int) }
    } else {
        SpanView { index, text }
    }
}

/// The link that a match of a path pattern stands for: the text of the whole
/// match, with neither quote nor annotation.
pub open spec fn bare_link_of_captures(
    line: Seq<char>,
    groups: Seq<Option<(usize, usize)>>,
) -> Option<LinkView> {
    match group_text(line, group_at(groups, 0)) {
        Some(text) => Some(
            LinkView {
                path: bare_path_span(line, group_at(groups, 0).unwrap().0 as int, text),
                prefix: None,
                suffix: None,
            },
        ),
        None => None,
    }
}

/// The links of a list of matches of a path pattern, in the order of the
/// matches.
pub open spec fn bare_links_of_matches(
    line: Seq<char>,
    found: Seq<Seq<Option<(usize, usize)>>>,
) -> Seq<LinkView>
    decreases found.len(),
{
    if found.len() == 0 {
        Seq::empty()
    } else {
        let before = bare_links_of_matches(line, found.drop_last());
        match bare_link_of_captures(line, found.last()) {
            Some(link) => before.push(link),
            None => before,
        }
    }
}

/// The paths without annotation of `line` under `os`, in the order in which
/// the search finds them.
pub open spec fn line_bare_links(line: Seq<char>, os: OperatingSystem) -> Seq<LinkView> {
    bare_links_of_matches(
        line,
        captures_iter_spans(local_link_pattern(os), line, Seq::empty()),
    )
}

/// Reads a match of a path pattern in `line`: `captures` starts with the
/// range of the whole match.
pub fn bare_link(line: &str, captures: &Vec<Option<(usize, usize)>>) -> (link: Option<ParsedLink>)
    ensures
        link.deep_view() == bare_link_of_captures(line@, captures@),
{
    let (from, to) = if captures.len() > 0 {
        match captures[0] {
            Some(range) => range,
            None => { return None; },
        }
    } else {
        return None;
    };
    let text = match slice(line, from, to) {
        Some(text) => text,
        None => { return None; },
    };
    proof {
        lemma_text_at_bytes(line@, from as int, to as int);
    }
    let in_diff = ((starts_with(line, "--- a/") || starts_with(line, "+++ b/")) && from == 4) || (
    starts_with(line, "diff --git") && (starts_with(text, "a/") || starts_with(text, "b/")));
    if in_diff {
        match slice(text, 2, len(text)) {
            Some(rest) => {
                return Some(
                    ParsedLink {
                        path: LinkPartialRange { index: from + 2, text: rest.to_owned() },
                        prefix: None,
                        suffix: None,
                    },
                );
            },
            None => {},
        }
    }
    Some(
        ParsedLink {
            path: LinkPartialRange { index: from, text: text.to_owned() },
            prefix: None,
            suffix: None,
        },
    )
}

/// Reads every match of a path pattern in `line`, in the order given.
pub fn bare_links(line: &str, found: &Vec<Vec<Option<(usize, usize)>>>) -> (links: Vec<ParsedLink>)
    ensures
        links.deep_view() == bare_links_of_matches(line@, found.deep_view()),
{
    let mut links: Vec<ParsedLink> = Vec::new();
    let mut i: usize = 0;
    assert(found.deep_view().take(0) =~= Seq::empty());
    assert(links.deep_view() =~= Seq::empty());
    while i < found.len()
        invariant
            i <= found.len(),
            links.deep_view() == bare_links_of_matches(line@, found.deep_view().take(i as int)),
        decreases found.len() - i,
    {
        let ghost before = links.deep_view();
        proof {
            assert(found.deep_view().take(i + 1).drop_last() =~= found.deep_view().take(i as int));
            assert(found.deep_view().take(i + 1).last() == found.deep_view()[i as int]);
            assert(found.deep_view()[i as int] =~= found[i as int]@);
        }
        match bare_link(line, &found[i]) {
            Some(link) => {
                links.push(link);
                assert(links.deep_view() =~= before.push(link@));
            },
            None => {},
        }
        i += 1;
    }
    assert(found.deep_view().take(found.len() as int) =~= found.deep_view());
    links
}

/// Finds the paths of `line` under `os` without regard to annotations, in
/// the order in which the search walks the line. A path in a git diff comes
/// without its `a/` or `b/`.
pub fn detect_paths_no_suffix(line: &str, os: OperatingSystem) -> (links: Vec<ParsedLink>)
    ensures
        links.deep_view() == line_bare_links(line@, os),
        forall|k: int| 0 <= k < links.len() ==> sound_link(line@, (#[trigger] links[k])@),
{
    let pattern = match os {
        OperatingSystem::Windows => win_local_link_clause(),
        _ => unix_local_link_clause(),
    };
    let names: Vec<&str> = Vec::new();
    assert(names.deep_view() =~= Seq::empty());
    let found = all_captures(pattern.as_str(), line, &names);
    let links = bare_links(line, &found);
    proof {
        lemma_bare_links_of_matches_sound(line@, found.deep_view());
        assert forall|k: int| 0 <= k < links.len() implies sound_link(
            line@,
            (#[trigger] links[k])@,
        ) by {
            assert(line_bare_links(line@, os)[k] == links[k]@);
        }
    }
    links
}

} // verus!
