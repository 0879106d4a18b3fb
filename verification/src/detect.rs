//! The links of a line: those that carry an annotation, merged with the
//! paths found without regard to annotations.

use vstd::prelude::*;

use crate::anchored::detect_links_via_suffix;
use crate::anchored::line_anchored_links;
use crate::bare::detect_paths_no_suffix;
use crate::bare::line_bare_links;
use crate::bare::local_link_pattern;
use crate::engine::captures_iter_spans;
use crate::link::LinkView;
use crate::link::OperatingSystem;
use crate::link::ParsedLink;
use crate::merge::binary_insert_list;
use crate::merge::lemma_merged_members;
use crate::merge::lemma_merged_separated;
use crate::merge::lemma_merged_separated_only_if;
use crate::merge::merged;
use crate::merge::separated;
use crate::pattern::link_suffix_pattern;
use crate::pattern::suffix_group_names;
use crate::soundness::lemma_bare_links_of_matches_sound;
use crate::soundness::lemma_links_of_suffixes_sound;
use crate::soundness::lemma_suffixes_sound;
use crate::soundness::sound_link;
use crate::suffix::line_suffixes;

verus! {

/// The links of `line` under `os`: those that carry an annotation, merged
/// with the paths found without regard to annotations.
pub open spec fn line_links(line: Seq<char>, os: OperatingSystem) -> Seq<LinkView> {
    merged(line_anchored_links(line), line_bare_links(line, os))
}

/// The two lists that are merged into the links of `line` are in order: the
/// paths of the links that carry an annotation ascend without overlap, and
/// so do, where there is no such link, the paths found without regard to
/// annotations.
pub open spec fn candidates_in_order(line: Seq<char>, os: OperatingSystem) -> bool {
    &&& separated(line_anchored_links(line))
    &&& line_anchored_links(line).len() == 0 ==> separated(line_bare_links(line, os))
}

/// Finds the links of `line` under `os`: first those that carry a row and
/// column annotation, then the paths without regard to annotations, of
/// which those are kept that do not conflict with a link found before.
///
/// Every link that comes back is sound. The paths of the links ascend
/// without overlap if, and only if, the two lists that are merged are in
/// order.
pub fn detect_links(line: &str, os: OperatingSystem) -> (links: Vec<ParsedLink>)
    ensures
        links.deep_view() == line_links(line@, os),
        forall|k: int| 0 <= k < links.len() ==> sound_link(line@, (#[trigger] links[k])@),
        separated(links.deep_view()) <==> candidates_in_order(line@, os),
{
    let mut results = detect_links_via_suffix(line);
    let no_suffix_paths = detect_paths_no_suffix(line, os);
    binary_insert_list(&mut results, no_suffix_paths);
    proof {
        lemma_detect_links_sound(line@, os);
        if candidates_in_order(line@, os) {
            lemma_detect_links_separated(line@, os);
        }
        if separated(line_links(line@, os)) {
            lemma_detect_links_separated_only_if(line@, os);
        }
        assert forall|k: int| 0 <= k < results.len() implies sound_link(
            line@,
            (#[trigger] results[k])@,
        ) by {
            assert(line_links(line@, os)[k] == results[k]@);
        }
    }
    results
}

/// The paths of the links found in a line are in ascending order and do not
/// overlap, provided that this holds of the links that carry an annotation
/// and, where there is none of these, of the paths found without regard to
/// annotations.
pub proof fn lemma_detect_links_separated(line: Seq<char>, os: OperatingSystem)
    requires
        candidates_in_order(line, os),
    ensures
        separated(line_links(line, os)),
{
    lemma_merged_separated(line_anchored_links(line), line_bare_links(line, os));
}

/// The paths of the links found in a line are in ascending order and do not
/// overlap only where the two lists that are merged are in order.
pub proof fn lemma_detect_links_separated_only_if(line: Seq<char>, os: OperatingSystem)
    requires
        separated(line_links(line, os)),
    ensures
        candidates_in_order(line, os),
{
    lemma_merged_separated_only_if(line_anchored_links(line), line_bare_links(line, os));
}

/// Every link detected in a line is sound: its spans lie within the line,
/// its prefix, its path and its annotation follow one another, and its
/// annotation has a row.
pub proof fn lemma_detect_links_sound(line: Seq<char>, os: OperatingSystem)
    ensures
        forall|k: int|
            0 <= k < line_links(line, os).len() ==> sound_link(
                line,
                #[trigger] line_links(line, os)[k],
            ),
{
    let anchored = line_anchored_links(line);
    let bare = line_bare_links(line, os);
    lemma_suffixes_sound(line);
    lemma_links_of_suffixes_sound(line, line_suffixes(line));
    lemma_bare_links_of_matches_sound(
        line,
        captures_iter_spans(local_link_pattern(os), line, Seq::empty()),
    );
    lemma_merged_members(anchored, bare);
    assert forall|k: int| 0 <= k < line_links(line, os).len() implies sound_link(
        line,
        #[trigger] line_links(line, os)[k],
    ) by {
        let link = line_links(line, os)[k];
        if anchored.contains(link) {
            let i = choose|i: int| 0 <= i < anchored.len() && anchored[i] == link;
            assert(sound_link(line, anchored[i]));
        } else {
            let i = choose|i: int| 0 <= i < bare.len() && bare[i] == link;
            assert(sound_link(line, bare[i]));
        }
    }
}

/// A line in which the patterns find nothing has no link: where neither the
/// suffix pattern nor the path pattern of `os` matches in `line`, no link is
/// detected.
pub proof fn lemma_nothing_found_no_links(line: Seq<char>, os: OperatingSystem)
    requires
        captures_iter_spans(link_suffix_pattern(false), line, suffix_group_names()).len() == 0,
        captures_iter_spans(local_link_pattern(os), line, Seq::empty()).len() == 0,
    ensures
        line_links(line, os) == Seq::<LinkView>::empty(),
{
    assert(line_suffixes(line) =~= Seq::empty());
    assert(line_anchored_links(line) =~= Seq::empty());
    assert(line_bare_links(line, os) =~= Seq::empty());
}

/// Linux and Macintosh share one grammar: a line has the same links under
/// both.
pub proof fn lemma_linux_and_macintosh_agree(line: Seq<char>)
    ensures
        line_links(line, OperatingSystem::Linux) == line_links(line, OperatingSystem::Macintosh),
{
}

} // verus!
