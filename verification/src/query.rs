//! Query strings behind a path.

use vstd::prelude::*;
use vstd::utf8::*;

use crate::text::begins_with;
use crate::text::find_byte;
use crate::text::lemma_ascii_starts_char;
use crate::text::slice;
use crate::text::starts_with;
use crate::text::text_at;

verus! {

/// The marker `\\?\` that opens a UNC path.
pub open spec fn unc_marker() -> Seq<char> {
    "\\\\?\\"@
}

/// The UNC marker takes four bytes.
pub proof fn lemma_unc_marker_len()
    ensures
        encode_utf8(unc_marker()).len() == 4,
{
    reveal_strlit("\\\\?\\");
    is_ascii_chars_encode_utf8(unc_marker());
}

/// The byte offset from which a `?` opens a query string: behind the four
/// bytes of the UNC marker where `link` begins with it, else the start.
pub open spec fn query_search_start(link: Seq<char>) -> int {
    if begins_with(link, unc_marker()) {
        4
    } else {
        0
    }
}

/// `link` up to its query string: up to the first `?` that is not part of a
/// leading UNC marker. A text without such a `?` is left whole.
pub open spec fn without_query(link: Seq<char>) -> Seq<char> {
    match find_byte(encode_utf8(link), 0x3f, query_search_start(link)) {
        Some(at) => text_at(link, 0, at),
        None => link,
    }
}

/// Removes the query string from `link`.
pub fn remove_link_query_string(link: &str) -> (rest: String)
    ensures
        rest@ == without_query(link@),
{
    let start: usize = if starts_with(link, "\\\\?\\") { 4 } else { 0 };
    let bytes = link.as_bytes();
    let n = bytes.len();
    let mut i: usize = start;
    while i < n
        invariant
            bytes@ == encode_utf8(link@),
            n == bytes@.len(),
            start == query_search_start(link@),
            start <= i,
            find_byte(bytes@, 0x3f, start as int) == find_byte(bytes@, 0x3f, i as int),
        decreases n - i,
    {
        if bytes[i] == 0x3f {
            proof {
                encode_utf8_valid_utf8(link@);
                is_char_boundary_start_end_of_seq(bytes@);
                lemma_ascii_starts_char(link@, i as int);
                assert(find_byte(bytes@, 0x3f, i as int) == Some(i as int));
            }
            return match slice(link, 0, i) {
                Some(rest) => rest.to_owned(),
                None => link.to_owned(),
            };
        }
        i += 1;
    }
    link.to_owned()
}

} // verus!
