//! Merging two lists of links: one list takes those links of the other that
//! find room in it.

use vstd::prelude::*;

use crate::link::LinkPartialRange;
use crate::link::LinkView;
use crate::link::ParsedLink;
use crate::text::len;

verus! {

/// Where the binary search between the positions `low` and `high` of `list`
/// settles for a path that starts at `index`: a position whose link starts
/// behind `index`, while the link in front of it starts before `index`, or
/// the position behind the last link. `None` where the search runs out
/// before it finds such a position.
pub open spec fn search_position(
    list: Seq<LinkView>,
    index: int,
    low: int,
    high: int,
) -> Option<int>
    decreases high + 1 - low,
{
    if low < 0 || low > high {
        None
    } else {
        let mid = low + (high - low) / 2;
        if mid >= list.len() || (index < list[mid].path.index && (mid == 0
            || index > list[mid - 1].path.index)) {
            Some(mid)
        } else if index > list[mid].path.index {
            search_position(list, index, mid + 1, high)
        } else {
            search_position(list, index, low, mid - 1)
        }
    }
}

/// The path of `item` keeps clear of its neighbours at position `at` of
/// `list`: it ends before the link at `at` starts, and it starts behind the
/// end of the link in front.
pub open spec fn fits_at(list: Seq<LinkView>, item: LinkView, at: int) -> bool {
    &&& at < list.len() ==> item.path.end() < list[at].path.index
    &&& at > 0 ==> item.path.index > list[at - 1].path.end()
}

/// `list` after the attempt to insert `item` by a binary search between the
/// positions `low` and `high`: `item` goes in where the search settles, if it
/// keeps clear of its neighbours there; else `list` stays as it is. An empty
/// list takes any item.
pub open spec fn inserted(
    list: Seq<LinkView>,
    item: LinkView,
    low: int,
    high: int,
) -> Seq<LinkView> {
    if list.len() == 0 {
        seq![item]
    } else {
        match search_position(list, item.path.index, low, high) {
            Some(at) => if at <= list.len() && fits_at(list, item, at) {
                list.insert(at, item)
            } else {
                list
            },
            None => list,
        }
    }
}

/// `list` after the attempt to insert each of `items` in turn.
pub open spec fn inserted_all(list: Seq<LinkView>, items: Seq<LinkView>) -> Seq<LinkView>
    decreases items.len(),
{
    if items.len() == 0 {
        list
    } else {
        let so_far = inserted_all(list, items.drop_last());
        inserted(so_far, items.last(), 0, so_far.len() as int)
    }
}

/// `list` merged with `items`: an empty list becomes `items`, any other list
/// takes those of `items` that find room.
pub open spec fn merged(list: Seq<LinkView>, items: Seq<LinkView>) -> Seq<LinkView> {
    if list.len() == 0 {
        items
    } else {
        inserted_all(list, items)
    }
}

/// The binary search settles between the positions that it was given.
pub proof fn lemma_search_position_in_range(list: Seq<LinkView>, index: int, low: int, high: int)
    ensures
        search_position(list, index, low, high) is Some ==> low <= search_position(
            list,
            index,
            low,
            high,
        ).unwrap() <= high,
    decreases high + 1 - low,
{
    if low < 0 || low > high {
    } else {
        let mid = low + (high - low) / 2;
        if mid >= list.len() || (index < list[mid].path.index && (mid == 0
            || index > list[mid - 1].path.index)) {
        } else if index > list[mid].path.index {
            lemma_search_position_in_range(list, index, mid + 1, high);
        } else {
            lemma_search_position_in_range(list, index, low, mid - 1);
        }
    }
}

/// An attempt to insert keeps every link of the list, and adds at most one.
pub proof fn lemma_inserted_len(list: Seq<LinkView>, item: LinkView, low: int, high: int)
    ensures
        list.len() <= inserted(list, item, low, high).len() <= list.len() + 1,
        inserted(list, item, low, high).len() > 0,
{
    lemma_search_position_in_range(list, item.path.index, low, high);
}

/// Whether `span` ends before the offset `limit`.
fn ends_before(span: &LinkPartialRange, limit: usize) -> (b: bool)
    ensures
        b == (span@.end() < limit),
{
    match span.index.checked_add(len(span.text.as_str())) {
        Some(end) => end < limit,
        None => false,
    }
}

/// Whether the offset `index` lies behind the end of `span`.
fn lies_behind(index: usize, span: &LinkPartialRange) -> (b: bool)
    ensures
        b == (index > span@.end()),
{
    match span.index.checked_add(len(span.text.as_str())) {
        Some(end) => index > end,
        None => false,
    }
}

/// Inserts `new_item` into `list` by a binary search between the positions
/// `low` and `high`, unless its path conflicts with a neighbour.
pub fn binary_insert(list: &mut Vec<ParsedLink>, new_item: ParsedLink, low: usize, high: usize)
    requires
        high <= old(list).len(),
    ensures
        final(list).deep_view() == inserted(
            old(list).deep_view(),
            new_item@,
            low as int,
            high as int,
        ),
    decreases high + 1 - low,
{
    if list.len() == 0 {
        list.push(new_item);
        assert(list.deep_view() =~= seq![new_item@]);
        return;
    }
    if low > high {
        return;
    }
    let mid = low + (high - low) / 2;
    let ghost before = list.deep_view();
    assert(forall|i: int| 0 <= i < list.len() ==> #[trigger] before[i] == list[i]@);
    if mid >= list.len() || (new_item.path.index < list[mid].path.index && (mid == 0
        || new_item.path.index > list[mid - 1].path.index)) {
        if (mid >= list.len() || ends_before(&new_item.path, list[mid].path.index)) && (mid == 0
            || lies_behind(new_item.path.index, &list[mid - 1].path)) {
            list.insert(mid, new_item);
            assert(list.deep_view() =~= before.insert(mid as int, new_item@));
        }
        return;
    }
    if new_item.path.index > list[mid].path.index {
        binary_insert(list, new_item, mid + 1, high);
    } else if mid > 0 {
        binary_insert(list, new_item, low, mid - 1);
    } else {
        assert(search_position(before, new_item@.path.index, low as int, mid - 1) is None);
    }
}

/// Merges `new_items` into `list`: an empty list takes them all as they
/// come, any other list takes each in turn where it finds room.
pub fn binary_insert_list(list: &mut Vec<ParsedLink>, new_items: Vec<ParsedLink>)
    ensures
        final(list).deep_view() == merged(old(list).deep_view(), new_items.deep_view()),
{
    let mut new_items = new_items;
    if list.len() == 0 {
        let ghost items = new_items.deep_view();
        list.append(&mut new_items);
        assert(list.deep_view() =~= items);
        return;
    }
    let ghost start = list.deep_view();
    let ghost items = new_items.deep_view();
    for item in it: new_items
        invariant
            it.seq().len() == items.len(),
            forall|k: int| 0 <= k < items.len() ==> (#[trigger] it.seq()[k])@ == items[k],
            list.len() > 0,
            start.len() > 0,
            list.deep_view() == inserted_all(start, items.take(it.index() as int)),
    {
        assert(items.take(it.index() + 1).drop_last() =~= items.take(it.index() as int));
        let high = list.len();
        let ghost so_far = list.deep_view();
        binary_insert(list, item, 0, high);
        proof {
            lemma_inserted_len(so_far, item@, 0, high as int);
        }
    }
    assert(items.take(items.len() as int) =~= items);
}

/// The paths of `list` come in ascending order and none overlaps another:
/// each ends where a later one starts, or before.
pub open spec fn separated(list: Seq<LinkView>) -> bool {
    forall|i: int, j: int|
        0 <= i < j < list.len() ==> (#[trigger] list[i]).path.end()
            <= (#[trigger] list[j]).path.index
}

/// The paths of `list` start at strictly ascending offsets.
pub open spec fn ascending(list: Seq<LinkView>) -> bool {
    forall|i: int, j: int|
        0 <= i < j < list.len() ==> (#[trigger] list[i]).path.index
            < (#[trigger] list[j]).path.index
}

/// An attempt to insert a link into a list whose paths are in order and do
/// not overlap leaves such a list, wherever the search was told to look.
pub proof fn lemma_inserted_separated(list: Seq<LinkView>, item: LinkView, low: int, high: int)
    requires
        separated(list),
    ensures
        separated(inserted(list, item, low, high)),
{
    let after = inserted(list, item, low, high);
    lemma_search_position_in_range(list, item.path.index, low, high);
    if list.len() > 0 && after != list {
        let at = search_position(list, item.path.index, low, high).unwrap();
        assert(after == list.insert(at, item));
        assert forall|i: int, j: int| 0 <= i < j < after.len() implies (
        #[trigger] after[i]).path.end() <= (#[trigger] after[j]).path.index by {
            if j < at {
                assert(after[i] == list[i] && after[j] == list[j]);
            } else if i > at {
                assert(after[i] == list[i - 1] && after[j] == list[j - 1]);
            } else if i == at {
                assert(after[j] == list[j - 1]);
                assert(list[at].path.index <= list[at].path.end());
                if j - 1 > at {
                    assert(list[at].path.end() <= list[j - 1].path.index);
                }
            } else if j == at {
                assert(after[i] == list[i]);
                assert(list[at - 1].path.index <= list[at - 1].path.end());
                if i < at - 1 {
                    assert(list[i].path.end() <= list[at - 1].path.index);
                }
            } else {
                assert(after[i] == list[i] && after[j] == list[j - 1]);
                assert(list[i].path.end() <= list[j - 1].path.index);
            }
        }
    }
}

/// Attempts to insert any number of links keep the paths of a list in order
/// and free of overlap.
pub proof fn lemma_inserted_all_separated(list: Seq<LinkView>, items: Seq<LinkView>)
    requires
        separated(list),
    ensures
        separated(inserted_all(list, items)),
    decreases items.len(),
{
    if items.len() > 0 {
        lemma_inserted_all_separated(list, items.drop_last());
        let so_far = inserted_all(list, items.drop_last());
        lemma_inserted_separated(so_far, items.last(), 0, so_far.len() as int);
    }
}

/// Merging keeps order: where the paths of `list` are in ascending order and
/// do not overlap, and so are those of `items` in case `list` is empty, the
/// paths of the merged list are in ascending order and do not overlap.
pub proof fn lemma_merged_separated(list: Seq<LinkView>, items: Seq<LinkView>)
    requires
        separated(list),
        list.len() == 0 ==> separated(items),
    ensures
        separated(merged(list, items)),
{
    if list.len() > 0 {
        lemma_inserted_all_separated(list, items);
    }
}

/// Position `at` of `list` is the gap for a path that starts at `index`:
/// every link in front of it starts before `index`, every link from it on
/// starts behind `index`.
pub open spec fn gap_at(list: Seq<LinkView>, index: int, at: int) -> bool {
    &&& 0 <= at <= list.len()
    &&& forall|k: int| 0 <= k < at ==> (#[trigger] list[k]).path.index < index
    &&& forall|k: int| at <= k < list.len() ==> index < (#[trigger] list[k]).path.index
}

/// A position at which the search settles is the gap, where the links in
/// front of the searched positions start before `index`.
proof fn lemma_search_settles_at_gap(list: Seq<LinkView>, index: int, low: int, high: int)
    requires
        ascending(list),
        0 <= low,
        high <= list.len(),
        forall|k: int| 0 <= k < low ==> (#[trigger] list[k]).path.index < index,
    ensures
        search_position(list, index, low, high) is Some ==> gap_at(
            list,
            index,
            search_position(list, index, low, high).unwrap(),
        ),
    decreases high + 1 - low,
{
    if low <= high {
        let mid = low + (high - low) / 2;
        if mid >= list.len() {
        } else if index < list[mid].path.index && (mid == 0 || index > list[mid - 1].path.index) {
            assert forall|k: int| 0 <= k < mid implies (#[trigger] list[k]).path.index < index by {
                if k < mid - 1 {
                    assert(list[k].path.index < list[mid - 1].path.index);
                }
            }
            assert forall|k: int| mid <= k < list.len() implies index < (
            #[trigger] list[k]).path.index by {
                if k > mid {
                    assert(list[mid].path.index < list[k].path.index);
                }
            }
        } else if index > list[mid].path.index {
            assert forall|k: int| 0 <= k < mid + 1 implies (#[trigger] list[k]).path.index
                < index by {
                if k < mid {
                    assert(list[k].path.index < list[mid].path.index);
                }
            }
            lemma_search_position_in_range(list, index, mid + 1, high);
            lemma_search_settles_at_gap(list, index, mid + 1, high);
        } else {
            lemma_search_settles_at_gap(list, index, low, mid - 1);
        }
    }
}

/// The search settles, where no link starts at `index` and the gap lies
/// between the searched positions.
proof fn lemma_search_settles(list: Seq<LinkView>, index: int, low: int, high: int)
    requires
        ascending(list),
        0 <= low <= high <= list.len(),
        forall|k: int| 0 <= k < list.len() ==> (#[trigger] list[k]).path.index != index,
        forall|k: int| 0 <= k < low ==> (#[trigger] list[k]).path.index < index,
        forall|k: int| high <= k < list.len() ==> index < (#[trigger] list[k]).path.index,
    ensures
        search_position(list, index, low, high) is Some,
    decreases high + 1 - low,
{
    let mid = low + (high - low) / 2;
    if mid >= list.len() || (index < list[mid].path.index && (mid == 0
        || index > list[mid - 1].path.index)) {
    } else if index > list[mid].path.index {
        assert(mid < high);
        assert forall|k: int| 0 <= k < mid + 1 implies (#[trigger] list[k]).path.index < index by {
            if k < mid {
                assert(list[k].path.index < list[mid].path.index);
            }
        }
        lemma_search_settles(list, index, mid + 1, high);
    } else {
        assert(list[mid].path.index != index);
        assert(list[mid - 1].path.index != index);
        assert(mid > low);
        assert forall|k: int| mid - 1 <= k < list.len() implies index < (
        #[trigger] list[k]).path.index by {
            if k > mid - 1 {
                assert(list[mid - 1].path.index < list[k].path.index);
            }
        }
        lemma_search_settles(list, index, low, mid - 1);
    }
}

/// The binary search over a whole list is right: where the paths of `list`
/// start at strictly ascending offsets, the search for `index` settles at
/// the gap for `index`, and it runs out only where a link of `list` starts
/// at `index` itself.
pub proof fn lemma_search_position_of_ascending(list: Seq<LinkView>, index: int)
    requires
        ascending(list),
    ensures
        match search_position(list, index, 0, list.len() as int) {
            Some(at) => gap_at(list, index, at),
            None => exists|k: int| 0 <= k < list.len() && (#[trigger] list[k]).path.index == index,
        },
{
    lemma_search_settles_at_gap(list, index, 0, list.len() as int);
    if forall|k: int| 0 <= k < list.len() ==> (#[trigger] list[k]).path.index != index {
        lemma_search_settles(list, index, 0, list.len() as int);
    }
}

/// What an attempt to insert into a list does whose paths start at strictly
/// ascending offsets: the link goes into the gap for the start of its path
/// if it keeps clear of its neighbours there, and the list stays as it is
/// otherwise, in particular where one of its links starts at the same
/// offset.
pub proof fn lemma_inserted_into_ascending(list: Seq<LinkView>, item: LinkView)
    requires
        ascending(list),
        list.len() > 0,
    ensures
        forall|at: int|
            gap_at(list, item.path.index, at) && fits_at(list, item, at) ==> inserted(
                list,
                item,
                0,
                list.len() as int,
            ) == #[trigger] list.insert(at, item),
        (forall|at: int| !(gap_at(list, item.path.index, at) && #[trigger] fits_at(list, item, at)))
            ==> inserted(list, item, 0, list.len() as int) == list,
{
    let index = item.path.index;
    lemma_search_position_of_ascending(list, index);
    assert forall|at: int| gap_at(list, index, at) && fits_at(list, item, at) implies inserted(
        list,
        item,
        0,
        list.len() as int,
    ) == #[trigger] list.insert(at, item) by {
        match search_position(list, index, 0, list.len() as int) {
            Some(found) => {
                if found < at {
                    assert(list[found].path.index < index);
                } else if at < found {
                    assert(list[at].path.index < index);
                }
            },
            None => {
                let k = choose|k: int|
                    0 <= k < list.len() && (#[trigger] list[k]).path.index == index;
                if k < at {
                    assert(list[k].path.index < index);
                }
            },
        }
    }
}

/// Nothing is lost and nothing is made up: every link of `list` is in the
/// merged list, and every link of the merged list is one of `list` or one of
/// `items`.
pub proof fn lemma_merged_members(list: Seq<LinkView>, items: Seq<LinkView>)
    ensures
        forall|i: int| 0 <= i < list.len() ==> merged(list, items).contains(#[trigger] list[i]),
        forall|k: int|
            0 <= k < merged(list, items).len() ==> list.contains(#[trigger] merged(list, items)[k])
                || items.contains(merged(list, items)[k]),
    decreases items.len(),
{
    if list.len() > 0 && items.len() > 0 {
        let fewer = items.drop_last();
        let so_far = inserted_all(list, fewer);
        let last = items.last();
        let high = so_far.len() as int;
        let after = inserted(so_far, last, 0, high);
        lemma_merged_members(list, fewer);
        lemma_inserted_all_len(list, fewer);
        lemma_search_position_in_range(so_far, last.path.index, 0, high);
        assert(merged(list, items) == after);
        assert(merged(list, fewer) == so_far);
        if after == so_far {
            assert forall|k: int| 0 <= k < after.len() implies list.contains(#[trigger] after[k])
                || items.contains(after[k]) by {
                if fewer.contains(so_far[k]) {
                    let j = choose|j: int| 0 <= j < fewer.len() && fewer[j] == so_far[k];
                    assert(items[j] == so_far[k]);
                }
            }
        } else {
            let at = search_position(so_far, last.path.index, 0, high).unwrap();
            assert(after == so_far.insert(at, last));
            assert forall|i: int| 0 <= i < list.len() implies after.contains(
                #[trigger] list[i],
            ) by {
                let j = choose|j: int| 0 <= j < so_far.len() && so_far[j] == list[i];
                if j < at {
                    assert(after[j] == list[i]);
                } else {
                    assert(after[j + 1] == list[i]);
                }
            }
            assert forall|k: int| 0 <= k < after.len() implies list.contains(#[trigger] after[k])
                || items.contains(after[k]) by {
                if k == at {
                    assert(items[items.len() - 1] == after[k]);
                } else {
                    let before = if k < at {
                        k
                    } else {
                        k - 1
                    };
                    assert(after[k] == so_far[before]);
                    if fewer.contains(so_far[before]) {
                        let j = choose|j: int| 0 <= j < fewer.len() && fewer[j] == so_far[before];
                        assert(items[j] == so_far[before]);
                    }
                }
            }
        }
    } else if list.len() > 0 {
        assert forall|i: int| 0 <= i < list.len() implies merged(list, items).contains(
            #[trigger] list[i],
        ) by {
            assert(merged(list, items)[i] == list[i]);
        }
    }
}

/// Attempts to insert leave a list at least as long as it was.
pub proof fn lemma_inserted_all_len(list: Seq<LinkView>, items: Seq<LinkView>)
    ensures
        list.len() <= inserted_all(list, items).len() <= list.len() + items.len(),
    decreases items.len(),
{
    if items.len() > 0 {
        lemma_inserted_all_len(list, items.drop_last());
        let so_far = inserted_all(list, items.drop_last());
        lemma_inserted_len(so_far, items.last(), 0, so_far.len() as int);
    }
}


/// The links of `list` stand in `after` at the positions `at`, in the order
/// that they have in `list`.
pub open spec fn kept_in_order(list: Seq<LinkView>, after: Seq<LinkView>, at: Seq<int>) -> bool {
    &&& at.len() == list.len()
    &&& forall|i: int|
        0 <= i < list.len() ==> 0 <= #[trigger] at[i] < after.len() && after[at[i]] == list[i]
    &&& forall|i: int, j: int| 0 <= i < j < list.len() ==> #[trigger] at[i] < #[trigger] at[j]
}

/// An attempt to insert keeps the links of the list in their order.
pub proof fn lemma_inserted_keeps_order(list: Seq<LinkView>, item: LinkView, low: int, high: int)
    requires
        list.len() > 0,
    ensures
        exists|at: Seq<int>| kept_in_order(list, inserted(list, item, low, high), at),
{
    let after = inserted(list, item, low, high);
    lemma_search_position_in_range(list, item.path.index, low, high);
    if after == list {
        let at = Seq::new(list.len(), |i: int| i);
        assert(kept_in_order(list, after, at));
    } else {
        let gap = search_position(list, item.path.index, low, high).unwrap();
        assert(after == list.insert(gap, item));
        let at = Seq::new(
            list.len(),
            |i: int|
                if i < gap {
                    i
                } else {
                    i + 1
                },
        );
        assert(kept_in_order(list, after, at));
    }
}

/// Attempts to insert any number of links keep the links of the list in
/// their order.
pub proof fn lemma_inserted_all_keeps_order(list: Seq<LinkView>, items: Seq<LinkView>)
    requires
        list.len() > 0,
    ensures
        exists|at: Seq<int>| kept_in_order(list, inserted_all(list, items), at),
    decreases items.len(),
{
    if items.len() == 0 {
        let at = Seq::new(list.len(), |i: int| i);
        assert(kept_in_order(list, inserted_all(list, items), at));
    } else {
        let so_far = inserted_all(list, items.drop_last());
        let after = inserted_all(list, items);
        lemma_inserted_all_keeps_order(list, items.drop_last());
        lemma_inserted_all_len(list, items.drop_last());
        lemma_inserted_keeps_order(so_far, items.last(), 0, so_far.len() as int);
        let first = choose|at: Seq<int>| kept_in_order(list, so_far, at);
        let second = choose|at: Seq<int>| kept_in_order(so_far, after, at);
        let at = Seq::new(list.len(), |i: int| second[first[i]]);
        assert forall|i: int, j: int| 0 <= i < j < list.len() implies #[trigger] at[i]
            < #[trigger] at[j] by {
            assert(first[i] < first[j]);
        }
        assert(kept_in_order(list, after, at));
    }
}

/// Links that stand in their order in a list whose paths ascend without
/// overlap have such paths themselves.
pub proof fn lemma_kept_in_order_separated(list: Seq<LinkView>, after: Seq<LinkView>, at: Seq<int>)
    requires
        kept_in_order(list, after, at),
        separated(after),
    ensures
        separated(list),
{
    assert forall|i: int, j: int| 0 <= i < j < list.len() implies (#[trigger] list[i]).path.end()
        <= (#[trigger] list[j]).path.index by {
        assert(at[i] < at[j]);
        assert(after[at[i]].path.end() <= after[at[j]].path.index);
    }
}

/// Merging does not bring order about: the paths of the merged list ascend
/// without overlap only if those of `list` do, and those of `items` where
/// `list` is empty.
pub proof fn lemma_merged_separated_only_if(list: Seq<LinkView>, items: Seq<LinkView>)
    requires
        separated(merged(list, items)),
    ensures
        separated(list),
        list.len() == 0 ==> separated(items),
{
    if list.len() > 0 {
        lemma_inserted_all_keeps_order(list, items);
        let at = choose|at: Seq<int>| kept_in_order(list, inserted_all(list, items), at);
        lemma_kept_in_order_separated(list, inserted_all(list, items), at);
    }
}

} // verus!
