//! The order of the entries of a room list, and the entries that a stream of them starts with.

use std::cmp::Ordering;

use eyeball_im_util::vector::VectorObserverExt;
use vstd::prelude::*;

use crate::room_list::{is_shown, shown_entries, DynamicEntries, RoomListItem};

verus! {

/// The first of three comparisons that tells two entries apart.
pub open spec fn first_decided(latest_event: Ordering, recency: Ordering, name: Ordering) -> Ordering {
    if latest_event != Ordering::Equal {
        latest_event
    } else if recency != Ordering::Equal {
        recency
    } else {
        name
    }
}

/// Orders two entries: by the kind of their latest events, where that tells them apart, then by their
/// recency, and then by their names.
pub fn lexicographic_order(latest_event: Ordering, recency: Ordering, name: Ordering) -> (r: Ordering)
    ensures
        r == first_decided(latest_event, recency, name),
{
    match latest_event {
        Ordering::Less => Ordering::Less,
        Ordering::Greater => Ordering::Greater,
        Ordering::Equal => match recency {
            Ordering::Less => Ordering::Less,
            Ordering::Greater => Ordering::Greater,
            Ordering::Equal => name,
        },
    }
}

/// The comparison of the same two entries the other way round.
pub open spec fn flipped(order: Ordering) -> Ordering {
    match order {
        Ordering::Less => Ordering::Greater,
        Ordering::Equal => Ordering::Equal,
        Ordering::Greater => Ordering::Less,
    }
}

/// Whether a comparison of two entries may give a result.
pub open spec fn compares<F: Fn(&RoomListItem, &RoomListItem) -> Ordering>(
    compare: &F,
    a: RoomListItem,
    b: RoomListItem,
    r: Ordering,
) -> bool {
    call_ensures(*compare, (&a, &b), r)
}

/// Whether three comparisons of two entries, one after the other, may give a result.
pub open spec fn compares_in_turn<
    A: Fn(&RoomListItem, &RoomListItem) -> Ordering,
    B: Fn(&RoomListItem, &RoomListItem) -> Ordering,
    C: Fn(&RoomListItem, &RoomListItem) -> Ordering,
>(by_latest_event: &A, by_recency: &B, by_name: &C, a: RoomListItem, b: RoomListItem, r: Ordering) -> bool {
    exists|x: Ordering, y: Ordering, z: Ordering| #[trigger]
        compares(by_latest_event, a, b, x) && #[trigger] compares(by_recency, a, b, y)
            && #[trigger] compares(by_name, a, b, z) && r == first_decided(x, y, z)
}

/// Whether two comparisons in a row lead to a third: where neither goes down, it does not either,
/// and it stands still only where both of them do.
pub open spec fn is_chained(first: Ordering, second: Ordering, whole: Ordering) -> bool {
    first != Ordering::Greater && second != Ordering::Greater ==> whole != Ordering::Greater && (
    whole == Ordering::Equal ==> first == Ordering::Equal && second == Ordering::Equal)
}

/// Whether entries can be sorted by a comparison: it takes any two of them, gives the same result
/// each time, and its results agree with each other.
pub open spec fn is_order<F: Fn(&RoomListItem, &RoomListItem) -> Ordering>(compare: &F) -> bool {
    &&& forall|a: RoomListItem, b: RoomListItem| #[trigger] call_requires(*compare, (&a, &b))
    &&& forall|a: RoomListItem, b: RoomListItem, r: Ordering, again: Ordering| #[trigger]
        compares(compare, a, b, r) && #[trigger] compares(compare, a, b, again) ==> r == again
    &&& forall|a: RoomListItem, b: RoomListItem, r: Ordering, back: Ordering| #[trigger]
        compares(compare, a, b, r) && #[trigger] compares(compare, b, a, back) ==> back == flipped(r)
    &&& forall|
        a: RoomListItem,
        b: RoomListItem,
        c: RoomListItem,
        first: Ordering,
        second: Ordering,
        whole: Ordering,
    | #[trigger]
        compares(compare, a, b, first) && #[trigger] compares(compare, b, c, second) && #[trigger]
            compares(compare, a, c, whole) ==> is_chained(first, second, whole)
}

/// Sorts entries with `eyeball_im_util::vector::VectorObserverExt::sort_by`, on a vector that does
/// not change. The entries stay the same, and no entry comes before one that it is greater than. The
/// order of entries that compare as equal is left unsaid. A comparison that does not agree with
/// itself may panic.
#[verifier::external_body]
fn sort_entries<F: Fn(&RoomListItem, &RoomListItem) -> Ordering>(
    entries: Vec<RoomListItem>,
    compare: F,
) -> (r: Vec<RoomListItem>)
    requires
        is_order(&compare),
    ensures
        r@.to_multiset() == entries@.to_multiset(),
        forall|i: int, j: int|
            #![trigger r@[i], r@[j]]
            0 <= i < j < r@.len() ==> exists|order: Ordering| #[trigger]
                compares(&compare, r@[i], r@[j], order) && order != Ordering::Greater,
{
    let changes = futures_util::stream::empty::<Vec<eyeball_im::VectorDiff<RoomListItem>>>();
    let (sorted, _) = (imbl::Vector::from(entries), changes).sort_by(compare);
    sorted.into_iter().collect()
}

/// Whether no entry comes before one that it is greater than.
pub open spec fn is_sorted_in_turn<
    A: Fn(&RoomListItem, &RoomListItem) -> Ordering,
    B: Fn(&RoomListItem, &RoomListItem) -> Ordering,
    C: Fn(&RoomListItem, &RoomListItem) -> Ordering,
>(entries: Seq<RoomListItem>, by_latest_event: &A, by_recency: &B, by_name: &C) -> bool {
    forall|i: int, j: int|
        #![trigger entries[i], entries[j]]
        0 <= i < j < entries.len() ==> does_not_follow(
            by_latest_event,
            by_recency,
            by_name,
            entries[i],
            entries[j],
        )
}

/// Whether an entry is not greater than another one.
pub open spec fn does_not_follow<
    A: Fn(&RoomListItem, &RoomListItem) -> Ordering,
    B: Fn(&RoomListItem, &RoomListItem) -> Ordering,
    C: Fn(&RoomListItem, &RoomListItem) -> Ordering,
>(by_latest_event: &A, by_recency: &B, by_name: &C, a: RoomListItem, b: RoomListItem) -> bool {
    exists|r: Ordering| #[trigger]
        compares_in_turn(by_latest_event, by_recency, by_name, a, b, r) && r != Ordering::Greater
}

/// Sorts entries by the kind of their latest events, then by recency, and then by name.
pub fn sort_in_turn<
    A: Fn(&RoomListItem, &RoomListItem) -> Ordering,
    B: Fn(&RoomListItem, &RoomListItem) -> Ordering,
    C: Fn(&RoomListItem, &RoomListItem) -> Ordering,
>(entries: Vec<RoomListItem>, by_latest_event: A, by_recency: B, by_name: C) -> (r: Vec<RoomListItem>)
    requires
        is_order(&by_latest_event),
        is_order(&by_recency),
        is_order(&by_name),
    ensures
        r@.to_multiset() == entries@.to_multiset(),
        is_sorted_in_turn(r@, &by_latest_event, &by_recency, &by_name),
{
    let compare = |a: &RoomListItem, b: &RoomListItem| -> (r: Ordering)
        ensures
            compares_in_turn(&by_latest_event, &by_recency, &by_name, *a, *b, r),
        {
            let x = by_latest_event(a, b);
            let y = by_recency(a, b);
            let z = by_name(a, b);
            assert(compares(&by_latest_event, *a, *b, x) && compares(&by_recency, *a, *b, y)
                && compares(&by_name, *a, *b, z));
            lexicographic_order(x, y, z)
        };
    proof {
        assert forall|a: RoomListItem, b: RoomListItem, r: Ordering, again: Ordering| #[trigger]
            compares(&compare, a, b, r) && #[trigger] compares(&compare, a, b, again) implies r
            == again by {
            assert(compares_in_turn(&by_latest_event, &by_recency, &by_name, a, b, r));
            assert(compares_in_turn(&by_latest_event, &by_recency, &by_name, a, b, again));
        }
        assert forall|a: RoomListItem, b: RoomListItem, r: Ordering, back: Ordering| #[trigger]
            compares(&compare, a, b, r) && #[trigger] compares(&compare, b, a, back) implies back
            == flipped(r) by {
            assert(compares_in_turn(&by_latest_event, &by_recency, &by_name, a, b, r));
            assert(compares_in_turn(&by_latest_event, &by_recency, &by_name, b, a, back));
        }
        assert forall|
            a: RoomListItem,
            b: RoomListItem,
            c: RoomListItem,
            first: Ordering,
            second: Ordering,
            whole: Ordering,
        | #[trigger]
            compares(&compare, a, b, first) && #[trigger] compares(&compare, b, c, second)
                && #[trigger] compares(&compare, a, c, whole) implies is_chained(
            first,
            second,
            whole,
        ) by {
            assert(compares_in_turn(&by_latest_event, &by_recency, &by_name, a, b, first));
            assert(compares_in_turn(&by_latest_event, &by_recency, &by_name, b, c, second));
            assert(compares_in_turn(&by_latest_event, &by_recency, &by_name, a, c, whole));
        }
    }
    let sorted = sort_entries(entries, compare);
    proof {
        assert forall|i: int, j: int|
            #![trigger sorted@[i], sorted@[j]]
            0 <= i < j < sorted@.len() implies does_not_follow(
            &by_latest_event,
            &by_recency,
            &by_name,
            sorted@[i],
            sorted@[j],
        ) by {
            let order = choose|order: Ordering| #[trigger]
                compares(&compare, sorted@[i], sorted@[j], order) && order != Ordering::Greater;
            assert(compares_in_turn(
                &by_latest_event,
                &by_recency,
                &by_name,
                sorted@[i],
                sorted@[j],
                order,
            ));
        }
    }
    sorted
}

/// The first entries of a list, no more than a limit.
pub open spec fn first_entries<T>(entries: Seq<T>, limit: usize) -> Seq<T> {
    if limit < entries.len() {
        entries.take(limit as int)
    } else {
        entries
    }
}

/// The entries of a list behind the first ones.
pub open spec fn later_entries<T>(entries: Seq<T>, limit: usize) -> Seq<T> {
    if limit < entries.len() {
        entries.skip(limit as int)
    } else {
        Seq::empty()
    }
}

/// The first entries of a list, no more than a limit.
pub fn first_page<T>(entries: Vec<T>, limit: usize) -> (r: Vec<T>)
    ensures
        r@ == first_entries(entries@, limit),
{
    let mut page = entries;
    if limit < page.len() {
        page.truncate(limit);
    }
    page
}

/// Whether `page` is what a stream of entries starts anew with: the first entries of those that are
/// shown, when these are sorted.
pub open spec fn is_reset_of<
    A: Fn(&RoomListItem, &RoomListItem) -> Ordering,
    B: Fn(&RoomListItem, &RoomListItem) -> Ordering,
    C: Fn(&RoomListItem, &RoomListItem) -> Ordering,
>(
    page: Seq<RoomListItem>,
    shown: Seq<RoomListItem>,
    by_latest_event: &A,
    by_recency: &B,
    by_name: &C,
    limit: usize,
) -> bool {
    exists|sorted: Seq<RoomListItem>|
        {
            &&& #[trigger] sorted.to_multiset() == shown.to_multiset()
            &&& is_sorted_in_turn(sorted, by_latest_event, by_recency, by_name)
            &&& page == first_entries(sorted, limit)
        }
}

impl DynamicEntries {
    /// The entries that the stream starts anew with: of those that pass the visible rooms and the
    /// filter, the first ones by the kind of their latest events, then by recency, and then by name.
    /// `accepted` is what the filter says of each entry.
    pub fn reset<
        A: Fn(&RoomListItem, &RoomListItem) -> Ordering,
        B: Fn(&RoomListItem, &RoomListItem) -> Ordering,
        C: Fn(&RoomListItem, &RoomListItem) -> Ordering,
    >(
        &self,
        items: &[RoomListItem],
        accepted: &[bool],
        by_latest_event: A,
        by_recency: B,
        by_name: C,
        limit: usize,
    ) -> (page: Vec<RoomListItem>)
        requires
            accepted@.len() == items@.len(),
            is_order(&by_latest_event),
            is_order(&by_recency),
            is_order(&by_name),
        ensures
            is_reset_of(
                page@,
                shown_entries(items@, self.visible(), accepted@),
                &by_latest_event,
                &by_recency,
                &by_name,
                limit,
            ),
    {
        let shown = self.filtered(items, accepted);
        let ghost (latest_event, recency, name) = (by_latest_event, by_recency, by_name);
        let sorted = sort_in_turn(shown, by_latest_event, by_recency, by_name);
        let ghost all = sorted@;
        let page = first_page(sorted, limit);
        assert(is_sorted_in_turn(all, &latest_event, &recency, &name));
        assert(all.to_multiset() == shown_entries(
            items@,
            self.visible(),
            accepted@,
        ).to_multiset());
        page
    }
}

/// A reset holds no more entries than the limit allows, and all that are shown where it allows them.
/// Each is an entry of the list that is visible and that the filter takes. They stand in order, by
/// the kind of their latest events, then by recency, and then by name, and the entries that are left
/// out do not belong before them.
pub proof fn reset_holds_the_first_shown_entries<
    A: Fn(&RoomListItem, &RoomListItem) -> Ordering,
    B: Fn(&RoomListItem, &RoomListItem) -> Ordering,
    C: Fn(&RoomListItem, &RoomListItem) -> Ordering,
>(
    page: Seq<RoomListItem>,
    items: Seq<RoomListItem>,
    visible: Option<Set<Seq<char>>>,
    accepted: Seq<bool>,
    by_latest_event: &A,
    by_recency: &B,
    by_name: &C,
    limit: usize,
)
    requires
        accepted.len() == items.len(),
        is_reset_of(
            page,
            shown_entries(items, visible, accepted),
            by_latest_event,
            by_recency,
            by_name,
            limit,
        ),
    ensures
        page.len() <= limit,
        page.len() == limit || page.to_multiset() == shown_entries(
            items,
            visible,
            accepted,
        ).to_multiset(),
        forall|i: int|
            0 <= i < page.len() ==> is_shown_entry(#[trigger] page[i], items, visible, accepted),
        is_sorted_in_turn(page, by_latest_event, by_recency, by_name),
        exists|rest: Seq<RoomListItem>|
            {
                &&& #[trigger] (page + rest).to_multiset() == shown_entries(
                    items,
                    visible,
                    accepted,
                ).to_multiset()
                &&& is_sorted_in_turn(page + rest, by_latest_event, by_recency, by_name)
            },
{
    let shown = shown_entries(items, visible, accepted);
    let sorted = choose|sorted: Seq<RoomListItem>|
        {
            &&& #[trigger] sorted.to_multiset() == shown.to_multiset()
            &&& is_sorted_in_turn(sorted, by_latest_event, by_recency, by_name)
            &&& page == first_entries(sorted, limit)
        };
    sorted.to_multiset_ensures();
    shown.to_multiset_ensures();
    let rest = later_entries(sorted, limit);
    assert(page + rest =~= sorted);
    assert forall|i: int| 0 <= i < page.len() implies is_shown_entry(
        #[trigger] page[i],
        items,
        visible,
        accepted,
    ) by {
        assert(page[i] == sorted[i]);
        assert(sorted.to_multiset().count(sorted[i]) > 0);
        shown_entry_is_an_item(items, visible, accepted, page[i]);
    }
    assert forall|i: int, j: int|
        #![trigger page[i], page[j]]
        0 <= i < j < page.len() implies does_not_follow(
        by_latest_event,
        by_recency,
        by_name,
        page[i],
        page[j],
    ) by {
        assert(page[i] == sorted[i] && page[j] == sorted[j]);
    }
}

/// Whether an entry is one of the list that is visible and that the filter takes.
pub open spec fn is_shown_entry(
    entry: RoomListItem,
    items: Seq<RoomListItem>,
    visible: Option<Set<Seq<char>>>,
    accepted: Seq<bool>,
) -> bool {
    exists|i: int|
        0 <= i < items.len() && entry == #[trigger] items[i] && is_shown(
            items[i],
            visible,
            accepted[i],
        )
}

proof fn shown_entry_is_an_item(
    items: Seq<RoomListItem>,
    visible: Option<Set<Seq<char>>>,
    accepted: Seq<bool>,
    entry: RoomListItem,
)
    requires
        accepted.len() == items.len(),
        shown_entries(items, visible, accepted).contains(entry),
    ensures
        is_shown_entry(entry, items, visible, accepted),
    decreases items.len(),
{
    let rest = items.drop_last();
    let last = items.len() - 1;
    let before = shown_entries(rest, visible, accepted.drop_last());
    if before.contains(entry) {
        shown_entry_is_an_item(rest, visible, accepted.drop_last(), entry);
        let i = choose|i: int|
            0 <= i < rest.len() && entry == #[trigger] rest[i] && is_shown(
                rest[i],
                visible,
                accepted.drop_last()[i],
            );
        assert(entry == items[i] && accepted[i] == accepted.drop_last()[i]);
    } else {
        let shown = shown_entries(items, visible, accepted);
        let k = choose|k: int| 0 <= k < shown.len() && shown[k] == entry;
        if k < before.len() {
            assert(before[k] == entry);
        }
        assert(entry == items[last]);
    }
}

/// The kind of the latest events decides first, whatever the others say; then the recency does, and
/// the names only where neither of them tells the entries apart.
pub proof fn earlier_comparison_decides(latest_event: Ordering, recency: Ordering, name: Ordering)
    ensures
        latest_event is Less || latest_event is Greater ==> first_decided(
            latest_event,
            recency,
            name,
        ) == latest_event,
        latest_event is Equal && (recency is Less || recency is Greater) ==> first_decided(
            latest_event,
            recency,
            name,
        ) == recency,
        latest_event is Equal && recency is Equal ==> first_decided(latest_event, recency, name)
            == name,
        flipped(flipped(name)) == name,
        flipped(name) is Equal <==> name is Equal,
        flipped(name) is Less <==> name is Greater,
{
}

/// To compare two entries the other way round turns the result round.
pub proof fn decision_turns_round_with_its_comparisons(
    latest_event: Ordering,
    recency: Ordering,
    name: Ordering,
)
    ensures
        first_decided(flipped(latest_event), flipped(recency), flipped(name)) == flipped(
            first_decided(latest_event, recency, name),
        ),
{
}

/// Two entries of a reset stand in the order that their latest events give. Where these do not tell
/// them apart, they stand in the order of their recency, and then in that of their names.
pub proof fn reset_is_ordered_by_latest_event_then_recency_then_name<
    A: Fn(&RoomListItem, &RoomListItem) -> Ordering,
    B: Fn(&RoomListItem, &RoomListItem) -> Ordering,
    C: Fn(&RoomListItem, &RoomListItem) -> Ordering,
>(
    page: Seq<RoomListItem>,
    by_latest_event: &A,
    by_recency: &B,
    by_name: &C,
    i: int,
    j: int,
    latest_event: Ordering,
    recency: Ordering,
    name: Ordering,
)
    requires
        is_order(by_latest_event),
        is_order(by_recency),
        is_order(by_name),
        is_sorted_in_turn(page, by_latest_event, by_recency, by_name),
        0 <= i < j < page.len(),
        call_ensures(*by_latest_event, (&page[i], &page[j]), latest_event),
        call_ensures(*by_recency, (&page[i], &page[j]), recency),
        call_ensures(*by_name, (&page[i], &page[j]), name),
    ensures
        latest_event !is Greater,
        latest_event is Equal ==> recency !is Greater,
        latest_event is Equal && recency is Equal ==> name !is Greater,
{
    let a = page[i];
    let b = page[j];
    assert(compares(by_latest_event, a, b, latest_event));
    assert(compares(by_recency, a, b, recency));
    assert(compares(by_name, a, b, name));
    assert(does_not_follow(by_latest_event, by_recency, by_name, a, b));
    let r = choose|r: Ordering| #[trigger]
        compares_in_turn(by_latest_event, by_recency, by_name, a, b, r) && r != Ordering::Greater;
    let (x, y, z) = choose|x: Ordering, y: Ordering, z: Ordering| #[trigger]
        compares(by_latest_event, a, b, x) && #[trigger] compares(by_recency, a, b, y)
            && #[trigger] compares(by_name, a, b, z) && r == first_decided(x, y, z);
    assert(x == latest_event && y == recency && z == name);
}

/// The first entries of a list are as many as the limit allows, in their order; with those behind them
/// they make up the list.
pub proof fn first_entries_are_as_many_as_the_limit_allows<T>(entries: Seq<T>, limit: usize)
    ensures
        limit <= entries.len() ==> first_entries(entries, limit).len() == limit,
        limit >= entries.len() ==> first_entries(entries, limit) == entries,
        forall|i: int|
            0 <= i < first_entries(entries, limit).len() ==> #[trigger] first_entries(
                entries,
                limit,
            )[i] == entries[i],
        first_entries(entries, limit) + later_entries(entries, limit) == entries,
{
    assert(first_entries(entries, limit) + later_entries(entries, limit) =~= entries);
}

/// A comparison by which entries can be sorted gives one result, turns round with its entries, and
/// goes on in one direction.
pub proof fn order_agrees_with_itself<F: Fn(&RoomListItem, &RoomListItem) -> Ordering>(
    compare: &F,
    a: RoomListItem,
    b: RoomListItem,
    c: RoomListItem,
    first: Ordering,
    second: Ordering,
    whole: Ordering,
    back: Ordering,
)
    requires
        is_order(compare),
        call_ensures(*compare, (&a, &b), first),
        call_ensures(*compare, (&b, &c), second),
        call_ensures(*compare, (&a, &c), whole),
        call_ensures(*compare, (&b, &a), back),
    ensures
        first is Less <==> back is Greater,
        first is Equal <==> back is Equal,
        first is Less && second is Less ==> whole is Less,
        first is Equal && second is Equal ==> whole !is Greater,
{
    assert(compares(compare, a, b, first));
    assert(compares(compare, b, c, second));
    assert(compares(compare, a, c, whole));
    assert(compares(compare, b, a, back));
}

} // verus!
