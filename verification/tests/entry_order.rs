use std::cmp::Ordering;

use room_sync::entry_order::{first_page, lexicographic_order, sort_in_turn};
use room_sync::keyed::IdSet;
use room_sync::room_list::{DynamicEntries, DynamicEntriesEvent, Room, RoomListItem, RoomState};

fn entry(id: &str, unsent: bool, recency: u64, name: &str) -> RoomListItem {
    RoomListItem::from_room(Room {
        room_id: id.to_owned(),
        state: RoomState::Joined,
        latest_event_timestamp: None,
        latest_event_is_unsent: unsent,
        recency_stamp: Some(recency),
        display_name: Some(name.to_owned()),
        is_space: false,
    })
}

fn by_latest_event(a: &RoomListItem, b: &RoomListItem) -> Ordering {
    b.cached_latest_event_is_unsent.cmp(&a.cached_latest_event_is_unsent)
}

fn by_recency(a: &RoomListItem, b: &RoomListItem) -> Ordering {
    b.cached_recency_stamp.cmp(&a.cached_recency_stamp)
}

fn by_name(a: &RoomListItem, b: &RoomListItem) -> Ordering {
    a.cached_display_name.cmp(&b.cached_display_name)
}

fn ids(entries: &[RoomListItem]) -> Vec<&str> {
    entries.iter().map(|entry| entry.inner.room_id.as_str()).collect()
}

fn entries() -> Vec<RoomListItem> {
    vec![
        entry("!old", false, 1, "a"),
        entry("!same-b", false, 5, "b"),
        entry("!unsent", true, 0, "z"),
        entry("!same-a", false, 5, "a"),
        entry("!new", false, 9, "q"),
    ]
}

#[test]
fn first_comparison_that_decides_counts() {
    let all = [Ordering::Less, Ordering::Equal, Ordering::Greater];
    for first in all {
        for second in all {
            for third in all {
                let expected = first.then(second).then(third);
                assert_eq!(lexicographic_order(first, second, third), expected);
            }
        }
    }
}

#[test]
fn entries_are_sorted_by_kind_recency_and_name() {
    let sorted = sort_in_turn(entries(), by_latest_event, by_recency, by_name);
    assert_eq!(ids(&sorted), ["!unsent", "!new", "!same-a", "!same-b", "!old"]);
}

#[test]
fn page_is_cut_at_the_limit() {
    assert_eq!(first_page(vec![1, 2, 3], 2), [1, 2]);
    assert_eq!(first_page(vec![1, 2, 3], 3), [1, 2, 3]);
    assert_eq!(first_page(vec![1, 2, 3], 9), [1, 2, 3]);
    assert_eq!(first_page(vec![1, 2, 3], 0), [0; 0]);
}

#[test]
fn reset_holds_the_first_entries_that_are_shown() {
    let items = entries();
    let accepted = [true, true, true, true, false];
    let mut stream = DynamicEntries::new(None);
    assert!(stream.on_event(DynamicEntriesEvent::FilterSet));
    let page = stream.reset(&items, &accepted, by_latest_event, by_recency, by_name, 3);
    assert_eq!(ids(&page), ["!unsent", "!same-a", "!same-b"]);

    let visible = IdSet::from_ids(&["!old".to_owned(), "!same-b".to_owned()]);
    assert!(stream.on_event(DynamicEntriesEvent::Visible(Some(visible))));
    let page = stream.reset(&items, &accepted, by_latest_event, by_recency, by_name, 3);
    assert_eq!(ids(&page), ["!same-b", "!old"]);
}
