use room_sync::keyed::IdSet;
use room_sync::room_list::{
    merge_stream_and_receiver, shows_entry, DynamicEntriesEvent, ListLoading, ListLoadingEvent,
    MergeAction, MergeEvent, RangeLoading, Room, RoomInfoNotableUpdateReasons, RoomList,
    RoomListDynamicEntriesController, RoomListItem, RoomListLoadingState,
    RoomListRangeLoadingState, RoomState, RoomVector, SlidingSyncListInfo,
    SlidingSyncListLoadingState, State,
};
use room_sync::vector_diff::VectorDiff;

fn room(id: &str) -> Room {
    Room {
        room_id: id.to_owned(),
        state: RoomState::Joined,
        latest_event_timestamp: Some(5),
        latest_event_is_unsent: true,
        recency_stamp: Some(6),
        display_name: Some("name".to_owned()),
        is_space: true,
    }
}

fn all_rooms() -> RoomList {
    RoomList::new(
        "all_rooms",
        Some(SlidingSyncListInfo {
            state: SlidingSyncListLoadingState::NotLoaded,
            maximum_number_of_rooms: None,
        }),
        State::Init,
    )
    .unwrap()
}

fn listed(list: &[&str]) -> RoomVector {
    let rooms = list.iter().map(|id| room(id)).collect();
    all_rooms().entries_with_dynamic_adapters::<()>(10, rooms, None).0
}

/// Asks for the place of each room in the list.
fn places(list: &mut RoomVector, ids: &[&str]) -> Vec<Option<usize>> {
    ids.iter()
        .map(|id| {
            let reasons = RoomInfoNotableUpdateReasons { recency_stamp: true, others: true };
            match merge_stream_and_receiver(list, MergeEvent::Notable { reasons, now: room(id) }) {
                MergeAction::Yield(diffs) => match &diffs[..] {
                    [VectorDiff::Replace { index, .. }] => Some(*index),
                    other => panic!("unexpected {other:?}"),
                },
                MergeAction::Continue => None,
                other => panic!("unexpected {other:?}"),
            }
        })
        .collect()
}

#[test]
fn range_needs_list_and_service() {
    let mut range = RangeLoading {
        list_state: SlidingSyncListLoadingState::NotLoaded,
        service_state: State::Init,
    };
    assert_eq!(
        range.on_list_state(SlidingSyncListLoadingState::FullyLoaded),
        RoomListRangeLoadingState::PartiallyLoaded
    );
    assert_eq!(
        range.on_service_state(State::Running),
        RoomListRangeLoadingState::FullyLoaded
    );
    assert_eq!(
        range.on_service_state(State::Recovering),
        RoomListRangeLoadingState::PartiallyLoaded
    );
    let mut list = all_rooms();
    assert_eq!(list.on_service_state(State::Running), RoomListRangeLoadingState::PartiallyLoaded);
    assert_eq!(
        list.on_list_state(SlidingSyncListLoadingState::FullyLoaded),
        RoomListRangeLoadingState::FullyLoaded
    );
}

#[test]
fn list_is_loaded_by_the_first_fetch() {
    let mut list = all_rooms();
    assert_eq!(list.loading_state(), RoomListLoadingState::NotLoaded);
    for state in [
        State::Init,
        State::Error { from: Box::new(State::Init) },
        State::Terminated { from: Box::new(State::Init) },
    ] {
        assert_eq!(list.on_loading_event(ListLoadingEvent::ServiceState(state), Some(3)), None);
    }
    assert_eq!(list.on_loading_event(ListLoadingEvent::MaximumNumberOfRooms, Some(3)), None);
    assert_eq!(
        list.on_loading_event(ListLoadingEvent::ServiceState(State::SettingUp), None),
        Some(RoomListLoadingState::Loaded { maximum_number_of_rooms: None })
    );
    assert_eq!(list.on_loading_event(ListLoadingEvent::ServiceState(State::Running), None), None);
    assert_eq!(
        list.on_loading_event(ListLoadingEvent::MaximumNumberOfRooms, Some(7)),
        Some(RoomListLoadingState::Loaded { maximum_number_of_rooms: Some(7) })
    );
    assert_eq!(
        list.loading_state(),
        RoomListLoadingState::Loaded { maximum_number_of_rooms: Some(7) }
    );
    let mut known = ListLoading::new(Some(4));
    assert_eq!(
        known.published,
        RoomListLoadingState::Loaded { maximum_number_of_rooms: Some(4) }
    );
    assert!(known.on_event(ListLoadingEvent::ServiceEnded, Some(4)).is_some());
}

#[test]
fn item_copies_its_room() {
    let mut item = RoomListItem::from_room(room("!a:b.c"));
    assert_eq!(item.cached_latest_event_timestamp, Some(5));
    assert!(item.cached_latest_event_is_unsent);
    assert_eq!(item.cached_recency_stamp, Some(6));
    assert_eq!(item.cached_display_name.as_deref(), Some("name"));
    assert!(item.cached_is_space);
    assert_eq!(item.cached_state, RoomState::Joined);

    let mut now = room("!a:b.c");
    now.state = RoomState::Left;
    now.display_name = None;
    now.recency_stamp = Some(9);
    item.refresh_cached_data(now);
    assert_eq!(item.cached_state, RoomState::Left);
    assert_eq!(item.cached_display_name, None);
    assert_eq!(item.cached_recency_stamp, Some(9));
    assert_eq!(item.into_inner().room_id, "!a:b.c");
}

#[test]
fn changes_to_the_rooms_are_followed() {
    let mut list = listed(&["!a", "!b", "!c"]);
    assert_eq!(places(&mut list, &["!a", "!b", "!c", "!d"]), [Some(0), Some(1), Some(2), None]);
    let raw = vec![
        VectorDiff::PushFront { value: room("!d") },
        VectorDiff::Remove { index: 2 },
        VectorDiff::Insert { index: 1, value: room("!e") },
        VectorDiff::PushBack { value: room("!f") },
        VectorDiff::Replace { index: 2, value: room("!g") },
        VectorDiff::Append { values: vec![room("!h"), room("!i")] },
    ];
    match merge_stream_and_receiver(&mut list, MergeEvent::Raw(raw)) {
        MergeAction::Yield(diffs) => assert_eq!(diffs.len(), 6),
        other => panic!("unexpected {other:?}"),
    }
    let expected = ["!d", "!e", "!g", "!c", "!f", "!h", "!i"];
    assert_eq!(
        places(&mut list, &expected),
        (0..7).map(Some).collect::<Vec<_>>()
    );
    assert_eq!(places(&mut list, &["!a", "!b"]), [None, None]);

    let raw = vec![VectorDiff::PopFront, VectorDiff::PopBack, VectorDiff::Truncate { length: 2 }];
    merge_stream_and_receiver(&mut list, MergeEvent::Raw(raw));
    assert_eq!(places(&mut list, &["!e", "!g", "!c"]), [Some(0), Some(1), None]);

    let raw = vec![VectorDiff::Clear, VectorDiff::Reset { values: vec![room("!z")] }];
    merge_stream_and_receiver(&mut list, MergeEvent::Raw(raw));
    assert_eq!(places(&mut list, &["!z", "!e"]), [Some(0), None]);
}

#[test]
fn notices_refresh_single_rooms() {
    let mut list = listed(&["!a", "!b"]);
    let mut now = room("!b");
    now.recency_stamp = Some(99);
    let stamp_only = RoomInfoNotableUpdateReasons { recency_stamp: true, others: false };
    let event = MergeEvent::Notable { reasons: stamp_only, now: now.clone() };
    assert!(matches!(merge_stream_and_receiver(&mut list, event), MergeAction::Continue));

    let more = RoomInfoNotableUpdateReasons { recency_stamp: false, others: true };
    let event = MergeEvent::Notable { reasons: more, now };
    match merge_stream_and_receiver(&mut list, event) {
        MergeAction::Yield(diffs) => match &diffs[..] {
            [VectorDiff::Replace { index: 1, value }] => {
                assert_eq!(value.cached_recency_stamp, Some(99));
            }
            other => panic!("unexpected {other:?}"),
        },
        other => panic!("unexpected {other:?}"),
    }
    assert!(matches!(
        merge_stream_and_receiver(&mut list, MergeEvent::NotableLagged),
        MergeAction::Continue
    ));
    assert!(matches!(
        merge_stream_and_receiver(&mut list, MergeEvent::NotableClosed),
        MergeAction::Break
    ));
    assert!(matches!(
        merge_stream_and_receiver(&mut list, MergeEvent::RawEnded),
        MergeAction::Break
    ));
}

#[test]
fn entries_reset_with_filter_and_visibility() {
    let visible = IdSet::from_ids(&["!a".to_owned()]);
    let (_, mut entries, _) =
        all_rooms().entries_with_dynamic_adapters::<()>(10, vec![], None);
    assert!(!entries.on_event(DynamicEntriesEvent::Visible(None)));
    assert!(entries.on_event(DynamicEntriesEvent::FilterSet));
    let items = [
        RoomListItem::from_room(room("!a")),
        RoomListItem::from_room(room("!b")),
        RoomListItem::from_room(room("!c")),
    ];
    let names = |list: Vec<RoomListItem>| {
        list.into_iter().map(|item| item.inner.room_id).collect::<Vec<_>>()
    };
    assert_eq!(names(entries.filtered(&items, &[true, false, true])), ["!a", "!c"]);
    assert!(entries.on_event(DynamicEntriesEvent::Visible(Some(visible))));
    assert_eq!(names(entries.filtered(&items, &[true, true, true])), ["!a"]);
    let same = IdSet::from_ids(&["!a".to_owned()]);
    assert!(!entries.on_event(DynamicEntriesEvent::Visible(Some(same))));
    assert!(entries.on_event(DynamicEntriesEvent::FilterSet));
    assert!(entries.on_event(DynamicEntriesEvent::Visible(None)));
    assert!(!entries.on_event(DynamicEntriesEvent::Visible(None)));
    assert!(shows_entry(&items[1], &None, true));
    assert!(!shows_entry(&items[1], &None, false));
}

#[test]
fn pages_expand_two_four_six() {
    let mut controller = RoomListDynamicEntriesController::<()>::new(2);
    assert_eq!(controller.limit(), 2);
    assert_eq!(controller.add_one_page(None), None);
    assert_eq!(controller.add_one_page(Some(5)), Some(4));
    assert_eq!(controller.add_one_page(Some(5)), Some(6));
    assert_eq!(controller.add_one_page(Some(5)), None);
    assert_eq!(controller.limit(), 6);
    assert_eq!(controller.reset_to_one_page(), Some(2));
    assert_eq!(controller.reset_to_one_page(), None);
    let mut all = RoomListDynamicEntriesController::<()>::new(usize::MAX);
    assert_eq!(all.add_one_page(Some(u32::MAX)), None);
}

#[test]
fn filter_needs_a_stream() {
    let mut controller = RoomListDynamicEntriesController::new(2);
    assert!(!controller.set_filter("one", false));
    assert_eq!(controller.take_filter(), None);
    assert!(controller.set_filter("one", true));
    assert!(controller.set_filter("two", true));
    assert_eq!(controller.take_filter(), Some("two"));
    assert_eq!(controller.take_filter(), None);
}
