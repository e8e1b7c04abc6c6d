use room_sync::room_cache::{
    Chunk, ChunkContent, DeduplicationOutcome, Event, EventCacheError, EventsOrigin, Gap, Messages,
    RoomEventCacheState,
};
use room_sync::room_pagination::{
    begin_load_more_events_backwards, conclude_backwards_pagination_from_disk,
    conclude_backwards_pagination_from_network, find_prev_gap,
    finish_backwards_pagination_from_network, load_more_events_backwards,
    mark_has_waited_for_initial_prev_token, page_of_messages, paginate_backwards_with_network,
    CacheOnlyBackOutcome, LoadMoreEventsBackwardsOutcome, LoadReply, LoadRequest,
    PaginationStatus, PaginationStatusSubscriber, PrevGap, RoomPagination, SharedPaginationStatus,
};
use room_sync::vector_diff::VectorDiff;

fn event(id: &str) -> Event {
    Event { event_id: Some(id.to_owned()), json: "{}".to_owned(), unsigned: None }
}

fn items(identifier: u64, list: Vec<Event>) -> Chunk {
    Chunk { identifier, previous: None, content: ChunkContent::Items(list) }
}

fn gap(identifier: u64, token: &str) -> Chunk {
    Chunk {
        identifier,
        previous: None,
        content: ChunkContent::Gap(Gap { token: token.to_owned() }),
    }
}

fn state(chunks: Vec<Chunk>) -> RoomEventCacheState {
    RoomEventCacheState {
        chunks,
        gap_snapshot_id: 0,
        gap_topology_generation: 0,
        newest_event_id: None,
        waited_for_initial_prev_token: true,
    }
}

fn names(events: &[Event]) -> Vec<String> {
    events.iter().map(|e| e.event_id.clone().unwrap()).collect()
}

fn loaded(list: &[&str], reached_start: bool) -> LoadMoreEventsBackwardsOutcome {
    LoadMoreEventsBackwardsOutcome::Events {
        events: list.iter().map(|id| event(id)).collect(),
        timeline_event_diffs: vec![VectorDiff::Clear],
        reached_start,
    }
}

fn store_error() -> EventCacheError {
    EventCacheError::Storage { reason: "broken".to_owned() }
}

#[test]
fn subscriber_shows_the_shared_status() {
    let pagination = RoomPagination::new();
    let mut subscriber = pagination.status();
    assert_eq!(subscriber.get(), PaginationStatus::Idle { hit_timeline_start: false });
    pagination.publish_status(SharedPaginationStatus::Paginating);
    assert_eq!(subscriber.get(), PaginationStatus::Paginating);
    pagination.publish_status(SharedPaginationStatus::Idle { hit_timeline_start: true });
    assert_eq!(subscriber.next_now(), PaginationStatus::Idle { hit_timeline_start: true });
    assert_eq!(
        PaginationStatusSubscriber::map(SharedPaginationStatus::Paginating),
        PaginationStatus::Paginating
    );
}

#[test]
fn subscriber_watches_its_own_pagination() {
    let first = RoomPagination::new();
    let second = RoomPagination::new();
    let watcher = first.status();
    second.publish_status(SharedPaginationStatus::Paginating);
    assert_eq!(watcher.get(), PaginationStatus::Idle { hit_timeline_start: false });
    first.publish_status(SharedPaginationStatus::Idle { hit_timeline_start: true });
    assert_eq!(watcher.get(), PaginationStatus::Idle { hit_timeline_start: true });
    assert_eq!(second.status().get(), PaginationStatus::Paginating);
}

#[test]
fn gap_in_memory_is_resolved_first() {
    let cache = state(vec![gap(0, "old"), items(1, vec![]), gap(2, "new"), items(3, vec![])]);
    match begin_load_more_events_backwards(&cache) {
        LoadRequest::Finished(LoadMoreEventsBackwardsOutcome::Gap {
            prev_token,
            waited_for_initial_prev_token,
        }) => {
            assert_eq!(prev_token.as_deref(), Some("new"));
            assert!(waited_for_initial_prev_token);
        }
        other => panic!("unexpected {other:?}"),
    }
    match begin_load_more_events_backwards(&state(vec![items(7, vec![]), items(8, vec![])])) {
        LoadRequest::LoadBefore(identifier) => assert_eq!(identifier, 7),
        other => panic!("unexpected {other:?}"),
    }
}

#[test]
fn store_without_an_earlier_chunk() {
    let full = state(vec![items(0, vec![event("$a")])]);
    let end = load_more_events_backwards(&full, LoadReply::Nothing);
    assert!(!end.clear_storage);
    assert!(matches!(end.result, Ok(LoadMoreEventsBackwardsOutcome::StartOfTimeline)));

    let empty = state(vec![items(0, vec![])]);
    let end = load_more_events_backwards(&empty, LoadReply::Nothing);
    assert!(matches!(
        end.result,
        Ok(LoadMoreEventsBackwardsOutcome::Gap { prev_token: None, .. })
    ));
}

#[test]
fn broken_store_is_cleared() {
    let cache = state(vec![items(0, vec![])]);
    let end = load_more_events_backwards(&cache, LoadReply::Failed(store_error()));
    assert!(end.clear_storage);
    assert!(end.result.is_err());

    let misfit = LoadReply::Chunk {
        content: ChunkContent::Items(vec![]),
        previous: None,
        inserted: Err(store_error()),
    };
    let end = load_more_events_backwards(&cache, misfit);
    assert!(end.clear_storage);
    assert!(end.result.is_err());
}

#[test]
fn loaded_chunk_is_handed_on() {
    let cache = state(vec![items(0, vec![])]);
    for (previous, expected) in [(None, true), (Some(3), false)] {
        let reply = LoadReply::Chunk {
            content: ChunkContent::Items(vec![event("$a")]),
            previous,
            inserted: Ok(vec![]),
        };
        match load_more_events_backwards(&cache, reply).result {
            Ok(LoadMoreEventsBackwardsOutcome::Events { events, reached_start, .. }) => {
                assert_eq!(names(&events), ["$a"]);
                assert_eq!(reached_start, expected);
            }
            other => panic!("unexpected {other:?}"),
        }
    }
    let reply = LoadReply::Chunk {
        content: ChunkContent::Gap(Gap { token: "t".to_owned() }),
        previous: None,
        inserted: Ok(vec![]),
    };
    match load_more_events_backwards(&cache, reply).result {
        Ok(LoadMoreEventsBackwardsOutcome::Gap { prev_token, .. }) => {
            assert_eq!(prev_token.as_deref(), Some("t"));
        }
        other => panic!("unexpected {other:?}"),
    }
}

#[test]
fn waiting_for_the_first_token_is_noted() {
    let mut cache = state(vec![]);
    cache.waited_for_initial_prev_token = false;
    mark_has_waited_for_initial_prev_token(&mut cache);
    assert!(cache.waited_for_initial_prev_token);
}

#[test]
fn disk_events_come_newest_first() {
    let (sent, outcome) = conclude_backwards_pagination_from_disk(
        vec![event("$a"), event("$b")],
        vec![VectorDiff::Clear],
        true,
    );
    assert_eq!(sent.unwrap().origin, EventsOrigin::Cache);
    assert_eq!(names(&outcome.events), ["$b", "$a"]);
    assert!(outcome.reached_start);

    let (sent, _) = conclude_backwards_pagination_from_disk(vec![], vec![], false);
    assert!(sent.is_none());
}

#[test]
fn lost_gap_means_a_reset_timeline() {
    let cache = state(vec![gap(4, "t"), items(5, vec![]), gap(6, "t")]);
    assert_eq!(find_prev_gap(&cache, &None), PrevGap::Known(None));
    assert_eq!(find_prev_gap(&cache, &Some("t".to_owned())), PrevGap::Known(Some(6)));
    assert_eq!(find_prev_gap(&cache, &Some("x".to_owned())), PrevGap::TimelineReset);
}

#[test]
fn network_page_with_something_new_is_inserted_whole() {
    let found = DeduplicationOutcome {
        all_events: vec![event("$b"), event("$a")],
        in_memory_duplicated_event_ids: vec!["$b".to_owned()],
        in_store_duplicated_event_ids: vec![],
        non_empty_all_duplicates: false,
    };
    let (mutation, events) =
        conclude_backwards_pagination_from_network(Some(6), Some("next".to_owned()), found);
    assert_eq!(mutation.prev_gap_id, Some(6));
    assert_eq!(mutation.new_gap.unwrap().token, "next");
    assert_eq!(names(&mutation.topo_ordered_events), ["$a", "$b"]);
    assert_eq!(names(&events), ["$b", "$a"]);
    assert_eq!(mutation.removal, Some((vec!["$b".to_owned()], vec![])));

    let (sent, outcome) =
        finish_backwards_pagination_from_network(events, false, vec![VectorDiff::Clear]);
    assert_eq!(sent.unwrap().origin, EventsOrigin::Pagination);
    assert_eq!(names(&outcome.events), ["$b", "$a"]);
}

#[test]
fn network_page_of_duplicates_is_ignored() {
    let found = DeduplicationOutcome {
        all_events: vec![event("$b")],
        in_memory_duplicated_event_ids: vec!["$b".to_owned()],
        in_store_duplicated_event_ids: vec![],
        non_empty_all_duplicates: true,
    };
    let (mutation, events) =
        conclude_backwards_pagination_from_network(Some(6), Some("next".to_owned()), found);
    assert!(mutation.new_gap.is_none());
    assert!(mutation.removal.is_none());
    assert!(mutation.topo_ordered_events.is_empty());
    assert!(events.is_empty());
}

#[test]
fn network_request_needs_a_room() {
    assert!(paginate_backwards_with_network(false, 20, &None).is_none());
    let request = paginate_backwards_with_network(true, 20, &Some("t".to_owned())).unwrap();
    assert_eq!(request.limit, 20);
    assert_eq!(request.from.as_deref(), Some("t"));
    let (events, end) =
        page_of_messages(Messages { chunk: vec![event("$a")], end: Some("e".to_owned()) });
    assert_eq!(names(&events), ["$a"]);
    assert_eq!(end.as_deref(), Some("e"));
}

fn run(n: u16, anchor: Option<&str>, loads: Vec<LoadMoreEventsBackwardsOutcome>) -> CacheOnlyBackOutcome {
    let mut run = RoomPagination::run_backwards_cache_only(n, anchor.map(|id| id.to_owned()));
    for load in loads {
        if let Some(outcome) = run.satisfied() {
            return outcome;
        }
        let is_events = matches!(load, LoadMoreEventsBackwardsOutcome::Events { .. });
        let step = run.step(load);
        assert_eq!(step.sent.is_some(), is_events);
        if let Some(outcome) = step.outcome {
            return outcome;
        }
    }
    run.satisfied().expect("the run wants more loads")
}

#[test]
fn cache_only_run_ends_at_the_anchor() {
    let outcome = run(50, Some("$c"), vec![loaded(&["$d"], false), loaded(&["$b", "$c"], true)]);
    assert_eq!(
        outcome,
        CacheOnlyBackOutcome {
            events_loaded: 3,
            chunks_loaded: 2,
            anchor_present: true,
            reached_start: true,
            hit_gap: false
        }
    );
}

#[test]
fn cache_only_run_ends_with_enough_events() {
    let outcome = run(2, None, vec![loaded(&["$c", "$d"], false), loaded(&["$a"], false)]);
    assert_eq!(
        outcome,
        CacheOnlyBackOutcome {
            events_loaded: 2,
            chunks_loaded: 1,
            anchor_present: false,
            reached_start: false,
            hit_gap: false
        }
    );
    assert_eq!(run(0, None, vec![]).events_loaded, 0);
}

#[test]
fn cache_only_run_ends_at_a_gap_or_at_the_start() {
    let gap = LoadMoreEventsBackwardsOutcome::Gap {
        prev_token: None,
        waited_for_initial_prev_token: false,
    };
    let outcome = run(9, Some("$z"), vec![loaded(&["$c"], false), gap]);
    assert!(outcome.hit_gap && !outcome.reached_start && !outcome.anchor_present);
    assert_eq!((outcome.events_loaded, outcome.chunks_loaded), (1, 1));

    let start = LoadMoreEventsBackwardsOutcome::StartOfTimeline;
    let outcome = run(9, Some("$z"), vec![start]);
    assert!(outcome.reached_start && !outcome.hit_gap && !outcome.anchor_present);

    let outcome = run(9, Some("$z"), vec![loaded(&["$c"], true)]);
    assert!(outcome.reached_start && !outcome.anchor_present);
}
