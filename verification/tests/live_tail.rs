use room_sync::live_tail::{
    anchored_materialized_event_count, check_live_tail_limit, finish_live_tail_refresh,
    live_tail_anchor_indices, plan_live_tail_reconciliation, LiveTailDecision, LiveTailFenceCheck,
    LiveTailNext, LiveTailReconciliation, LiveTailReply, LiveTailSnapshotFence, PendingLiveTail,
    RoomLiveTailRefreshDiagnostics, RoomLiveTailRefreshOutcome, RoomTimelineGapProjectionId,
};
use room_sync::room_cache::{
    Chunk, ChunkContent, DeduplicationOutcome, Event, EventCacheError, EventsOrigin, Gap, Messages,
    RoomEventCacheState,
};
use room_sync::room_pagination::RoomPagination;

fn ids(list: &[&str]) -> Vec<String> {
    list.iter().map(|id| id.to_string()).collect()
}

fn event(id: &str) -> Event {
    Event { event_id: Some(id.to_owned()), json: "{}".to_owned(), unsigned: None }
}

fn nameless() -> Event {
    Event { event_id: None, json: "{}".to_owned(), unsigned: None }
}

fn items(identifier: u64, list: Vec<Event>) -> Chunk {
    Chunk { identifier, previous: None, content: ChunkContent::Items(list) }
}

fn gap(identifier: u64, token: &str) -> Chunk {
    Chunk {
        identifier,
        previous: None,
        content: ChunkContent::Gap(Gap { token: token.to_owned() }),
    }
}

fn state(chunks: Vec<Chunk>, newest: Option<&str>) -> RoomEventCacheState {
    RoomEventCacheState {
        chunks,
        gap_snapshot_id: 3,
        gap_topology_generation: 4,
        newest_event_id: newest.map(|id| id.to_owned()),
        waited_for_initial_prev_token: false,
    }
}

fn found(events: Vec<Event>, memory: &[&str], store: &[&str]) -> DeduplicationOutcome {
    DeduplicationOutcome {
        all_events: events,
        in_memory_duplicated_event_ids: ids(memory),
        in_store_duplicated_event_ids: ids(store),
        non_empty_all_duplicates: false,
    }
}

fn pending(cached: &[&str], page: Vec<Event>, end: Option<&str>) -> PendingLiveTail {
    let fence = LiveTailSnapshotFence {
        gap_snapshot_id: 3,
        gap_topology_generation: 4,
        newest_event_id: cached.first().map(|id| id.to_string()),
        contiguous_suffix_event_ids: ids(cached),
    };
    PendingLiveTail::new(fence, Messages { chunk: page, end: end.map(|t| t.to_owned()) })
}

#[test]
fn cached_newest_event_does_not_hide_a_gap_immediately_before_it() {
    let cached = ids(&["$latest", "$older"]);
    let response = ids(&["$latest", "$missing", "$older"]);

    assert_eq!(
        plan_live_tail_reconciliation(&cached, &response),
        LiveTailReconciliation::Anchored { response_prefix_len: 2 }
    );
}

#[test]
fn matching_contiguous_suffix_has_no_events_to_insert() {
    let cached = ids(&["$latest", "$older"]);
    let response = ids(&["$latest", "$older"]);

    assert_eq!(
        plan_live_tail_reconciliation(&cached, &response),
        LiveTailReconciliation::Anchored { response_prefix_len: 1 }
    );
}

#[test]
fn page_without_an_older_cached_anchor_becomes_a_detached_tail() {
    let cached = ids(&["$latest", "$far-older"]);
    let response = ids(&["$latest", "$missing"]);

    assert_eq!(
        plan_live_tail_reconciliation(&cached, &response),
        LiveTailReconciliation::Detached
    );
}

#[test]
fn store_only_duplicates_are_materialized_into_the_live_timeline() {
    assert_eq!(anchored_materialized_event_count(3, 2), 1);
}

#[test]
fn more_duplicates_than_events_materialize_nothing() {
    assert_eq!(anchored_materialized_event_count(1, 2), 0);
}

#[test]
fn anchors_need_the_newest_cached_event_first() {
    let cached = ids(&["$latest", "$older", "$oldest"]);
    assert_eq!(
        live_tail_anchor_indices(&cached, &ids(&["$new", "$latest", "$older", "$x", "$oldest"])),
        (Some(1), Some(4))
    );
    assert_eq!(
        live_tail_anchor_indices(&cached, &ids(&["$older", "$oldest"])),
        (None, None)
    );
    assert_eq!(
        live_tail_anchor_indices(&cached, &ids(&["$older", "$latest"])),
        (Some(1), None)
    );
    assert_eq!(live_tail_anchor_indices(&ids(&[]), &ids(&["$latest"])), (None, None));
}

#[test]
fn capture_stops_at_the_newest_gap_and_skips_nameless_events() {
    let cache = state(
        vec![
            items(0, vec![event("$a")]),
            gap(1, "token"),
            items(2, vec![event("$b"), nameless(), event("$c")]),
            items(3, vec![event("$d"), event("$e")]),
        ],
        Some("$e"),
    );
    let fence = LiveTailSnapshotFence::capture(&cache);
    assert_eq!(fence.contiguous_suffix_event_ids, ids(&["$e", "$d", "$c", "$b"]));
    assert_eq!(fence.gap_snapshot_id, 3);
    assert_eq!(fence.gap_topology_generation, 4);
    assert_eq!(fence.newest_event_id.as_deref(), Some("$e"));
    assert!(fence.matches(&cache));

    let mut moved = state(vec![], Some("$e"));
    moved.gap_topology_generation = 5;
    assert!(!fence.matches(&moved));
    assert!(!fence.matches(&state(vec![], Some("$f"))));
    assert!(!fence.matches(&state(vec![], None)));
}

#[test]
fn refresh_without_events_is_refused() {
    assert!(check_live_tail_limit(1).is_ok());
    match check_live_tail_limit(0) {
        Err(EventCacheError::InvalidLinkedChunkMetadata { details }) => {
            assert_eq!(details, "live-tail refresh event limit must be greater than zero");
        }
        other => panic!("unexpected {other:?}"),
    }
    let fence = LiveTailSnapshotFence::capture(&state(vec![], None));
    assert!(RoomPagination::refresh_live_tail_with_projection(0, fence, LiveTailReply::RoomGone)
        .is_err());
}

#[test]
fn refresh_without_a_page_ends_at_once() {
    for (reply, expected) in [
        (LiveTailReply::RoomGone, RoomLiveTailRefreshOutcome::Failed),
        (LiveTailReply::Cancelled, RoomLiveTailRefreshOutcome::Cancelled),
    ] {
        let fence = LiveTailSnapshotFence::capture(&state(vec![], None));
        match RoomPagination::refresh_live_tail_with_projection(20, fence, reply) {
            Ok(LiveTailNext::Finished(result)) => {
                assert_eq!(result.outcome, expected);
                assert_eq!(result.returned_events, 0);
                assert_eq!(result.diagnostics, RoomLiveTailRefreshDiagnostics::default());
                assert_eq!(result.last_projection_batch, None);
            }
            other => panic!("unexpected {other:?}"),
        }
    }
    let fence = LiveTailSnapshotFence::capture(&state(vec![], None));
    let failure = EventCacheError::PaginationError { reason: "offline".to_owned() };
    let reply = LiveTailReply::Error(failure);
    assert!(RoomPagination::refresh_live_tail_with_projection(20, fence, reply).is_err());
}

#[test]
fn page_leads_to_a_commit() {
    let cache = state(vec![items(0, vec![event("$older"), event("$latest")])], Some("$latest"));
    let fence = LiveTailSnapshotFence::capture(&cache);
    let page = Messages {
        chunk: vec![event("$new"), event("$latest"), event("$older")],
        end: Some("t".to_owned()),
    };
    match RoomPagination::refresh_live_tail_with_projection(20, fence, LiveTailReply::Page(page)) {
        Ok(LiveTailNext::Commit(pending)) => {
            assert_eq!(pending.returned_events, 3);
            assert_eq!(pending.events.len(), 2);
            assert_eq!(
                pending.reconciliation,
                LiveTailReconciliation::Anchored { response_prefix_len: 2 }
            );
            assert_eq!(pending.diagnostics.cached_suffix_events, 2);
            assert_eq!(pending.diagnostics.response_events_with_ids, 3);
            assert_eq!(pending.diagnostics.newest_cached_response_index, Some(1));
            assert_eq!(pending.diagnostics.older_anchor_response_index, Some(2));
            match pending.check_fence(&cache) {
                LiveTailFenceCheck::Deduplicate(_) => {}
                other => panic!("unexpected {other:?}"),
            }
        }
        other => panic!("unexpected {other:?}"),
    }
}

#[test]
fn events_without_an_identifier_do_not_shift_the_anchor() {
    let page = vec![nameless(), event("$latest"), event("$missing"), nameless(), event("$older")];
    let pending = pending(&["$latest", "$older"], page, None);
    assert_eq!(
        pending.reconciliation,
        LiveTailReconciliation::Anchored { response_prefix_len: 2 }
    );
    let kept: Vec<Option<&str>> =
        pending.events.iter().map(|event| event.event_id.as_deref()).collect();
    assert_eq!(kept, [None, Some("$latest"), Some("$missing"), None]);
}

#[test]
fn changed_cache_makes_a_page_stale() {
    let page = vec![event("$latest"), event("$older")];
    let changed = state(vec![], Some("$newer"));
    match pending(&["$latest", "$older"], page, None).check_fence(&changed) {
        LiveTailFenceCheck::Stale(result) => {
            assert_eq!(result.outcome, RoomLiveTailRefreshOutcome::Stale);
            assert_eq!(result.returned_events, 2);
            assert_eq!(result.last_projection_batch, None);
        }
        other => panic!("unexpected {other:?}"),
    }
}

#[test]
fn anchored_page_of_known_events_changes_nothing() {
    let page = pending(&["$latest", "$older"], vec![event("$latest"), event("$older")], None);
    match page.commit_live_tail_response(found(vec![event("$latest")], &["$latest"], &[])) {
        LiveTailDecision::Unchanged(result) => {
            assert_eq!(result.outcome, RoomLiveTailRefreshOutcome::Unchanged);
            assert_eq!(result.diagnostics.in_memory_duplicates, 1);
            assert_eq!(result.diagnostics.new_events, 0);
        }
        other => panic!("unexpected {other:?}"),
    }
}

#[test]
fn anchored_page_advances_without_a_gap() {
    let page = pending(
        &["$latest", "$older"],
        vec![event("$new"), event("$latest"), event("$older")],
        Some("token"),
    );
    let kept = found(vec![event("$new"), event("$latest")], &["$latest"], &[]);
    match page.commit_live_tail_response(kept) {
        LiveTailDecision::Mutate(mutation, result) => {
            assert_eq!(result.outcome, RoomLiveTailRefreshOutcome::Advanced { events: 1 });
            assert_eq!(result.diagnostics.new_events, 1);
            assert_eq!(mutation.remove_in_memory, ids(&["$latest"]));
            assert!(mutation.new_gap.is_none());
            let order: Vec<_> =
                mutation.chronological_events.iter().map(|e| e.event_id.clone().unwrap()).collect();
            assert_eq!(order, ids(&["$latest", "$new"]));
        }
        other => panic!("unexpected {other:?}"),
    }
}

#[test]
fn detached_page_keeps_its_token_as_a_gap() {
    let page = pending(&["$latest"], vec![event("$c"), event("$b"), event("$a")], Some("token"));
    let kept = found(vec![event("$c"), event("$b"), event("$a")], &[], &["$a"]);
    match page.commit_live_tail_response(kept) {
        LiveTailDecision::Mutate(mutation, result) => {
            assert_eq!(
                result.outcome,
                RoomLiveTailRefreshOutcome::Detached { events: 2, historical_gap_remaining: true }
            );
            assert_eq!(mutation.new_gap.unwrap().token, "token");
            assert_eq!(mutation.remove_in_store, ids(&["$a"]));
            assert_eq!(result.diagnostics.in_store_duplicates, 1);
        }
        other => panic!("unexpected {other:?}"),
    }
}

#[test]
fn batch_is_one_where_the_timeline_changed() {
    let page = pending(&[], vec![event("$a")], None);
    let result = match page.commit_live_tail_response(found(vec![event("$a")], &[], &[])) {
        LiveTailDecision::Mutate(_, result) => result,
        other => panic!("unexpected {other:?}"),
    };
    assert_eq!(
        result.outcome,
        RoomLiveTailRefreshOutcome::Detached { events: 1, historical_gap_remaining: false }
    );
    let projection = RoomTimelineGapProjectionId { actor_generation: 7, repair_generation: 9 };
    let (sent, origin) = finish_live_tail_refresh(result, projection, true);
    assert_eq!(sent.last_projection_batch, Some(1));
    assert_eq!(
        origin,
        Some(EventsOrigin::GapRepair {
            actor_generation: 7,
            repair_generation: 9,
            projection_batch: 1
        })
    );
    let (silent, origin) = finish_live_tail_refresh(result, projection, false);
    assert_eq!(silent.last_projection_batch, None);
    assert_eq!(origin, None);
}
