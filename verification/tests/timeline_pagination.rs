use room_sync::room_cache::{Event, EventCacheError};
use room_sync::room_pagination::{BackPaginationOutcome, CacheOnlyBackOutcome, PaginationStatus};
use room_sync::timeline_pagination::{
    BackPaginationStatusStream, LivePaginationStep, PaginationError, PaginationPlan,
    RestoreFromCacheOutcome, RestoreNext, Timeline, TimelineError, TimelineFocusKind,
};

fn timeline(focus: TimelineFocusKind) -> Timeline {
    Timeline { focus }
}

fn live() -> Timeline {
    timeline(TimelineFocusKind::Live)
}

fn focused() -> Timeline {
    timeline(TimelineFocusKind::Event { focused_event_id: "$a".to_owned() })
}

fn thread() -> Timeline {
    timeline(TimelineFocusKind::Thread { root_event_id: "$a".to_owned() })
}

fn pinned() -> Timeline {
    timeline(TimelineFocusKind::PinnedEvents)
}

fn failure() -> EventCacheError {
    EventCacheError::Storage { reason: "broken".to_owned() }
}

fn is_not_supported<T>(result: Result<T, TimelineError>) -> bool {
    matches!(result, Err(TimelineError::PaginationError(PaginationError::NotSupported)))
}

#[test]
fn backwards_pagination_goes_by_focus() {
    assert_eq!(live().paginate_backwards(10, None).unwrap(), PaginationPlan::Done(false));
    assert_eq!(live().paginate_backwards(10, Some(4)).unwrap(), PaginationPlan::Room(4));
    assert_eq!(focused().paginate_backwards(10, None).unwrap(), PaginationPlan::FocusedEvent(10));
    assert_eq!(thread().paginate_backwards(10, None).unwrap(), PaginationPlan::Thread(10));
    assert!(is_not_supported(pinned().paginate_backwards(10, None)));
}

#[test]
fn forwards_pagination_goes_by_focus() {
    assert_eq!(live().paginate_forwards(10).unwrap(), PaginationPlan::Done(true));
    assert_eq!(focused().paginate_forwards(10).unwrap(), PaginationPlan::FocusedEvent(10));
    assert!(is_not_supported(thread().paginate_forwards(10)));
    assert!(is_not_supported(pinned().paginate_forwards(10)));
}

#[test]
fn delegated_paginations_are_concluded() {
    assert!(Timeline::conclude_focused_event(Ok(Some(Ok(true)))).unwrap());
    assert!(matches!(
        Timeline::conclude_focused_event(Ok(None)),
        Err(TimelineError::PaginationError(PaginationError::MissingCache))
    ));
    assert!(matches!(
        Timeline::conclude_focused_event(Ok(Some(Err(failure())))),
        Err(TimelineError::EventCacheError(_))
    ));
    assert!(matches!(
        Timeline::conclude_focused_event(Err(failure())),
        Err(TimelineError::EventCacheError(_))
    ));
    assert!(!Timeline::conclude_thread(Ok(Ok(false))).unwrap());
    assert!(matches!(
        Timeline::conclude_thread(Err(failure())),
        Err(TimelineError::PaginationError(PaginationError::EventCache(_)))
    ));
    assert!(matches!(
        Timeline::conclude_thread(Ok(Err(failure()))),
        Err(TimelineError::EventCacheError(_))
    ));
}

#[test]
fn empty_page_is_asked_again() {
    let page = |reached_start: bool, n: usize| {
        let events =
            (0..n).map(|_| Event { event_id: None, json: "{}".to_owned(), unsigned: None }).collect::<Vec<_>>();
        Timeline::live_paginate_backwards(Ok(BackPaginationOutcome { reached_start, events }))
    };
    assert!(matches!(page(false, 0), LivePaginationStep::Again));
    assert!(matches!(page(false, 1), LivePaginationStep::Finished(Ok(false))));
    assert!(matches!(page(true, 0), LivePaginationStep::Finished(Ok(true))));
    assert!(matches!(
        Timeline::live_paginate_backwards(Err(failure())),
        LivePaginationStep::Finished(Err(TimelineError::EventCacheError(_)))
    ));
}

#[test]
fn anchor_is_read_once() {
    for (text, expected) in [
        ("$anchor", true),
        ("$anchor:example.org", true),
        ("anchor", false),
        ("", false),
        ("$anchor:", false),
        ("$a:exa mple", false),
    ] {
        let reveal = live().live_restore_from_cache(30, text).unwrap();
        assert_eq!(reveal.num_events, 30);
        assert_eq!(reveal.anchor.as_deref(), expected.then_some(text));
    }
    assert!(is_not_supported(focused().live_restore_from_cache(30, "$a")));
    assert!(is_not_supported(thread().live_restore_from_cache(30, "$a")));
    assert!(is_not_supported(pinned().live_restore_from_cache(30, "$a")));
}

fn after_reveal(anchor: &str, did_reveal: bool, needs: Option<usize>, visible: &[&str]) -> RestoreNext {
    let visible: Vec<String> = visible.iter().map(|id| id.to_string()).collect();
    let reveal = live().live_restore_from_cache(30, anchor).unwrap();
    reveal.revealed(did_reveal, needs, &visible)
}

#[test]
fn rows_in_memory_can_be_enough() {
    for (visible, expected) in [(vec!["$x", "$a"], true), (vec!["$x"], false)] {
        match after_reveal("$a", true, None, &visible) {
            RestoreNext::Finished(outcome) => assert_eq!(
                outcome,
                RestoreFromCacheOutcome {
                    events_loaded: 0,
                    chunks_loaded: 0,
                    lazy_reveal_batches: 1,
                    anchor_present: expected,
                    reached_start: false,
                    hit_gap: false
                }
            ),
            other => panic!("unexpected {other:?}"),
        }
    }
    match after_reveal("$a", false, Some(5), &["$a"]) {
        RestoreNext::Finished(outcome) => {
            assert!(outcome.anchor_present);
            assert_eq!(outcome.lazy_reveal_batches, 0);
        }
        other => panic!("unexpected {other:?}"),
    }
}

#[test]
fn store_is_asked_for_the_rest() {
    match after_reveal("$a", true, Some(5), &[]) {
        RestoreNext::Load(load) => {
            assert_eq!(load.num_events, 5);
            assert_eq!(load.anchor.as_deref(), Some("$a"));
            assert_eq!(load.lazy_reveal_batches, 1);
        }
        other => panic!("unexpected {other:?}"),
    }
    match after_reveal("bad", true, Some(70000), &["bad"]) {
        RestoreNext::Load(load) => {
            assert_eq!(load.num_events, u16::MAX);
            assert_eq!(load.anchor, None);
        }
        other => panic!("unexpected {other:?}"),
    }
}

fn load_with(
    anchor: &str,
    outcome: CacheOnlyBackOutcome,
    anchor_in_cache: bool,
) -> RestoreFromCacheOutcome {
    match after_reveal(anchor, false, Some(5), &[]) {
        RestoreNext::Load(load) => load.loaded(Ok(outcome), anchor_in_cache).unwrap(),
        other => panic!("unexpected {other:?}"),
    }
}

#[test]
fn loaded_chunks_end_the_restore() {
    let base = CacheOnlyBackOutcome {
        events_loaded: 4,
        chunks_loaded: 2,
        anchor_present: false,
        reached_start: false,
        hit_gap: false,
    };
    let gap = load_with("$a", CacheOnlyBackOutcome { hit_gap: true, ..base }, true);
    assert!(gap.hit_gap && !gap.anchor_present);
    assert_eq!((gap.events_loaded, gap.chunks_loaded), (4, 2));

    let found = load_with("$a", CacheOnlyBackOutcome { anchor_present: true, ..base }, true);
    assert!(found.anchor_present && !found.reached_start);

    let start = CacheOnlyBackOutcome { reached_start: true, ..base };
    let on_its_way = load_with("$a", start, true);
    assert!(on_its_way.anchor_present && on_its_way.reached_start);

    let no_anchor = load_with("bad", start, true);
    assert!(!no_anchor.anchor_present && no_anchor.reached_start);

    let not_yet = load_with("$a", base, true);
    assert!(!not_yet.anchor_present && !not_yet.reached_start && !not_yet.hit_gap);

    match after_reveal("$a", false, Some(5), &[]) {
        RestoreNext::Load(load) => assert!(matches!(
            load.loaded(Err(failure()), false),
            Err(TimelineError::EventCacheError(_))
        )),
        other => panic!("unexpected {other:?}"),
    }
}

#[test]
fn absent_anchor_ends_the_restore_at_the_start() {
    let start = CacheOnlyBackOutcome {
        events_loaded: 3,
        chunks_loaded: 1,
        anchor_present: false,
        reached_start: true,
        hit_gap: false,
    };
    assert_eq!(
        load_with("$nowhere", start, false),
        RestoreFromCacheOutcome {
            events_loaded: 3,
            chunks_loaded: 1,
            lazy_reveal_batches: 0,
            anchor_present: false,
            reached_start: true,
            hit_gap: false,
        }
    );
}

#[test]
fn statuses_are_not_repeated() {
    let idle = PaginationStatus::Idle { hit_timeline_start: false };
    let start = PaginationStatus::Idle { hit_timeline_start: true };
    let (current, mut stream) = live().live_back_pagination_status(idle).unwrap();
    assert_eq!(current, idle);
    assert_eq!(stream.next(idle), Some(idle));
    assert_eq!(stream.next(idle), None);
    assert_eq!(stream.next(PaginationStatus::Paginating), Some(PaginationStatus::Paginating));
    assert_eq!(stream.next(start), Some(start));
    assert!(BackPaginationStatusStream::inserts_timeline_start(start));
    assert!(!BackPaginationStatusStream::inserts_timeline_start(idle));
    assert!(!BackPaginationStatusStream::inserts_timeline_start(PaginationStatus::Paginating));
    assert!(focused().live_back_pagination_status(idle).is_none());
}
