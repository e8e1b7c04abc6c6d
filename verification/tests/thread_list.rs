use room_sync::room_cache::{Event, EventCacheError, Unsigned};
use room_sync::thread_list::{
    build_event, build_thread_list_item, collect_affected_roots, collect_events_from_diffs,
    collect_originals, is_redacted_raw_event, is_redaction_event, is_redaction_event_type,
    latest_valid_replacement, load_thread_list,
    requires_full_reconciliation, resolve_thread_relation_aggregate, AffectingEvent,
    ListenerAction, RelatedEdit, RelatedEvent, RelationType, RoomEventCacheUpdate, SenderProfile,
    ThreadList, ThreadListItem, ThreadListItemEvent, ThreadListPaginationState, ThreadListService,
    ThreadListServiceError, ThreadRelationAggregate, TimelineItemContent,
};
use room_sync::vector_diff::VectorDiff;

fn content(text: &str, unable_to_decrypt: bool) -> TimelineItemContent {
    TimelineItemContent { json: text.to_owned(), unable_to_decrypt }
}

fn shown(id: &str, timestamp: u64) -> ThreadListItemEvent {
    build_event(
        Some(id.to_owned()),
        Some(timestamp),
        Some("@alice:example.org".to_owned()),
        "@me:example.org",
        SenderProfile::Unavailable,
        Some(content(id, false)),
    )
    .unwrap()
}

fn event(id: &str) -> Event {
    Event {
        event_id: Some(id.to_owned()),
        json: "{\"type\":\"m.room.message\"}".to_owned(),
        unsigned: None,
    }
}

fn redacted(id: &str) -> Event {
    let redaction = "{\"type\":\"m.room.redaction\"}";
    Event {
        event_id: Some(id.to_owned()),
        json: format!("{{\"unsigned\":{{\"redacted_because\":{redaction}}}}}"),
        unsigned: Some(Unsigned { redacted_because: Some(redaction.to_owned()) }),
    }
}

fn reply(id: &str, timestamp: u64) -> RelatedEvent {
    RelatedEvent {
        event: event(id),
        relation: Some((RelationType::Thread, "$root".to_owned())),
        timestamp,
        built: Some(shown(id, timestamp)),
        replacement: None,
    }
}

fn item(root: &str, latest: Option<&str>, num_replies: u32) -> ThreadListItem {
    build_thread_list_item(
        Some(shown(root, 1)),
        Some(num_replies),
        latest.map(|id| shown(id, 2)),
    )
    .unwrap()
}

fn aggregate(latest: Option<&str>, num_replies: u32) -> ThreadRelationAggregate {
    ThreadRelationAggregate { latest_event: latest.map(|id| shown(id, 9)), num_replies }
}

fn latest_id(item: &ThreadListItem) -> Option<&str> {
    item.latest_event.as_ref().map(|e| e.event_id.as_str())
}

#[test]
fn redactions_are_recognised() {
    assert!(is_redacted_raw_event(&redacted("$a").unsigned));
    assert!(!is_redacted_raw_event(&Some(Unsigned { redacted_because: None })));
    assert!(!is_redacted_raw_event(&None));
    assert!(is_redaction_event("{\"type\":\"m.room.redaction\"}"));
    assert!(!is_redaction_event("{\"type\":\"m.room.message\"}"));
    assert!(!is_redaction_event("{}"));
    assert!(!is_redaction_event("{\"type\":7}"));
    assert!(is_redaction_event_type(&Some("m.room.redaction".to_owned())));
    assert!(!is_redaction_event_type(&None));
    assert!(requires_full_reconciliation(&redacted("$a")));
    assert!(!requires_full_reconciliation(&event("$a")));
    let redaction = Event { json: "{\"type\":\"m.room.redaction\"}".to_owned(), ..event("$a") };
    assert!(requires_full_reconciliation(&redaction));
}

#[test]
fn events_are_built_from_their_parts() {
    let mine = build_event(
        Some("$a".to_owned()),
        Some(1),
        Some("@me:example.org".to_owned()),
        "@me:example.org",
        SenderProfile::Ready { display_name: Some("Me".to_owned()), avatar_url: None },
        None,
    )
    .unwrap();
    assert!(mine.is_own);
    assert!(!shown("$b", 1).is_own);
    let unknown = SenderProfile::Unavailable;
    let sender = Some("@a:b.c".to_owned());
    assert!(build_event(None, Some(1), sender.clone(), "@m:b.c", unknown.clone(), None).is_none());
    let id = Some("$a".to_owned());
    assert!(build_event(id.clone(), None, sender, "@m:b.c", unknown.clone(), None).is_none());
    assert!(build_event(id, Some(1), None, "@m:b.c", unknown, None).is_none());
}

#[test]
fn items_without_a_root_are_left_out() {
    assert!(build_thread_list_item(None, Some(3), None).is_none());
    assert_eq!(build_thread_list_item(Some(shown("$r", 1)), None, None).unwrap().num_replies, 0);
    let page = load_thread_list(
        vec![Some(item("$a", None, 0)), None, Some(item("$b", None, 0))],
        Some("t".to_owned()),
    );
    assert_eq!(page.items.len(), 2);
    assert_eq!(page.items[1].root_event.event_id, "$b");
    assert_eq!(page.prev_batch_token.as_deref(), Some("t"));
}

#[test]
fn aggregate_counts_valid_replies_once() {
    let mut foreign = reply("$foreign", 90);
    foreign.relation = Some((RelationType::Thread, "$other".to_owned()));
    let mut reaction = reply("$reaction", 91);
    reaction.relation = Some((RelationType::Other, "$root".to_owned()));
    let mut gone = reply("$gone", 92);
    gone.event = redacted("$gone");
    let mut nameless = reply("$nameless", 93);
    nameless.event.event_id = None;
    let mut repeated = reply("$a", 94);
    repeated.built = Some(shown("$repeated", 94));
    let mut unbuilt = reply("$unbuilt", 95);
    unbuilt.built = None;
    let related = vec![
        reply("$a", 10),
        reply("$c", 20),
        foreign,
        reaction,
        gone,
        nameless,
        repeated,
        unbuilt,
        reply("$b", 20),
    ];
    assert_eq!(collect_originals(&related, "$root"), [0, 1, 7, 8]);
    let found = resolve_thread_relation_aggregate(&related, "$root");
    assert_eq!(found.num_replies, 4);
    assert_eq!(found.latest_event.unwrap().event_id, "$c");

    let mut reversed = related;
    reversed.remove(6);
    reversed.reverse();
    let found = resolve_thread_relation_aggregate(&reversed, "$root");
    assert_eq!(found.num_replies, 4);
    assert_eq!(found.latest_event.unwrap().event_id, "$c");

    let none = resolve_thread_relation_aggregate(&[], "$root");
    assert_eq!(none, ThreadRelationAggregate { latest_event: None, num_replies: 0 });
}

#[test]
fn edit_replaces_only_the_content() {
    let mut edited = reply("$a", 10);
    edited.replacement = Some(content("edited", false));
    let latest =
        resolve_thread_relation_aggregate(&[edited], "$root").latest_event.expect("one reply");
    assert_eq!(latest.event_id, "$a");
    assert_eq!(latest.timestamp, 10);
    assert_eq!(latest.content, Some(content("edited", false)));

    let mut unreadable = reply("$a", 10);
    unreadable.replacement = Some(content("secret", true));
    let latest =
        resolve_thread_relation_aggregate(&[unreadable], "$root").latest_event.expect("one reply");
    assert_eq!(latest.content, Some(content("$a", false)));
}

fn edit(id: &str, timestamp: u64) -> RelatedEdit {
    RelatedEdit {
        event: event(id),
        relation: Some((RelationType::Replacement, "$a".to_owned())),
        timestamp,
        is_valid: true,
    }
}

#[test]
fn latest_valid_edit_is_found() {
    let original = Some("$a".to_owned());
    let mut invalid = edit("$invalid", 50);
    invalid.is_valid = false;
    let mut gone = edit("$gone", 51);
    gone.event = redacted("$gone");
    let mut foreign = edit("$foreign", 52);
    foreign.relation = Some((RelationType::Replacement, "$b".to_owned()));
    let mut nameless = edit("$nameless", 53);
    nameless.event.event_id = None;
    let edits = vec![
        edit("$x", 3),
        edit("$z", 7),
        edit("$y", 7),
        invalid,
        gone,
        foreign,
        nameless,
        edit("$a", 54),
        edit("$x", 55),
        edit("$invalid", 56),
    ];
    assert_eq!(latest_valid_replacement(&original, &edits), Some(1));
    assert_eq!(latest_valid_replacement(&None, &edits), None);
    assert_eq!(latest_valid_replacement(&original, &[]), None);
    assert_eq!(latest_valid_replacement(&original, &[edit("$a", 1)]), None);
}

fn ids(events: &[Event]) -> Vec<&str> {
    events.iter().map(|e| e.event_id.as_deref().unwrap()).collect()
}

#[test]
fn events_are_taken_out_of_changes() {
    let events = collect_events_from_diffs(vec![
        VectorDiff::Append { values: vec![event("$a"), event("$b")] },
        VectorDiff::Clear,
        VectorDiff::PushFront { value: event("$c") },
        VectorDiff::PushBack { value: event("$d") },
        VectorDiff::PopFront,
        VectorDiff::PopBack,
        VectorDiff::Insert { index: 0, value: event("$e") },
        VectorDiff::Replace { index: 0, value: event("$f") },
        VectorDiff::Remove { index: 0 },
        VectorDiff::Truncate { length: 0 },
        VectorDiff::Reset { values: vec![event("$g")] },
    ]);
    assert_eq!(ids(&events), ["$a", "$b", "$c", "$d", "$e", "$f", "$g"]);
}

#[test]
fn affected_threads_are_collected_once() {
    let affecting = |kind, target: &str, root: Option<&str>| AffectingEvent {
        relation: Some((kind, target.to_owned())),
        replaced_thread_root: root.map(|id| id.to_owned()),
    };
    let mut roots = collect_affected_roots(&[
        affecting(RelationType::Thread, "$r1", None),
        affecting(RelationType::Replacement, "$reply", Some("$r2")),
        affecting(RelationType::Replacement, "$loose", None),
        affecting(RelationType::Other, "$r3", Some("$r3")),
        AffectingEvent { relation: None, replaced_thread_root: Some("$r4".to_owned()) },
        affecting(RelationType::Thread, "$r2", None),
    ]);
    roots.sort();
    assert_eq!(roots, ["$r1", "$r2"]);
}

fn loaded() -> ThreadListService {
    let mut list = ThreadListService::new();
    assert!(list.paginate().unwrap().from.is_none());
    let page = ThreadList {
        items: vec![item("$r1", Some("$old"), 3), item("$r2", None, 0)],
        prev_batch_token: Some("next".to_owned()),
    };
    assert_eq!(list.page_loaded(Ok(page)).unwrap(), ["$r1", "$r2"]);
    list.page_resolved();
    list
}

#[test]
fn pages_follow_each_other() {
    let mut list = loaded();
    assert_eq!(list.pagination_state(), ThreadListPaginationState::Idle { end_reached: false });
    assert_eq!(list.items().len(), 2);
    assert_eq!(list.tracked_roots(), ["$r1", "$r2"]);
    assert_eq!(list.paginate().unwrap().from.as_deref(), Some("next"));
    assert_eq!(list.pagination_state(), ThreadListPaginationState::Loading);
    assert!(list.paginate().is_none());
    let page = ThreadList { items: vec![item("$r3", None, 0)], prev_batch_token: None };
    list.page_loaded(Ok(page)).unwrap();
    assert_eq!(list.pagination_state(), ThreadListPaginationState::Loading);
    list.page_resolved();
    assert_eq!(list.pagination_state(), ThreadListPaginationState::Idle { end_reached: true });
    assert!(list.paginate().is_none());
    assert_eq!(list.tracked_roots(), ["$r1", "$r2", "$r3"]);

    list.reset();
    assert!(list.items().is_empty());
    assert_eq!(list.pagination_state(), ThreadListPaginationState::Idle { end_reached: false });
    assert!(list.paginate().unwrap().from.is_none());
}

#[test]
fn failed_page_can_be_asked_again() {
    let mut list = loaded();
    list.paginate().unwrap();
    assert!(matches!(
        list.page_loaded(Err("offline".to_owned())),
        Err(ThreadListServiceError::Sdk(_))
    ));
    assert_eq!(list.pagination_state(), ThreadListPaginationState::Idle { end_reached: false });
    assert_eq!(list.items().len(), 2);
    assert_eq!(list.paginate().unwrap().from.as_deref(), Some("next"));
    let error = ThreadListServiceError::EventCache(EventCacheError::Storage {
        reason: "broken".to_owned(),
    });
    assert!(matches!(error, ThreadListServiceError::EventCache(_)));
}

#[test]
fn summary_of_the_server_holds_until_it_is_reached() {
    let mut list = loaded();
    let watched = list.subscribe_to_items_updates().subscribe();
    list.apply_aggregate("$r1".to_owned(), aggregate(Some("$local"), 2));
    assert_eq!(latest_id(&list.items()[0]), Some("$old"));
    assert_eq!(list.items()[0].num_replies, 3);

    list.apply_aggregate("$r1".to_owned(), aggregate(Some("$local"), 3));
    assert_eq!(latest_id(&list.items()[0]), Some("$local"));

    list.apply_aggregate("$r1".to_owned(), aggregate(None, 0));
    assert_eq!(latest_id(&list.items()[0]), None);
    assert_eq!(list.items()[0].num_replies, 0);

    list.apply_aggregate("$r2".to_owned(), aggregate(Some("$x"), 1));
    assert_eq!(latest_id(&list.items()[1]), Some("$x"));
    assert_eq!(list.items()[1].num_replies, 1);

    list.apply_aggregate("$unknown".to_owned(), aggregate(Some("$x"), 1));
    assert_eq!(list.items().len(), 2);
    assert_eq!(watched.values().len(), 2);
}

#[test]
fn listener_goes_by_the_update() {
    let list = loaded();
    let plain = RoomEventCacheUpdate::UpdateTimelineEvents(vec![VectorDiff::PushBack {
        value: event("$a"),
    }]);
    match list.event_cache_listener_step(plain) {
        ListenerAction::FindAffected(events) => assert_eq!(ids(&events), ["$a"]),
        other => panic!("unexpected {other:?}"),
    }
    let redaction = RoomEventCacheUpdate::UpdateTimelineEvents(vec![VectorDiff::Append {
        values: vec![event("$a"), redacted("$b")],
    }]);
    for update in [redaction, RoomEventCacheUpdate::Lagged] {
        match list.event_cache_listener_step(update) {
            ListenerAction::Resolve(roots) => assert_eq!(roots, ["$r1", "$r2"]),
            other => panic!("unexpected {other:?}"),
        }
    }
    assert!(matches!(
        list.event_cache_listener_step(RoomEventCacheUpdate::Other),
        ListenerAction::Continue
    ));
    assert!(matches!(
        list.event_cache_listener_step(RoomEventCacheUpdate::Closed),
        ListenerAction::Stop
    ));
}
