use room_sync::all_rooms::CommittedAllRoomsResponse;
use room_sync::keyed::{IdSet, KeyedList};
use room_sync::room_cache::EventCacheError;
use room_sync::room_list::{
    Room, RoomList, RoomListLoadingState, RoomListRangeLoadingState, RoomState,
    SlidingSyncListInfo, SlidingSyncListLoadingState, State,
};
use room_sync::room_list_service::{
    required_state_for_user, requires_timeout, Error, IndicatorWait, PollTimeout, RoomListService,
    StateEventType, SyncIndicator, SyncResult, SyncStep, UpdateSummary, ALL_ROOMS_LIST_NAME,
    DEFAULT_CONNECTION_ID, DEFAULT_LIST_TIMELINE_LIMIT,
};
use room_sync::room_subscriptions::{
    RoomSubscriptionCheckpoint, RoomSubscriptionGeneration, RoomSubscriptionIteration,
    RoomSubscriptionState, RoomTimelineSyncObservation,
};

fn ids(list: &[&str]) -> Vec<String> {
    list.iter().map(|id| id.to_string()).collect()
}

fn room(id: &str, state: RoomState) -> Room {
    Room {
        room_id: id.to_owned(),
        state,
        latest_event_timestamp: None,
        latest_event_is_unsent: false,
        recency_stamp: None,
        display_name: None,
        is_space: false,
    }
}

fn seen(sequence: u64) -> Option<RoomTimelineSyncObservation> {
    Some(RoomTimelineSyncObservation { sequence, inserted_gap: true })
}

fn iteration(
    service: &RoomListService,
    latest: &[(&str, u64)],
) -> RoomSubscriptionIteration {
    let mut known = KeyedList::new();
    for (id, sequence) in latest {
        known.insert(id.to_string(), seen(*sequence).unwrap());
    }
    let captured = service.subscription_snapshot();
    service.capture_room_subscription_iteration(captured, &known).expect("nothing was replaced")
}

fn list(loaded: bool, count: u32) -> Option<SlidingSyncListInfo> {
    let state = if loaded {
        SlidingSyncListLoadingState::FullyLoaded
    } else {
        SlidingSyncListLoadingState::PartiallyLoaded
    };
    Some(SlidingSyncListInfo { state, maximum_number_of_rooms: Some(count) })
}

fn respond(
    service: &mut RoomListService,
    next: State,
    named: &[&str],
    updated: &[(&str, u64)],
    loaded: bool,
    count: u32,
) -> SyncStep {
    service.begin_iteration(&next);
    let run = iteration(service, &[]);
    let summary = UpdateSummary {
        rooms: updated.iter().map(|(id, sequence)| (id.to_string(), seen(*sequence))).collect(),
        rooms_from_response: ids(named),
        all_rooms_list: list(loaded, count),
    };
    service.sync(next, &run, SyncResult::Updated(summary))
}

#[test]
fn required_state_expands_only_own_membership_placeholder() {
    let own_user_id = "@compat:example.org";
    let required_state = [
        (StateEventType::RoomMember, "$ME"),
        (StateEventType::RoomMember, "$LAZY"),
        (StateEventType::RoomMember, "*"),
        (StateEventType::RoomName, "$ME"),
        (StateEventType::SpaceChild, "*"),
    ];

    assert_eq!(
        required_state_for_user(&required_state, Some(own_user_id)),
        vec![
            (StateEventType::RoomMember, own_user_id.to_string()),
            (StateEventType::RoomMember, "$LAZY".to_owned()),
            (StateEventType::RoomMember, "*".to_owned()),
            (StateEventType::RoomName, "$ME".to_owned()),
            (StateEventType::SpaceChild, "*".to_owned()),
        ]
    );
}

#[test]
fn required_state_preserves_own_membership_placeholder_without_user() {
    let required_state =
        [(StateEventType::RoomMember, "$ME"), (StateEventType::RoomMember, "$LAZY")];

    assert_eq!(
        required_state_for_user(&required_state, None),
        vec![
            (StateEventType::RoomMember, "$ME".to_owned()),
            (StateEventType::RoomMember, "$LAZY".to_owned()),
        ]
    );
}

#[test]
fn room_subscription_checkpoint_debug_is_private_safe() {
    let room_id = "!private-checkpoint:example.org";
    let checkpoint = RoomSubscriptionCheckpoint {
        subscription_generation: RoomSubscriptionGeneration(7),
        response_sequence: 11,
        room_id: room_id.to_owned(),
        timeline: None,
    };

    let debug = checkpoint.describe();
    assert!(debug.contains("subscription_generation"));
    assert!(debug.contains("response_sequence: 11"));
    assert!(debug.contains("has_timeline: false"));
    assert!(!debug.contains(room_id));
    assert!(!debug.contains("private-checkpoint"));
    assert_eq!(
        debug,
        "RoomSubscriptionCheckpoint { subscription_generation: RoomSubscriptionGeneration(7), \
         response_sequence: 11, has_timeline: false }"
    );
}

#[test]
fn room_subscription_state_debug_redacts_active_room_ids() {
    let room_id = "!private-subscription:example.org";
    let state = RoomSubscriptionState {
        generation: 7,
        active_rooms: IdSet::from_ids(&[room_id.to_owned()]),
    };

    let debug = state.describe();
    assert!(!debug.contains(room_id));
    assert!(debug.contains("active_room_count: 1"));
    assert_eq!(debug, "RoomSubscriptionState { generation: 7, active_room_count: 1 }");
}

#[test]
fn request_asks_for_all_rooms() {
    let request = RoomListService::new_with::<String>(
        true,
        DEFAULT_CONNECTION_ID,
        DEFAULT_LIST_TIMELINE_LIMIT,
        Some("@example:localhost"),
        Ok(true),
    );
    assert_eq!(request.connection_id, "room-list");
    assert_eq!(request.list_name, ALL_ROOMS_LIST_NAME);
    assert!(request.cached);
    assert_eq!(request.range, (0, 19));
    assert_eq!(request.timeline_limit, 1);
    assert_eq!(request.is_invite, None);
    assert!(request.share_pos);
    assert!(request.account_data && request.receipts_of_all_subscribed && request.typing);
    assert_eq!(request.thread_subscriptions_limit, Some(10));
    let expected: Vec<(StateEventType, String)> = [
        (StateEventType::RoomName, ""),
        (StateEventType::RoomEncryption, ""),
        (StateEventType::RoomMember, "$LAZY"),
        (StateEventType::RoomMember, "@example:localhost"),
        (StateEventType::RoomTopic, ""),
        (StateEventType::RoomAvatar, ""),
        (StateEventType::RoomCanonicalAlias, ""),
        (StateEventType::RoomPowerLevels, ""),
        (StateEventType::CallMember, "*"),
        (StateEventType::RoomJoinRules, ""),
        (StateEventType::RoomTombstone, ""),
        (StateEventType::RoomCreate, ""),
        (StateEventType::RoomHistoryVisibility, ""),
        (StateEventType::MemberHints, ""),
        (StateEventType::SpaceParent, "*"),
        (StateEventType::SpaceChild, "*"),
        (StateEventType::BeaconInfo, "*"),
    ]
    .into_iter()
    .map(|(kind, key)| (kind, key.to_owned()))
    .collect();
    assert_eq!(request.required_state, expected);

    for refused in [Ok(false), Err("unknown".to_owned())] {
        let request = RoomListService::new_with(false, "c", 3, None, refused);
        assert_eq!(request.thread_subscriptions_limit, None);
        assert_eq!(request.required_state[3].1, "$ME");
        assert_eq!(request.timeline_limit, 3);
        assert!(!request.share_pos);
    }
}

#[test]
fn default_request_shares_the_position() {
    let request = RoomListService::default_request::<String>(Some("@me:example.org"), Ok(false));
    assert!(request.share_pos);
    assert_eq!(request.connection_id, "room-list");
    assert_eq!(request.timeline_limit, 1);
    assert_eq!(request.list_name, ALL_ROOMS_LIST_NAME);
    assert!(request.cached);
    assert_eq!(request.thread_subscriptions_limit, None);
    assert_eq!(request.required_state[3].1, "@me:example.org");
}

#[test]
fn long_polling_needs_a_loaded_list() {
    assert_eq!(requires_timeout(&State::Running, true), PollTimeout::Default);
    assert_eq!(requires_timeout(&State::Running, false), PollTimeout::Seconds(0));
    for state in [
        State::Init,
        State::SettingUp,
        State::Recovering,
        State::Error { from: Box::new(State::Running) },
        State::Terminated { from: Box::new(State::Running) },
    ] {
        assert_eq!(requires_timeout(&state, true), PollTimeout::Seconds(0));
    }
}

#[test]
fn failed_sync_commits_nothing() {
    let mut service = RoomListService::new();
    assert_eq!(service.committed_all_rooms_response(), CommittedAllRoomsResponse::default());
    let run = iteration(&service, &[]);
    let step = service.sync(State::SettingUp, &run, SyncResult::Failed("offline".to_owned()));
    assert!(matches!(step.yielded, Some(Err(Error::SlidingSync(_)))));
    assert!(!step.continues && step.committed.is_none());
    assert!(matches!(service.state(), State::Error { from } if matches!(**from, State::SettingUp)));
    assert_eq!(service.committed_all_rooms_response().sequence(), 0);
    assert!(!service.committed_all_rooms_response().pos_present());

    let step = respond(&mut service, State::SettingUp, &[], &[], false, 0);
    assert!(matches!(step.yielded, Some(Ok(()))));
    assert_eq!(service.committed_all_rooms_response().sequence(), 1);
    assert!(service.committed_all_rooms_response().pos_present());
    assert!(matches!(service.state(), State::SettingUp));
}

#[test]
fn stopped_sync_can_expire() {
    let mut service = RoomListService::new();
    let run = iteration(&service, &[]);
    let step = service.sync(State::Running, &run, SyncResult::Ended);
    assert!(step.yielded.is_none() && !step.continues);
    assert!(
        matches!(service.state(), State::Terminated { from } if matches!(**from, State::Running))
    );
    service.expire_sync_session();
    assert!(matches!(service.state(), State::Error { from } if matches!(**from, State::Running)));
    service.expire_sync_session();
    assert!(matches!(service.state(), State::Error { from } if matches!(**from, State::Running)));
}

#[test]
fn missing_list_ends_the_sync() {
    let mut service = RoomListService::new();
    let run = iteration(&service, &[]);
    let summary =
        UpdateSummary { rooms: vec![], rooms_from_response: vec![], all_rooms_list: None };
    let step = service.sync(State::SettingUp, &run, SyncResult::Updated(summary));
    match step.yielded {
        Some(Err(error)) => assert_eq!(error.message(), "Unknown list `all_rooms`"),
        other => panic!("unexpected {other:?}"),
    }
    assert!(matches!(service.state(), State::Init));
    assert_eq!(service.committed_all_rooms_response().sequence(), 0);
}

#[test]
fn range_is_loaded_only_while_running() {
    let mut service = RoomListService::new();
    respond(&mut service, State::SettingUp, &[], &[], true, 150);
    assert!(!service.committed_all_rooms_response().range_fully_loaded());
    respond(&mut service, State::Running, &[], &[], false, 150);
    assert!(!service.committed_all_rooms_response().range_fully_loaded());
    respond(&mut service, State::Running, &[], &[], true, 150);
    assert!(service.committed_all_rooms_response().range_fully_loaded());
    assert_eq!(service.committed_all_rooms_response().sequence(), 3);
}

#[test]
fn checkpoint_and_commit_have_one_number() {
    let mut service = RoomListService::new();
    let room_id = "!response-correlation:example.org";
    respond(&mut service, State::SettingUp, &[room_id], &[(room_id, 1)], false, 1);
    assert!(service.room_subscription_checkpoints().get(room_id).is_none());

    let (generation, settings, cancels) =
        service.subscribe_to_rooms_with_generation(&ids(&[room_id]), Some("@me:example.org"));
    assert_eq!(generation.get(), 1);
    assert!(cancels);
    assert_eq!(settings.timeline_limit, 20);
    assert_eq!(settings.required_state.len(), 18);
    assert_eq!(
        settings.required_state[17],
        (StateEventType::RoomPinnedEvents, String::new())
    );

    let step = respond(&mut service, State::Running, &[room_id], &[(room_id, 2)], false, 1);
    assert!(step.checkpoints_changed);
    let checkpoint = service.room_subscription_checkpoints().get(room_id).unwrap();
    assert_eq!(checkpoint.subscription_generation(), generation);
    assert_eq!(checkpoint.response_sequence(), service.committed_all_rooms_response().sequence());
    assert_eq!(checkpoint.room_id(), room_id);
    assert!(checkpoint.timeline().unwrap().inserted_gap);
    let earlier = checkpoint.response_sequence();

    let run = iteration(&service, &[(room_id, 2)]);
    let summary = UpdateSummary {
        rooms: vec![(room_id.to_owned(), seen(2)), ("!other:example.org".to_owned(), seen(9))],
        rooms_from_response: ids(&[room_id]),
        all_rooms_list: list(false, 1),
    };
    service.sync(State::Running, &run, SyncResult::Updated(summary));
    let checkpoint = service.room_subscription_checkpoints().get(room_id).unwrap();
    assert!(checkpoint.response_sequence() > earlier);
    assert!(checkpoint.timeline().is_none());
    assert!(service.room_subscription_checkpoints().get("!other:example.org").is_none());
}

#[test]
fn replaced_subscriptions_take_no_late_checkpoint() {
    let mut service = RoomListService::new();
    service.subscribe_to_rooms(&ids(&["!a:b.c"]), None);
    let late = iteration(&service, &[]);
    let captured = service.subscription_snapshot();
    let (generation, _, cancels) =
        service.subscribe_to_rooms_with_generation(&ids(&["!a:b.c"]), None);
    assert_eq!(generation.get(), 2);
    assert!(!cancels);
    assert!(service.capture_room_subscription_iteration(captured, &KeyedList::new()).is_none());
    let summary = UpdateSummary {
        rooms: vec![("!a:b.c".to_owned(), seen(1))],
        rooms_from_response: vec![],
        all_rooms_list: list(false, 1),
    };
    let step = service.sync(State::SettingUp, &late, SyncResult::Updated(summary));
    assert!(!step.checkpoints_changed);
    assert!(service.room_subscription_checkpoints().get("!a:b.c").is_none());
}

fn visible(service: &RoomListService, rooms: &[Room]) -> (Option<u64>, Vec<String>) {
    let all = RoomListService::all_rooms(list(false, 0), State::Init).unwrap();
    let snapshot = all.current_entries_snapshot(service.observed_rooms(), rooms);
    assert_eq!(snapshot.is_authoritative(), snapshot.response_sequence().is_some());
    let owner = snapshot.response_sequence();
    (owner, snapshot.into_entries().into_iter().map(|item| item.into_inner().room_id).collect())
}

#[test]
fn recovery_keeps_the_rooms_until_a_response() {
    let rooms = [
        room("!cache-only:example.org", RoomState::Joined),
        room("!previous-live:example.org", RoomState::Joined),
        room("!recovered-live:example.org", RoomState::Invited),
        room("!left:example.org", RoomState::Left),
    ];
    let mut service = RoomListService::new();
    assert_eq!(
        visible(&service, &rooms),
        (
            None,
            ids(&[
                "!cache-only:example.org",
                "!previous-live:example.org",
                "!recovered-live:example.org"
            ])
        )
    );
    let step = respond(
        &mut service,
        State::SettingUp,
        &["!previous-live:example.org", "!left:example.org"],
        &[],
        false,
        1,
    );
    assert!(step.visible_changed);
    assert_eq!(visible(&service, &rooms), (Some(1), ids(&["!previous-live:example.org"])));

    service.begin_iteration(&State::Recovering);
    assert_eq!(visible(&service, &rooms), (Some(1), ids(&["!previous-live:example.org"])));

    let recovered = ["!recovered-live:example.org"];
    respond(&mut service, State::Recovering, &recovered, &[], false, 1);
    assert_eq!(visible(&service, &rooms), (Some(2), ids(&recovered)));

    let step = respond(&mut service, State::Running, &recovered, &[], false, 1);
    assert!(!step.visible_changed);
    let step = respond(&mut service, State::Running, &["!cache-only:example.org"], &[], false, 2);
    assert!(step.visible_changed);
    assert_eq!(
        visible(&service, &rooms),
        (Some(4), ids(&["!cache-only:example.org", "!recovered-live:example.org"]))
    );
}

#[test]
fn snapshot_goes_with_the_newer_response() {
    let mut service = RoomListService::new();
    respond(&mut service, State::SettingUp, &["!a:b.c"], &[], false, 1);
    respond(&mut service, State::Running, &["!a:b.c"], &[], true, 1);
    assert!(service.committed_all_rooms_response().range_fully_loaded());
    respond(&mut service, State::Recovering, &["!new:b.c"], &[], true, 2);
    let all = RoomListService::all_rooms(list(true, 2), State::Recovering).unwrap();
    let snapshot = all.current_entries_snapshot(service.observed_rooms(), &[]);
    assert_eq!(snapshot.response_sequence(), Some(3));
    assert_eq!(snapshot.range_fully_loaded(), Some(false));
    assert_eq!(snapshot.maximum_number_of_rooms(), Some(2));
    assert_eq!(
        snapshot.describe(),
        "RoomListEntriesSnapshot { response_sequence: Some(3), range_fully_loaded: Some(false), \
         maximum_number_of_rooms: Some(2), entry_count: 0 }"
    );
}

#[test]
fn lists_and_rooms_are_looked_up() {
    match RoomList::new("nope", None, State::Init) {
        Err(error) => assert_eq!(error.message(), "Unknown list `nope`"),
        Ok(_) => panic!("the list does not exist"),
    }
    assert!(RoomListService::all_rooms(None, State::Init).is_err());
    let all = RoomListService::all_rooms(list(true, 5), State::Running).unwrap();
    assert_eq!(
        all.loading_state(),
        RoomListLoadingState::Loaded { maximum_number_of_rooms: Some(5) }
    );
    assert_eq!(all.range_loading_state(), RoomListRangeLoadingState::FullyLoaded);

    let rooms = [room("!a:b.c", RoomState::Joined)];
    assert_eq!(RoomListService::room(&rooms, "!a:b.c").unwrap().room_id, "!a:b.c");
    match RoomListService::room(&rooms, "!x:b.c") {
        Err(error) => assert_eq!(error.message(), "Room `!x:b.c` not found"),
        Ok(_) => panic!("the room does not exist"),
    }
    let error = Error::EventCache(EventCacheError::Storage { reason: "broken".to_owned() });
    assert_eq!(error.message(), "broken");
    assert_eq!(Error::SlidingSync("offline".to_owned()).message(), "offline");
}

#[test]
fn indicator_waits_for_its_delay() {
    let (mut stream, first, wait) = RoomListService::sync_indicator(State::Init, 100u32, 200u32);
    assert_eq!(first, SyncIndicator::Hide);
    assert!(matches!(wait, IndicatorWait::StateOrDelay(200)));
    let wait = stream.on_state(Some(State::SettingUp));
    assert!(matches!(wait, IndicatorWait::StateOrDelay(100)));
    let (shown, wait) = stream.on_delay();
    assert_eq!(shown, SyncIndicator::Show);
    assert!(matches!(wait, IndicatorWait::State));
    assert!(matches!(
        stream.on_state(Some(State::Running)),
        IndicatorWait::StateOrDelay(200)
    ));
    assert_eq!(stream.on_delay().0, SyncIndicator::Hide);
    assert!(matches!(
        stream.on_state(Some(State::Error { from: Box::new(State::Running) })),
        IndicatorWait::StateOrDelay(100)
    ));
    assert_eq!(stream.on_delay().0, SyncIndicator::Show);
    assert!(matches!(stream.on_state(None), IndicatorWait::Ended));
}
