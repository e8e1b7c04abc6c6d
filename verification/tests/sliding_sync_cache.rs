use room_sync::sliding_sync_cache::{
    classify_to_device_token, entries_for_lists, format_storage_key_for_sliding_sync,
    format_storage_key_for_sliding_sync_list, format_storage_key_prefix, freeze_position,
    restore_sliding_sync_list, restore_sliding_sync_state, store_sliding_sync_state,
    FrozenSlidingSyncPos, ListToStore, RestoredFields, RoomSubscription,
    SlidingSyncListCachePolicy, StoredList, StoredRecord, StoredSession, ToDeviceTokenFormat,
};

fn restore(stored: Option<StoredSession>) -> RestoredFields {
    let lists = ["list_foo".to_owned(), "list_bar".to_owned()];
    let (restored, obsolete_keys) = restore_sliding_sync_state("key", &lists, stored);
    assert!(obsolete_keys.is_empty());
    restored
}

fn subscriptions() -> Vec<(String, RoomSubscription)> {
    vec![(
        "!restored:example.org".to_owned(),
        RoomSubscription { required_state: vec![], timeline_limit: 20 },
    )]
}

#[test]
fn sliding_sync_to_device_token_classification() {
    assert_eq!(classify_to_device_token(None), (None, ToDeviceTokenFormat::Absent));
    assert_eq!(
        classify_to_device_token(Some("42".to_owned())),
        (Some("42".to_owned()), ToDeviceTokenFormat::Sliding)
    );

    for legacy in ["s123_4_5", "", "１２"] {
        assert_eq!(
            classify_to_device_token(Some(legacy.to_owned())),
            (None, ToDeviceTokenFormat::Legacy)
        );
    }
}

#[test]
fn storage_keys() {
    let key = format_storage_key_prefix("test-sync-id", "@example:localhost");
    assert_eq!(key, "sliding_sync_store::test-sync-id::@example:localhost");
    assert_eq!(
        format_storage_key_for_sliding_sync(&key),
        "sliding_sync_store::test-sync-id::@example:localhost::instance"
    );
    assert_eq!(
        format_storage_key_for_sliding_sync_list(&key, "list_foo"),
        "sliding_sync_store::test-sync-id::@example:localhost::list::list_foo"
    );
    assert_ne!(
        format_storage_key_for_sliding_sync_list(&key, "list_foo"),
        format_storage_key_for_sliding_sync_list(&key, "list_bar")
    );
}

#[test]
fn stored_session_is_restored() {
    let (key, frozen) =
        store_sliding_sync_state("key", true, Some("pos".to_owned()), subscriptions()).unwrap();
    assert_eq!(key, "key::instance");
    let restored = restore(Some(StoredSession {
        next_batch_token: Some("7".to_owned()),
        record: StoredRecord::Found(frozen),
    }));
    assert_eq!(restored.pos.as_deref(), Some("pos"));
    assert_eq!(restored.to_device_token.as_deref(), Some("7"));
    assert_eq!(restored.room_subscriptions.len(), 1);
    assert_eq!(restored.room_subscriptions[0].0, "!restored:example.org");
    assert!(store_sliding_sync_state("key", false, None, vec![]).is_none());
}

#[test]
fn record_without_a_position_carries_no_rooms() {
    let frozen = freeze_position(None, subscriptions());
    assert!(frozen.pos.is_none());
    assert!(frozen.room_subscriptions.is_empty());

    let forged = FrozenSlidingSyncPos { pos: None, room_subscriptions: subscriptions() };
    let restored = restore(Some(StoredSession {
        next_batch_token: Some("s1_2".to_owned()),
        record: StoredRecord::Found(forged),
    }));
    assert!(restored.pos.is_none());
    assert!(restored.room_subscriptions.is_empty());
    assert!(restored.to_device_token.is_none());
}

#[test]
fn nothing_stored_restores_nothing() {
    for restored in [
        restore(None),
        restore(Some(StoredSession {
            next_batch_token: None,
            record: StoredRecord::Missing,
        })),
        RestoredFields::default(),
    ] {
        assert!(restored.pos.is_none());
        assert!(restored.to_device_token.is_none());
        assert!(restored.room_subscriptions.is_empty());
    }
}

fn list(name: &str, enabled: bool, frozen: Result<Vec<u8>, String>) -> ListToStore<String> {
    let cache_policy = if enabled {
        SlidingSyncListCachePolicy::Enabled
    } else {
        SlidingSyncListCachePolicy::Disabled
    };
    ListToStore { name: name.to_owned(), cache_policy, frozen }
}

#[test]
fn only_cached_lists_are_stored() {
    let lists = vec![
        list("list_foo", true, Ok(vec![1])),
        list("list_bar", false, Err("never looked at".to_owned())),
        list("list_baz", true, Ok(vec![2])),
    ];
    assert_eq!(
        entries_for_lists("k", lists),
        Ok(vec![
            ("k::list::list_foo".to_owned(), vec![1]),
            ("k::list::list_baz".to_owned(), vec![2])
        ])
    );
    let lists = vec![
        list("a", true, Ok(vec![])),
        list("b", true, Err("first".to_owned())),
        list("c", true, Err("second".to_owned())),
    ];
    assert_eq!(entries_for_lists("k", lists), Err("first".to_owned()));
}

#[test]
fn obsolete_list_is_removed() {
    assert_eq!(restore_sliding_sync_list("k", "l", StoredList::Found(5)), (Some(5), None));
    assert_eq!(restore_sliding_sync_list::<u8>("k", "l", StoredList::Missing), (None, None));
    assert_eq!(
        restore_sliding_sync_list::<u8>("k", "l", StoredList::Obsolete),
        (None, Some("k::list::l".to_owned()))
    );
}

#[test]
fn obsolete_record_removes_the_cache_of_the_session() {
    let lists = ["list_foo".to_owned(), "list_bar".to_owned()];
    let (restored, obsolete_keys) = restore_sliding_sync_state(
        "key",
        &lists,
        Some(StoredSession {
            next_batch_token: Some("7".to_owned()),
            record: StoredRecord::Obsolete,
        }),
    );
    assert!(restored.pos.is_none());
    assert!(restored.room_subscriptions.is_empty());
    assert_eq!(restored.to_device_token.as_deref(), Some("7"));
    assert_eq!(obsolete_keys, ["key::instance", "key::list::list_foo", "key::list::list_bar"]);
}
