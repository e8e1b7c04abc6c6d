use indexmap::IndexMap;
use room_sync::read_receipts::{ReadReceiptSnapshot, Receipt, ReceiptThread};

fn assert_same(actual: &mut ReadReceiptSnapshot, expected: &IndexMap<String, Receipt>) {
    assert_eq!(actual.as_index_map(), expected);
    assert_eq!(
        actual.as_index_map().keys().collect::<Vec<_>>(),
        expected.keys().collect::<Vec<_>>()
    );
}

#[test]
fn shared_clone_and_mutations_preserve_indexmap_order_and_cached_values() {
    let users: Vec<String> = (0..1500).map(|i| format!("@reader-{i}:example.org")).collect();
    let mut expected: IndexMap<String, Receipt> =
        users.iter().cloned().map(|user| (user, Receipt::default())).collect();
    let mut actual = ReadReceiptSnapshot::from_index_map(expected.clone());
    assert_same(&mut actual, &expected);
    let mut original = actual.clone();
    assert!(actual.shares_storage_with(&original));
    assert!(!original.has_index_map(), "clone must not copy the full-map cache");
    assert_eq!(original.iter().len(), 1500);
    assert!(
        !original.has_index_map(),
        "direct iteration must not materialize the full-map cache"
    );

    for index in [0, 1, 1499, 32, 700] {
        assert_eq!(actual.swap_remove(&users[index]), expected.swap_remove(&users[index]));
        assert_same(&mut actual, &expected);
        for (slot, (user, _)) in actual.iter().into_iter().enumerate() {
            assert_eq!(actual.slot(user), Some(slot));
        }
    }
    let replacement = Receipt::new(1);
    for index in [42, 0, 1499] {
        assert_eq!(
            actual.insert(users[index].clone(), replacement.clone()),
            expected.insert(users[index].clone(), replacement.clone())
        );
        assert_same(&mut actual, &expected);
    }
    assert!(actual.swap_remove(&users[700]).is_none());
    assert_same(&mut actual, &expected);
    assert_eq!(original.len(), 1500);
    assert!(original
        .as_index_map()
        .values()
        .all(|receipt| receipt.ts.is_none() && receipt.thread == ReceiptThread::Unthreaded));
}

#[test]
fn reading_a_collection() {
    let user = "@reader:example.org".to_owned();
    let receipts = ReadReceiptSnapshot::from_entries(vec![(user.clone(), Receipt::default())]);
    let cloned = receipts.clone();
    assert_eq!(cloned.len(), 1);
    assert!(!cloned.is_empty());
    assert_eq!(cloned.iter()[0].0, &user);
    assert!(std::ptr::eq(receipts.get(&user).unwrap(), cloned.get(&user).unwrap()));
    assert!(receipts.get("@other:example.org").is_none());
    assert_eq!(receipts.slot("@other:example.org"), None);
    assert!(ReadReceiptSnapshot::default().is_empty());
}

#[test]
fn repeated_reader_keeps_the_first_slot_and_the_last_receipt() {
    let receipts = ReadReceiptSnapshot::from_entries(vec![
        ("@a:b.c".to_owned(), Receipt::new(1)),
        ("@d:b.c".to_owned(), Receipt::new(2)),
        ("@a:b.c".to_owned(), Receipt::new(3)),
    ]);
    let seen: Vec<_> = receipts.iter().into_iter().map(|(u, r)| (u.as_str(), r.ts)).collect();
    assert_eq!(seen, vec![("@a:b.c", Some(3)), ("@d:b.c", Some(2))]);
}

#[test]
fn full_map_is_dropped_by_a_change_only() {
    let mut receipts =
        ReadReceiptSnapshot::from_entries(vec![("@a:b.c".to_owned(), Receipt::new(1))]);
    assert!(!receipts.has_index_map());
    receipts.as_index_map();
    assert!(receipts.has_index_map());
    assert!(receipts.swap_remove("@nobody:b.c").is_none());
    assert!(receipts.has_index_map());
    assert_eq!(
        receipts.insert("@a:b.c".to_owned(), Receipt { ts: None, thread: ReceiptThread::Main }),
        Some(Receipt::new(1))
    );
    assert!(!receipts.has_index_map());
}

#[test]
fn collections_that_share_storage_hold_the_same_entries() {
    let users: Vec<String> = (0..40).map(|i| format!("@reader-{i}:example.org")).collect();
    let entries = users.iter().cloned().map(|user| (user, Receipt::default())).collect();
    let first = ReadReceiptSnapshot::from_entries(entries);
    let mut second = first.clone();
    assert!(first.shares_storage_with(&second));
    assert_eq!(first.iter(), second.iter());
    assert!(second.swap_remove(&users[7]).is_some());
    assert_ne!(first.iter(), second.iter());
    assert!(!first.shares_storage_with(&second));
}
