use room_sync::keyed::{IdSet, KeyedList};
use room_sync::text::{
    contains_text, copy_texts, position_of, same_opt_text, same_text, text_less, write_decimal,
};

fn ids(list: &[&str]) -> Vec<String> {
    list.iter().map(|id| id.to_string()).collect()
}

#[test]
fn texts_are_ordered_by_their_bytes() {
    for (a, b) in [("", "a"), ("a", "b"), ("a", "ab"), ("Z", "a"), ("z", "é"), ("é", "１")] {
        assert!(text_less(a, b), "{a} {b}");
        assert!(!text_less(b, a));
        assert!(a < b);
    }
    assert!(!text_less("a", "a"));
}

#[test]
fn texts_are_found() {
    let list = ids(&["a", "b", "a"]);
    assert_eq!(position_of(&list, "a"), Some(0));
    assert_eq!(position_of(&list, "b"), Some(1));
    assert_eq!(position_of(&list, "c"), None);
    assert!(contains_text(&list, "b"));
    assert!(!contains_text(&list, ""));
    assert_eq!(copy_texts(&list), list);
    assert!(same_text("é", "é"));
    assert!(same_opt_text(&None, &None));
    assert!(!same_opt_text(&Some("a".to_owned()), &None));
    assert!(same_opt_text(&Some("a".to_owned()), &Some("a".to_owned())));
}

#[test]
fn numbers_are_written() {
    for n in [0, 9, 10, 907, u64::MAX] {
        assert_eq!(write_decimal(n), n.to_string());
    }
}

#[test]
fn sets_hold_each_identifier_once() {
    let mut set = IdSet::from_ids(&ids(&["a", "b", "a"]));
    assert_eq!(set.len(), 2);
    assert!(!set.insert("a"));
    assert!(set.insert("c"));
    assert!(set.contains("c"));
    assert!(set.same_as(&IdSet::from_ids(&ids(&["c", "b", "a"]))));
    assert!(!set.same_as(&IdSet::new()));
    assert!(IdSet::new().is_subset_of(&set));
    assert_eq!(set.clone().to_ids(), ids(&["a", "b", "c"]));
}

#[test]
fn keyed_values_are_replaced() {
    let mut list = KeyedList::new();
    list.insert("a".to_owned(), 1);
    list.insert("b".to_owned(), 2);
    list.insert("a".to_owned(), 3);
    assert_eq!(list.get("a"), Some(&3));
    assert_eq!(list.get("c"), None);
    assert_eq!(list.entries().len(), 2);
    list.clear();
    assert_eq!(list.get("a"), None);
}
