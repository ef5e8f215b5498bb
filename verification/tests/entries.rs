use stapler::entry::{clone_entries, find_node};
use stapler::{Entry, EntrySet};

fn node(id: u64, name: &str) -> Entry {
    Entry::Node {
        id,
        display: name.to_string(),
        canonical_path: format!("/{name}"),
        icon: Some(3),
    }
}

fn failure(message: &str) -> Entry {
    Entry::Error { message: message.to_string() }
}

#[test]
fn entries_are_equal_when_all_fields_agree() {
    assert_eq!(node(1, "a"), node(1, "a"));
    assert_ne!(node(1, "a"), node(2, "a"));
    assert_ne!(node(1, "a"), node(1, "b"));
    assert_ne!(node(1, "a"), failure("a"));
    assert_eq!(failure("x"), failure("x"));
    assert_ne!(failure("x"), failure("y"));
}

#[test]
fn entries_differ_by_path_and_icon() {
    let plain = Entry::Node {
        id: 1,
        display: "a".to_string(),
        canonical_path: "/a".to_string(),
        icon: None,
    };
    let moved = Entry::Node {
        id: 1,
        display: "a".to_string(),
        canonical_path: "/b/a".to_string(),
        icon: Some(3),
    };
    assert_ne!(node(1, "a"), plain);
    assert_ne!(node(1, "a"), moved);
}

#[test]
fn a_clone_is_equal_to_its_entry() {
    let entry = node(7, "seven");
    assert_eq!(entry.clone(), entry);
    let error = failure("broken");
    assert_eq!(error.clone(), error);
    assert!(entry.is_node());
    assert!(!error.is_node());
}

#[test]
fn cloned_lists_keep_order() {
    let list = vec![node(1, "a"), failure("x"), node(2, "b")];
    assert_eq!(clone_entries(&list), list);
    assert_eq!(clone_entries(&Vec::new()), Vec::<Entry>::new());
}

#[test]
fn find_node_looks_at_nodes_only() {
    let list = vec![node(1, "a"), failure("x"), node(2, "b")];
    assert!(find_node(&list, 1));
    assert!(find_node(&list, 2));
    assert!(!find_node(&list, 3));
    assert!(!find_node(&Vec::new(), 1));
}

#[test]
fn a_new_set_is_empty() {
    let set = EntrySet::new();
    assert_eq!(set.len(), 0);
    assert!(set.is_empty());
    assert!(!set.contains(&node(1, "a")));
    assert_eq!(set.position(&node(1, "a")), None);
    assert!(set.entries().is_empty());
}

#[test]
fn insert_adds_an_entry_once() {
    let mut set = EntrySet::new();
    assert!(set.insert(node(1, "a")));
    assert!(set.insert(node(2, "b")));
    assert!(!set.insert(node(1, "a")));
    assert_eq!(set.len(), 2);
    assert!(!set.is_empty());
    assert!(set.contains(&node(1, "a")));
    assert!(set.contains(&node(2, "b")));
    assert!(!set.contains(&node(3, "c")));
}

#[test]
fn a_set_keeps_the_order_of_insertion() {
    let mut set = EntrySet::new();
    set.insert(node(2, "b"));
    set.insert(node(1, "a"));
    set.insert(failure("x"));
    set.insert(node(2, "b"));
    assert_eq!(set.entries(), &vec![node(2, "b"), node(1, "a"), failure("x")]);
    assert_eq!(set.get(0), Some(&node(2, "b")));
    assert_eq!(set.get(2), Some(&failure("x")));
    assert_eq!(set.get(3), None);
    assert_eq!(set.position(&node(1, "a")), Some(1));
}

#[test]
fn remove_takes_out_the_entry_and_keeps_the_rest_in_order() {
    let mut set = EntrySet::new();
    set.insert(node(1, "a"));
    set.insert(node(2, "b"));
    set.insert(node(3, "c"));
    assert!(set.remove(&node(2, "b")));
    assert_eq!(set.entries(), &vec![node(1, "a"), node(3, "c")]);
    assert!(!set.remove(&node(2, "b")));
    assert_eq!(set.len(), 2);
    assert!(set.remove(&node(1, "a")));
    assert!(set.remove(&node(3, "c")));
    assert!(set.is_empty());
}

#[test]
fn a_cloned_set_holds_the_same_entries() {
    let mut set = EntrySet::new();
    set.insert(node(1, "a"));
    set.insert(node(2, "b"));
    let mut copy = set.clone();
    assert_eq!(copy.entries(), set.entries());
    copy.remove(&node(1, "a"));
    assert_eq!(set.len(), 2);
    assert_eq!(copy.len(), 1);
}
