use redbear::{ConstructionError, KeyIndex};

fn keys(names: &[&str]) -> Vec<String> {
    names.iter().map(|name| name.to_string()).collect()
}

#[test]
fn index_gives_each_key_its_position() {
    let index = KeyIndex::build(keys(&["x", "y", "z"])).unwrap();
    assert_eq!(index.len(), 3);
    assert_eq!(index.position_of("x"), Some(0));
    assert_eq!(index.position_of("y"), Some(1));
    assert_eq!(index.position_of("z"), Some(2));
    assert_eq!(index.key(0), "x");
    assert_eq!(index.key(1), "y");
    assert_eq!(index.key(2), "z");
}

#[test]
fn index_does_not_find_other_keys() {
    let index = KeyIndex::build(keys(&["x", "y"])).unwrap();
    assert_eq!(index.position_of("w"), None);
    assert_eq!(index.position_of(""), None);
    assert_eq!(index.position_of("xy"), None);
}

#[test]
fn empty_index_has_no_keys() {
    let index = KeyIndex::build(Vec::new()).unwrap();
    assert_eq!(index.len(), 0);
    assert_eq!(index.position_of("x"), None);
}

#[test]
fn index_reports_first_repeated_key() {
    let r = KeyIndex::build(keys(&["x", "y", "z", "y", "x"]));
    assert!(matches!(r, Err(ConstructionError::DuplicateKey(3))));
}

#[test]
fn same_layout_compares_keys_by_position() {
    let a = KeyIndex::build(keys(&["x", "y", "z"])).unwrap();
    let b = KeyIndex::build(keys(&["x", "y", "z"])).unwrap();
    let shuffled = KeyIndex::build(keys(&["y", "x", "z"])).unwrap();
    let shorter = KeyIndex::build(keys(&["x", "y"])).unwrap();
    let other = KeyIndex::build(keys(&["x", "y", "w"])).unwrap();
    assert!(a.same_layout(&a));
    assert!(a.same_layout(&b));
    assert!(b.same_layout(&a));
    assert!(!a.same_layout(&shuffled));
    assert!(!a.same_layout(&shorter));
    assert!(!shorter.same_layout(&a));
    assert!(!a.same_layout(&other));
}

#[test]
fn construction_error_compares_by_position() {
    assert_eq!(ConstructionError::DuplicateKey(1), ConstructionError::DuplicateKey(1));
    assert_ne!(ConstructionError::DuplicateKey(1), ConstructionError::DuplicateKey(2));
}
