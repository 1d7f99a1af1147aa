use bond::index::Index;
use bond::status::format_status;

#[test]
fn empty_index() {
    let index = Index::new();
    assert_eq!(index.len(), 0);
    assert!(!index.contains_key(&"a/s".to_string()));
    assert!(index.get(&"a/s".to_string()).is_none());
}

#[test]
fn insert_then_lookup() {
    let mut index = Index::new();
    index.insert("a/s".to_string(), vec!["b/s".to_string(), "c/t".to_string()]);
    assert_eq!(index.len(), 1);
    assert!(index.contains_key(&"a/s".to_string()));
    let dests = index.get(&"a/s".to_string()).expect("entry");
    assert_eq!(dests, &vec!["b/s".to_string(), "c/t".to_string()]);
}

#[test]
fn entries_with_equal_destinations_stay_distinct() {
    let mut index = Index::new();
    index.insert("a/s".to_string(), vec!["b/s".to_string()]);
    index.insert("a/t".to_string(), vec!["b/s".to_string()]);
    assert_eq!(index.len(), 2);
    assert!(index.contains_key(&"a/s".to_string()));
    assert!(index.contains_key(&"a/t".to_string()));
    assert!(!index.contains_key(&"b/s".to_string()));
}

#[test]
fn status_renders_exact_totals() {
    assert_eq!(format_status(0).ready, "0/0");
    assert_eq!(format_status(1).ready, "0/1");
    assert_eq!(format_status(9).ready, "0/9");
    assert_eq!(format_status(10).ready, "0/10");
    assert_eq!(format_status(123).ready, "0/123");
    assert_eq!(format_status(1000).ready, "0/1000");
}
