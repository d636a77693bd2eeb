//! Tests of the status map.

use quay::server::{new_status_map, set_status};

#[test]
fn new_status_map_populates_entries() {
    let map = new_status_map(vec!["a".to_string(), "b".to_string()]);
    assert_eq!(map.get("a").unwrap(), "up to date");
    assert_eq!(map.get("b").unwrap(), "up to date");
    assert_eq!(map.len(), 2);
}

#[test]
fn new_status_map_empty_input() {
    let map = new_status_map(Vec::<String>::new());
    assert!(map.len() == 0);
}

#[test]
fn new_status_map_single_entry() {
    let map = new_status_map(vec!["only".to_string()]);
    assert_eq!(map.len(), 1);
    assert_eq!(map.get("only").unwrap(), "up to date");
}

#[test]
fn new_status_map_duplicate_names_deduplicates() {
    // A name is listed once.
    let map = new_status_map(vec!["dup".to_string(), "dup".to_string()]);
    assert_eq!(map.len(), 1);
    assert_eq!(map.get("dup").unwrap(), "up to date");
}

#[test]
fn new_status_map_special_characters() {
    let map = new_status_map(vec![
        "name with spaces".to_string(),
        "path/to/thing".to_string(),
        "émojis 🎉".to_string(),
    ]);
    assert_eq!(map.len(), 3);
    assert_eq!(map.get("émojis 🎉").unwrap(), "up to date");
}

#[test]
fn set_status_updates_entry() {
    let mut map = new_status_map(vec!["cfg".to_string()]);
    set_status(&mut map, "cfg", "reloading");
    assert_eq!(map.get("cfg").unwrap(), "reloading");
}

#[test]
fn set_status_creates_new_entry() {
    let mut map = new_status_map(Vec::<String>::new());
    set_status(&mut map, "new_cfg", "building");
    assert_eq!(map.get("new_cfg").unwrap(), "building");
}

#[test]
fn set_status_overwrites_existing() {
    let mut map = new_status_map(vec!["x".to_string()]);
    set_status(&mut map, "x", "first");
    set_status(&mut map, "x", "second");
    set_status(&mut map, "x", "third");
    assert_eq!(map.get("x").unwrap(), "third");
}

#[test]
fn set_status_empty_strings() {
    let mut map = new_status_map(Vec::<String>::new());
    set_status(&mut map, "", "");
    assert_eq!(map.get("").unwrap(), "");
}
