use crustdown::front_matter::FrontMatter;

#[test]
fn new_mapping_is_empty() {
    let front_matter = FrontMatter::new();
    assert_eq!(front_matter.len(), 0);
    assert!(front_matter.is_empty());
    assert_eq!(front_matter.get("title"), None);
    assert!(!front_matter.contains_key("title"));
}

#[test]
fn insert_gives_a_key_its_value() {
    let mut front_matter = FrontMatter::new();
    front_matter.insert("title".to_string(), "One".to_string());
    front_matter.insert("date".to_string(), "2021-01-01".to_string());
    assert_eq!(front_matter.len(), 2);
    assert!(!front_matter.is_empty());
    assert_eq!(front_matter.get("title"), Some(&"One".to_string()));
    assert_eq!(front_matter.get("date"), Some(&"2021-01-01".to_string()));
    assert!(front_matter.contains_key("date"));
    assert!(!front_matter.contains_key("tags"));
}

#[test]
fn insert_replaces_the_value_of_a_key_in_place() {
    let mut front_matter = FrontMatter::new();
    front_matter.insert("a".to_string(), "1".to_string());
    front_matter.insert("b".to_string(), "2".to_string());
    front_matter.insert("a".to_string(), "3".to_string());
    assert_eq!(front_matter.len(), 2);
    assert_eq!(front_matter.get("a"), Some(&"3".to_string()));
    assert_eq!(
        front_matter.entries(),
        &vec![
            ("a".to_string(), "3".to_string()),
            ("b".to_string(), "2".to_string())
        ]
    );
}

#[test]
fn remove_takes_a_key_out_and_keeps_the_order() {
    let mut front_matter = FrontMatter::new();
    front_matter.insert("a".to_string(), "1".to_string());
    front_matter.insert("b".to_string(), "2".to_string());
    front_matter.insert("c".to_string(), "3".to_string());
    assert_eq!(front_matter.remove("b"), Some("2".to_string()));
    assert_eq!(front_matter.remove("b"), None);
    assert_eq!(front_matter.len(), 2);
    assert_eq!(
        front_matter.entries(),
        &vec![
            ("a".to_string(), "1".to_string()),
            ("c".to_string(), "3".to_string())
        ]
    );
}

#[test]
fn clone_keeps_the_entries() {
    let mut front_matter = FrontMatter::new();
    front_matter.insert("a".to_string(), "1".to_string());
    front_matter.insert("b".to_string(), "2".to_string());
    let copy = front_matter.clone();
    front_matter.insert("a".to_string(), "9".to_string());
    assert_eq!(copy.get("a"), Some(&"1".to_string()));
    assert_eq!(copy.len(), 2);
    assert_eq!(copy.entries()[1], ("b".to_string(), "2".to_string()));
}
