use sharpr::drops::{collection_drag_payload, collection_drop, parse_i64, tag_drop, uri_list_entries, CollectionDrop, DroppedEntry};

fn chars(s: &str) -> Vec<char> {
    s.chars().collect()
}

#[test]
fn whole_numbers_in_text() {
    assert_eq!(parse_i64(&chars("42")), Some(42));
    assert_eq!(parse_i64(&chars("+7")), Some(7));
    assert_eq!(parse_i64(&chars("-9223372036854775808")), Some(i64::MIN));
    assert_eq!(parse_i64(&chars("9223372036854775807")), Some(i64::MAX));
    assert_eq!(parse_i64(&chars("9223372036854775808")), None);
    assert_eq!(parse_i64(&chars("-")), None);
    assert_eq!(parse_i64(&chars("")), None);
    assert_eq!(parse_i64(&chars("1a")), None);
    assert_eq!(parse_i64(&chars(" 1")), None);
}

#[test]
fn dropping_a_collection_onto_another() {
    assert_eq!(collection_drag_payload(12), "collection:12");
    assert_eq!(collection_drag_payload(-3), "collection:-3");
    assert!(matches!(collection_drop("collection:12", 5), CollectionDrop::Reparent { source_id: 12 }));
    assert!(matches!(collection_drop("collection:12", 12), CollectionDrop::Refuse));
    for id in [0i64, 7, -3, i64::MAX, i64::MIN] {
        let payload = collection_drag_payload(id);
        assert!(matches!(collection_drop(&payload, 99), CollectionDrop::Reparent { source_id } if source_id == id));
    }
}

#[test]
fn dropping_images_onto_a_collection() {
    match collection_drop("/p/a.png\n\n/p/b.png\n", 1) {
        CollectionDrop::AddPaths(paths) => assert_eq!(paths, vec!["/p/a.png", "/p/b.png"]),
        other => panic!("unexpected {other:?}"),
    }
    match collection_drop("collection:abc", 1) {
        CollectionDrop::AddPaths(paths) => assert_eq!(paths, vec!["collection:abc"]),
        other => panic!("unexpected {other:?}"),
    }
    assert!(matches!(collection_drop("", 1), CollectionDrop::Refuse));
    assert!(matches!(collection_drop("\n\n", 1), CollectionDrop::Refuse));
}

#[test]
fn dragged_paths_come_back_when_dropped() {
    let dragged = "/p/a.png\n/p/b c.png\n/q/d.jpg";
    match collection_drop(dragged, 4) {
        CollectionDrop::AddPaths(paths) => assert_eq!(paths, vec!["/p/a.png", "/p/b c.png", "/q/d.jpg"]),
        other => panic!("unexpected {other:?}"),
    }
}

#[test]
fn tags_dropped_on_the_collection_list() {
    assert_eq!(tag_drop("tag:sunset"), Some("sunset".to_string()));
    assert_eq!(tag_drop("tag:"), Some(String::new()));
    assert_eq!(tag_drop("collection:1"), None);
}

#[test]
fn uri_lists_dropped_on_the_queue() {
    let entries = uri_list_entries("# comment\r\nfile:///p/a.png\r\n  /p/b.png  \n\n");
    assert_eq!(entries.len(), 2);
    assert!(matches!(&entries[0], DroppedEntry::Uri(u) if u == "file:///p/a.png"));
    assert!(matches!(&entries[1], DroppedEntry::Path(p) if p == "/p/b.png"));
    assert!(uri_list_entries("").is_empty());
}
