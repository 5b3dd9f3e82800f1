use sharpr::collections::{
    collection_ancestors, collection_count_labels, collection_depth, collection_has_children,
    collection_root_color, collection_row_color, collection_tag_color_map, expand_ancestors,
    fallback_collection_color, lookup_tag_color, parent_lookup, resolved_collection_color,
    root_collection_id, toggle_collapsed, visible_collections, Collection,
};

fn coll(id: i64, parent: Option<i64>, name: &str, color: Option<&str>, tag: &str, extra: &[&str]) -> Collection {
    Collection {
        id,
        parent_id: parent,
        name: name.into(),
        color: color.map(|c| c.to_string()),
        primary_tag: tag.into(),
        extra_tags: extra.iter().map(|s| s.to_string()).collect(),
        item_count: 3,
    }
}

fn sample() -> Vec<Collection> {
    vec![
        coll(1, None, "Travel", Some("#ff0000"), "travel", &["trip"]),
        coll(2, Some(1), "Italy", None, "italy", &[]),
        coll(3, Some(2), "rome", None, "rome", &["italy"]),
        coll(4, None, "Food", None, "food", &[]),
    ]
}

#[test]
fn parents_roots_and_depths() {
    let cs = sample();
    assert_eq!(parent_lookup(&cs, 3), Some(2));
    assert_eq!(parent_lookup(&cs, 1), None);
    assert_eq!(root_collection_id(3, &cs), 1);
    assert_eq!(root_collection_id(4, &cs), 4);
    assert_eq!(collection_depth(3, &cs), 2);
    assert_eq!(collection_depth(1, &cs), 0);
    assert_eq!(collection_ancestors(3, &cs), vec![2, 1]);
    assert!(collection_has_children(1, &cs));
    assert!(!collection_has_children(3, &cs));
}

#[test]
fn colors() {
    let cs = sample();
    assert_eq!(fallback_collection_color(4), "#dc8add");
    assert_eq!(fallback_collection_color(8), "#57e389");
    assert_eq!(fallback_collection_color(-1), "#9141ac");
    assert_eq!(resolved_collection_color(3, &cs), "#ff0000");
    assert_eq!(resolved_collection_color(4, &cs), "#dc8add");
    assert_eq!(collection_root_color(1, &cs), Some("#ff0000".to_string()));
    assert_eq!(collection_root_color(2, &cs), None);
    assert_eq!(collection_row_color(3, &cs), "#ff0000");
    assert_eq!(collection_row_color(4, &cs), "#dc8add");
}

#[test]
fn tag_colors_follow_the_last_collection_naming_them() {
    let cs = sample();
    let map = collection_tag_color_map(&cs);
    assert_eq!(lookup_tag_color(&map, "travel"), Some("#ff0000".to_string()));
    assert_eq!(lookup_tag_color(&map, "trip"), Some("#ff0000".to_string()));
    assert_eq!(lookup_tag_color(&map, "italy"), Some("#ff0000".to_string()));
    assert_eq!(lookup_tag_color(&map, "food"), Some("#dc8add".to_string()));
    assert_eq!(lookup_tag_color(&map, "none"), None);
}

#[test]
fn sidebar_rows() {
    let cs = sample();
    let rows: Vec<i64> = visible_collections(&cs, &[]).iter().map(|c| c.id).collect();
    assert_eq!(rows, vec![4, 1, 2, 3]);
    let rows: Vec<i64> = visible_collections(&cs, &[2]).iter().map(|c| c.id).collect();
    assert_eq!(rows, vec![4, 1, 2]);
    let rows: Vec<i64> = visible_collections(&cs, &[1]).iter().map(|c| c.id).collect();
    assert_eq!(rows, vec![4, 1]);
}

#[test]
fn collapsing_rows() {
    let mut collapsed = vec![1, 4];
    toggle_collapsed(&mut collapsed, 4);
    assert_eq!(collapsed, vec![1]);
    toggle_collapsed(&mut collapsed, 7);
    collapsed.sort();
    assert_eq!(collapsed, vec![1, 7]);
    toggle_collapsed(&mut collapsed, 7);
    assert_eq!(collapsed, vec![1]);
    let mut collapsed = vec![1, 2, 4];
    expand_ancestors(&mut collapsed, &vec![2, 1]);
    assert_eq!(collapsed, vec![4]);
}

#[test]
fn count_labels() {
    assert_eq!(collection_count_labels(1), ("1".to_string(), "1 tag-matched image".to_string()));
    assert_eq!(collection_count_labels(42), ("42".to_string(), "42 tag-matched images".to_string()));
    assert_eq!(collection_count_labels(0), ("0".to_string(), "0 tag-matched images".to_string()));
}

#[test]
fn a_loop_of_repeated_ids_still_lists_rows() {
    // A root with id 1 and a second collection, also id 1, below it: its
    // children are itself again. Listing stops after as many levels as
    // there are collections.
    let cs = vec![coll(1, None, "Root", None, "root", &[]), coll(1, Some(1), "Loop", None, "loop", &[])];
    let rows: Vec<String> = visible_collections(&cs, &[]).into_iter().map(|c| c.name).collect();
    assert_eq!(rows, vec!["Root", "Loop", "Loop"]);
}
