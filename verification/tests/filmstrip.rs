use sharpr::filmstrip::{
    collection_menu_state, drag_payload, position_label, thumbnail_ranges, thumbnail_requests,
    PathSelection, PendingThumbnails, ThumbnailRanges, BUFFER_ROWS, FALLBACK_VISIBLE_ROWS,
};

fn chars(s: &str) -> Vec<char> {
    s.chars().collect()
}

fn text(v: &[Vec<char>]) -> Vec<String> {
    v.iter().map(|c| c.iter().collect()).collect()
}

#[test]
fn ranges_around_the_visible_rows() {
    let r = thumbnail_ranges(3000, 10, 10_000);
    assert_eq!(
        r,
        ThumbnailRanges { visible_start: 3000, visible_end: 3010, preload_start: 1000, preload_end: 5010, visible: true }
    );
    let r = thumbnail_ranges(5, 10, 12);
    assert_eq!(r, ThumbnailRanges { visible_start: 5, visible_end: 12, preload_start: 0, preload_end: 12, visible: true });
    assert_eq!(BUFFER_ROWS, 2000);
    assert_eq!(FALLBACK_VISIBLE_ROWS, 40);
}

#[test]
fn ranges_before_the_view_has_a_size() {
    let r = thumbnail_ranges(0, 0, 100);
    assert_eq!(r, ThumbnailRanges { visible_start: 0, visible_end: 40, preload_start: 0, preload_end: 100, visible: false });
    let r = thumbnail_ranges(500, 10, 100);
    assert_eq!(r, ThumbnailRanges { visible_start: 0, visible_end: 40, preload_start: 0, preload_end: 100, visible: true });
    let r = thumbnail_ranges(u32::MAX, 5, u32::MAX);
    assert_eq!(r.visible_start, 0);
}

#[test]
fn thumbnails_requested_visible_first() {
    let r = thumbnail_ranges(2, 2, 6);
    let missing = vec![true, false, true, true, false, true];
    let (vis, pre) = thumbnail_requests(r, &missing);
    assert_eq!(vis, vec![2, 3]);
    assert_eq!(pre, vec![0, 5]);
    let r = thumbnail_ranges(0, 0, 3);
    let (vis, pre) = thumbnail_requests(r, &[true, true, true]);
    assert!(vis.is_empty());
    assert_eq!(pre, vec![0, 1, 2]);
}

#[test]
fn picking_images() {
    let mut sel = PathSelection::new();
    let a = chars("/p/a.png");
    let b = chars("/p/b.png");
    let c = chars("/p/c.png");
    sel.set_action_selection_to_path(&b, true);
    assert!(sel.contains(&b));
    assert!(!sel.show_multi());
    sel.set_action_selection_to_path(&c, false);
    assert!(!sel.contains(&c));
    assert!(sel.paths.is_empty());

    // With nothing picked, the shown image is picked first.
    sel.toggle_action_selection_path(&a, Some(&b), true);
    assert!(sel.contains(&a) && sel.contains(&b));
    assert!(sel.show_multi());
    assert!(sel.is_marked(&a));
    sel.toggle_action_selection_path(&a, Some(&b), true);
    assert!(!sel.contains(&a) && sel.contains(&b));
    assert!(!sel.is_marked(&b));
    // A path outside the library is not added.
    sel.toggle_action_selection_path(&c, None, false);
    assert!(!sel.contains(&c));
    sel.clear_multi_selection();
    assert!(sel.paths.is_empty());
}

#[test]
fn toggling_twice_restores_the_picks() {
    let mut sel = PathSelection::new();
    let a = chars("/p/a.png");
    let b = chars("/p/b.png");
    sel.set_action_selection_to_path(&a, true);
    let before = text(&sel.paths);
    sel.toggle_action_selection_path(&b, None, true);
    sel.toggle_action_selection_path(&b, None, true);
    assert_eq!(text(&sel.paths), before);
}

#[test]
fn paths_of_a_collection_action() {
    let mut sel = PathSelection::new();
    let a = chars("/p/a.png");
    let b = chars("/p/b.png");
    let c = chars("/p/c.png");
    sel.set_action_selection_to_path(&b, true);
    sel.toggle_action_selection_path(&a, None, true);
    assert_eq!(text(&sel.collection_action_paths(&a)), vec!["/p/a.png", "/p/b.png"]);
    assert_eq!(text(&sel.collection_action_paths(&c)), vec!["/p/c.png"]);
}

#[test]
fn drag_text_and_labels() {
    let paths = vec![chars("/p/a.png"), chars("/p/b.png")];
    assert_eq!(drag_payload(&paths), "/p/a.png\n/p/b.png");
    assert_eq!(drag_payload(&vec![chars("/x")]), "/x");
    assert_eq!(position_label(0), "1");
    assert_eq!(position_label(41), "42");
    assert_eq!(collection_menu_state(true, false), (true, false, false));
    assert_eq!(collection_menu_state(false, true), (false, true, true));
}

#[test]
fn thumbnails_are_requested_once_until_ready_or_refused() {
    let mut pending = PendingThumbnails::new();
    let a = chars("/p/a.png");
    let b = chars("/p/b.png");
    assert!(pending.claim(&a));
    assert!(pending.after_send(&a, true));
    // Already pending: not requested again.
    assert!(!pending.claim(&a));
    // A refused request gives the claim back and ends the batch.
    assert!(pending.claim(&b));
    assert!(!pending.after_send(&b, false));
    assert_eq!(pending.paths, vec![a.clone()]);
    assert!(pending.claim(&b));
    // A ready thumbnail can be requested again.
    pending.mark_ready(&a);
    assert_eq!(pending.paths, vec![b.clone()]);
    assert!(pending.claim(&a));
}
