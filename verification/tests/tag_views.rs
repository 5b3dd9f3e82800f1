use sharpr::tags::{
    after_tag_deleted, cards_showing, toolbar_state, BrowserMode,
    build_tag_view_models, empty_state_message, filter_and_group_tags, prune_selection,
    tag_activation, tag_drag_payload, visible_order, SelectionModifiers, TagViewModel,
};

fn tag(name: &str, key: char) -> TagViewModel {
    TagViewModel {
        name: name.into(),
        count: 1,
        group_key: key,
        accent_color: None,
        preview_path: None,
        selected: false,
    }
}

#[test]
fn view_models_skip_unused_tags_and_carry_color_preview_and_selection() {
    let all = vec![
        ("sunset".to_string(), 3usize),
        ("unused".to_string(), 0usize),
        ("9lives".to_string(), 1usize),
    ];
    let previews = vec![Some("/p/a.png".to_string()), None, None];
    let colors = vec![("sunset".to_string(), "#ff7800".to_string())];
    let selected = vec!["9lives".to_string()];
    let models = build_tag_view_models(&all, &previews, &colors, &selected);
    assert_eq!(models.len(), 2);
    assert_eq!(models[0].name, "sunset");
    assert_eq!(models[0].count, 3);
    assert_eq!(models[0].group_key, 'S');
    assert_eq!(models[0].accent_color.as_deref(), Some("#ff7800"));
    assert_eq!(models[0].preview_path.as_deref(), Some("/p/a.png"));
    assert!(!models[0].selected);
    assert_eq!(models[1].name, "9lives");
    assert_eq!(models[1].group_key, '#');
    assert_eq!(models[1].accent_color, None);
    assert!(models[1].selected);
}

#[test]
fn pruning_drops_tags_no_longer_in_use() {
    let all = vec![("a".to_string(), 2usize), ("b".to_string(), 0usize)];
    let selected = vec!["a".to_string(), "b".to_string(), "c".to_string()];
    let (kept, anchor) = prune_selection(&selected, Some("b".to_string()), &all);
    assert_eq!(kept, vec!["a".to_string()]);
    assert_eq!(anchor, None);
    let (_, anchor) = prune_selection(&selected, Some("a".to_string()), &all);
    assert_eq!(anchor.as_deref(), Some("a"));
}

#[test]
fn visible_order_lists_names_group_after_group() {
    let groups = filter_and_group_tags(&[tag("beta", 'B'), tag("Alpha", 'A'), tag("apple", 'A')], "");
    let order = visible_order(&groups);
    assert_eq!(order, vec!["Alpha".to_string(), "apple".to_string(), "beta".to_string()]);
}

#[test]
fn empty_state_messages_by_cause() {
    assert_eq!(empty_state_message(false, true, true), Some("Tags are unavailable."));
    assert_eq!(
        empty_state_message(true, false, false),
        Some("No tags yet.\nSelect an image and press Ctrl+T to add tags.")
    );
    assert_eq!(empty_state_message(true, true, false), Some("No tags match this search."));
    assert_eq!(empty_state_message(true, true, true), None);
}

#[test]
fn activation_focuses_viewer_only_on_plain_click() {
    let tags = vec!["a".to_string(), "b".to_string()];
    let plain = tag_activation(&tags, SelectionModifiers { ctrl: false, shift: false });
    assert_eq!(plain.tags, tags);
    assert!(plain.focus_viewer);
    let ctrl = tag_activation(&tags, SelectionModifiers { ctrl: true, shift: false });
    assert!(!ctrl.focus_viewer);
    let shift = tag_activation(&tags, SelectionModifiers { ctrl: false, shift: true });
    assert!(!shift.focus_viewer);
}

#[test]
fn tag_drag_payload_is_prefixed() {
    assert_eq!(tag_drag_payload("beach"), "tag:beach");
}

#[test]
fn deleting_a_tag_drops_it_from_selection_and_anchor() {
    let selected = vec!["a".to_string(), "b".to_string(), "c".to_string()];
    let (kept, anchor) = after_tag_deleted(&selected, Some("b".to_string()), "b");
    assert_eq!(kept, vec!["a".to_string(), "c".to_string()]);
    assert_eq!(anchor, None);
    let (kept, anchor) = after_tag_deleted(&selected, Some("a".to_string()), "z");
    assert_eq!(kept, selected);
    assert_eq!(anchor.as_deref(), Some("a"));
}

#[test]
fn toolbar_follows_selection_and_layout() {
    assert_eq!(toolbar_state(true, BrowserMode::Grid), (true, true, false));
    assert_eq!(toolbar_state(false, BrowserMode::List), (false, false, true));
}

#[test]
fn preview_refresh_targets_matching_cards() {
    let previews = vec![
        Some("/p/a.png".to_string()),
        None,
        Some("/p/b.png".to_string()),
        Some("/p/a.png".to_string()),
    ];
    assert_eq!(cards_showing(&previews, "/p/a.png"), vec![0, 3]);
    assert_eq!(cards_showing(&previews, "/p/c.png"), Vec::<usize>::new());
}
