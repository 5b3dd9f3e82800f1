use sharpr::tags::{
    filter_and_group_tags, group_key_for_tag, update_selection, SelectionModifiers, TagViewModel,
};

#[test]
fn group_key_uses_hash_for_non_letters() {
    assert_eq!(group_key_for_tag("alpha"), 'A');
    assert_eq!(group_key_for_tag("9lives"), '#');
    assert_eq!(group_key_for_tag("_misc"), '#');
}

#[test]
fn filtering_hides_empty_groups_and_is_case_insensitive() {
    let tags = vec![
        TagViewModel {
            name: "alpha".into(),
            count: 1,
            group_key: 'A',
            accent_color: None,
            preview_path: None,
            selected: false,
        },
        TagViewModel {
            name: "Beta".into(),
            count: 1,
            group_key: 'B',
            accent_color: None,
            preview_path: None,
            selected: false,
        },
        TagViewModel {
            name: "beach".into(),
            count: 1,
            group_key: 'B',
            accent_color: None,
            preview_path: None,
            selected: false,
        },
    ];

    let groups = filter_and_group_tags(&tags, "BEA");
    assert_eq!(groups.len(), 1);
    assert_eq!(groups[0].key, 'B');
    assert_eq!(groups[0].tags.len(), 1);
    assert_eq!(groups[0].tags[0].name, "beach");
}

#[test]
fn plain_click_selects_one_tag() {
    let update = update_selection(
        vec!["alpha".to_string(), "beta".to_string()],
        &["alpha".into(), "beta".into(), "gamma".into()],
        Some("alpha".into()),
        "gamma",
        SelectionModifiers::default(),
    );
    assert_eq!(update.selected_tags, vec!["gamma".to_string()]);
    assert_eq!(update.anchor.as_deref(), Some("gamma"));
}

#[test]
fn ctrl_click_toggles_additional_tags() {
    let update = update_selection(
        vec!["alpha".to_string()],
        &["alpha".into(), "beta".into(), "gamma".into()],
        Some("alpha".into()),
        "beta",
        SelectionModifiers {
            ctrl: true,
            shift: false,
        },
    );
    assert_eq!(
        update.selected_tags,
        vec!["alpha".to_string(), "beta".to_string()]
    );
}

#[test]
fn shift_click_extends_across_visible_order() {
    let update = update_selection(
        vec!["beta".to_string()],
        &[
            "alpha".into(),
            "beta".into(),
            "gamma".into(),
            "delta".into(),
        ],
        Some("beta".into()),
        "delta",
        SelectionModifiers {
            ctrl: false,
            shift: true,
        },
    );
    // The selected set {beta, gamma, delta}, listed in ascending order.
    assert_eq!(
        update.selected_tags,
        vec!["beta".to_string(), "delta".to_string(), "gamma".to_string()]
    );
}
