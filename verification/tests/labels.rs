use sharpr::labels::{
    chosen_folder_mode, collection_created_message, delete_collection_message, library_editor_labels, library_created_message,
    active_library_name, active_segments, chip_visible, collection_tags, connection_test_message,
    current_filters, entered_text, image_count_label, is_local_url, library_menu_labels,
    library_subtitle, metadata_line, quality_style, score_label, ActiveFilters, FolderMode,
    QualityClass,
};

fn strings(v: &[&str]) -> Vec<String> {
    v.iter().map(|s| s.to_string()).collect()
}

#[test]
fn filters() {
    let f = ActiveFilters::default();
    assert!(f.quality.is_none() && f.tag.is_none());
    assert!(f.is_empty());
    let buttons = [(false, QualityClass::Excellent), (true, QualityClass::Fair), (true, QualityClass::Poor)];
    let f = current_filters(&buttons, "  beach ");
    assert_eq!(f.quality, Some(QualityClass::Fair));
    assert_eq!(f.tag.as_deref(), Some("beach"));
    assert!(!f.is_empty());
    let f = current_filters(&[(false, QualityClass::Good)], "   ");
    assert!(f.is_empty());
}

#[test]
fn metadata_chip() {
    assert_eq!(quality_style(QualityClass::Excellent), "success");
    assert_eq!(quality_style(QualityClass::Good), "success");
    assert_eq!(quality_style(QualityClass::Fair), "warning");
    assert_eq!(quality_style(QualityClass::Poor), "error");
    assert_eq!(quality_style(QualityClass::NeedsUpscale), "error");
    assert_eq!(score_label(Some(87)), "IQ 87%");
    assert_eq!(score_label(None), "IQ --");
    assert_eq!(active_segments(0), 0);
    assert_eq!(active_segments(1), 1);
    assert_eq!(active_segments(20), 1);
    assert_eq!(active_segments(21), 2);
    assert_eq!(active_segments(100), 5);
    assert!(chip_visible(true, false, true));
    assert!(!chip_visible(false, true, true));
    assert!(!chip_visible(true, false, false));
}

#[test]
fn metadata_lines() {
    assert_eq!(metadata_line(Some("1920 × 1080"), "PNG", "2.1 MB"), "1920×1080 · PNG · 2.1 MB");
    assert_eq!(metadata_line(None, "JPEG", ""), "JPEG");
    assert_eq!(metadata_line(Some("1 × 2 × 3"), "", ""), "1×2×3");
    assert_eq!(metadata_line(None, "", ""), "");
}

#[test]
fn tag_card_counts() {
    assert_eq!(image_count_label(1), "1 image");
    assert_eq!(image_count_label(0), "0 images");
    assert_eq!(image_count_label(12), "12 images");
}

#[test]
fn collection_tags_typed_as_text() {
    let pieces = strings(&["sky", "", "sea", "sky", "sand"]);
    assert_eq!(collection_tags(&pieces), strings(&["sky", "sea", "sand"]));
    assert_eq!(collection_tags(&[]), Vec::<String>::new());
}

#[test]
fn libraries() {
    assert_eq!(library_subtitle("/home/me/Pictures", FolderMode::TopLevel), "/home/me/Pictures  •  Top level only");
    assert_eq!(library_subtitle("/x", FolderMode::DrillDown), "/x  •  Drill into subfolders");
    let libs = vec![("a".to_string(), "Home".to_string()), ("b".to_string(), "Work".to_string())];
    assert_eq!(library_menu_labels(&libs, Some("b")), strings(&["Switch to Home", "Switch to Work  "]));
    assert_eq!(library_menu_labels(&libs[..1], Some("a")), Vec::<String>::new());
    assert_eq!(active_library_name(Some("Home")), "Home");
    assert_eq!(active_library_name(None), "Library");
}

#[test]
fn local_service_addresses() {
    assert!(is_local_url(""));
    assert!(is_local_url("   "));
    assert!(is_local_url("http://localhost:8188"));
    assert!(is_local_url("https://127.0.0.1:8188"));
    assert!(is_local_url(" ::1 "));
    assert!(!is_local_url("http://example.com"));
    assert!(!is_local_url("ftp://localhost"));
}

#[test]
fn small_texts() {
    assert_eq!(entered_text("  cats "), Some("cats".to_string()));
    assert_eq!(entered_text(" \t "), None);
    assert_eq!(connection_test_message(Ok(())), "ComfyUI is reachable!");
    assert_eq!(connection_test_message(Err("refused".into())), "refused");
}

#[test]
fn dialog_reports_and_folder_mode_choice() {
    assert_eq!(chosen_folder_mode(true), FolderMode::DrillDown);
    assert_eq!(chosen_folder_mode(false), FolderMode::TopLevel);
    assert_eq!(library_created_message(Ok(())), "Library created");
    assert_eq!(library_created_message(Err("name taken".to_string())), "name taken");
    assert_eq!(collection_created_message(Ok("Trips")), "Collection \u{201c}Trips\u{201d} created");
    assert_eq!(collection_created_message(Err("db locked")), "Could not create collection: db locked");
}

#[test]
fn library_editor_titles() {
    assert_eq!(library_editor_labels(true), ("Edit Library", "Save"));
    assert_eq!(library_editor_labels(false), ("Create Library", "Create"));
}

#[test]
fn deletion_dialog_names_the_collection() {
    assert_eq!(
        delete_collection_message("Trips"),
        "\u{201c}Trips\u{201d} and any child collections will be removed from the sidebar. Image tags are left unchanged."
    );
}
