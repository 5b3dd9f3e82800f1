use sharpr::viewer::{
    commit_attempt_path, first_free_commit_path,
    load_error_message, output_dir_error_message, LoadFailure,
    preview_pending_path, upscale_job_options, upscale_source_dimensions,
    committed_base_path, committed_candidate, committed_name, pending_output_path, tag_summary,
    upscale_output_path, ZoomMode,
};

fn names(v: &[&str]) -> Vec<String> {
    v.iter().map(|s| s.to_string()).collect()
}

#[test]
fn zoom_modes() {
    assert_eq!(ZoomMode::Fit.toggled(), ZoomMode::OneToOne);
    assert_eq!(ZoomMode::OneToOne.toggled(), ZoomMode::Fit);
    assert_eq!(ZoomMode::Fit.toggled().toggled(), ZoomMode::Fit);
    assert_eq!(ZoomMode::Fit.button(), ("zoom-fit-best-symbolic", "1:1 Pixels (switch to actual size)"));
    assert_eq!(ZoomMode::OneToOne.button(), ("zoom-original-symbolic", "Fit to Window (switch to fit)"));
    assert!(ZoomMode::Fit.needs_toggle(ZoomMode::OneToOne));
    assert!(!ZoomMode::Fit.needs_toggle(ZoomMode::Fit));
}

#[test]
fn tag_summaries() {
    assert_eq!(tag_summary(&[]), ("Add tag".to_string(), "Add tags".to_string()));
    assert_eq!(tag_summary(&names(&["sky"])), ("sky".to_string(), "Tags: sky".to_string()));
    assert_eq!(
        tag_summary(&names(&["a", "b", "c"])),
        ("a · b · c".to_string(), "Tags: a, b, c".to_string())
    );
    assert_eq!(
        tag_summary(&names(&["a", "b", "c", "d", "e"])),
        ("a · b · c +2".to_string(), "Tags: a, b, c, d, e".to_string())
    );
}

#[test]
fn upscale_files() {
    assert_eq!(upscale_output_path("/p/cat.jpg", "png"), "/p/upscaled/cat.png");
    assert_eq!(upscale_output_path("cat.jpg", "webp"), "upscaled/cat.webp");
    assert_eq!(pending_output_path("/p/upscaled/cat.png", 77), "/p/upscaled/cat.pending-77.png");
    assert_eq!(pending_output_path("/p/upscaled/cat", 5), "/p/upscaled/cat.pending-5");
    assert_eq!(committed_base_path("/p/upscaled/cat.pending-77.png"), "/p/upscaled/cat.png");
    assert_eq!(committed_base_path("/p/x.pending-5"), "/p/x");
    assert_eq!(committed_base_path("/p/plain.png"), "/p/plain.png");
    assert_eq!(committed_candidate("/p/upscaled/cat.pending-77.png", 2), "/p/upscaled/cat_2.png");
    assert_eq!(committed_candidate("/p/x.pending-5", 1), "/p/x_1");
}

#[test]
fn committing_a_pending_file_gives_the_final_name() {
    for final_path in ["/p/upscaled/cat.png", "/p/upscaled/archive.tar.gz", "/p/noext", "/p/.hidden"] {
        let pending = pending_output_path(final_path, 4242);
        assert_eq!(committed_base_path(&pending), final_path);
    }
}

#[test]
fn committed_names() {
    let n: Vec<char> = "a.pending-1.b.c".chars().collect();
    assert_eq!(committed_name(&n).into_iter().collect::<String>(), "a.b.c");
    let n: Vec<char> = "a.pending-1".chars().collect();
    assert_eq!(committed_name(&n).into_iter().collect::<String>(), "a");
}

#[test]
fn preview_goes_to_destination_with_pending_marker() {
    assert_eq!(
        preview_pending_path("/out", "/p/cat.jpg", "webp", 42),
        "/out/cat.pending-42.webp"
    );
    assert_eq!(preview_pending_path("/out/", "/", "png", 7), "/out/.pending-7.png");
}

#[test]
fn viewer_upscale_options_are_bounded() {
    assert_eq!(upscale_job_options(30, 0, -1), (50, None, None));
    assert_eq!(upscale_job_options(120, 256, 0), (100, Some(256), Some(0)));
    assert_eq!(upscale_job_options(85, -5, 2), (85, None, Some(2)));
}

#[test]
fn viewer_upscale_falls_back_to_read_dimensions() {
    assert_eq!(upscale_source_dimensions((0, 0), (640, 480)), (640, 480));
    assert_eq!(upscale_source_dimensions((0, 0), (640, 0)), (0, 0));
    assert_eq!(upscale_source_dimensions((800, 600), (640, 480)), (800, 600));
}

#[test]
fn load_failures_have_messages() {
    assert_eq!(load_error_message(LoadFailure::OpenFailed), "Could not open file");
    assert_eq!(load_error_message(LoadFailure::FormatDetectFailed), "Unsupported image format");
    assert_eq!(load_error_message(LoadFailure::Unsupported), "Unsupported image format");
    assert_eq!(load_error_message(LoadFailure::InvalidDimensions), "Image has invalid dimensions");
    assert_eq!(load_error_message(LoadFailure::Other), "Could not load image");
}

#[test]
fn output_folder_failure_names_folder_and_error() {
    assert_eq!(
        output_dir_error_message("/p/upscaled", "permission denied"),
        "Failed to create output directory /p/upscaled: permission denied"
    );
}

#[test]
fn commit_goes_to_the_first_free_place() {
    let pending = "/p/up/cat.pending-9.png";
    assert_eq!(commit_attempt_path(pending, 0), "/p/up/cat.png");
    assert_eq!(commit_attempt_path(pending, 2), "/p/up/cat_2.png");
    assert_eq!(first_free_commit_path(pending, &[false]), Some("/p/up/cat.png".to_string()));
    assert_eq!(first_free_commit_path(pending, &[true, true, false, false]), Some("/p/up/cat_2.png".to_string()));
    assert_eq!(first_free_commit_path(pending, &[true, true]), None);
    assert_eq!(first_free_commit_path(pending, &[]), None);
}
