use sharpr::compare::{
    compare_display_step, compare_labels, default_destination, folder_display,
    format_compare_asset_summary, format_small_file_size, sidecar_row_text, CompareAssetInfo, ExportStepSettings,
    UpscaleStepSettings,
};
use sharpr::pipeline::{ParsedStepSettings, PipelineStatus, PipelineStep, StepType};

fn step(id: i64, step_type: StepType, output: Option<&str>) -> PipelineStep {
    PipelineStep {
        id,
        pipeline_id: 1,
        step_order: id,
        step_type,
        status: PipelineStatus::Completed,
        settings_json: String::new(),
        input_path: None,
        output_path: output.map(|s| s.to_string()),
        error_msg: None,
    }
}

#[test]
fn display_step_is_last_with_existing_output() {
    let steps = vec![
        step(1, StepType::Upscale, Some("/o/a.png")),
        step(2, StepType::Export, Some("/o/a.jxl")),
        step(3, StepType::Export, None),
    ];
    assert_eq!(compare_display_step(&steps, &[true, true, true]), Some(1));
    assert_eq!(compare_display_step(&steps, &[true, false, true]), Some(0));
    assert_eq!(compare_display_step(&steps, &[false, false, true]), None);
    assert_eq!(compare_display_step(&[], &[]), None);
}

#[test]
fn labels_for_upscale_export_and_unreadable_settings() {
    let up = UpscaleStepSettings {
        backend: "onnx".into(),
        model: "standard".into(),
        onnx_model: None,
        scale: 4,
        compress: false,
        format: "png".into(),
        quality: 85,
        keep_png: false,
        destination: default_destination(),
        custom_path: None,
        comfyui_workflow: None,
    };
    let (model, scale) = compare_labels(StepType::Upscale, &ParsedStepSettings::Upscale(up));
    assert_eq!(model, "standard");
    assert_eq!(scale, "4×");
    let ex = ExportStepSettings {
        format: "jxl".into(),
        max_edge: Some(2048),
        quality: 90,
        destination: default_destination(),
        custom_path: None,
    };
    assert_eq!(
        compare_labels(StepType::Export, &ParsedStepSettings::Export(ex)),
        ("None (Export)".to_string(), "Max 2048px".to_string())
    );
    let ex2 = ExportStepSettings {
        format: "png".into(),
        max_edge: None,
        quality: 90,
        destination: default_destination(),
        custom_path: None,
    };
    assert_eq!(
        compare_labels(StepType::Export, &ParsedStepSettings::Export(ex2)).1,
        "Original"
    );
    assert_eq!(
        compare_labels(StepType::Upscale, &ParsedStepSettings::Unreadable),
        ("Unknown".to_string(), "-".to_string())
    );
}

#[test]
fn default_destination_is_default() {
    assert_eq!(default_destination(), "default");
}

#[test]
fn folder_display_shows_parent_or_unknown() {
    assert_eq!(folder_display("/home/u/pics/a.png"), "/home/u/pics");
    assert_eq!(folder_display("/"), "Unknown location");
}

#[test]
fn asset_summary_joins_name_format_size() {
    let asset = CompareAssetInfo {
        title: "Output".into(),
        path: "/out/shot.png".into(),
        format: "PNG".into(),
        dimensions: (1920, 1080),
        file_size: 512,
    };
    let size = format_small_file_size(asset.file_size);
    assert_eq!(size, "512 B");
    assert_eq!(
        format_compare_asset_summary(&asset, &size),
        "shot.png · PNG · 1920 × 1080 · 512 B"
    );
}

#[test]
fn sidecar_row_describes_png_or_its_absence() {
    assert_eq!(
        sidecar_row_text(None, "0 B"),
        ("PNG Sidecar".to_string(), "Not generated for this result".to_string())
    );
    let png = CompareAssetInfo {
        title: "PNG Sidecar".into(),
        path: "/out/shot.raw.png".into(),
        format: "PNG".into(),
        dimensions: (4, 2),
        file_size: 10,
    };
    assert_eq!(
        sidecar_row_text(Some(&png), "10 B"),
        ("PNG Sidecar".to_string(), "shot.raw.png · PNG · 4 × 2 · 10 B".to_string())
    );
}
