use sharpr::compare::{ExportStepSettings, UpscaleStepSettings};
use sharpr::pipeline::{
    count_with_status, format_pipeline_composite, format_relative_time, format_step_summary,
    interrupted_message, queue_controls, queue_status_text, resolve_status_display,
    step_row_display, ParsedStepSettings, Pipeline, PipelineStatus, PipelineStep, StepType,
};

fn upscale(model: &str, scale: u32) -> UpscaleStepSettings {
    UpscaleStepSettings {
        backend: "onnx".into(),
        model: model.into(),
        onnx_model: None,
        scale,
        compress: false,
        format: "png".into(),
        quality: 85,
        keep_png: false,
        destination: "default".into(),
        custom_path: None,
        comfyui_workflow: None,
    }
}

fn export(format: &str, max_edge: Option<u32>) -> ExportStepSettings {
    ExportStepSettings {
        format: format.into(),
        max_edge,
        quality: 90,
        destination: "default".into(),
        custom_path: None,
    }
}

fn pipeline(status: PipelineStatus) -> Pipeline {
    Pipeline {
        id: 1,
        source_path: "/photos/cat.jpg".into(),
        status,
        created_at: 0,
        queue_order: 0,
    }
}

fn step(order: i64, step_type: StepType, status: PipelineStatus) -> PipelineStep {
    PipelineStep {
        id: order,
        pipeline_id: 1,
        step_order: order,
        step_type,
        status,
        settings_json: String::new(),
        input_path: None,
        output_path: None,
        error_msg: None,
    }
}

#[test]
fn step_summary_names_model_and_scale() {
    let p = ParsedStepSettings::Upscale(upscale("anime", 2));
    assert_eq!(format_step_summary(StepType::Upscale, &p), "Upscale · Anime · 2×");
    let p = ParsedStepSettings::Upscale(upscale("standard", 0));
    assert_eq!(format_step_summary(StepType::Upscale, &p), "Upscale · Standard · Smart scale");
    assert_eq!(format_step_summary(StepType::Upscale, &ParsedStepSettings::Unreadable), "Upscale");
}

#[test]
fn step_summary_uppercases_export_format() {
    let p = ParsedStepSettings::Export(export("webp", Some(1080)));
    assert_eq!(format_step_summary(StepType::Export, &p), "Export · WEBP · 1080px");
    let p = ParsedStepSettings::Export(export("jxl", None));
    assert_eq!(format_step_summary(StepType::Export, &p), "Export · JXL");
    assert_eq!(format_step_summary(StepType::Export, &ParsedStepSettings::Unreadable), "Export");
}

#[test]
fn composite_line_follows_step_states() {
    let parsed = vec![
        ParsedStepSettings::Upscale(upscale("standard", 4)),
        ParsedStepSettings::Export(export("png", None)),
    ];
    let queued = vec![
        step(1, StepType::Upscale, PipelineStatus::Queued),
        step(2, StepType::Export, PipelineStatus::Queued),
    ];
    assert_eq!(
        format_pipeline_composite(&pipeline(PipelineStatus::Queued), &queued, &parsed),
        "Queued · 2 steps"
    );
    let running = vec![
        step(1, StepType::Upscale, PipelineStatus::Completed),
        step(2, StepType::Export, PipelineStatus::InProgress),
    ];
    assert_eq!(
        format_pipeline_composite(&pipeline(PipelineStatus::InProgress), &running, &parsed),
        "Step 2 of 2: Export · PNG"
    );
    let between = vec![
        step(1, StepType::Upscale, PipelineStatus::Completed),
        step(2, StepType::Export, PipelineStatus::Queued),
    ];
    assert_eq!(
        format_pipeline_composite(&pipeline(PipelineStatus::Queued), &between, &parsed),
        "Queued · 2 steps"
    );
    assert_eq!(
        format_pipeline_composite(&pipeline(PipelineStatus::InProgress), &between, &parsed),
        "In Progress"
    );
    assert_eq!(format_pipeline_composite(&pipeline(PipelineStatus::Queued), &[], &[]), "");
    let one = vec![step(1, StepType::Upscale, PipelineStatus::Queued)];
    assert_eq!(
        format_pipeline_composite(&pipeline(PipelineStatus::Queued), &one, &parsed[..1]),
        "Queued · 1 step"
    );
}

#[test]
fn relative_times() {
    assert_eq!(format_relative_time(1_000, 990), "Just now");
    assert_eq!(format_relative_time(10_000, 10_000 - 125), "2 min ago");
    assert_eq!(format_relative_time(10_000, 10_000 - 7_300), "2 hr ago");
    assert_eq!(format_relative_time(1_000_000, 1_000_000 - 3 * 86_400), "3 days ago");
    assert_eq!(format_relative_time(100, 200), "Just now");
}

#[test]
fn status_display_of_finished_pipelines() {
    assert_eq!(
        resolve_status_display(PipelineStatus::Failed, Some("boom"), true, true),
        ("Failed: boom".to_string(), "error")
    );
    assert_eq!(
        resolve_status_display(PipelineStatus::Failed, None, true, true),
        ("Failed: Unknown error".to_string(), "error")
    );
    assert_eq!(
        resolve_status_display(PipelineStatus::Completed, None, true, true),
        ("Done".to_string(), "success")
    );
    assert_eq!(
        resolve_status_display(PipelineStatus::Completed, None, false, true),
        ("Done — source moved".to_string(), "warning")
    );
    assert_eq!(
        resolve_status_display(PipelineStatus::Completed, None, true, false),
        ("Done — output missing".to_string(), "warning")
    );
    assert_eq!(
        resolve_status_display(PipelineStatus::Completed, None, false, false),
        ("Done — files moved".to_string(), "warning")
    );
}

#[test]
fn step_rows() {
    assert_eq!(step_row_display(PipelineStatus::Queued, None), ("Queued".to_string(), "○", "dim-label"));
    assert_eq!(
        step_row_display(PipelineStatus::InProgress, None),
        ("In Progress".to_string(), "●", "accent")
    );
    assert_eq!(
        step_row_display(PipelineStatus::Completed, None),
        ("Completed".to_string(), "●", "success")
    );
    assert_eq!(step_row_display(PipelineStatus::Failed, Some("disk full")), ("disk full".to_string(), "●", "error"));
    assert_eq!(step_row_display(PipelineStatus::Failed, None), ("Failed".to_string(), "●", "error"));
}

#[test]
fn interrupted_banner() {
    assert_eq!(interrupted_message(0), None);
    assert_eq!(interrupted_message(1), Some("1 job was interrupted and re-queued".to_string()));
    assert_eq!(interrupted_message(4), Some("4 jobs were interrupted and re-queued".to_string()));
}

#[test]
fn queue_status_lines() {
    assert_eq!(queue_status_text(0, 0, false), "No user tasks");
    assert_eq!(queue_status_text(0, 1, true), "1 queued task");
    assert_eq!(queue_status_text(0, 3, false), "3 queued tasks");
    assert_eq!(queue_status_text(1, 0, false), "1 running task");
    assert_eq!(queue_status_text(1, 0, true), "1 running task — pausing after this job");
    assert_eq!(queue_status_text(2, 3, false), "2 running • 3 queued");
    assert_eq!(queue_status_text(2, 3, true), "2 running • 3 queued — pausing after this job");
}

#[test]
fn queue_buttons() {
    let c = queue_controls(false, false, 2, 0);
    assert!(c.start && !c.pause && c.clear && !c.remove);
    let c = queue_controls(true, false, 2, 1);
    assert!(!c.start && c.pause && c.clear && c.remove);
    let c = queue_controls(true, true, 0, 0);
    assert!(!c.start && !c.pause && !c.clear && !c.remove);
    let c = queue_controls(true, true, 1, 0);
    assert!(c.start && !c.pause);
}

#[test]
fn counting_by_status() {
    let ps = vec![
        pipeline(PipelineStatus::Queued),
        pipeline(PipelineStatus::InProgress),
        pipeline(PipelineStatus::Queued),
    ];
    assert_eq!(count_with_status(&ps, PipelineStatus::Queued), 2);
    assert_eq!(count_with_status(&ps, PipelineStatus::InProgress), 1);
    assert_eq!(count_with_status(&ps, PipelineStatus::Failed), 0);
}
