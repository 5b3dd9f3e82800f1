use sharpr::history::{
    source_toggled, SourceChoice, SourceToggles,
    active_step, display_step, first_step, history_title, initial_source_buttons, latest_step,
    requeue_source, status_step, RequeueSource, StepFilter,
};
use sharpr::pipeline::{PipelineStatus, PipelineStep, StepType};

fn step(order: i64, status: PipelineStatus, output: Option<&str>) -> PipelineStep {
    PipelineStep {
        id: order * 10,
        pipeline_id: 1,
        step_order: order,
        step_type: StepType::Upscale,
        status,
        settings_json: String::new(),
        input_path: None,
        output_path: output.map(|s| s.to_string()),
        error_msg: None,
    }
}

#[test]
fn latest_and_first_steps() {
    let steps = vec![
        step(2, PipelineStatus::Completed, Some("/b")),
        step(1, PipelineStatus::Completed, Some("/a")),
        step(2, PipelineStatus::Failed, None),
        step(3, PipelineStatus::Queued, None),
    ];
    // Highest order wins, and the last of equals.
    assert_eq!(latest_step(&steps, StepFilter::Completed), Some(0));
    assert_eq!(latest_step(&steps, StepFilter::HasOutput), Some(0));
    assert_eq!(latest_step(&steps, StepFilter::Failed), Some(2));
    let equal = vec![step(2, PipelineStatus::Completed, None), step(2, PipelineStatus::Completed, None)];
    assert_eq!(latest_step(&equal, StepFilter::Completed), Some(1));
    assert_eq!(first_step(&equal), Some(0));
    assert_eq!(first_step(&steps), Some(1));
    assert_eq!(first_step(&[]), None);
    assert_eq!(latest_step(&[], StepFilter::Failed), None);
}

#[test]
fn displayed_and_status_steps() {
    let steps = vec![
        step(1, PipelineStatus::Completed, Some("/a")),
        step(2, PipelineStatus::Failed, None),
    ];
    assert_eq!(display_step(&steps), Some(0));
    assert_eq!(status_step(&steps), Some(1));

    let running = vec![step(1, PipelineStatus::InProgress, None), step(2, PipelineStatus::Queued, None)];
    assert_eq!(active_step(&running), Some(0));
    assert_eq!(display_step(&running), Some(0));
    assert_eq!(status_step(&running), Some(0));

    let queued = vec![step(2, PipelineStatus::Queued, None), step(1, PipelineStatus::Queued, None)];
    assert_eq!(display_step(&queued), Some(1));
    assert_eq!(status_step(&queued), Some(1));
    assert_eq!(display_step(&[]), None);
}

#[test]
fn history_row_titles() {
    assert_eq!(history_title("/photos/cat.jpg"), "cat.jpg");
    assert_eq!(history_title("/"), "Unknown");
}

#[test]
fn requeue_sources() {
    assert_eq!(requeue_source(true, true, true, true), RequeueSource::Png);
    assert_eq!(requeue_source(true, false, true, true), RequeueSource::Result);
    assert_eq!(requeue_source(false, true, true, false), RequeueSource::Original);
    assert_eq!(requeue_source(false, false, false, true), RequeueSource::Original);
    let b = initial_source_buttons(true, true);
    assert!(!b.original_active && b.result_active && b.result_sensitive && b.compare_sensitive);
    let b = initial_source_buttons(false, false);
    assert!(b.original_active && !b.result_active && !b.result_sensitive && !b.compare_sensitive);
    let b = initial_source_buttons(false, true);
    assert!(!b.compare_sensitive);
}

fn toggles(original: bool, result: bool, png: bool) -> SourceToggles {
    SourceToggles { original, result, png }
}

#[test]
fn source_buttons_act_as_a_radio_group() {
    // Pressing Result while Original is pressed releases Original.
    assert_eq!(source_toggled(toggles(true, true, false), SourceChoice::Result), toggles(false, true, false));
    // Pressing PNG releases the others.
    assert_eq!(source_toggled(toggles(false, true, true), SourceChoice::Png), toggles(false, false, true));
    // Releasing the pressed Result falls back to Original.
    assert_eq!(source_toggled(toggles(false, false, false), SourceChoice::Result), toggles(true, false, false));
    // Releasing the pressed Original or PNG presses it again.
    assert_eq!(source_toggled(toggles(false, false, false), SourceChoice::Original), toggles(true, false, false));
    assert_eq!(source_toggled(toggles(false, false, false), SourceChoice::Png), toggles(false, false, true));
    // A release while another stays pressed changes nothing.
    assert_eq!(source_toggled(toggles(false, true, false), SourceChoice::Original), toggles(false, true, false));
}
