use sharpr::pipeline::{Pipeline, PipelineStatus, PipelineStep, StepType};
use sharpr::queue::{
    execution_scale, export_format_of, export_output_dir, history_order, missing_input_message,
    output_collection_name, pipeline_after_step, plan_next_run, queue_reorder, retain_listed,
    selection_after_refresh, source_folder, step_or_global, step_record, upscale_output_dir,
    upscale_output_extension, ExportFormat, JobWatch, OutputDir, RunDecision, RunnerState,
    StepResult, UpscaleEvent,
};

fn pipeline(id: i64, created_at: i64) -> Pipeline {
    Pipeline {
        id,
        source_path: "/photos/cat.jpg".into(),
        status: PipelineStatus::Queued,
        created_at,
        queue_order: 0,
    }
}

fn step(id: i64, order: i64, status: PipelineStatus, output: Option<&str>) -> PipelineStep {
    PipelineStep {
        id,
        pipeline_id: 1,
        step_order: order,
        step_type: StepType::Upscale,
        status,
        settings_json: String::new(),
        input_path: None,
        output_path: output.map(|s| s.to_string()),
        error_msg: None,
    }
}

#[test]
fn runner_waits_and_stops() {
    let p = pipeline(1, 0);
    let steps = vec![step(10, 1, PipelineStatus::Queued, None)];
    assert!(matches!(plan_next_run(false, false, false, Some(&p), &steps), RunDecision::Idle));
    assert!(matches!(plan_next_run(true, true, false, Some(&p), &steps), RunDecision::Idle));
    assert!(matches!(plan_next_run(true, false, true, Some(&p), &steps), RunDecision::Wait));
    assert!(matches!(plan_next_run(true, false, false, None, &steps), RunDecision::StopRunner));
    assert!(matches!(plan_next_run(true, false, false, Some(&p), &[]), RunDecision::StopRunner));
}

#[test]
fn runner_completes_a_pipeline_without_queued_steps() {
    let p = pipeline(3, 0);
    let steps = vec![step(10, 1, PipelineStatus::Completed, Some("/out/a.png"))];
    assert!(matches!(
        plan_next_run(true, false, false, Some(&p), &steps),
        RunDecision::CompletePipeline { pipeline_id: 3 }
    ));
}

#[test]
fn first_step_runs_on_the_source_and_later_ones_on_the_previous_output() {
    let p = pipeline(1, 0);
    let steps = vec![step(10, 1, PipelineStatus::Queued, None), step(11, 2, PipelineStatus::Queued, None)];
    match plan_next_run(true, false, false, Some(&p), &steps) {
        RunDecision::Start { pipeline_id, step_index, input } => {
            assert_eq!(pipeline_id, 1);
            assert_eq!(step_index, 0);
            assert_eq!(input, "/photos/cat.jpg");
        }
        other => panic!("unexpected decision {other:?}"),
    }
    let steps = vec![
        step(10, 1, PipelineStatus::Completed, Some("/work/1/cat.png")),
        step(11, 2, PipelineStatus::Queued, None),
    ];
    match plan_next_run(true, false, false, Some(&p), &steps) {
        RunDecision::Start { step_index, input, .. } => {
            assert_eq!(step_index, 1);
            assert_eq!(input, "/work/1/cat.png");
        }
        other => panic!("unexpected decision {other:?}"),
    }
}

#[test]
fn a_step_without_its_input_fails() {
    let p = pipeline(1, 0);
    let steps = vec![step(10, 1, PipelineStatus::Completed, None), step(11, 2, PipelineStatus::Queued, None)];
    assert!(matches!(
        plan_next_run(true, false, false, Some(&p), &steps),
        RunDecision::FailMissingInput { pipeline_id: 1, step_id: 11 }
    ));
    let gap = vec![step(12, 3, PipelineStatus::Queued, None)];
    assert!(matches!(
        plan_next_run(true, false, false, Some(&p), &gap),
        RunDecision::FailMissingInput { pipeline_id: 1, step_id: 12 }
    ));
    assert_eq!(missing_input_message(), "Previous step has no output");
}

#[test]
fn finished_steps() {
    assert_eq!(
        step_record(StepResult::Done("/out/a.png".into())),
        (PipelineStatus::Completed, Some("/out/a.png".to_string()), None)
    );
    assert_eq!(
        step_record(StepResult::Failed("no GPU".into())),
        (PipelineStatus::Failed, None, Some("no GPU".to_string()))
    );
    assert_eq!(
        step_record(StepResult::ChannelClosed),
        (PipelineStatus::Failed, None, Some("Channel closed".to_string()))
    );
    let done = vec![step(1, 1, PipelineStatus::Completed, None), step(2, 2, PipelineStatus::Completed, None)];
    assert_eq!(pipeline_after_step(true, &done), PipelineStatus::Completed);
    let more = vec![step(1, 1, PipelineStatus::Completed, None), step(2, 2, PipelineStatus::Queued, None)];
    assert_eq!(pipeline_after_step(true, &more), PipelineStatus::Queued);
    assert_eq!(pipeline_after_step(false, &done), PipelineStatus::Failed);
    assert_eq!(output_collection_name(StepType::Upscale), "Upscaled");
    assert_eq!(output_collection_name(StepType::Export), "Exports");
}

#[test]
fn output_folders() {
    assert!(matches!(export_output_dir("source", &None), OutputDir::SourceFolder));
    assert!(matches!(export_output_dir("custom", &Some("/x".into())), OutputDir::Custom(p) if p == "/x"));
    assert!(matches!(export_output_dir("custom", &None), OutputDir::Default));
    assert!(matches!(export_output_dir("default", &Some("/x".into())), OutputDir::Default));
    assert!(matches!(upscale_output_dir(2, "source", &None), OutputDir::WorkDir));
    assert!(matches!(upscale_output_dir(1, "source", &None), OutputDir::SourceFolder));
    assert_eq!(source_folder("/photos/cat.jpg"), "/photos");
    assert_eq!(source_folder("/"), ".");
}

#[test]
fn output_formats_and_scales() {
    assert_eq!(export_format_of("webp"), ExportFormat::Webp);
    assert_eq!(export_format_of("png"), ExportFormat::Png);
    assert_eq!(export_format_of("jpeg"), ExportFormat::Jpeg);
    assert_eq!(export_format_of("tiff"), ExportFormat::Jxl);
    assert_eq!(execution_scale(0), 4);
    assert_eq!(execution_scale(3), 3);
    assert_eq!(upscale_output_extension(false, "webp"), "png");
    assert_eq!(upscale_output_extension(true, "webp"), "webp");
    assert_eq!(upscale_output_extension(true, "jpeg"), "jpg");
    assert_eq!(upscale_output_extension(true, "png"), "png");
    assert_eq!(upscale_output_extension(true, "jxl"), "jxl");
    assert_eq!(step_or_global(&Some("seedvr2".into()), "esrgan"), "seedvr2");
    assert_eq!(step_or_global(&None, "esrgan"), "esrgan");
}

#[test]
fn the_last_report_decides_a_job() {
    let w = JobWatch::new();
    assert_eq!(w.into_result(), Err("Job did not finish".to_string()));
    let mut w = JobWatch::new();
    w.observe(UpscaleEvent::Other);
    w.observe(UpscaleEvent::Failed("tile error".into()));
    w.observe(UpscaleEvent::Other);
    w.observe(UpscaleEvent::Done("/out/a.png".into()));
    assert_eq!(w.into_result(), Ok("/out/a.png".to_string()));
    let mut w = JobWatch::new();
    w.observe(UpscaleEvent::Done("/out/a.png".into()));
    w.observe(UpscaleEvent::Failed("late".into()));
    assert_eq!(w.into_result(), Err("late".to_string()));
}

#[test]
fn history_is_newest_first_and_stable() {
    let history = vec![pipeline(1, 5), pipeline(2, 9), pipeline(3, 5), pipeline(4, 1)];
    assert_eq!(history_order(&history), vec![1, 0, 2, 3]);
    assert_eq!(history_order(&[]), Vec::<usize>::new());
}

#[test]
fn selections_after_the_list_is_rebuilt() {
    let listed = vec![pipeline(1, 0), pipeline(3, 0)];
    assert_eq!(retain_listed(&vec![3, 2, 1], &listed), vec![3, 1]);
    assert_eq!(selection_after_refresh(Some(3), &listed), Some(3));
    assert_eq!(selection_after_refresh(Some(2), &listed), None);
    assert_eq!(selection_after_refresh(None, &listed), None);
}

#[test]
fn runner_switches() {
    let mut r = RunnerState::new();
    assert!(!r.active && !r.paused);
    r.start();
    assert!(r.active && !r.paused);
    r.pause();
    assert!(r.active && r.paused);
    r.start();
    assert!(!r.paused);
    r.stop();
    assert!(!r.active);
}

fn queued(id: i64, queue_order: i64) -> Pipeline {
    Pipeline {
        id,
        source_path: format!("/photos/{id}.jpg"),
        status: PipelineStatus::Queued,
        created_at: 0,
        queue_order,
    }
}

#[test]
fn dropping_a_queue_row_moves_it_past_the_target() {
    let q = vec![queued(1, 10), queued(2, 20), queued(3, 30)];
    assert_eq!(queue_reorder("1", "3", &q), Some((1, 31)));
    assert_eq!(queue_reorder("3", "1", &q), Some((3, 9)));
    assert_eq!(queue_reorder("2", "2", &q), None);
    assert_eq!(queue_reorder("9", "2", &q), None);
    assert_eq!(queue_reorder("x", "2", &q), None);
    assert_eq!(queue_reorder("1", "", &q), None);
    // A position past the end of `i64` refuses the drop.
    let edge = vec![queued(1, 0), queued(2, i64::MAX)];
    assert_eq!(queue_reorder("1", "2", &edge), None);
    let low = vec![queued(1, 5), queued(2, i64::MIN)];
    assert_eq!(queue_reorder("1", "2", &low), None);
}
