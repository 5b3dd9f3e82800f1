use sharpr::compare::{ExportStepSettings, UpscaleStepSettings};
use sharpr::panel::{
    after_backend_toggled, backend_controls, comfyui_workflow_index, comfyui_workflow_of_index,
    config_chips, config_from_panel, config_from_steps, config_summary, custom_destination_label, custom_destination_visible,
    destination_index, destination_of_index, edge_index, edge_of_index, export_format_index,
    export_format_of_index, onnx_model_index, onnx_model_of_index, panel_from_config,
    pipeline_chips, scale_index, scale_of_index, scale_subtitle, selected_backend,
    steps_to_commit, Backend, BackendButtons, ChipKind, PendingConfig, PendingConfigs,
    SummaryKind,
};
use sharpr::pipeline::{ParsedStepSettings, PipelineStatus, PipelineStep, StepType};

fn step(order: i64, step_type: StepType) -> PipelineStep {
    PipelineStep {
        id: order,
        pipeline_id: 1,
        step_order: order,
        step_type,
        status: PipelineStatus::Queued,
        settings_json: String::new(),
        input_path: None,
        output_path: None,
        error_msg: None,
    }
}

fn upscale(backend: &str, scale: u32) -> UpscaleStepSettings {
    UpscaleStepSettings {
        backend: backend.into(),
        model: "anime".into(),
        onnx_model: Some("swin2sr-real-x4".into()),
        scale,
        compress: true,
        format: "webp".into(),
        quality: 70,
        keep_png: true,
        destination: "source".into(),
        custom_path: None,
        comfyui_workflow: None,
    }
}

fn export(format: &str, quality: u8) -> ExportStepSettings {
    ExportStepSettings {
        format: format.into(),
        max_edge: Some(2160),
        quality,
        destination: "custom".into(),
        custom_path: Some("/out".into()),
    }
}

#[test]
fn new_configuration_upscales_with_onnx() {
    let c = PendingConfig::default();
    assert!(c.upscale_on);
    assert!(!c.export_on);
    assert_eq!(c.upscale.backend, "onnx");
    assert_eq!(c.upscale.model, "");
    assert_eq!(c.upscale.scale, 0);
    assert_eq!(c.upscale.format, "png");
    assert_eq!(c.upscale.quality, 85);
    assert_eq!(c.upscale.destination, "default");
    assert_eq!(c.export.format, "jxl");
    assert_eq!(c.export.quality, 90);
    assert_eq!(c.export.max_edge, None);
    assert_eq!(c.export.destination, "default");
}

#[test]
fn menu_positions() {
    assert_eq!(scale_index(0), 0);
    assert_eq!(scale_index(2), 1);
    assert_eq!(scale_index(3), 2);
    assert_eq!(scale_index(4), 3);
    assert_eq!(scale_index(8), 0);
    assert_eq!(scale_of_index(3), 4);
    assert_eq!(scale_of_index(9), 0);
    assert_eq!(onnx_model_index(&Some("swin2sr-compressed-x4".into())), 1);
    assert_eq!(onnx_model_index(&Some("swin2sr-real-x4".into())), 2);
    assert_eq!(onnx_model_index(&None), 0);
    assert_eq!(onnx_model_of_index(0), "swin2sr-lightweight-x2");
    assert_eq!(onnx_model_of_index(2), "swin2sr-real-x4");
    assert_eq!(comfyui_workflow_index(&Some("seedvr2".into())), 1);
    assert_eq!(comfyui_workflow_index(&Some("esrgan".into())), 0);
    assert_eq!(comfyui_workflow_of_index(0), "esrgan");
    assert_eq!(export_format_index("jpeg"), 3);
    assert_eq!(export_format_index("avif"), 0);
    assert_eq!(export_format_of_index(1), "webp");
    assert_eq!(export_format_of_index(7), "jxl");
    assert_eq!(edge_index(Some(4096)), 3);
    assert_eq!(edge_index(Some(500)), 0);
    assert_eq!(edge_of_index(1), Some(1080));
    assert_eq!(edge_of_index(0), None);
    assert_eq!(destination_index("custom"), 2);
    assert_eq!(destination_of_index(1), "source");
    assert_eq!(destination_of_index(5), "default");
    assert_eq!(scale_subtitle(0), "Uses AI to determine the best output size.");
    assert_eq!(scale_subtitle(2), "");
    assert!(custom_destination_visible(2));
    assert!(!custom_destination_visible(1));
}

#[test]
fn backend_buttons() {
    let all = BackendButtons { onnx: true, comfyui: true, cli: true };
    assert_eq!(selected_backend(all), "cli");
    assert_eq!(selected_backend(BackendButtons { onnx: true, comfyui: true, cli: false }), "comfyui");
    assert_eq!(selected_backend(BackendButtons { onnx: false, comfyui: false, cli: false }), "onnx");
    let c = backend_controls("comfyui");
    assert_eq!(c.buttons, BackendButtons { onnx: false, comfyui: true, cli: false });
    assert!(!c.onnx_model_visible && c.comfyui_workflow_visible);
    let c = backend_controls("other");
    assert_eq!(c.buttons, BackendButtons { onnx: false, comfyui: false, cli: false });
}

#[test]
fn backend_buttons_stay_a_radio_group() {
    // ONNX pressed; pressing CLI releases ONNX.
    let b = BackendButtons { onnx: true, comfyui: false, cli: true };
    assert_eq!(after_backend_toggled(b, Backend::Cli), BackendButtons { onnx: false, comfyui: false, cli: true });
    // Releasing the only pressed button presses it again.
    let b = BackendButtons { onnx: false, comfyui: false, cli: false };
    assert_eq!(after_backend_toggled(b, Backend::Onnx), BackendButtons { onnx: true, comfyui: false, cli: false });
    // A button released while another is pressed stays released.
    let b = BackendButtons { onnx: false, comfyui: true, cli: false };
    assert_eq!(after_backend_toggled(b, Backend::Onnx), b);
}

#[test]
fn panel_shows_and_reads_back_a_configuration() {
    let mut c = PendingConfig::default();
    c.upscale = upscale("onnx", 3);
    c.export_on = true;
    c.export = export("webp", 75);
    let p = panel_from_config(&c);
    assert!(p.upscale_on && p.export_on);
    assert_eq!(p.backend, BackendButtons { onnx: true, comfyui: false, cli: false });
    assert_eq!(p.scale_index, 2);
    assert_eq!(p.onnx_model_index, 2);
    assert_eq!(p.export_format_index, 1);
    assert_eq!(p.export_edge_index, 2);
    assert_eq!(p.export_quality, 75);
    assert_eq!(p.export_destination_index, 2);
    assert_eq!(p.export_custom_path.as_deref(), Some("/out"));

    let read = config_from_panel(&p, "standard");
    assert_eq!(read.upscale.backend, "onnx");
    assert_eq!(read.upscale.model, "standard");
    assert_eq!(read.upscale.onnx_model.as_deref(), Some("swin2sr-real-x4"));
    assert_eq!(read.upscale.scale, 3);
    assert!(!read.upscale.compress);
    assert_eq!(read.upscale.format, "png");
    assert_eq!(read.upscale.quality, 85);
    assert!(!read.upscale.keep_png);
    assert_eq!(read.upscale.destination, "default");
    assert_eq!(read.upscale.comfyui_workflow, None);
    assert_eq!(read.export.format, "webp");
    assert_eq!(read.export.max_edge, Some(2160));
    assert_eq!(read.export.quality, 75);
    assert_eq!(read.export.destination, "custom");

    // Reading again what the panel shows changes nothing.
    let again = config_from_panel(&panel_from_config(&read), "standard");
    assert_eq!(again.upscale.backend, read.upscale.backend);
    assert_eq!(again.upscale.onnx_model, read.upscale.onnx_model);
    assert_eq!(again.upscale.scale, read.upscale.scale);
    assert_eq!(again.export.format, read.export.format);
    assert_eq!(again.export.max_edge, read.export.max_edge);
    assert_eq!(again.export.destination, read.export.destination);
    assert_eq!(again.export.custom_path, read.export.custom_path);
}

#[test]
fn comfyui_panel_reads_its_workflow() {
    let mut c = PendingConfig::default();
    c.upscale.backend = "comfyui".into();
    c.upscale.comfyui_workflow = Some("seedvr2".into());
    let read = config_from_panel(&panel_from_config(&c), "");
    assert_eq!(read.upscale.backend, "comfyui");
    assert_eq!(read.upscale.comfyui_workflow.as_deref(), Some("seedvr2"));
    assert_eq!(read.upscale.onnx_model, None);
}

#[test]
fn configuration_read_from_stored_steps() {
    let steps = vec![step(1, StepType::Upscale), step(2, StepType::Export)];
    let parsed = vec![
        ParsedStepSettings::Upscale(upscale("cli", 4)),
        ParsedStepSettings::Export(export("png", 60)),
    ];
    let c = config_from_steps(&steps, &parsed);
    assert!(c.upscale_on && c.export_on);
    assert_eq!(c.upscale.backend, "cli");
    assert_eq!(c.export.format, "png");

    let unreadable = vec![ParsedStepSettings::Unreadable, ParsedStepSettings::Unreadable];
    let c = config_from_steps(&steps, &unreadable);
    assert!(!c.upscale_on && !c.export_on);

    let c = config_from_steps(&[], &[]);
    assert!(c.upscale_on && !c.export_on);
    assert_eq!(c.upscale.backend, "onnx");
}

#[test]
fn committing_then_reading_back_gives_the_configuration() {
    let mut c = PendingConfig::default();
    c.upscale = upscale("comfyui", 2);
    c.export_on = true;
    c.export = export("jpeg", 80);
    let kinds = steps_to_commit(false, &c);
    assert_eq!(kinds, vec![StepType::Upscale, StepType::Export]);
    let steps: Vec<PipelineStep> = kinds.iter().enumerate().map(|(i, k)| step(i as i64 + 1, *k)).collect();
    let parsed = vec![
        ParsedStepSettings::Upscale(c.upscale.clone()),
        ParsedStepSettings::Export(c.export.clone()),
    ];
    let back = config_from_steps(&steps, &parsed);
    assert!(back.upscale_on && back.export_on);
    assert_eq!(back.upscale.backend, "comfyui");
    assert_eq!(back.upscale.scale, 2);
    assert_eq!(back.export.format, "jpeg");
    assert_eq!(back.export.quality, 80);
}

#[test]
fn steps_stored_when_the_queue_starts() {
    let mut c = PendingConfig::default();
    assert_eq!(steps_to_commit(false, &c), vec![StepType::Upscale]);
    assert_eq!(steps_to_commit(true, &c), Vec::<StepType>::new());
    c.upscale_on = false;
    assert_eq!(steps_to_commit(false, &c), Vec::<StepType>::new());
    c.export_on = true;
    assert_eq!(steps_to_commit(false, &c), vec![StepType::Export]);
}

#[test]
fn summary_lines() {
    let mut c = PendingConfig::default();
    let lines = config_summary(&c);
    assert_eq!(lines.len(), 1);
    assert_eq!(lines[0].kind, SummaryKind::Upscale);
    assert_eq!(lines[0].text, "Upscale using ONNX · Smart scale");

    c.upscale.backend = "cli".into();
    c.upscale.scale = 4;
    c.export_on = true;
    c.export.format = "webp".into();
    c.export.quality = 77;
    let lines = config_summary(&c);
    assert_eq!(lines.len(), 2);
    assert_eq!(lines[0].text, "Upscale using External CLI · 4×");
    assert_eq!(lines[1].kind, SummaryKind::Export);
    assert_eq!(lines[1].text, "Convert / Export as WEBP · Q77");

    c.upscale.backend = "comfyui".into();
    c.upscale.scale = 3;
    assert_eq!(config_summary(&c)[0].text, "Upscale using ComfyUI · Smart scale");

    c.upscale_on = false;
    c.export_on = false;
    let lines = config_summary(&c);
    assert_eq!(lines.len(), 1);
    assert_eq!(lines[0].kind, SummaryKind::Nothing);
    assert_eq!(lines[0].text, "No actions configured");
}

#[test]
fn chips_of_a_configuration() {
    let mut c = PendingConfig::default();
    c.upscale.scale = 3;
    c.export_on = true;
    let chips = config_chips(&c);
    assert_eq!(chips.len(), 3);
    assert_eq!(chips[0].kind, ChipKind::Upscale);
    assert_eq!(chips[0].text, "Upscale · onnx · 3×");
    assert_eq!(chips[1].kind, ChipKind::Separator);
    assert_eq!(chips[1].text, "");
    assert_eq!(chips[2].kind, ChipKind::Export);
    assert_eq!(chips[2].text, "Convert · JXL · Q90");

    c.upscale.scale = 7;
    assert_eq!(config_chips(&c)[0].text, "Upscale · onnx · Smart scale");

    c.upscale_on = false;
    c.export_on = false;
    let chips = config_chips(&c);
    assert_eq!(chips.len(), 1);
    assert_eq!(chips[0].kind, ChipKind::Warning);
    assert_eq!(chips[0].text, "⚠ No actions assigned");
}

#[test]
fn chips_of_a_queue_row() {
    let steps = vec![step(1, StepType::Upscale), step(2, StepType::Export)];
    let parsed = vec![ParsedStepSettings::Unreadable, ParsedStepSettings::Export(export("png", 50))];
    let chips = pipeline_chips(&steps, &parsed, None);
    assert_eq!(chips.len(), 1);
    assert_eq!(chips[0].text, "Convert · PNG · Q50");

    let none = vec![ParsedStepSettings::Unreadable, ParsedStepSettings::Unreadable];
    assert!(pipeline_chips(&steps, &none, None).is_empty());

    let c = PendingConfig::default();
    let chips = pipeline_chips(&[], &[], Some(&c));
    assert_eq!(chips.len(), 1);
    assert_eq!(chips[0].text, "Upscale · onnx · Smart scale");

    let chips = pipeline_chips(&[], &[], None);
    assert_eq!(chips[0].kind, ChipKind::Warning);
}

#[test]
fn configurations_held_per_pipeline() {
    let mut held = PendingConfigs::new();
    assert!(held.get(7).is_none());
    let mut c = PendingConfig::default();
    c.export_on = true;
    let got = held.get_or_insert(7, c.clone());
    assert!(got.export_on);
    let other = PendingConfig::default();
    let got = held.get_or_insert(7, other);
    assert!(got.export_on);
    let mut d = PendingConfig::default();
    d.upscale_on = false;
    held.set(8, d);
    assert!(!held.get(8).unwrap().upscale_on);
    assert!(held.get(7).unwrap().export_on);
    held.remove(7);
    assert!(held.get(7).is_none());
    assert!(held.get(8).is_some());
}

#[test]
fn custom_folder_row_shows_choice_or_invitation() {
    assert_eq!(custom_destination_label(Some("/home/u/out")), "/home/u/out");
    assert_eq!(custom_destination_label(None), "Choose a folder");
}
