//! The actions configured for a queued image before the queue starts, the
//! settings panel that shows and edits them, and the summaries and chips that
//! describe them.
use vstd::prelude::*;
use std::collections::HashMap;
use crate::compare::{ExportSettingsView, ExportStepSettings, UpscaleSettingsView, UpscaleStepSettings};
use crate::paths::opt_string_view;
use crate::pipeline::{ParsedStepSettings, PipelineStep, StepType};
use crate::tags::clone_opt_string;
use crate::text::{append_chars, chars_of, decimal, lit, push_str, str_eq, string_of, u64_text, upper_chars, uppercase_of};

verus! {

broadcast use vstd::std_specs::hash::group_hash_axioms;

/// The actions configured for one queued image, held until the queue starts.
#[derive(Debug)]
pub struct PendingConfig {
    pub upscale_on: bool,
    pub upscale: UpscaleStepSettings,
    pub export_on: bool,
    pub export: ExportStepSettings,
}

/// What a pending configuration says, as plain values.
#[verifier::ext_equal]
pub struct ConfigView {
    pub upscale_on: bool,
    pub upscale: UpscaleSettingsView,
    pub export_on: bool,
    pub export: ExportSettingsView,
}

impl View for PendingConfig {
    type V = ConfigView;

    open spec fn view(&self) -> ConfigView {
        ConfigView {
            upscale_on: self.upscale_on,
            upscale: self.upscale@,
            export_on: self.export_on,
            export: self.export@,
        }
    }
}

impl Clone for PendingConfig {
    fn clone(&self) -> (r: Self)
        ensures
            r == *self,
    {
        PendingConfig {
            upscale_on: self.upscale_on,
            upscale: self.upscale.clone(),
            export_on: self.export_on,
            export: self.export.clone(),
        }
    }
}

/// The upscale settings a new configuration starts with.
pub open spec fn default_upscale_view() -> UpscaleSettingsView {
    UpscaleSettingsView {
        backend: "onnx"@,
        model: Seq::empty(),
        onnx_model: None,
        scale: 0,
        compress: false,
        format: "png"@,
        quality: 85,
        keep_png: false,
        destination: "default"@,
        custom_path: None,
        comfyui_workflow: None,
    }
}

/// The export settings a new configuration starts with.
pub open spec fn default_export_view() -> ExportSettingsView {
    ExportSettingsView {
        format: "jxl"@,
        max_edge: None,
        quality: 90,
        destination: "default"@,
        custom_path: None,
    }
}

/// A new configuration: upscale on with the defaults, export off.
pub open spec fn default_config_view() -> ConfigView {
    ConfigView {
        upscale_on: true,
        upscale: default_upscale_view(),
        export_on: false,
        export: default_export_view(),
    }
}

fn default_upscale() -> (r: UpscaleStepSettings)
    ensures
        r@ == default_upscale_view(),
{
    UpscaleStepSettings {
        backend: string_of(&lit("onnx")),
        model: String::new(),
        onnx_model: None,
        scale: 0,
        compress: false,
        format: string_of(&lit("png")),
        quality: 85,
        keep_png: false,
        destination: string_of(&lit("default")),
        custom_path: None,
        comfyui_workflow: None,
    }
}

fn default_export() -> (r: ExportStepSettings)
    ensures
        r@ == default_export_view(),
{
    ExportStepSettings {
        format: string_of(&lit("jxl")),
        max_edge: None,
        quality: 90,
        destination: string_of(&lit("default")),
        custom_path: None,
    }
}

impl Default for PendingConfig {
    fn default() -> (r: Self)
        ensures
            r@ == default_config_view(),
    {
        PendingConfig {
            upscale_on: true,
            upscale: default_upscale(),
            export_on: false,
            export: default_export(),
        }
    }
}

// ---------------------------------------------------------------------------
// The settings panel
// ---------------------------------------------------------------------------

/// Which of the three backend buttons are pressed.
#[derive(Clone, Copy, Debug, PartialEq, Eq, Structural)]
pub struct BackendButtons {
    pub onnx: bool,
    pub comfyui: bool,
    pub cli: bool,
}

/// The backend the buttons select: the external CLI wins over ComfyUI, and
/// ONNX is what is left.
pub open spec fn selected_backend_spec(b: BackendButtons) -> Seq<char> {
    if b.cli {
        "cli"@
    } else if b.comfyui {
        "comfyui"@
    } else {
        "onnx"@
    }
}

/// The backend the buttons select.
pub fn selected_backend(b: BackendButtons) -> (r: &'static str)
    ensures
        r@ == selected_backend_spec(b),
{
    if b.cli {
        "cli"
    } else if b.comfyui {
        "comfyui"
    } else {
        "onnx"
    }
}

/// The backend buttons and backend-specific rows for a backend name.
#[derive(Clone, Copy, Debug, PartialEq, Eq, Structural)]
pub struct BackendControls {
    pub buttons: BackendButtons,
    pub onnx_model_visible: bool,
    pub comfyui_workflow_visible: bool,
}

/// The buttons pressed for a backend name, each exactly when it names it.
pub open spec fn backend_buttons_spec(backend: Seq<char>) -> BackendButtons {
    BackendButtons { onnx: backend == "onnx"@, comfyui: backend == "comfyui"@, cli: backend == "cli"@ }
}

/// Shows a backend: presses its button and shows the rows that belong to it.
pub fn backend_controls(backend: &str) -> (r: BackendControls)
    ensures
        r.buttons == backend_buttons_spec(backend@),
        r.onnx_model_visible == (backend@ == "onnx"@),
        r.comfyui_workflow_visible == (backend@ == "comfyui"@),
{
    let onnx = str_eq(backend, "onnx");
    let comfyui = str_eq(backend, "comfyui");
    let cli = str_eq(backend, "cli");
    BackendControls {
        buttons: BackendButtons { onnx, comfyui, cli },
        onnx_model_visible: onnx,
        comfyui_workflow_visible: comfyui,
    }
}

/// The position of a scale in the scale menu (smart, 2×, 3×, 4×).
pub open spec fn scale_index_spec(scale: u32) -> u32 {
    if scale == 2 {
        1
    } else if scale == 3 {
        2
    } else if scale == 4 {
        3
    } else {
        0
    }
}

/// The scale at a position of the scale menu; `0` is the smart scale.
pub open spec fn scale_of_index_spec(i: u32) -> u32 {
    if i == 1 {
        2
    } else if i == 2 {
        3
    } else if i == 3 {
        4
    } else {
        0
    }
}

/// The position of a scale in the scale menu.
pub fn scale_index(scale: u32) -> (r: u32)
    ensures
        r == scale_index_spec(scale),
{
    if scale == 2 {
        1
    } else if scale == 3 {
        2
    } else if scale == 4 {
        3
    } else {
        0
    }
}

/// The scale at a position of the scale menu.
pub fn scale_of_index(i: u32) -> (r: u32)
    ensures
        r == scale_of_index_spec(i),
{
    if i == 1 {
        2
    } else if i == 2 {
        3
    } else if i == 3 {
        4
    } else {
        0
    }
}

/// The subtitle of the scale menu: an explanation for the smart scale only.
pub open spec fn scale_subtitle_spec(i: u32) -> Seq<char> {
    if i == 0 {
        "Uses AI to determine the best output size."@
    } else {
        Seq::empty()
    }
}

/// The subtitle of the scale menu at a position.
pub fn scale_subtitle(i: u32) -> (r: &'static str)
    ensures
        r@ == scale_subtitle_spec(i),
{
    if i == 0 {
        "Uses AI to determine the best output size."
    } else {
        proof {
            reveal_strlit("");
        }
        ""
    }
}

/// The position of an ONNX model in its menu (lightweight ×2, compressed ×4,
/// real ×4).
pub open spec fn onnx_model_index_spec(m: Option<Seq<char>>) -> u32 {
    match m {
        Some(name) => if name == "swin2sr-compressed-x4"@ {
            1
        } else if name == "swin2sr-real-x4"@ {
            2
        } else {
            0
        },
        None => 0,
    }
}

/// The ONNX model at a position of its menu.
pub open spec fn onnx_model_of_index_spec(i: u32) -> Seq<char> {
    if i == 1 {
        "swin2sr-compressed-x4"@
    } else if i == 2 {
        "swin2sr-real-x4"@
    } else {
        "swin2sr-lightweight-x2"@
    }
}

/// The position of an ONNX model in its menu.
pub fn onnx_model_index(m: &Option<String>) -> (r: u32)
    ensures
        r == onnx_model_index_spec(opt_string_view(*m)),
{
    match m {
        Some(name) => if str_eq(name.as_str(), "swin2sr-compressed-x4") {
            1
        } else if str_eq(name.as_str(), "swin2sr-real-x4") {
            2
        } else {
            0
        },
        None => 0,
    }
}

/// The ONNX model at a position of its menu.
pub fn onnx_model_of_index(i: u32) -> (r: &'static str)
    ensures
        r@ == onnx_model_of_index_spec(i),
{
    if i == 1 {
        "swin2sr-compressed-x4"
    } else if i == 2 {
        "swin2sr-real-x4"
    } else {
        "swin2sr-lightweight-x2"
    }
}

/// The position of a ComfyUI workflow in its menu (ESRGAN, SeedVR2).
pub open spec fn comfyui_workflow_index_spec(w: Option<Seq<char>>) -> u32 {
    match w {
        Some(name) => if name == "seedvr2"@ {
            1
        } else {
            0
        },
        None => 0,
    }
}

/// The ComfyUI workflow at a position of its menu.
pub open spec fn comfyui_workflow_of_index_spec(i: u32) -> Seq<char> {
    if i == 1 {
        "seedvr2"@
    } else {
        "esrgan"@
    }
}

/// The position of a ComfyUI workflow in its menu.
pub fn comfyui_workflow_index(w: &Option<String>) -> (r: u32)
    ensures
        r == comfyui_workflow_index_spec(opt_string_view(*w)),
{
    match w {
        Some(name) => if str_eq(name.as_str(), "seedvr2") {
            1
        } else {
            0
        },
        None => 0,
    }
}

/// The ComfyUI workflow at a position of its menu.
pub fn comfyui_workflow_of_index(i: u32) -> (r: &'static str)
    ensures
        r@ == comfyui_workflow_of_index_spec(i),
{
    if i == 1 {
        "seedvr2"
    } else {
        "esrgan"
    }
}

/// The position of an export format in its menu (JXL, WebP, PNG, JPEG).
pub open spec fn export_format_index_spec(f: Seq<char>) -> u32 {
    if f == "webp"@ {
        1
    } else if f == "png"@ {
        2
    } else if f == "jpeg"@ {
        3
    } else {
        0
    }
}

/// The export format at a position of its menu.
pub open spec fn export_format_of_index_spec(i: u32) -> Seq<char> {
    if i == 1 {
        "webp"@
    } else if i == 2 {
        "png"@
    } else if i == 3 {
        "jpeg"@
    } else {
        "jxl"@
    }
}

/// The position of an export format in its menu.
pub fn export_format_index(f: &str) -> (r: u32)
    ensures
        r == export_format_index_spec(f@),
{
    if str_eq(f, "webp") {
        1
    } else if str_eq(f, "png") {
        2
    } else if str_eq(f, "jpeg") {
        3
    } else {
        0
    }
}

/// The export format at a position of its menu.
pub fn export_format_of_index(i: u32) -> (r: &'static str)
    ensures
        r@ == export_format_of_index_spec(i),
{
    if i == 1 {
        "webp"
    } else if i == 2 {
        "png"
    } else if i == 3 {
        "jpeg"
    } else {
        "jxl"
    }
}

/// The position of a longest-edge limit in its menu (original, 1080, 2160,
/// 4096).
pub open spec fn edge_index_spec(e: Option<u32>) -> u32 {
    match e {
        Some(1080) => 1,
        Some(2160) => 2,
        Some(4096) => 3,
        _ => 0,
    }
}

/// The longest-edge limit at a position of its menu; `None` keeps the size.
pub open spec fn edge_of_index_spec(i: u32) -> Option<u32> {
    if i == 1 {
        Some(1080)
    } else if i == 2 {
        Some(2160)
    } else if i == 3 {
        Some(4096)
    } else {
        None
    }
}

/// The position of a longest-edge limit in its menu.
pub fn edge_index(e: Option<u32>) -> (r: u32)
    ensures
        r == edge_index_spec(e),
{
    match e {
        Some(1080) => 1,
        Some(2160) => 2,
        Some(4096) => 3,
        _ => 0,
    }
}

/// The longest-edge limit at a position of its menu.
pub fn edge_of_index(i: u32) -> (r: Option<u32>)
    ensures
        r == edge_of_index_spec(i),
{
    if i == 1 {
        Some(1080)
    } else if i == 2 {
        Some(2160)
    } else if i == 3 {
        Some(4096)
    } else {
        None
    }
}

/// The position of a destination in its menu (default, next to the source,
/// custom folder).
pub open spec fn destination_index_spec(d: Seq<char>) -> u32 {
    if d == "source"@ {
        1
    } else if d == "custom"@ {
        2
    } else {
        0
    }
}

/// The destination at a position of its menu.
pub open spec fn destination_of_index_spec(i: u32) -> Seq<char> {
    if i == 1 {
        "source"@
    } else if i == 2 {
        "custom"@
    } else {
        "default"@
    }
}

/// The position of a destination in its menu.
pub fn destination_index(d: &str) -> (r: u32)
    ensures
        r == destination_index_spec(d@),
{
    if str_eq(d, "source") {
        1
    } else if str_eq(d, "custom") {
        2
    } else {
        0
    }
}

/// The destination at a position of its menu.
pub fn destination_of_index(i: u32) -> (r: &'static str)
    ensures
        r@ == destination_of_index_spec(i),
{
    if i == 1 {
        "source"
    } else if i == 2 {
        "custom"
    } else {
        "default"
    }
}

/// What the settings panel shows.
#[derive(Debug)]
pub struct PanelState {
    pub upscale_on: bool,
    pub backend: BackendButtons,
    pub scale_index: u32,
    pub onnx_model_index: u32,
    pub comfyui_workflow_index: u32,
    pub export_on: bool,
    pub export_format_index: u32,
    pub export_edge_index: u32,
    pub export_quality: u8,
    pub export_destination_index: u32,
    pub export_custom_path: Option<String>,
}

/// What the settings panel shows, as plain values.
#[verifier::ext_equal]
pub struct PanelView {
    pub upscale_on: bool,
    pub backend: BackendButtons,
    pub scale_index: u32,
    pub onnx_model_index: u32,
    pub comfyui_workflow_index: u32,
    pub export_on: bool,
    pub export_format_index: u32,
    pub export_edge_index: u32,
    pub export_quality: u8,
    pub export_destination_index: u32,
    pub export_custom_path: Option<Seq<char>>,
}

impl View for PanelState {
    type V = PanelView;

    open spec fn view(&self) -> PanelView {
        PanelView {
            upscale_on: self.upscale_on,
            backend: self.backend,
            scale_index: self.scale_index,
            onnx_model_index: self.onnx_model_index,
            comfyui_workflow_index: self.comfyui_workflow_index,
            export_on: self.export_on,
            export_format_index: self.export_format_index,
            export_edge_index: self.export_edge_index,
            export_quality: self.export_quality,
            export_destination_index: self.export_destination_index,
            export_custom_path: opt_string_view(self.export_custom_path),
        }
    }
}

/// The panel showing a configuration.
pub open spec fn panel_of(c: ConfigView) -> PanelView {
    PanelView {
        upscale_on: c.upscale_on,
        backend: backend_buttons_spec(c.upscale.backend),
        scale_index: scale_index_spec(c.upscale.scale),
        onnx_model_index: onnx_model_index_spec(c.upscale.onnx_model),
        comfyui_workflow_index: comfyui_workflow_index_spec(c.upscale.comfyui_workflow),
        export_on: c.export_on,
        export_format_index: export_format_index_spec(c.export.format),
        export_edge_index: edge_index_spec(c.export.max_edge),
        export_quality: c.export.quality,
        export_destination_index: destination_index_spec(c.export.destination),
        export_custom_path: c.export.custom_path,
    }
}

/// The configuration the panel holds. The panel edits the backend, the
/// model of the chosen backend, the scale and the export settings; the
/// upscale output settings are reset to PNG at quality 85 in the default
/// destination, and the upscale model is the one the preferences name.
pub open spec fn config_of(p: PanelView, model: Seq<char>) -> ConfigView {
    let backend = selected_backend_spec(p.backend);
    ConfigView {
        upscale_on: p.upscale_on,
        upscale: UpscaleSettingsView {
            backend: backend,
            model: model,
            onnx_model: if backend == "onnx"@ {
                Some(onnx_model_of_index_spec(p.onnx_model_index))
            } else {
                None
            },
            scale: scale_of_index_spec(p.scale_index),
            compress: false,
            format: "png"@,
            quality: 85,
            keep_png: false,
            destination: "default"@,
            custom_path: None,
            comfyui_workflow: if backend == "comfyui"@ {
                Some(comfyui_workflow_of_index_spec(p.comfyui_workflow_index))
            } else {
                None
            },
        },
        export_on: p.export_on,
        export: ExportSettingsView {
            format: export_format_of_index_spec(p.export_format_index),
            max_edge: edge_of_index_spec(p.export_edge_index),
            quality: p.export_quality,
            destination: destination_of_index_spec(p.export_destination_index),
            custom_path: p.export_custom_path,
        },
    }
}

/// Shows a configuration in the panel.
pub fn panel_from_config(c: &PendingConfig) -> (r: PanelState)
    ensures
        r@ == panel_of(c@),
{
    let controls = backend_controls(c.upscale.backend.as_str());
    PanelState {
        upscale_on: c.upscale_on,
        backend: controls.buttons,
        scale_index: scale_index(c.upscale.scale),
        onnx_model_index: onnx_model_index(&c.upscale.onnx_model),
        comfyui_workflow_index: comfyui_workflow_index(&c.upscale.comfyui_workflow),
        export_on: c.export_on,
        export_format_index: export_format_index(c.export.format.as_str()),
        export_edge_index: edge_index(c.export.max_edge),
        export_quality: c.export.quality,
        export_destination_index: destination_index(c.export.destination.as_str()),
        export_custom_path: clone_opt_string(&c.export.custom_path),
    }
}

fn owned(s: &str) -> (r: String)
    ensures
        r@ == s@,
{
    string_of(&chars_of(s))
}

/// Reads the configuration the panel holds; `default_model` is the upscale
/// model the preferences name.
pub fn config_from_panel(p: &PanelState, default_model: &str) -> (r: PendingConfig)
    ensures
        r@ == config_of(p@, default_model@),
{
    let backend = selected_backend(p.backend);
    let onnx_model = if str_eq(backend, "onnx") {
        Some(owned(onnx_model_of_index(p.onnx_model_index)))
    } else {
        None
    };
    let comfyui_workflow = if str_eq(backend, "comfyui") {
        Some(owned(comfyui_workflow_of_index(p.comfyui_workflow_index)))
    } else {
        None
    };
    let upscale = UpscaleStepSettings {
        backend: owned(backend),
        model: owned(default_model),
        onnx_model,
        scale: scale_of_index(p.scale_index),
        compress: false,
        format: owned("png"),
        quality: 85,
        keep_png: false,
        destination: owned("default"),
        custom_path: None,
        comfyui_workflow,
    };
    let export = ExportStepSettings {
        format: owned(export_format_of_index(p.export_format_index)),
        max_edge: edge_of_index(p.export_edge_index),
        quality: p.export_quality,
        destination: owned(destination_of_index(p.export_destination_index)),
        custom_path: clone_opt_string(&p.export_custom_path),
    };
    let r = PendingConfig { upscale_on: p.upscale_on, upscale, export_on: p.export_on, export };
    assert(r@ =~= config_of(p@, default_model@));
    r
}

/// Each menu position maps to a value that maps back to the same position,
/// and each value a menu offers maps to a position that gives it back.
pub proof fn lemma_menu_positions_round_trip()
    ensures
        forall|i: u32| i <= 3 ==> #[trigger] scale_index_spec(scale_of_index_spec(i)) == i,
        forall|s: u32|
            (s == 0 || s == 2 || s == 3 || s == 4) ==> #[trigger] scale_of_index_spec(scale_index_spec(s)) == s,
        forall|i: u32| i <= 2 ==> #[trigger] onnx_model_index_spec(Some(onnx_model_of_index_spec(i))) == i,
        forall|i: u32| i <= 1 ==> #[trigger] comfyui_workflow_index_spec(Some(comfyui_workflow_of_index_spec(i))) == i,
        forall|i: u32| i <= 3 ==> #[trigger] export_format_index_spec(export_format_of_index_spec(i)) == i,
        forall|i: u32| i <= 3 ==> #[trigger] edge_index_spec(edge_of_index_spec(i)) == i,
        forall|e: Option<u32>|
            (e == None::<u32> || e == Some(1080u32) || e == Some(2160u32) || e == Some(4096u32))
                ==> #[trigger] edge_of_index_spec(edge_index_spec(e)) == e,
        forall|i: u32| i <= 2 ==> #[trigger] destination_index_spec(destination_of_index_spec(i)) == i,
{
    reveal_strlit("swin2sr-compressed-x4");
    reveal_strlit("swin2sr-real-x4");
    reveal_strlit("swin2sr-lightweight-x2");
    reveal_strlit("seedvr2");
    reveal_strlit("esrgan");
    reveal_strlit("webp");
    reveal_strlit("png");
    reveal_strlit("jpeg");
    reveal_strlit("jxl");
    reveal_strlit("source");
    reveal_strlit("custom");
    reveal_strlit("default");
    assert("swin2sr-lightweight-x2"@.len() != "swin2sr-compressed-x4"@.len());
    assert("swin2sr-lightweight-x2"@.len() != "swin2sr-real-x4"@.len());
    assert("swin2sr-real-x4"@.len() != "swin2sr-compressed-x4"@.len());
    assert("esrgan"@.len() != "seedvr2"@.len());
    assert("webp"@[0] != "jpeg"@[0] && "webp"@.len() != "png"@.len() && "webp"@.len() != "jxl"@.len());
    assert("png"@[0] != "jxl"@[0] && "jpeg"@.len() != "png"@.len() && "jpeg"@.len() != "jxl"@.len());
    assert("source"@[0] != "custom"@[0] && "default"@.len() != "source"@.len());
    assert("default"@.len() != "custom"@.len());
}

/// The backend the buttons select, shown again, selects itself.
pub proof fn lemma_backend_round_trip(b: BackendButtons)
    ensures
        selected_backend_spec(backend_buttons_spec(selected_backend_spec(b))) == selected_backend_spec(b),
{
    reveal_strlit("cli");
    reveal_strlit("comfyui");
    reveal_strlit("onnx");
}

/// Reading the panel is stable: a configuration read from the panel, shown
/// in the panel and read again, is the same configuration.
pub proof fn lemma_panel_read_back(p: PanelView, model: Seq<char>)
    ensures
        config_of(panel_of(config_of(p, model)), model) == config_of(p, model),
{
    lemma_menu_positions_round_trip();
    lemma_backend_round_trip(p.backend);
    reveal_strlit("cli");
    reveal_strlit("comfyui");
    reveal_strlit("onnx");
    let c = config_of(p, model);
    let q = panel_of(c);
    assert(scale_of_index_spec(q.scale_index) == c.upscale.scale);
    assert(export_format_of_index_spec(q.export_format_index) == c.export.format);
    assert(edge_of_index_spec(q.export_edge_index) == c.export.max_edge);
    assert(destination_of_index_spec(q.export_destination_index) == c.export.destination);
    assert(config_of(q, model) =~= c);
}

// ---------------------------------------------------------------------------
// Configurations read back from stored steps
// ---------------------------------------------------------------------------

/// The configuration the first `n` stored steps describe: each step whose
/// settings could be read turns its action on with those settings, a later
/// step of the same kind winning over an earlier one.
pub open spec fn read_steps(steps: Seq<PipelineStep>, parsed: Seq<ParsedStepSettings>, n: int) -> ConfigView
    decreases n,
{
    if n <= 0 {
        ConfigView {
            upscale_on: false,
            upscale: default_upscale_view(),
            export_on: false,
            export: default_export_view(),
        }
    } else {
        let prev = read_steps(steps, parsed, n - 1);
        match parsed[n - 1] {
            ParsedStepSettings::Upscale(u) => if steps[n - 1].step_type == StepType::Upscale {
                ConfigView { upscale_on: true, upscale: u@, export_on: prev.export_on, export: prev.export }
            } else {
                prev
            },
            ParsedStepSettings::Export(e) => if steps[n - 1].step_type == StepType::Export {
                ConfigView { upscale_on: prev.upscale_on, upscale: prev.upscale, export_on: true, export: e@ }
            } else {
                prev
            },
            ParsedStepSettings::Unreadable => prev,
        }
    }
}

/// The configuration stored steps describe; a pipeline without steps gets a
/// new configuration.
pub open spec fn config_from_steps_spec(steps: Seq<PipelineStep>, parsed: Seq<ParsedStepSettings>) -> ConfigView {
    if steps.len() == 0 {
        default_config_view()
    } else {
        read_steps(steps, parsed, steps.len() as int)
    }
}

/// The configuration a pipeline's stored steps describe; `parsed[i]` holds
/// the read settings of `steps[i]`.
pub fn config_from_steps(steps: &[PipelineStep], parsed: &[ParsedStepSettings]) -> (r: PendingConfig)
    requires
        parsed@.len() == steps@.len(),
    ensures
        r@ == config_from_steps_spec(steps@, parsed@),
{
    let mut config = PendingConfig { upscale_on: false, upscale: default_upscale(), export_on: false, export: default_export() };
    let mut i: usize = 0;
    while i < steps.len()
        invariant
            i <= steps@.len(),
            parsed@.len() == steps@.len(),
            config@ == read_steps(steps@, parsed@, i as int),
        decreases steps@.len() - i,
    {
        match &parsed[i] {
            ParsedStepSettings::Upscale(u) => {
                if steps[i].step_type == StepType::Upscale {
                    config.upscale_on = true;
                    config.upscale = u.clone();
                }
            },
            ParsedStepSettings::Export(e) => {
                if steps[i].step_type == StepType::Export {
                    config.export_on = true;
                    config.export = e.clone();
                }
            },
            ParsedStepSettings::Unreadable => {},
        }
        i = i + 1;
    }
    if steps.len() == 0 {
        config.upscale_on = true;
    }
    config
}

/// Whether stored steps hold what was written for a configuration: the kinds
/// of step to store, each read back with the settings it was stored with.
pub open spec fn steps_hold_config(steps: Seq<PipelineStep>, parsed: Seq<ParsedStepSettings>, c: ConfigView) -> bool {
    let kinds = steps_to_commit_spec(false, c);
    &&& steps.len() == kinds.len()
    &&& parsed.len() == kinds.len()
    &&& forall|i: int| 0 <= i < kinds.len() ==> #[trigger] steps[i].step_type == kinds[i]
    &&& forall|i: int|
        0 <= i < kinds.len() ==> match #[trigger] parsed[i] {
            ParsedStepSettings::Upscale(u) => kinds[i] == StepType::Upscale && u@ == c.upscale,
            ParsedStepSettings::Export(e) => kinds[i] == StepType::Export && e@ == c.export,
            ParsedStepSettings::Unreadable => false,
        }
}

/// Storing a configuration's steps and reading them back gives the
/// configuration again: the same actions on, each with its settings. This
/// needs at least one action on; with none, nothing is stored and a pipeline
/// without steps reads as a new configuration.
pub proof fn lemma_commit_read_back(c: ConfigView, steps: Seq<PipelineStep>, parsed: Seq<ParsedStepSettings>)
    requires
        c.upscale_on || c.export_on,
        steps_hold_config(steps, parsed, c),
    ensures
        config_from_steps_spec(steps, parsed).upscale_on == c.upscale_on,
        config_from_steps_spec(steps, parsed).export_on == c.export_on,
        c.upscale_on ==> config_from_steps_spec(steps, parsed).upscale == c.upscale,
        c.export_on ==> config_from_steps_spec(steps, parsed).export == c.export,
{
    let kinds = steps_to_commit_spec(false, c);
    let start = read_steps(steps, parsed, 0);
    assert(!start.upscale_on && !start.export_on);
    assert(steps[0].step_type == kinds[0]);
    let _ = parsed[0];
    if kinds.len() == 2 {
        assert(steps[1].step_type == kinds[1]);
        let _ = parsed[1];
        assert(read_steps(steps, parsed, 1).upscale_on);
        assert(!read_steps(steps, parsed, 1).export_on);
    }
}

/// The kinds of step to store for a pipeline when the queue starts: none if
/// it already has steps, else an upscale and then an export as configured.
pub open spec fn steps_to_commit_spec(has_steps: bool, c: ConfigView) -> Seq<StepType> {
    if has_steps {
        Seq::empty()
    } else {
        (if c.upscale_on {
            seq![StepType::Upscale]
        } else {
            Seq::empty()
        }) + (if c.export_on {
            seq![StepType::Export]
        } else {
            Seq::empty()
        })
    }
}

/// The kinds of step to store for a pipeline when the queue starts.
pub fn steps_to_commit(has_steps: bool, c: &PendingConfig) -> (r: Vec<StepType>)
    ensures
        r@ == steps_to_commit_spec(has_steps, c@),
{
    let mut v: Vec<StepType> = Vec::new();
    if !has_steps {
        if c.upscale_on {
            v.push(StepType::Upscale);
        }
        if c.export_on {
            v.push(StepType::Export);
        }
    }
    assert(v@ =~= steps_to_commit_spec(has_steps, c@));
    v
}

// ---------------------------------------------------------------------------
// Summary and chips
// ---------------------------------------------------------------------------

/// What a summary line describes; it decides the line's style.
#[derive(Clone, Copy, Debug, PartialEq, Eq, Structural)]
pub enum SummaryKind {
    Nothing,
    Upscale,
    Export,
}

/// One line of the configuration summary.
#[derive(Debug)]
pub struct SummaryLine {
    pub kind: SummaryKind,
    pub text: String,
}

/// The scale as the summary names it: 2× and 4×, anything else is the
/// smart scale.
pub open spec fn summary_scale_spec(scale: u32) -> Seq<char> {
    if scale == 2 {
        "2×"@
    } else if scale == 4 {
        "4×"@
    } else {
        "Smart scale"@
    }
}

/// The display name of a backend.
pub open spec fn backend_label_spec(backend: Seq<char>) -> Seq<char> {
    if backend == "comfyui"@ {
        "ComfyUI"@
    } else if backend == "cli"@ {
        "External CLI"@
    } else {
        "ONNX"@
    }
}

/// The summary of a configuration: a line for each action that is on, or a
/// single line saying that none is.
pub open spec fn summary_spec(c: ConfigView) -> Seq<(SummaryKind, Seq<char>)> {
    (if !c.upscale_on && !c.export_on {
        seq![(SummaryKind::Nothing, "No actions configured"@)]
    } else {
        Seq::empty()
    }) + (if c.upscale_on {
        seq![(SummaryKind::Upscale, "Upscale using "@ + backend_label_spec(c.upscale.backend) + " · "@ + summary_scale_spec(c.upscale.scale))]
    } else {
        Seq::empty()
    }) + (if c.export_on {
        seq![(SummaryKind::Export, "Convert / Export as "@ + uppercase_of(c.export.format) + " · Q"@ + decimal(c.export.quality as nat))]
    } else {
        Seq::empty()
    })
}

/// The kind and text of each summary line.
pub open spec fn summary_lines_view(lines: Seq<SummaryLine>) -> Seq<(SummaryKind, Seq<char>)> {
    lines.map_values(|l: SummaryLine| (l.kind, l.text@))
}

/// The summary of a configuration.
pub fn config_summary(c: &PendingConfig) -> (r: Vec<SummaryLine>)
    ensures
        summary_lines_view(r@) == summary_spec(c@),
{
    let mut out: Vec<SummaryLine> = Vec::new();
    if !c.upscale_on && !c.export_on {
        out.push(SummaryLine { kind: SummaryKind::Nothing, text: string_of(&lit("No actions configured")) });
    }
    if c.upscale_on {
        let mut t = lit("Upscale using ");
        let b = c.upscale.backend.as_str();
        if str_eq(b, "comfyui") {
            push_str(&mut t, "ComfyUI");
        } else if str_eq(b, "cli") {
            push_str(&mut t, "External CLI");
        } else {
            push_str(&mut t, "ONNX");
        }
        push_str(&mut t, " · ");
        if c.upscale.scale == 2 {
            push_str(&mut t, "2×");
        } else if c.upscale.scale == 4 {
            push_str(&mut t, "4×");
        } else {
            push_str(&mut t, "Smart scale");
        }
        out.push(SummaryLine { kind: SummaryKind::Upscale, text: string_of(&t) });
    }
    if c.export_on {
        let mut t = lit("Convert / Export as ");
        let f = chars_of(c.export.format.as_str());
        let up = upper_chars(&f);
        append_chars(&mut t, &up);
        push_str(&mut t, " · Q");
        let q = u64_text(c.export.quality as u64);
        append_chars(&mut t, &q);
        out.push(SummaryLine { kind: SummaryKind::Export, text: string_of(&t) });
    }
    assert(summary_lines_view(out@) =~= summary_spec(c@));
    out
}

/// What a chip shows; it decides the chip's style.
#[derive(Clone, Copy, Debug, PartialEq, Eq, Structural)]
pub enum ChipKind {
    Upscale,
    Separator,
    Export,
    Warning,
}

/// One chip of a queue row; a separator has no text.
#[derive(Debug)]
pub struct ActionChip {
    pub kind: ChipKind,
    pub text: String,
}

/// The scale as a chip names it: 2×, 3× or 4×, anything else is the smart
/// scale.
pub open spec fn chip_scale_spec(scale: u32) -> Seq<char> {
    if scale == 2 || scale == 3 || scale == 4 {
        decimal(scale as nat) + "×"@
    } else {
        "Smart scale"@
    }
}

/// The text of an upscale chip.
pub open spec fn upscale_chip_spec(u: UpscaleSettingsView) -> Seq<char> {
    "Upscale · "@ + u.backend + " · "@ + chip_scale_spec(u.scale)
}

/// The text of an export chip.
pub open spec fn export_chip_spec(e: ExportSettingsView) -> Seq<char> {
    "Convert · "@ + uppercase_of(e.format) + " · Q"@ + decimal(e.quality as nat)
}

/// The chips for an optional upscale and an optional export, with a
/// separator between them when both are there.
pub open spec fn chip_pair_spec(up: Option<UpscaleSettingsView>, ex: Option<ExportSettingsView>) -> Seq<(ChipKind, Seq<char>)> {
    (match up {
        Some(u) => seq![(ChipKind::Upscale, upscale_chip_spec(u))],
        None => Seq::empty(),
    }) + (if up is Some && ex is Some {
        seq![(ChipKind::Separator, Seq::<char>::empty())]
    } else {
        Seq::empty()
    }) + (match ex {
        Some(e) => seq![(ChipKind::Export, export_chip_spec(e))],
        None => Seq::empty(),
    })
}

/// The warning chip of a row with no action.
pub open spec fn warning_chip_spec() -> Seq<(ChipKind, Seq<char>)> {
    seq![(ChipKind::Warning, "⚠ No actions assigned"@)]
}

/// The chips of a configuration: one per action that is on, or the warning.
pub open spec fn config_chips_spec(c: ConfigView) -> Seq<(ChipKind, Seq<char>)> {
    chip_pair_spec(
        if c.upscale_on {
            Some(c.upscale)
        } else {
            None
        },
        if c.export_on {
            Some(c.export)
        } else {
            None
        },
    ) + if !c.upscale_on && !c.export_on {
        warning_chip_spec()
    } else {
        Seq::empty()
    }
}

/// The chips of a queue row: from its stored steps when it has some, else
/// from its pending configuration, else the warning.
pub open spec fn pipeline_chips_spec(
    steps: Seq<PipelineStep>,
    parsed: Seq<ParsedStepSettings>,
    pending: Option<ConfigView>,
) -> Seq<(ChipKind, Seq<char>)> {
    if steps.len() > 0 {
        let c = read_steps(steps, parsed, steps.len() as int);
        chip_pair_spec(
            if c.upscale_on {
                Some(c.upscale)
            } else {
                None
            },
            if c.export_on {
                Some(c.export)
            } else {
                None
            },
        )
    } else {
        match pending {
            Some(c) => config_chips_spec(c),
            None => warning_chip_spec(),
        }
    }
}

/// The kind and text of each chip.
pub open spec fn chips_view(chips: Seq<ActionChip>) -> Seq<(ChipKind, Seq<char>)> {
    chips.map_values(|c: ActionChip| (c.kind, c.text@))
}

fn upscale_chip_text(u: &UpscaleStepSettings) -> (r: String)
    ensures
        r@ == upscale_chip_spec(u@),
{
    let mut t = lit("Upscale · ");
    push_str(&mut t, u.backend.as_str());
    push_str(&mut t, " · ");
    if u.scale == 2 || u.scale == 3 || u.scale == 4 {
        let d = u64_text(u.scale as u64);
        append_chars(&mut t, &d);
        push_str(&mut t, "×");
    } else {
        push_str(&mut t, "Smart scale");
    }
    string_of(&t)
}

fn export_chip_text(e: &ExportStepSettings) -> (r: String)
    ensures
        r@ == export_chip_spec(e@),
{
    let mut t = lit("Convert · ");
    let f = chars_of(e.format.as_str());
    let up = upper_chars(&f);
    append_chars(&mut t, &up);
    push_str(&mut t, " · Q");
    let q = u64_text(e.quality as u64);
    append_chars(&mut t, &q);
    string_of(&t)
}

fn chip_pair(up: Option<&UpscaleStepSettings>, ex: Option<&ExportStepSettings>) -> (r: Vec<ActionChip>)
    ensures
        chips_view(r@) == chip_pair_spec(
            match up {
                Some(u) => Some(u@),
                None => None,
            },
            match ex {
                Some(e) => Some(e@),
                None => None,
            },
        ),
{
    let mut out: Vec<ActionChip> = Vec::new();
    match up {
        Some(u) => out.push(ActionChip { kind: ChipKind::Upscale, text: upscale_chip_text(u) }),
        None => {},
    }
    if up.is_some() && ex.is_some() {
        out.push(ActionChip { kind: ChipKind::Separator, text: String::new() });
    }
    match ex {
        Some(e) => out.push(ActionChip { kind: ChipKind::Export, text: export_chip_text(e) }),
        None => {},
    }
    let ghost upv = match up {
        Some(u) => Some(u@),
        None => None::<UpscaleSettingsView>,
    };
    let ghost exv = match ex {
        Some(e) => Some(e@),
        None => None::<ExportSettingsView>,
    };
    assert(chips_view(out@) =~= chip_pair_spec(upv, exv));
    out
}

/// The chips of a configuration.
pub fn config_chips(c: &PendingConfig) -> (r: Vec<ActionChip>)
    ensures
        chips_view(r@) == config_chips_spec(c@),
{
    let up = if c.upscale_on {
        Some(&c.upscale)
    } else {
        None
    };
    let ex = if c.export_on {
        Some(&c.export)
    } else {
        None
    };
    let mut out = chip_pair(up, ex);
    let ghost before = chips_view(out@);
    if !c.upscale_on && !c.export_on {
        out.push(ActionChip { kind: ChipKind::Warning, text: string_of(&lit("⚠ No actions assigned")) });
    }
    assert(chips_view(out@) =~= before + if !c.upscale_on && !c.export_on {
        warning_chip_spec()
    } else {
        Seq::empty()
    });
    out
}

/// The chips of a queue row; `parsed[i]` holds the read settings of
/// `steps[i]`, and `pending` the configuration held for the row, if any.
pub fn pipeline_chips(steps: &[PipelineStep], parsed: &[ParsedStepSettings], pending: Option<&PendingConfig>) -> (r: Vec<ActionChip>)
    requires
        parsed@.len() == steps@.len(),
    ensures
        chips_view(r@) == pipeline_chips_spec(
            steps@,
            parsed@,
            match pending {
                Some(c) => Some(c@),
                None => None,
            },
        ),
{
    if steps.len() > 0 {
        let c = config_from_steps(steps, parsed);
        let up = if c.upscale_on {
            Some(&c.upscale)
        } else {
            None
        };
        let ex = if c.export_on {
            Some(&c.export)
        } else {
            None
        };
        chip_pair(up, ex)
    } else {
        match pending {
            Some(c) => config_chips(c),
            None => {
                let mut out: Vec<ActionChip> = Vec::new();
                out.push(ActionChip { kind: ChipKind::Warning, text: string_of(&lit("⚠ No actions assigned")) });
                assert(chips_view(out@) =~= warning_chip_spec());
                out
            },
        }
    }
}

// ---------------------------------------------------------------------------
// Backend buttons as radio buttons
// ---------------------------------------------------------------------------

/// One of the three upscale backends.
#[derive(Clone, Copy, Debug, PartialEq, Eq, Structural)]
pub enum Backend {
    Onnx,
    ComfyUi,
    Cli,
}

/// Whether a backend's button is pressed.
pub open spec fn pressed(b: BackendButtons, which: Backend) -> bool {
    match which {
        Backend::Onnx => b.onnx,
        Backend::ComfyUi => b.comfyui,
        Backend::Cli => b.cli,
    }
}

/// Exactly one backend button is pressed.
pub open spec fn exactly_one(b: BackendButtons) -> bool {
    (b.onnx && !b.comfyui && !b.cli) || (!b.onnx && b.comfyui && !b.cli) || (!b.onnx && !b.comfyui && b.cli)
}

/// Only `which` pressed.
pub open spec fn only(which: Backend) -> BackendButtons {
    BackendButtons {
        onnx: which == Backend::Onnx,
        comfyui: which == Backend::ComfyUi,
        cli: which == Backend::Cli,
    }
}

/// The buttons after `which` was toggled (`b` holds its new state): a
/// pressed button releases the others; releasing the only pressed button
/// presses it again.
pub open spec fn after_toggle_spec(b: BackendButtons, which: Backend) -> BackendButtons {
    if pressed(b, which) {
        only(which)
    } else if !b.onnx && !b.comfyui && !b.cli {
        only(which)
    } else {
        b
    }
}

/// The buttons after `which` was toggled.
pub fn after_backend_toggled(b: BackendButtons, which: Backend) -> (r: BackendButtons)
    ensures
        r == after_toggle_spec(b, which),
{
    let now = match which {
        Backend::Onnx => b.onnx,
        Backend::ComfyUi => b.comfyui,
        Backend::Cli => b.cli,
    };
    if now || (!b.onnx && !b.comfyui && !b.cli) {
        BackendButtons {
            onnx: match which {
                Backend::Onnx => true,
                _ => false,
            },
            comfyui: match which {
                Backend::ComfyUi => true,
                _ => false,
            },
            cli: match which {
                Backend::Cli => true,
                _ => false,
            },
        }
    } else {
        b
    }
}

/// The buttons with the state of one flipped.
pub open spec fn flip(b: BackendButtons, which: Backend) -> BackendButtons {
    match which {
        Backend::Onnx => BackendButtons { onnx: !b.onnx, ..b },
        Backend::ComfyUi => BackendButtons { comfyui: !b.comfyui, ..b },
        Backend::Cli => BackendButtons { cli: !b.cli, ..b },
    }
}

/// The backend buttons stay a radio group: from one pressed button, any
/// click leaves exactly one pressed.
pub proof fn lemma_backend_radio(b: BackendButtons, which: Backend)
    requires
        exactly_one(b),
    ensures
        exactly_one(after_toggle_spec(flip(b, which), which)),
{
}

/// The custom folder row shows when the destination menu is on its third
/// entry (a custom folder).
pub fn custom_destination_visible(index: u32) -> (r: bool)
    ensures
        r == (index == 2),
{
    index == 2
}

/// The text of the custom folder row: the chosen folder, or an invitation
/// to choose one.
pub fn custom_destination_label(path: Option<&str>) -> (r: String)
    ensures
        r@ == match path {
            Some(p) => p@,
            None => "Choose a folder"@,
        },
{
    match path {
        Some(p) => string_of(&chars_of(p)),
        None => string_of(&lit("Choose a folder")),
    }
}

// ---------------------------------------------------------------------------
// Configurations held per queued image
// ---------------------------------------------------------------------------

/// The configurations held for queued images until the queue starts, by
/// pipeline id.
pub struct PendingConfigs {
    pub map: HashMap<i64, PendingConfig>,
}

impl PendingConfigs {
    /// No configuration held.
    pub fn new() -> (r: Self)
        ensures
            r.map@ == Map::<i64, PendingConfig>::empty(),
    {
        PendingConfigs { map: HashMap::new() }
    }

    /// The configuration held for a pipeline.
    pub fn get(&self, id: i64) -> (r: Option<PendingConfig>)
        ensures
            match r {
                Some(c) => self.map@.contains_key(id) && c == self.map@[id],
                None => !self.map@.contains_key(id),
            },
    {
        match self.map.get(&id) {
            Some(c) => Some(c.clone()),
            None => None,
        }
    }

    /// Holds a configuration for a pipeline, replacing any before.
    pub fn set(&mut self, id: i64, config: PendingConfig)
        ensures
            final(self).map@ == old(self).map@.insert(id, config),
    {
        self.map.insert(id, config);
    }

    /// The configuration held for a pipeline, holding `built` first when
    /// there was none.
    pub fn get_or_insert(&mut self, id: i64, built: PendingConfig) -> (r: PendingConfig)
        ensures
            old(self).map@.contains_key(id) ==> r == old(self).map@[id] && final(self).map@ == old(self).map@,
            !old(self).map@.contains_key(id) ==> r == built && final(self).map@ == old(self).map@.insert(id, built),
    {
        match self.map.get(&id) {
            Some(c) => c.clone(),
            None => {
                let copy = built.clone();
                self.map.insert(id, built);
                copy
            },
        }
    }

    /// Drops the configuration of a pipeline.
    pub fn remove(&mut self, id: i64)
        ensures
            final(self).map@ == old(self).map@.remove(id),
    {
        self.map.remove(&id);
    }
}

/// A configuration held for a pipeline is what a later read gives back, and
/// holding one for a pipeline leaves those of the others.
pub proof fn lemma_pending_read_after_write(m: Map<i64, PendingConfig>, id: i64, other: i64, c: PendingConfig)
    requires
        other != id,
    ensures
        m.insert(id, c).contains_key(id) && m.insert(id, c)[id] == c,
        m.insert(id, c).contains_key(other) == m.contains_key(other),
        m.contains_key(other) ==> m.insert(id, c)[other] == m[other],
{
}

} // verus!
