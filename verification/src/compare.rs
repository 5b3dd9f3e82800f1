//! Step settings and the descriptions shown when comparing an original with
//! its processed output.
use vstd::prelude::*;
use crate::tags::clone_opt_string;
use crate::paths::{opt_string_view, extension, extension_of, file_name, file_name_of, parent_of, path_parent};
use crate::text::{
    append_chars, ascii_lower_chars, ascii_lower_seq, ascii_upper_chars, ascii_upper_seq,
    chars_of, eq_lit, lit, push_str, string_of, u64_text, decimal,
};

verus! {

/// One side of a comparison: a file with its format, size on screen and on
/// disk.
#[derive(Debug)]
pub struct CompareAssetInfo {
    pub title: String,
    pub path: String,
    pub format: String,
    pub dimensions: (u32, u32),
    pub file_size: u64,
}

impl Clone for CompareAssetInfo {
    fn clone(&self) -> (r: Self)
        ensures
            r == *self,
    {
        CompareAssetInfo {
            title: self.title.clone(),
            path: self.path.clone(),
            format: self.format.clone(),
            dimensions: self.dimensions,
            file_size: self.file_size,
        }
    }
}

/// Settings of an upscale step, as stored with the step.
#[derive(Debug)]
pub struct UpscaleStepSettings {
    /// `"cli"`, `"onnx"` or `"comfyui"`.
    pub backend: String,
    /// `"standard"` or `"anime"`.
    pub model: String,
    pub onnx_model: Option<String>,
    /// `0` is the smart/automatic scale; otherwise `2`, `3` or `4`.
    pub scale: u32,
    pub compress: bool,
    /// `"jxl"`, `"webp"`, `"jpeg"` or `"png"`.
    pub format: String,
    pub quality: u8,
    pub keep_png: bool,
    /// `"default"`, `"source"` or `"custom"`.
    pub destination: String,
    pub custom_path: Option<String>,
    /// `"esrgan"` or `"seedvr2"`.
    pub comfyui_workflow: Option<String>,
}

/// Settings of an export (convert) step, as stored with the step.
#[derive(Debug)]
pub struct ExportStepSettings {
    /// `"jxl"`, `"webp"`, `"png"` or `"jpeg"`.
    pub format: String,
    /// `None` keeps the original size.
    pub max_edge: Option<u32>,
    pub quality: u8,
    /// `"default"`, `"source"` or `"custom"`.
    pub destination: String,
    pub custom_path: Option<String>,
}

/// What an upscale step's settings say, as plain values.
#[verifier::ext_equal]
pub struct UpscaleSettingsView {
    pub backend: Seq<char>,
    pub model: Seq<char>,
    pub onnx_model: Option<Seq<char>>,
    pub scale: u32,
    pub compress: bool,
    pub format: Seq<char>,
    pub quality: u8,
    pub keep_png: bool,
    pub destination: Seq<char>,
    pub custom_path: Option<Seq<char>>,
    pub comfyui_workflow: Option<Seq<char>>,
}

impl View for UpscaleStepSettings {
    type V = UpscaleSettingsView;

    open spec fn view(&self) -> UpscaleSettingsView {
        UpscaleSettingsView {
            backend: self.backend@,
            model: self.model@,
            onnx_model: opt_string_view(self.onnx_model),
            scale: self.scale,
            compress: self.compress,
            format: self.format@,
            quality: self.quality,
            keep_png: self.keep_png,
            destination: self.destination@,
            custom_path: opt_string_view(self.custom_path),
            comfyui_workflow: opt_string_view(self.comfyui_workflow),
        }
    }
}

/// What an export step's settings say, as plain values.
#[verifier::ext_equal]
pub struct ExportSettingsView {
    pub format: Seq<char>,
    pub max_edge: Option<u32>,
    pub quality: u8,
    pub destination: Seq<char>,
    pub custom_path: Option<Seq<char>>,
}

impl View for ExportStepSettings {
    type V = ExportSettingsView;

    open spec fn view(&self) -> ExportSettingsView {
        ExportSettingsView {
            format: self.format@,
            max_edge: self.max_edge,
            quality: self.quality,
            destination: self.destination@,
            custom_path: opt_string_view(self.custom_path),
        }
    }
}

impl Clone for UpscaleStepSettings {
    fn clone(&self) -> (r: Self)
        ensures
            r == *self,
    {
        UpscaleStepSettings {
            backend: self.backend.clone(),
            model: self.model.clone(),
            onnx_model: clone_opt_string(&self.onnx_model),
            scale: self.scale,
            compress: self.compress,
            format: self.format.clone(),
            quality: self.quality,
            keep_png: self.keep_png,
            destination: self.destination.clone(),
            custom_path: clone_opt_string(&self.custom_path),
            comfyui_workflow: clone_opt_string(&self.comfyui_workflow),
        }
    }
}

impl Clone for ExportStepSettings {
    fn clone(&self) -> (r: Self)
        ensures
            r == *self,
    {
        ExportStepSettings {
            format: self.format.clone(),
            max_edge: self.max_edge,
            quality: self.quality,
            destination: self.destination.clone(),
            custom_path: clone_opt_string(&self.custom_path),
        }
    }
}

/// The destination used when stored settings name none.
pub fn default_destination() -> (r: String)
    ensures
        r@ == "default"@,
{
    let v = lit("default");
    string_of(&v)
}

/// Whether the lowercased extension of `p` is exactly `e`.
pub open spec fn lower_extension_is(p: Seq<char>, e: Seq<char>) -> bool {
    match extension_of(p) {
        Some(x) => ascii_lower_seq(x) == e,
        None => false,
    }
}

/// The title of the output side: PNG outputs are plain output, everything else
/// is compressed.
pub open spec fn output_title_spec(p: Seq<char>) -> Seq<char> {
    if lower_extension_is(p, "png"@) {
        "Output"@
    } else {
        "Compressed Output"@
    }
}

/// Title of the output asset of a comparison.
pub fn compare_output_title(path: &str) -> (r: &'static str)
    ensures
        r@ == output_title_spec(path@),
{
    let pv = chars_of(path);
    match extension(&pv) {
        Some(e) => {
            let l = ascii_lower_chars(&e);
            if eq_lit(&l, "png") {
                "Output"
            } else {
                "Compressed Output"
            }
        },
        None => "Compressed Output",
    }
}

/// The display name of an image format, from a lowercased extension.
pub open spec fn format_label_for(lower: Seq<char>) -> Seq<char> {
    if lower == "jpg"@ || lower == "jpeg"@ {
        "JPEG"@
    } else if lower == "png"@ {
        "PNG"@
    } else if lower == "webp"@ {
        "WebP"@
    } else if lower == "jxl"@ {
        "JPEG XL"@
    } else if lower == "avif"@ {
        "AVIF"@
    } else if lower == "tif"@ || lower == "tiff"@ {
        "TIFF"@
    } else if lower == "bmp"@ {
        "BMP"@
    } else if lower == "gif"@ {
        "GIF"@
    } else {
        ascii_upper_seq(lower)
    }
}

/// The format label of a path: by its extension, `"Unknown"` without one.
pub open spec fn asset_format_spec(p: Seq<char>) -> Seq<char> {
    match extension_of(p) {
        Some(e) => format_label_for(ascii_lower_seq(e)),
        None => "Unknown"@,
    }
}

fn format_label_exec(lower: &Vec<char>) -> (r: Vec<char>)
    ensures
        r@ == format_label_for(lower@),
{
    if eq_lit(lower, "jpg") || eq_lit(lower, "jpeg") {
        lit("JPEG")
    } else if eq_lit(lower, "png") {
        lit("PNG")
    } else if eq_lit(lower, "webp") {
        lit("WebP")
    } else if eq_lit(lower, "jxl") {
        lit("JPEG XL")
    } else if eq_lit(lower, "avif") {
        lit("AVIF")
    } else if eq_lit(lower, "tif") || eq_lit(lower, "tiff") {
        lit("TIFF")
    } else if eq_lit(lower, "bmp") {
        lit("BMP")
    } else if eq_lit(lower, "gif") {
        lit("GIF")
    } else {
        ascii_upper_chars(lower)
    }
}

/// The format label shown for an asset, derived from its extension.
pub fn compare_asset_format(path: &str) -> (r: String)
    ensures
        r@ == asset_format_spec(path@),
{
    let pv = chars_of(path);
    let label = match extension(&pv) {
        Some(e) => {
            let l = ascii_lower_chars(&e);
            format_label_exec(&l)
        },
        None => lit("Unknown"),
    };
    string_of(&label)
}

/// The parent folder of a path, for display; `"Unknown location"` when the
/// path has none.
pub fn folder_display(path: &str) -> (r: String)
    ensures
        r@ == match parent_of(path@) {
            Some(q) => q,
            None => "Unknown location"@,
        },
{
    match path_parent(path) {
        Some(q) => q,
        None => string_of(&lit("Unknown location")),
    }
}

/// The summary line of an asset: name, format, dimensions and size.
pub open spec fn asset_summary_spec(asset: CompareAssetInfo, size_text: Seq<char>) -> Seq<char> {
    let name = match file_name_of(asset.path@) {
        Some(n) => n,
        None => asset.path@,
    };
    name + " · "@ + asset.format@ + " · "@ + decimal(asset.dimensions.0 as nat) + " × "@
        + decimal(asset.dimensions.1 as nat) + " · "@ + size_text
}

/// The summary line of an asset; `size_text` is the formatted file size.
pub fn format_compare_asset_summary(asset: &CompareAssetInfo, size_text: &str) -> (r: String)
    ensures
        r@ == asset_summary_spec(*asset, size_text@),
{
    let pv = chars_of(asset.path.as_str());
    let mut out = match file_name(&pv) {
        Some(n) => n,
        None => pv,
    };
    push_str(&mut out, " · ");
    push_str(&mut out, asset.format.as_str());
    push_str(&mut out, " · ");
    let w = u64_text(asset.dimensions.0 as u64);
    append_chars(&mut out, &w);
    push_str(&mut out, " × ");
    let h = u64_text(asset.dimensions.1 as u64);
    append_chars(&mut out, &h);
    push_str(&mut out, " · ");
    push_str(&mut out, size_text);
    string_of(&out)
}

/// The title and subtitle of the sidecar row: the kept PNG's title and
/// summary, or a note that none was made. `size_text` is the PNG's formatted
/// file size.
pub fn sidecar_row_text(asset: Option<&CompareAssetInfo>, size_text: &str) -> (r: (String, String))
    ensures
        (r.0@, r.1@) == match asset {
            Some(a) => (a.title@, asset_summary_spec(*a, size_text@)),
            None => ("PNG Sidecar"@, "Not generated for this result"@),
        },
{
    match asset {
        Some(a) => (a.title.clone(), format_compare_asset_summary(a, size_text)),
        None => (string_of(&lit("PNG Sidecar")), string_of(&lit("Not generated for this result"))),
    }
}

/// The `file_size` text for sizes below one kibibyte; larger sizes are shown
/// with decimals.
pub fn format_small_file_size(bytes: u64) -> (r: String)
    requires
        bytes < 1024,
    ensures
        r@ == decimal(bytes as nat) + " B"@,
{
    let mut v = u64_text(bytes);
    push_str(&mut v, " B");
    string_of(&v)
}

// ---------------------------------------------------------------------------
// Comparing a finished pipeline
// ---------------------------------------------------------------------------

/// Whether step `i` recorded an output whose file is there.
pub open spec fn output_there(steps: Seq<crate::pipeline::PipelineStep>, exists: Seq<bool>, i: int) -> bool {
    steps[i].output_path is Some && exists[i]
}

/// The step a comparison shows: the last one (in list order) whose output
/// file is there.
pub open spec fn last_output_there(steps: Seq<crate::pipeline::PipelineStep>, exists: Seq<bool>, n: int) -> Option<int>
    decreases n,
{
    if n <= 0 {
        None
    } else if output_there(steps, exists, n - 1) {
        Some(n - 1)
    } else {
        last_output_there(steps, exists, n - 1)
    }
}

/// The step a comparison shows; `exists[i]` says whether the output file of
/// `steps[i]` is there. None when no step has its output.
pub fn compare_display_step(steps: &[crate::pipeline::PipelineStep], exists: &[bool]) -> (r: Option<usize>)
    requires
        exists@.len() == steps@.len(),
    ensures
        match r {
            Some(i) => last_output_there(steps@, exists@, steps@.len() as int) == Some(i as int),
            None => last_output_there(steps@, exists@, steps@.len() as int) is None,
        },
{
    let mut i: usize = steps.len();
    while i > 0
        invariant
            i <= steps@.len(),
            exists@.len() == steps@.len(),
            last_output_there(steps@, exists@, steps@.len() as int) == last_output_there(steps@, exists@, i as int),
        decreases i,
    {
        if steps[i - 1].output_path.is_some() && exists[i - 1] {
            return Some(i - 1);
        }
        i = i - 1;
    }
    None
}

/// The model and scale a comparison names for a step: the upscale's model
/// and scale, `None (Export)` and the size limit for an export, `Unknown` and
/// `-` when the settings could not be read.
pub open spec fn compare_labels_spec(step_type: crate::pipeline::StepType, parsed: crate::pipeline::ParsedStepSettings) -> (Seq<char>, Seq<char>) {
    match (step_type, parsed) {
        (crate::pipeline::StepType::Upscale, crate::pipeline::ParsedStepSettings::Upscale(u)) => (u.model@, crate::pipeline::scale_text_spec(u.scale)),
        (crate::pipeline::StepType::Export, crate::pipeline::ParsedStepSettings::Export(e)) => ("None (Export)"@, match e.max_edge {
            Some(m) => "Max "@ + decimal(m as nat) + "px"@,
            None => "Original"@,
        }),
        _ => ("Unknown"@, "-"@),
    }
}

/// The model and scale a comparison names for a step.
pub fn compare_labels(step_type: crate::pipeline::StepType, parsed: &crate::pipeline::ParsedStepSettings) -> (r: (String, String))
    ensures
        (r.0@, r.1@) == compare_labels_spec(step_type, *parsed),
{
    match (step_type, parsed) {
        (crate::pipeline::StepType::Upscale, crate::pipeline::ParsedStepSettings::Upscale(u)) => {
            let sc = crate::pipeline::scale_text(u.scale);
            (u.model.clone(), string_of(&sc))
        },
        (crate::pipeline::StepType::Export, crate::pipeline::ParsedStepSettings::Export(e)) => {
            let scale = match e.max_edge {
                Some(m) => {
                    let mut v = lit("Max ");
                    append_chars(&mut v, &u64_text(m as u64));
                    push_str(&mut v, "px");
                    v
                },
                None => lit("Original"),
            };
            (string_of(&lit("None (Export)")), string_of(&scale))
        },
        _ => (string_of(&lit("Unknown")), string_of(&lit("-"))),
    }
}

} // verus!
