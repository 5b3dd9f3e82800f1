//! Processing pipelines: an image and the steps (upscale, export) run on it,
//! and the texts that describe them.
use vstd::prelude::*;
use crate::compare::{ExportStepSettings, UpscaleStepSettings};
use crate::text::{append_chars, chars_of, decimal, decimal_int, i64_text, lit, push_str, string_of, u64_text, upper_chars, uppercase_of};

verus! {

/// Where a pipeline or a step stands.
#[derive(Clone, Copy, Debug, PartialEq, Eq, Structural)]
pub enum PipelineStatus {
    Queued,
    InProgress,
    Completed,
    Failed,
}

/// What a step does.
#[derive(Clone, Copy, Debug, PartialEq, Eq, Structural)]
pub enum StepType {
    Upscale,
    Export,
}

/// An image queued for processing.
#[derive(Debug)]
pub struct Pipeline {
    pub id: i64,
    pub source_path: String,
    pub status: PipelineStatus,
    pub created_at: i64,
    pub queue_order: i64,
}

/// One step of a pipeline.
#[derive(Debug)]
pub struct PipelineStep {
    pub id: i64,
    pub pipeline_id: i64,
    pub step_order: i64,
    pub step_type: StepType,
    pub status: PipelineStatus,
    pub settings_json: String,
    pub input_path: Option<String>,
    pub output_path: Option<String>,
    pub error_msg: Option<String>,
}

/// The settings of a step as read from its stored JSON.
#[derive(Debug)]
pub enum ParsedStepSettings {
    Upscale(UpscaleStepSettings),
    Export(ExportStepSettings),
    /// The stored settings could not be read as the step's kind.
    Unreadable,
}

// ---------------------------------------------------------------------------
// Step summaries
// ---------------------------------------------------------------------------

/// The scale as shown: `Smart scale` for 0, otherwise `N×`.
pub open spec fn scale_text_spec(scale: u32) -> Seq<char> {
    if scale == 0 {
        "Smart scale"@
    } else {
        decimal(scale as nat) + "×"@
    }
}

/// The scale as shown.
pub fn scale_text(scale: u32) -> (r: Vec<char>)
    ensures
        r@ == scale_text_spec(scale),
{
    if scale == 0 {
        lit("Smart scale")
    } else {
        let mut v = u64_text(scale as u64);
        push_str(&mut v, "×");
        v
    }
}

/// The one-line summary of a step.
pub open spec fn step_summary_spec(step_type: StepType, parsed: ParsedStepSettings) -> Seq<char> {
    match step_type {
        StepType::Upscale => match parsed {
            ParsedStepSettings::Upscale(s) => "Upscale · "@ + (if s.model@ == "anime"@ {
                "Anime"@
            } else {
                "Standard"@
            }) + " · "@ + scale_text_spec(s.scale),
            _ => "Upscale"@,
        },
        StepType::Export => match parsed {
            ParsedStepSettings::Export(s) => "Export · "@ + uppercase_of(s.format@) + match s.max_edge {
                Some(e) => " · "@ + decimal(e as nat) + "px"@,
                None => Seq::<char>::empty(),
            },
            _ => "Export"@,
        },
    }
}

fn step_summary_chars(step_type: StepType, parsed: &ParsedStepSettings) -> (r: Vec<char>)
    ensures
        r@ == step_summary_spec(step_type, *parsed),
{
    match step_type {
        StepType::Upscale => match parsed {
            ParsedStepSettings::Upscale(s) => {
                let mut v = lit("Upscale · ");
                let model = chars_of(s.model.as_str());
                if crate::text::eq_lit(&model, "anime") {
                    push_str(&mut v, "Anime");
                } else {
                    push_str(&mut v, "Standard");
                }
                push_str(&mut v, " · ");
                let sc = scale_text(s.scale);
                append_chars(&mut v, &sc);
                v
            },
            _ => lit("Upscale"),
        },
        StepType::Export => match parsed {
            ParsedStepSettings::Export(s) => {
                let mut v = lit("Export · ");
                let f = chars_of(s.format.as_str());
                let up = upper_chars(&f);
                append_chars(&mut v, &up);
                match s.max_edge {
                    Some(e) => {
                        push_str(&mut v, " · ");
                        let d = u64_text(e as u64);
                        append_chars(&mut v, &d);
                        push_str(&mut v, "px");
                    },
                    None => {
                        assert(v@ + Seq::<char>::empty() =~= v@);
                    },
                }
                v
            },
            _ => lit("Export"),
        },
    }
}

/// The one-line summary of a step, from its kind and its read settings.
pub fn format_step_summary(step_type: StepType, parsed: &ParsedStepSettings) -> (r: String)
    ensures
        r@ == step_summary_spec(step_type, *parsed),
{
    let v = step_summary_chars(step_type, parsed);
    string_of(&v)
}

/// `step` or `steps` after a count.
pub open spec fn steps_noun(n: int) -> Seq<char> {
    if n == 1 {
        "step"@
    } else {
        "steps"@
    }
}

/// The first step (in list order) with the given status.
pub open spec fn first_with_status(steps: Seq<PipelineStep>, st: PipelineStatus, from: int) -> Option<int>
    decreases steps.len() - from,
{
    if from < 0 || from >= steps.len() {
        None
    } else if steps[from].status == st {
        Some(from)
    } else {
        first_with_status(steps, st, from + 1)
    }
}

/// The composite status line of a pipeline.
pub open spec fn pipeline_composite_spec(
    pipeline_status: PipelineStatus,
    steps: Seq<PipelineStep>,
    parsed: Seq<ParsedStepSettings>,
) -> Seq<char> {
    let n = steps.len() as int;
    if n == 0 {
        Seq::empty()
    } else if forall|i: int| 0 <= i < n ==> #[trigger] steps[i].status == PipelineStatus::Queued {
        "Queued · "@ + decimal(n as nat) + " "@ + steps_noun(n)
    } else if first_with_status(steps, PipelineStatus::InProgress, 0) is Some {
        let k = first_with_status(steps, PipelineStatus::InProgress, 0)->0;
        "Step "@ + decimal_int(steps[k].step_order as int) + " of "@ + decimal(n as nat) + ": "@
            + step_summary_spec(steps[k].step_type, parsed[k])
    } else if pipeline_status == PipelineStatus::Queued {
        "Queued · "@ + decimal(n as nat) + " "@ + steps_noun(n)
    } else {
        "In Progress"@
    }
}

fn first_with_status_exec(steps: &[PipelineStep], st: PipelineStatus) -> (r: Option<usize>)
    ensures
        r matches Some(k) ==> first_with_status(steps@, st, 0) == Some(k as int) && k < steps@.len(),
        r is None ==> first_with_status(steps@, st, 0) is None,
{
    let mut i: usize = 0;
    while i < steps.len()
        invariant
            i <= steps.len(),
            first_with_status(steps@, st, 0) == first_with_status(steps@, st, i as int),
        decreases steps.len() - i,
    {
        if steps[i].status == st {
            return Some(i);
        }
        i = i + 1;
    }
    None
}

/// The composite status line of a pipeline; `parsed[i]` holds the read
/// settings of `steps[i]`.
pub fn format_pipeline_composite(pipeline: &Pipeline, steps: &[PipelineStep], parsed: &[ParsedStepSettings]) -> (r: String)
    requires
        parsed@.len() == steps@.len(),
    ensures
        r@ == pipeline_composite_spec(pipeline.status, steps@, parsed@),
{
    let n = steps.len();
    if n == 0 {
        return String::new();
    }
    let mut all_queued = true;
    let mut i: usize = 0;
    while i < n
        invariant
            i <= n,
            n == steps@.len(),
            all_queued == forall|k: int| 0 <= k < i ==> #[trigger] steps@[k].status == PipelineStatus::Queued,
        decreases n - i,
    {
        if steps[i].status != PipelineStatus::Queued {
            all_queued = false;
        }
        i = i + 1;
    }
    let mut queued_text = lit("Queued · ");
    let count = u64_text(n as u64);
    append_chars(&mut queued_text, &count);
    push_str(&mut queued_text, " ");
    if n == 1 {
        push_str(&mut queued_text, "step");
    } else {
        push_str(&mut queued_text, "steps");
    }
    if all_queued {
        return string_of(&queued_text);
    }
    match first_with_status_exec(steps, PipelineStatus::InProgress) {
        Some(k) => {
            let mut v = lit("Step ");
            let o = i64_text(steps[k].step_order);
            append_chars(&mut v, &o);
            push_str(&mut v, " of ");
            let c = u64_text(n as u64);
            append_chars(&mut v, &c);
            push_str(&mut v, ": ");
            let summary = step_summary_chars(steps[k].step_type, &parsed[k]);
            append_chars(&mut v, &summary);
            return string_of(&v);
        },
        None => {},
    }
    if pipeline.status == PipelineStatus::Queued {
        return string_of(&queued_text);
    }
    string_of(&lit("In Progress"))
}

// ---------------------------------------------------------------------------
// Relative times
// ---------------------------------------------------------------------------

/// How long ago `then` was, seen at `now` (seconds since the epoch).
pub open spec fn relative_time_spec(now: int, then: int) -> Seq<char> {
    let delta = now - then;
    if delta < 60 {
        "Just now"@
    } else if delta < 3600 {
        decimal((delta / 60) as nat) + " min ago"@
    } else if delta < 86400 {
        decimal((delta / 3600) as nat) + " hr ago"@
    } else {
        decimal((delta / 86400) as nat) + " days ago"@
    }
}

/// How long ago `unix_secs` was, seen at `now_secs`.
pub fn format_relative_time(now_secs: i64, unix_secs: i64) -> (r: String)
    requires
        i64::MIN <= now_secs - unix_secs <= i64::MAX,
    ensures
        r@ == relative_time_spec(now_secs as int, unix_secs as int),
{
    let delta = now_secs - unix_secs;
    let v = if delta < 60 {
        lit("Just now")
    } else if delta < 3600 {
        let mut v = u64_text((delta / 60) as u64);
        push_str(&mut v, " min ago");
        v
    } else if delta < 86400 {
        let mut v = u64_text((delta / 3600) as u64);
        push_str(&mut v, " hr ago");
        v
    } else {
        let mut v = u64_text((delta / 86400) as u64);
        push_str(&mut v, " days ago");
        v
    };
    string_of(&v)
}

// ---------------------------------------------------------------------------
// Status of finished pipelines
// ---------------------------------------------------------------------------

/// The status text and its style class for a pipeline in the history.
pub open spec fn status_display_spec(
    status: PipelineStatus,
    error_msg: Option<Seq<char>>,
    source_exists: bool,
    output_exists: bool,
) -> (Seq<char>, Seq<char>) {
    if status == PipelineStatus::Failed {
        ("Failed: "@ + match error_msg {
            Some(m) => m,
            None => "Unknown error"@,
        }, "error"@)
    } else if source_exists && output_exists {
        ("Done"@, "success"@)
    } else if !source_exists && output_exists {
        ("Done — source moved"@, "warning"@)
    } else if source_exists && !output_exists {
        ("Done — output missing"@, "warning"@)
    } else {
        ("Done — files moved"@, "warning"@)
    }
}

/// The status text and style class of a finished pipeline, from its status,
/// the error of its last step, and whether its files are still there.
pub fn resolve_status_display(
    status: PipelineStatus,
    error_msg: Option<&str>,
    source_exists: bool,
    output_exists: bool,
) -> (r: (String, &'static str))
    ensures
        (r.0@, r.1@) == status_display_spec(
            status,
            match error_msg {
                Some(m) => Some(m@),
                None => None,
            },
            source_exists,
            output_exists,
        ),
{
    if status == PipelineStatus::Failed {
        let mut v = lit("Failed: ");
        match error_msg {
            Some(m) => push_str(&mut v, m),
            None => push_str(&mut v, "Unknown error"),
        }
        return (string_of(&v), "error");
    }
    if source_exists && output_exists {
        (string_of(&lit("Done")), "success")
    } else if !source_exists && output_exists {
        (string_of(&lit("Done — source moved")), "warning")
    } else if source_exists && !output_exists {
        (string_of(&lit("Done — output missing")), "warning")
    } else {
        (string_of(&lit("Done — files moved")), "warning")
    }
}

/// The subtitle, badge and badge class of a step row.
pub open spec fn step_row_spec(status: PipelineStatus, error_msg: Option<Seq<char>>) -> (Seq<char>, Seq<char>, Seq<char>) {
    match status {
        PipelineStatus::Queued => ("Queued"@, "○"@, "dim-label"@),
        PipelineStatus::InProgress => ("In Progress"@, "●"@, "accent"@),
        PipelineStatus::Completed => ("Completed"@, "●"@, "success"@),
        PipelineStatus::Failed => (match error_msg {
            Some(m) => m,
            None => "Failed"@,
        }, "●"@, "error"@),
    }
}

/// The subtitle, badge and badge class of a step row.
pub fn step_row_display(status: PipelineStatus, error_msg: Option<&str>) -> (r: (String, &'static str, &'static str))
    ensures
        (r.0@, r.1@, r.2@) == step_row_spec(
            status,
            match error_msg {
                Some(m) => Some(m@),
                None => None,
            },
        ),
{
    match status {
        PipelineStatus::Queued => (string_of(&lit("Queued")), "○", "dim-label"),
        PipelineStatus::InProgress => (string_of(&lit("In Progress")), "●", "accent"),
        PipelineStatus::Completed => (string_of(&lit("Completed")), "●", "success"),
        PipelineStatus::Failed => match error_msg {
            Some(m) => (string_of(&chars_of(m)), "●", "error"),
            None => (string_of(&lit("Failed")), "●", "error"),
        },
    }
}

/// The banner shown after interrupted jobs were re-queued; none for zero.
pub open spec fn interrupted_message_spec(n: nat) -> Option<Seq<char>> {
    if n == 0 {
        None
    } else if n == 1 {
        Some("1 job was interrupted and re-queued"@)
    } else {
        Some(decimal(n) + " jobs were interrupted and re-queued"@)
    }
}

/// The banner shown after `n` interrupted jobs were re-queued.
pub fn interrupted_message(n: usize) -> (r: Option<String>)
    ensures
        crate::paths::opt_string_view(r) == interrupted_message_spec(n as nat),
{
    if n == 0 {
        None
    } else if n == 1 {
        Some(string_of(&lit("1 job was interrupted and re-queued")))
    } else {
        let mut v = u64_text(n as u64);
        push_str(&mut v, " jobs were interrupted and re-queued");
        Some(string_of(&v))
    }
}

// ---------------------------------------------------------------------------
// Queue overview
// ---------------------------------------------------------------------------

/// The queue's status line, from the numbers of running and queued
/// pipelines; `pausing` adds the pause notice while something runs.
pub open spec fn queue_status_spec(running: nat, queued: nat, pausing: bool) -> Seq<char> {
    let suffix = if pausing && running > 0 {
        " — pausing after this job"@
    } else {
        Seq::<char>::empty()
    };
    if running == 0 && queued == 0 {
        "No user tasks"@
    } else if running == 0 {
        decimal(queued) + " queued "@ + (if queued == 1 {
            "task"@
        } else {
            "tasks"@
        })
    } else if queued == 0 {
        decimal(running) + " running "@ + (if running == 1 {
            "task"@
        } else {
            "tasks"@
        }) + suffix
    } else {
        decimal(running) + " running • "@ + decimal(queued) + " queued"@ + suffix
    }
}

/// The queue's status line.
pub fn queue_status_text(running: usize, queued: usize, pausing: bool) -> (r: String)
    ensures
        r@ == queue_status_spec(running as nat, queued as nat, pausing),
{
    let mut suffix: Vec<char> = Vec::new();
    if pausing && running > 0 {
        push_str(&mut suffix, " — pausing after this job");
    }
    assert(pausing && running > 0 || suffix@ =~= Seq::<char>::empty());
    let v = if running == 0 && queued == 0 {
        lit("No user tasks")
    } else if running == 0 {
        let mut v = u64_text(queued as u64);
        push_str(&mut v, " queued ");
        if queued == 1 {
            push_str(&mut v, "task");
        } else {
            push_str(&mut v, "tasks");
        }
        v
    } else if queued == 0 {
        let mut v = u64_text(running as u64);
        push_str(&mut v, " running ");
        if running == 1 {
            push_str(&mut v, "task");
        } else {
            push_str(&mut v, "tasks");
        }
        append_chars(&mut v, &suffix);
        v
    } else {
        let mut v = u64_text(running as u64);
        push_str(&mut v, " running • ");
        let q = u64_text(queued as u64);
        append_chars(&mut v, &q);
        push_str(&mut v, " queued");
        append_chars(&mut v, &suffix);
        v
    };
    string_of(&v)
}

/// Which queue controls are enabled.
#[derive(Clone, Copy, Debug, PartialEq, Eq)]
pub struct QueueControls {
    pub start: bool,
    pub pause: bool,
    pub clear: bool,
    pub remove: bool,
}

/// Which queue controls are enabled: start when the runner is idle or paused
/// and something is queued, pause while it runs unpaused, clear when something
/// is queued, remove when rows are checked.
pub fn queue_controls(runner_active: bool, paused: bool, queued: usize, checked: usize) -> (r: QueueControls)
    ensures
        r.start == ((!runner_active || paused) && queued > 0),
        r.pause == (runner_active && !paused),
        r.clear == (queued > 0),
        r.remove == (checked > 0),
{
    QueueControls {
        start: (!runner_active || paused) && queued > 0,
        pause: runner_active && !paused,
        clear: queued > 0,
        remove: checked > 0,
    }
}

/// The number of pipelines with the given status.
pub open spec fn count_status(ps: Seq<Pipeline>, st: PipelineStatus) -> nat
    decreases ps.len(),
{
    if ps.len() == 0 {
        0
    } else {
        count_status(ps.drop_last(), st) + if ps.last().status == st {
            1nat
        } else {
            0nat
        }
    }
}

/// The number of pipelines with the given status.
pub fn count_with_status(ps: &[Pipeline], st: PipelineStatus) -> (r: usize)
    ensures
        r == count_status(ps@, st),
{
    let mut n: usize = 0;
    let mut i: usize = 0;
    while i < ps.len()
        invariant
            i <= ps.len(),
            n == count_status(ps@.take(i as int), st),
            n <= i,
        decreases ps.len() - i,
    {
        assert(ps@.take(i + 1).drop_last() =~= ps@.take(i as int));
        if ps[i].status == st {
            n = n + 1;
        }
        i = i + 1;
    }
    assert(ps@.take(ps.len() as int) =~= ps@);
    n
}

} // verus!
