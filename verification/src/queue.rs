//! The processing queue's runner: what to run next, where a step writes its
//! output, and how a finished step moves its pipeline on.
use vstd::prelude::*;
use crate::paths::{opt_string_view, parent_of, path_parent};
use crate::pipeline::{first_with_status, Pipeline, PipelineStatus, PipelineStep, StepType};
use crate::sort::{stable_sort_desc_positions, stable_sorted_desc, usize_seq_as_int};
use crate::text::{chars_of, lit, str_eq, string_of};

verus! {

// ---------------------------------------------------------------------------
// Choosing the next step
// ---------------------------------------------------------------------------

/// What the runner does next.
#[derive(Debug)]
pub enum RunDecision {
    /// The runner is off or paused.
    Idle,
    /// A pipeline is running already; look again later.
    Wait,
    /// Nothing can run: turn the runner off.
    StopRunner,
    /// The pipeline has no queued step left: mark it completed, then look
    /// again.
    CompletePipeline { pipeline_id: i64 },
    /// The step needs the output of the step before it, which has none: fail
    /// the step and its pipeline.
    FailMissingInput { pipeline_id: i64, step_id: i64 },
    /// Run the step at `step_index` of the pipeline's steps on `input`.
    Start { pipeline_id: i64, step_index: usize, input: String },
}

/// A plain description of a decision, the input as characters.
pub enum RunDecisionView {
    Idle,
    Wait,
    StopRunner,
    CompletePipeline { pipeline_id: i64 },
    FailMissingInput { pipeline_id: i64, step_id: i64 },
    Start { pipeline_id: i64, step_index: int, input: Seq<char> },
}

impl View for RunDecision {
    type V = RunDecisionView;

    open spec fn view(&self) -> RunDecisionView {
        match self {
            RunDecision::Idle => RunDecisionView::Idle,
            RunDecision::Wait => RunDecisionView::Wait,
            RunDecision::StopRunner => RunDecisionView::StopRunner,
            RunDecision::CompletePipeline { pipeline_id } => RunDecisionView::CompletePipeline {
                pipeline_id: *pipeline_id,
            },
            RunDecision::FailMissingInput { pipeline_id, step_id } => RunDecisionView::FailMissingInput {
                pipeline_id: *pipeline_id,
                step_id: *step_id,
            },
            RunDecision::Start { pipeline_id, step_index, input } => RunDecisionView::Start {
                pipeline_id: *pipeline_id,
                step_index: *step_index as int,
                input: input@,
            },
        }
    }
}

/// Whether the runner is on and whether it pauses after the current job.
#[derive(Clone, Copy, Debug, PartialEq, Eq, Structural)]
pub struct RunnerState {
    pub active: bool,
    pub paused: bool,
}

impl RunnerState {
    /// The runner as the page starts: off.
    pub fn new() -> (r: Self)
        ensures
            !r.active && !r.paused,
    {
        RunnerState { active: false, paused: false }
    }

    /// Start pressed: the runner is on and not paused.
    pub fn start(&mut self)
        ensures
            final(self).active && !final(self).paused,
    {
        self.active = true;
        self.paused = false;
    }

    /// Pause pressed: the current job finishes, no new one starts.
    pub fn pause(&mut self)
        ensures
            final(self).active == old(self).active && final(self).paused,
    {
        self.paused = true;
    }

    /// Nothing left to run: the runner turns off.
    pub fn stop(&mut self)
        ensures
            !final(self).active && final(self).paused == old(self).paused,
    {
        self.active = false;
    }
}

/// The first step (in list order) whose order is `order`.
pub open spec fn step_with_order(steps: Seq<PipelineStep>, order: int, from: int) -> Option<int>
    decreases steps.len() - from,
{
    if from < 0 || from >= steps.len() {
        None
    } else if steps[from].step_order as int == order {
        Some(from)
    } else {
        step_with_order(steps, order, from + 1)
    }
}

/// What the runner does next, given whether it is on and paused, whether a
/// pipeline is running, the next queued pipeline and its steps. The first
/// queued step runs: the first step of a pipeline on its source, any other on
/// the output of the step ordered just before it.
pub open spec fn plan_spec(
    runner_active: bool,
    paused: bool,
    any_in_progress: bool,
    next: Option<Pipeline>,
    steps: Seq<PipelineStep>,
) -> RunDecisionView {
    if !runner_active || paused {
        RunDecisionView::Idle
    } else if any_in_progress {
        RunDecisionView::Wait
    } else {
        match next {
            None => RunDecisionView::StopRunner,
            Some(p) => if steps.len() == 0 {
                RunDecisionView::StopRunner
            } else {
                match first_with_status(steps, PipelineStatus::Queued, 0) {
                    None => RunDecisionView::CompletePipeline { pipeline_id: p.id },
                    Some(k) => if steps[k].step_order == 1 {
                        RunDecisionView::Start { pipeline_id: p.id, step_index: k, input: p.source_path@ }
                    } else {
                        match step_with_order(steps, steps[k].step_order - 1, 0) {
                            Some(j) => match steps[j].output_path {
                                Some(out) => RunDecisionView::Start { pipeline_id: p.id, step_index: k, input: out@ },
                                None => RunDecisionView::FailMissingInput { pipeline_id: p.id, step_id: steps[k].id },
                            },
                            None => RunDecisionView::FailMissingInput { pipeline_id: p.id, step_id: steps[k].id },
                        }
                    },
                }
            },
        }
    }
}

proof fn lemma_step_with_order(steps: Seq<PipelineStep>, order: int, from: int)
    requires
        0 <= from,
    ensures
        step_with_order(steps, order, from) matches Some(j) ==> from <= j < steps.len()
            && steps[j].step_order as int == order && forall|i: int| from <= i < j ==> steps[i].step_order as int != order,
    decreases steps.len() - from,
{
    if from < steps.len() && steps[from].step_order as int != order {
        lemma_step_with_order(steps, order, from + 1);
    }
}

proof fn lemma_first_with_status(steps: Seq<PipelineStep>, st: PipelineStatus, from: int)
    requires
        0 <= from,
    ensures
        first_with_status(steps, st, from) matches Some(k) ==> from <= k < steps.len() && steps[k].status
            == st && forall|i: int| from <= i < k ==> steps[i].status != st,
    decreases steps.len() - from,
{
    if from < steps.len() && steps[from].status != st {
        lemma_first_with_status(steps, st, from + 1);
    }
}

/// When the runner starts a step, it is the first queued step of the next
/// pipeline. The first step of a pipeline runs on the pipeline's source; any
/// later step runs on the output of the step ordered just before it (the
/// first such step in the list), so a chain of steps hands each output on
/// to the next.
pub proof fn lemma_start_input(
    runner_active: bool,
    paused: bool,
    any_in_progress: bool,
    next: Option<Pipeline>,
    steps: Seq<PipelineStep>,
)
    ensures
        plan_spec(runner_active, paused, any_in_progress, next, steps) matches RunDecisionView::Start {
            pipeline_id,
            step_index: k,
            input,
        } ==> {
            &&& runner_active && !paused && !any_in_progress
            &&& next is Some && pipeline_id == next->0.id
            &&& 0 <= k < steps.len() && steps[k].status == PipelineStatus::Queued
            &&& forall|i: int| 0 <= i < k ==> steps[i].status != PipelineStatus::Queued
            &&& steps[k].step_order == 1 ==> input == next->0.source_path@
            &&& steps[k].step_order != 1 ==> exists|j: int|
                0 <= j < steps.len() && steps[j].step_order == steps[k].step_order - 1 && (forall|i: int|
                    0 <= i < j ==> steps[i].step_order != steps[k].step_order - 1)
                    && steps[j].output_path is Some && steps[j].output_path->0@ == input
        },
{
    lemma_first_with_status(steps, PipelineStatus::Queued, 0);
    if let Some(k) = first_with_status(steps, PipelineStatus::Queued, 0) {
        lemma_step_with_order(steps, steps[k].step_order - 1, 0);
        if let Some(j) = step_with_order(steps, steps[k].step_order - 1, 0) {
            assert(steps[j].step_order == steps[k].step_order - 1);
        }
    }
}

fn first_queued(steps: &[PipelineStep]) -> (r: Option<usize>)
    ensures
        r matches Some(k) ==> first_with_status(steps@, PipelineStatus::Queued, 0) == Some(k as int) && k < steps@.len(),
        r is None ==> first_with_status(steps@, PipelineStatus::Queued, 0) is None,
{
    let mut i: usize = 0;
    while i < steps.len()
        invariant
            i <= steps.len(),
            first_with_status(steps@, PipelineStatus::Queued, 0) == first_with_status(steps@, PipelineStatus::Queued, i as int),
        decreases steps.len() - i,
    {
        if steps[i].status == PipelineStatus::Queued {
            return Some(i);
        }
        i = i + 1;
    }
    None
}

fn find_order(steps: &[PipelineStep], order: i64) -> (r: Option<usize>)
    ensures
        r matches Some(j) ==> step_with_order(steps@, order as int - 1, 0) == Some(j as int) && j < steps@.len(),
        r is None ==> step_with_order(steps@, order as int - 1, 0) is None,
{
    let mut i: usize = 0;
    while i < steps.len()
        invariant
            i <= steps.len(),
            step_with_order(steps@, order as int - 1, 0) == step_with_order(steps@, order as int - 1, i as int),
        decreases steps.len() - i,
    {
        let o = steps[i].step_order;
        if o < order && o == order - 1 {
            return Some(i);
        }
        i = i + 1;
    }
    None
}

/// What the runner does next.
pub fn plan_next_run(
    runner_active: bool,
    paused: bool,
    any_in_progress: bool,
    next: Option<&Pipeline>,
    steps: &[PipelineStep],
) -> (r: RunDecision)
    ensures
        r@ == plan_spec(
            runner_active,
            paused,
            any_in_progress,
            match next {
                Some(p) => Some(*p),
                None => None,
            },
            steps@,
        ),
{
    if !runner_active || paused {
        return RunDecision::Idle;
    }
    if any_in_progress {
        return RunDecision::Wait;
    }
    let p = match next {
        None => {
            return RunDecision::StopRunner;
        },
        Some(p) => p,
    };
    if steps.len() == 0 {
        return RunDecision::StopRunner;
    }
    match first_queued(steps) {
        None => RunDecision::CompletePipeline { pipeline_id: p.id },
        Some(k) => {
            if steps[k].step_order == 1 {
                RunDecision::Start { pipeline_id: p.id, step_index: k, input: p.source_path.clone() }
            } else {
                match find_order(steps, steps[k].step_order) {
                    Some(j) => match &steps[j].output_path {
                        Some(out) => RunDecision::Start { pipeline_id: p.id, step_index: k, input: out.clone() },
                        None => RunDecision::FailMissingInput { pipeline_id: p.id, step_id: steps[k].id },
                    },
                    None => RunDecision::FailMissingInput { pipeline_id: p.id, step_id: steps[k].id },
                }
            }
        },
    }
}

/// The error stored with a step whose predecessor left no output.
pub fn missing_input_message() -> (r: &'static str)
    ensures
        r@ == "Previous step has no output"@,
{
    "Previous step has no output"
}

// ---------------------------------------------------------------------------
// Finishing a step
// ---------------------------------------------------------------------------

/// How a step's work ended.
#[derive(Debug)]
pub enum StepResult {
    /// It wrote its output at this path.
    Done(String),
    /// It failed with this message.
    Failed(String),
    /// Its worker went away without an answer.
    ChannelClosed,
}

/// What is stored for a finished step: its status, its output and its error.
pub open spec fn step_record_spec(result: StepResult) -> (PipelineStatus, Option<Seq<char>>, Option<Seq<char>>) {
    match result {
        StepResult::Done(path) => (PipelineStatus::Completed, Some(path@), None),
        StepResult::Failed(msg) => (PipelineStatus::Failed, None, Some(msg@)),
        StepResult::ChannelClosed => (PipelineStatus::Failed, None, Some("Channel closed"@)),
    }
}

/// What is stored for a finished step.
pub fn step_record(result: StepResult) -> (r: (PipelineStatus, Option<String>, Option<String>))
    ensures
        (r.0, opt_string_view(r.1), opt_string_view(r.2)) == step_record_spec(result),
{
    match result {
        StepResult::Done(path) => (PipelineStatus::Completed, Some(path), None),
        StepResult::Failed(msg) => (PipelineStatus::Failed, None, Some(msg)),
        StepResult::ChannelClosed => (PipelineStatus::Failed, None, Some(string_of(&lit("Channel closed")))),
    }
}

/// The status of a pipeline once one of its steps has finished: failed if the
/// step failed; else, with its steps read again, completed when all of them
/// are, queued again when some remain.
pub open spec fn pipeline_after_step_spec(step_ok: bool, steps: Seq<PipelineStep>) -> PipelineStatus {
    if !step_ok {
        PipelineStatus::Failed
    } else if forall|i: int| 0 <= i < steps.len() ==> #[trigger] steps[i].status == PipelineStatus::Completed {
        PipelineStatus::Completed
    } else {
        PipelineStatus::Queued
    }
}

/// The status of a pipeline once one of its steps has finished.
pub fn pipeline_after_step(step_ok: bool, steps: &[PipelineStep]) -> (r: PipelineStatus)
    ensures
        r == pipeline_after_step_spec(step_ok, steps@),
{
    if !step_ok {
        return PipelineStatus::Failed;
    }
    let mut i: usize = 0;
    while i < steps.len()
        invariant
            step_ok,
            i <= steps.len(),
            forall|j: int| 0 <= j < i ==> #[trigger] steps@[j].status == PipelineStatus::Completed,
        decreases steps.len() - i,
    {
        if steps[i].status != PipelineStatus::Completed {
            assert(!(steps@[i as int].status == PipelineStatus::Completed));
            return PipelineStatus::Queued;
        }
        i = i + 1;
    }
    PipelineStatus::Completed
}

/// The collection a step's output joins: upscales and exports each have
/// their own.
pub fn output_collection_name(step_type: StepType) -> (r: &'static str)
    ensures
        r@ == (match step_type {
            StepType::Upscale => "Upscaled"@,
            StepType::Export => "Exports"@,
        }),
{
    match step_type {
        StepType::Upscale => "Upscaled",
        StepType::Export => "Exports",
    }
}

// ---------------------------------------------------------------------------
// Where a step writes
// ---------------------------------------------------------------------------

/// The folder a step writes into.
#[derive(Debug)]
pub enum OutputDir {
    /// The pipeline's work folder, for steps after the first.
    WorkDir,
    /// The folder of the step's input.
    SourceFolder,
    /// A folder the user chose.
    Custom(String),
    /// The configured output folder for the step's kind.
    Default,
}

/// A plain description of an output folder.
pub enum OutputDirView {
    WorkDir,
    SourceFolder,
    Custom(Seq<char>),
    Default,
}

impl View for OutputDir {
    type V = OutputDirView;

    open spec fn view(&self) -> OutputDirView {
        match self {
            OutputDir::WorkDir => OutputDirView::WorkDir,
            OutputDir::SourceFolder => OutputDirView::SourceFolder,
            OutputDir::Custom(p) => OutputDirView::Custom(p@),
            OutputDir::Default => OutputDirView::Default,
        }
    }
}

/// The folder named by a destination setting: next to the source, a custom
/// folder (the default one when none was chosen), or the default.
pub open spec fn destination_dir_spec(destination: Seq<char>, custom: Option<Seq<char>>) -> OutputDirView {
    if destination == "source"@ {
        OutputDirView::SourceFolder
    } else if destination == "custom"@ {
        match custom {
            Some(c) => OutputDirView::Custom(c),
            None => OutputDirView::Default,
        }
    } else {
        OutputDirView::Default
    }
}

/// The folder an export step writes into.
pub fn export_output_dir(destination: &str, custom_path: &Option<String>) -> (r: OutputDir)
    ensures
        r@ == destination_dir_spec(destination@, opt_string_view(*custom_path)),
{
    if str_eq(destination, "source") {
        OutputDir::SourceFolder
    } else if str_eq(destination, "custom") {
        match custom_path {
            Some(c) => OutputDir::Custom(c.clone()),
            None => OutputDir::Default,
        }
    } else {
        OutputDir::Default
    }
}

/// The folder an upscale step writes into: a step after the first writes
/// into the pipeline's work folder, the first as its destination says.
pub open spec fn upscale_dir_spec(step_order: i64, destination: Seq<char>, custom: Option<Seq<char>>) -> OutputDirView {
    if step_order > 1 {
        OutputDirView::WorkDir
    } else {
        destination_dir_spec(destination, custom)
    }
}

/// The folder an upscale step writes into.
pub fn upscale_output_dir(step_order: i64, destination: &str, custom_path: &Option<String>) -> (r: OutputDir)
    ensures
        r@ == upscale_dir_spec(step_order, destination@, opt_string_view(*custom_path)),
{
    if step_order > 1 {
        OutputDir::WorkDir
    } else {
        export_output_dir(destination, custom_path)
    }
}

/// The folder holding a path, `.` for a path without one.
pub open spec fn source_folder_spec(source: Seq<char>) -> Seq<char> {
    match parent_of(source) {
        Some(d) => d,
        None => "."@,
    }
}

/// The folder holding `source`, `.` when it has none.
pub fn source_folder(source: &str) -> (r: String)
    ensures
        r@ == source_folder_spec(source@),
{
    match path_parent(source) {
        Some(d) => d,
        None => string_of(&lit(".")),
    }
}

/// The file formats an export writes.
#[derive(Clone, Copy, Debug, PartialEq, Eq, Structural)]
pub enum ExportFormat {
    Jxl,
    Webp,
    Png,
    Jpeg,
}

/// The export format a setting names; JPEG XL for anything unknown.
pub open spec fn export_format_spec(name: Seq<char>) -> ExportFormat {
    if name == "webp"@ {
        ExportFormat::Webp
    } else if name == "png"@ {
        ExportFormat::Png
    } else if name == "jpeg"@ {
        ExportFormat::Jpeg
    } else {
        ExportFormat::Jxl
    }
}

/// The export format a setting names.
pub fn export_format_of(name: &str) -> (r: ExportFormat)
    ensures
        r == export_format_spec(name@),
{
    if str_eq(name, "webp") {
        ExportFormat::Webp
    } else if str_eq(name, "png") {
        ExportFormat::Png
    } else if str_eq(name, "jpeg") {
        ExportFormat::Jpeg
    } else {
        ExportFormat::Jxl
    }
}

/// The factor an upscale runs at: the smart scale (0) runs at 4×.
pub fn execution_scale(scale: u32) -> (r: u32)
    ensures
        r == if scale == 0 {
            4
        } else {
            scale
        },
{
    if scale == 0 {
        4
    } else {
        scale
    }
}

/// The extension of an upscale's output: PNG unless compressed, else the
/// compressed format's (`jpg` for JPEG, JPEG XL for anything unknown).
pub open spec fn upscale_extension_spec(compress: bool, format: Seq<char>) -> Seq<char> {
    if !compress {
        "png"@
    } else if format == "webp"@ {
        "webp"@
    } else if format == "jpeg"@ {
        "jpg"@
    } else if format == "png"@ {
        "png"@
    } else {
        "jxl"@
    }
}

/// The extension of an upscale's output.
pub fn upscale_output_extension(compress: bool, format: &str) -> (r: &'static str)
    ensures
        r@ == upscale_extension_spec(compress, format@),
{
    if !compress {
        "png"
    } else if str_eq(format, "webp") {
        "webp"
    } else if str_eq(format, "jpeg") {
        "jpg"
    } else if str_eq(format, "png") {
        "png"
    } else {
        "jxl"
    }
}

/// A step's own choice of a setting, else the global one.
pub fn step_or_global(step_value: &Option<String>, global: &str) -> (r: String)
    ensures
        r@ == match opt_string_view(*step_value) {
            Some(v) => v,
            None => global@,
        },
{
    match step_value {
        Some(v) => v.clone(),
        None => string_of(&chars_of(global)),
    }
}

// ---------------------------------------------------------------------------
// Watching an upscale job
// ---------------------------------------------------------------------------

/// What an upscale backend reports about its job.
#[derive(Debug)]
pub enum UpscaleEvent {
    /// The output is written at this path.
    Done(String),
    /// The job failed with this message.
    Failed(String),
    /// Anything else (progress, log lines).
    Other,
}

/// The result of an upscale job so far: the last of its reports that ended
/// it, or an error while none has.
pub struct JobWatch {
    pub last: Result<String, String>,
}

/// The result of a job so far, as characters.
pub open spec fn watch_view(w: JobWatch) -> Result<Seq<char>, Seq<char>> {
    match w.last {
        Ok(p) => Ok(p@),
        Err(m) => Err(m@),
    }
}

impl JobWatch {
    /// A job that has reported nothing yet.
    pub fn new() -> (r: Self)
        ensures
            watch_view(r) == Err::<Seq<char>, Seq<char>>("Job did not finish"@),
    {
        JobWatch { last: Err(string_of(&lit("Job did not finish"))) }
    }

    /// Takes in one report: a finished or failed job replaces the result,
    /// anything else leaves it.
    pub fn observe(&mut self, event: UpscaleEvent)
        ensures
            watch_view(*final(self)) == match event {
                UpscaleEvent::Done(p) => Ok(p@),
                UpscaleEvent::Failed(m) => Err(m@),
                UpscaleEvent::Other => watch_view(*old(self)),
            },
    {
        match event {
            UpscaleEvent::Done(p) => {
                self.last = Ok(p);
            },
            UpscaleEvent::Failed(m) => {
                self.last = Err(m);
            },
            UpscaleEvent::Other => {},
        }
    }

    /// The job's result.
    pub fn into_result(self) -> (r: Result<String, String>)
        ensures
            r == self.last,
    {
        self.last
    }
}

// ---------------------------------------------------------------------------
// The lists of the page
// ---------------------------------------------------------------------------

/// The creation times of pipelines.
pub open spec fn created_times(ps: Seq<Pipeline>) -> Seq<i64> {
    ps.map_values(|p: Pipeline| p.created_at)
}

/// The order in which finished pipelines are listed: newest first, equal
/// times in the order given.
pub fn history_order(history: &[Pipeline]) -> (r: Vec<usize>)
    ensures
        stable_sorted_desc(created_times(history@), usize_seq_as_int(r@)),
{
    let mut keys: Vec<i64> = Vec::new();
    let mut i: usize = 0;
    while i < history.len()
        invariant
            i <= history.len(),
            keys@ == created_times(history@.take(i as int)),
        decreases history.len() - i,
    {
        keys.push(history[i].created_at);
        i = i + 1;
        assert(keys@ =~= created_times(history@.take(i as int)));
    }
    assert(history@.take(history.len() as int) =~= history@);
    stable_sort_desc_positions(&keys)
}

/// The ids of a list of pipelines.
pub open spec fn pipeline_ids(ps: Seq<Pipeline>) -> Seq<i64> {
    ps.map_values(|p: Pipeline| p.id)
}

/// The checked rows that are still listed, in the order they were checked.
pub fn retain_listed(checked: &Vec<i64>, listed: &[Pipeline]) -> (r: Vec<i64>)
    ensures
        r@ == checked@.filter(|id: i64| pipeline_ids(listed@).contains(id)),
{
    let ghost ids = pipeline_ids(listed@);
    let mut out: Vec<i64> = Vec::new();
    let mut i: usize = 0;
    while i < checked.len()
        invariant
            i <= checked.len(),
            ids == pipeline_ids(listed@),
            out@ == checked@.take(i as int).filter(|id: i64| ids.contains(id)),
        decreases checked.len() - i,
    {
        let id = checked[i];
        let mut found = false;
        let mut j: usize = 0;
        while j < listed.len()
            invariant
                j <= listed.len(),
                ids == pipeline_ids(listed@),
                found == ids.take(j as int).contains(id),
            decreases listed.len() - j,
        {
            proof {
                assert(ids.take(j + 1) =~= ids.take(j as int).push(listed@[j as int].id));
                assert(ids.take(j + 1)[j as int] == listed@[j as int].id);
                if ids.take(j as int).contains(id) {
                    let w = choose|w: int| 0 <= w < j && ids.take(j as int)[w] == id;
                    assert(ids.take(j + 1)[w] == id);
                }
            }
            if listed[j].id == id {
                found = true;
            }
            j = j + 1;
        }
        proof {
            assert(ids.take(listed.len() as int) =~= ids);
            crate::sort::lemma_filter_take_step(checked@, |x: i64| ids.contains(x), i as int);
        }
        if found {
            out.push(id);
        }
        i = i + 1;
    }
    assert(checked@.take(checked.len() as int) =~= checked@);
    out
}

/// The selection kept after the list is rebuilt: the selected pipeline if it
/// is still listed, else none.
pub fn selection_after_refresh(selected: Option<i64>, listed: &[Pipeline]) -> (r: Option<i64>)
    ensures
        r == match selected {
            Some(id) => if pipeline_ids(listed@).contains(id) {
                Some(id)
            } else {
                None
            },
            None => None,
        },
{
    match selected {
        None => None,
        Some(id) => {
            let ghost ids = pipeline_ids(listed@);
            let mut j: usize = 0;
            while j < listed.len()
                invariant
                    selected == Some(id),
                    j <= listed.len(),
                    ids == pipeline_ids(listed@),
                    !ids.take(j as int).contains(id),
                decreases listed.len() - j,
            {
                if listed[j].id == id {
                    assert(ids[j as int] == id);
                    assert(ids.contains(id));
                    return Some(id);
                }
                assert(ids.take(j + 1) =~= ids.take(j as int).push(listed@[j as int].id));
                j = j + 1;
            }
            assert(ids.take(listed.len() as int) =~= ids);
            None
        },
    }
}

// ---------------------------------------------------------------------------
// Reordering the queue by drag and drop
// ---------------------------------------------------------------------------

/// The queue position of the first queued pipeline with this id.
pub open spec fn order_of(queued: Seq<Pipeline>, id: i64) -> Option<i64>
    decreases queued.len(),
{
    if queued.len() == 0 {
        None
    } else if queued[0].id == id {
        Some(queued[0].queue_order)
    } else {
        order_of(queued.drop_first(), id)
    }
}

/// A drop of the row whose id is `payload` onto the row named `target`:
/// the dragged pipeline and its new queue position, just after the target
/// when it came from before it and just before it otherwise. None when the
/// drop is refused: either text is not an id, a row onto itself, or either
/// pipeline is not queued.
pub open spec fn reorder_spec(payload: Seq<char>, target: Seq<char>, queued: Seq<Pipeline>) -> Option<(i64, int)> {
    match (crate::drops::parse_i64_spec(payload), crate::drops::parse_i64_spec(target)) {
        (Some(d), Some(t)) => if d == t {
            None
        } else {
            match (order_of(queued, d), order_of(queued, t)) {
                (Some(od), Some(ot)) => Some((d, if od < ot {
                    ot + 1
                } else {
                    ot - 1
                })),
                _ => None,
            }
        },
        _ => None,
    }
}

fn order_of_exec(queued: &[Pipeline], id: i64) -> (r: Option<i64>)
    ensures
        r == order_of(queued@, id),
{
    let mut i: usize = 0;
    assert(queued@.skip(0) =~= queued@);
    while i < queued.len()
        invariant
            i <= queued@.len(),
            order_of(queued@, id) == order_of(queued@.skip(i as int), id),
        decreases queued@.len() - i,
    {
        assert(queued@.skip(i as int)[0] == queued@[i as int]);
        if queued[i].id == id {
            return Some(queued[i].queue_order);
        }
        assert(queued@.skip(i as int).drop_first() =~= queued@.skip(i + 1));
        i = i + 1;
    }
    assert(queued@.skip(i as int).len() == 0);
    None
}

/// Where a queued pipeline dropped onto another row moves, if the drop is
/// taken; a drop whose new position does not fit an `i64` is refused too.
pub fn queue_reorder(payload: &str, target: &str, queued: &[Pipeline]) -> (r: Option<(i64, i64)>)
    ensures
        r == match reorder_spec(payload@, target@, queued@) {
            Some((id, o)) => if i64::MIN <= o <= i64::MAX {
                Some((id, o as i64))
            } else {
                None
            },
            None => None,
        },
{
    let d = match crate::drops::parse_i64(&chars_of(payload)) {
        Some(d) => d,
        None => return None,
    };
    let t = match crate::drops::parse_i64(&chars_of(target)) {
        Some(t) => t,
        None => return None,
    };
    if d == t {
        return None;
    }
    let od = match order_of_exec(queued, d) {
        Some(o) => o,
        None => return None,
    };
    let ot = match order_of_exec(queued, t) {
        Some(o) => o,
        None => return None,
    };
    if od < ot {
        match ot.checked_add(1) {
            Some(o) => Some((d, o)),
            None => None,
        }
    } else {
        match ot.checked_sub(1) {
            Some(o) => Some((d, o)),
            None => None,
        }
    }
}

} // verus!
