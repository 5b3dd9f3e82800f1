//! Finished pipelines: which of their steps a history row shows, and what
//! it offers to do with them.
use vstd::prelude::*;
use crate::paths::{file_name, file_name_of};
use crate::pipeline::{first_with_status, PipelineStatus, PipelineStep};
use crate::text::{chars_of, lit, string_of};

verus! {

/// A condition on the steps a history row looks for.
#[derive(Clone, Copy, Debug, PartialEq, Eq, Structural)]
pub enum StepFilter {
    /// Completed steps.
    Completed,
    /// Steps that recorded an output.
    HasOutput,
    /// Failed steps.
    Failed,
}

/// Whether a step meets a condition.
pub open spec fn passes(s: PipelineStep, f: StepFilter) -> bool {
    match f {
        StepFilter::Completed => s.status == PipelineStatus::Completed,
        StepFilter::HasOutput => s.output_path is Some,
        StepFilter::Failed => s.status == PipelineStatus::Failed,
    }
}

/// Whether some step meets a condition.
pub open spec fn any_passes(steps: Seq<PipelineStep>, f: StepFilter) -> bool {
    exists|j: int| 0 <= j < steps.len() && passes(#[trigger] steps[j], f)
}

/// Position `i` holds the step of highest order meeting `f`, the last one
/// among equals.
pub open spec fn is_latest(steps: Seq<PipelineStep>, f: StepFilter, i: int) -> bool {
    &&& 0 <= i < steps.len()
    &&& passes(steps[i], f)
    &&& forall|j: int| 0 <= j < steps.len() && passes(#[trigger] steps[j], f) ==> steps[j].step_order <= steps[i].step_order
    &&& forall|j: int| i < j < steps.len() && passes(#[trigger] steps[j], f) ==> steps[j].step_order < steps[i].step_order
}

/// Position `i` holds the step of lowest order, the first one among equals.
pub open spec fn is_first(steps: Seq<PipelineStep>, i: int) -> bool {
    &&& 0 <= i < steps.len()
    &&& forall|j: int| 0 <= j < steps.len() ==> steps[i].step_order <= #[trigger] steps[j].step_order
    &&& forall|j: int| 0 <= j < i ==> steps[i].step_order < #[trigger] steps[j].step_order
}

/// The position of the step of highest order meeting `f`, the last one among
/// equals; none when no step meets it.
pub fn latest_step(steps: &[PipelineStep], f: StepFilter) -> (r: Option<usize>)
    ensures
        r matches Some(i) ==> is_latest(steps@, f, i as int),
        r is None ==> !any_passes(steps@, f),
{
    let mut best: Option<usize> = None;
    let mut i: usize = 0;
    while i < steps.len()
        invariant
            i <= steps.len(),
            best matches Some(b) ==> b < i && passes(steps@[b as int], f)
                && (forall|j: int| 0 <= j < i && passes(#[trigger] steps@[j], f) ==> steps@[j].step_order <= steps@[b as int].step_order)
                && (forall|j: int| b < j < i && passes(#[trigger] steps@[j], f) ==> steps@[j].step_order < steps@[b as int].step_order),
            best is None ==> forall|j: int| 0 <= j < i ==> !passes(#[trigger] steps@[j], f),
        decreases steps.len() - i,
    {
        let ok = match f {
            StepFilter::Completed => steps[i].status == PipelineStatus::Completed,
            StepFilter::HasOutput => steps[i].output_path.is_some(),
            StepFilter::Failed => steps[i].status == PipelineStatus::Failed,
        };
        assert(ok == passes(steps@[i as int], f));
        if ok {
            match best {
                Some(b) => {
                    if steps[i].step_order >= steps[b].step_order {
                        best = Some(i);
                    }
                },
                None => {
                    best = Some(i);
                },
            }
        }
        i = i + 1;
    }
    best
}

/// The position of the step of lowest order, the first one among equals;
/// none when there are no steps.
pub fn first_step(steps: &[PipelineStep]) -> (r: Option<usize>)
    ensures
        r matches Some(i) ==> is_first(steps@, i as int),
        r is None ==> steps@.len() == 0,
{
    if steps.len() == 0 {
        return None;
    }
    let mut best: usize = 0;
    let mut i: usize = 1;
    while i < steps.len()
        invariant
            1 <= i <= steps.len(),
            best < i,
            forall|j: int| 0 <= j < i ==> steps@[best as int].step_order <= #[trigger] steps@[j].step_order,
            forall|j: int| 0 <= j < best ==> steps@[best as int].step_order < #[trigger] steps@[j].step_order,
        decreases steps.len() - i,
    {
        if steps[i].step_order < steps[best].step_order {
            best = i;
        }
        i = i + 1;
    }
    Some(best)
}

/// The position of the running step, the first in list order.
pub fn active_step(steps: &[PipelineStep]) -> (r: Option<usize>)
    ensures
        r matches Some(k) ==> first_with_status(steps@, PipelineStatus::InProgress, 0) == Some(k as int),
        r is None ==> first_with_status(steps@, PipelineStatus::InProgress, 0) is None,
{
    let mut i: usize = 0;
    while i < steps.len()
        invariant
            i <= steps.len(),
            first_with_status(steps@, PipelineStatus::InProgress, 0) == first_with_status(steps@, PipelineStatus::InProgress, i as int),
        decreases steps.len() - i,
    {
        if steps[i].status == PipelineStatus::InProgress {
            return Some(i);
        }
        i = i + 1;
    }
    None
}

/// Whether `r` is the step a history row shows: the latest step with an
/// output, else the latest completed step, else the running step, else the
/// first step.
pub open spec fn is_display_step(steps: Seq<PipelineStep>, r: Option<int>) -> bool {
    if any_passes(steps, StepFilter::HasOutput) {
        r matches Some(i) && is_latest(steps, StepFilter::HasOutput, i)
    } else if any_passes(steps, StepFilter::Completed) {
        r matches Some(i) && is_latest(steps, StepFilter::Completed, i)
    } else if first_with_status(steps, PipelineStatus::InProgress, 0) is Some {
        r == first_with_status(steps, PipelineStatus::InProgress, 0)
    } else if steps.len() > 0 {
        r matches Some(i) && is_first(steps, i)
    } else {
        r is None
    }
}

/// The step a history row shows: its output, summary and compare source.
pub fn display_step(steps: &[PipelineStep]) -> (r: Option<usize>)
    ensures
        is_display_step(steps@, match r {
            Some(i) => Some(i as int),
            None => None,
        }),
{
    match latest_step(steps, StepFilter::HasOutput) {
        Some(i) => {
            return Some(i);
        },
        None => {},
    }
    match latest_step(steps, StepFilter::Completed) {
        Some(i) => {
            return Some(i);
        },
        None => {},
    }
    match active_step(steps) {
        Some(i) => {
            return Some(i);
        },
        None => {},
    }
    first_step(steps)
}

/// Whether `r` is the step whose status a history row shows: the latest
/// failed step, else the running step, else the displayed step.
pub open spec fn is_status_step(steps: Seq<PipelineStep>, r: Option<int>) -> bool {
    if any_passes(steps, StepFilter::Failed) {
        r matches Some(i) && is_latest(steps, StepFilter::Failed, i)
    } else if first_with_status(steps, PipelineStatus::InProgress, 0) is Some {
        r == first_with_status(steps, PipelineStatus::InProgress, 0)
    } else {
        is_display_step(steps, r)
    }
}

/// The step whose status a history row shows.
pub fn status_step(steps: &[PipelineStep]) -> (r: Option<usize>)
    ensures
        is_status_step(steps@, match r {
            Some(i) => Some(i as int),
            None => None,
        }),
{
    match latest_step(steps, StepFilter::Failed) {
        Some(i) => {
            return Some(i);
        },
        None => {},
    }
    match active_step(steps) {
        Some(i) => {
            return Some(i);
        },
        None => {},
    }
    display_step(steps)
}

/// There is one step of highest order meeting a condition, last among
/// equals.
pub proof fn lemma_latest_unique(steps: Seq<PipelineStep>, f: StepFilter, i: int, k: int)
    requires
        is_latest(steps, f, i),
        is_latest(steps, f, k),
    ensures
        i == k,
{
    let a = steps[i];
    let b = steps[k];
    if i < k {
        assert(passes(steps[k], f));
    } else if k < i {
        assert(passes(steps[i], f));
    }
}

/// The title of a history row: the source's file name, `Unknown` without
/// one.
pub open spec fn history_title_spec(source: Seq<char>) -> Seq<char> {
    match file_name_of(source) {
        Some(n) => n,
        None => "Unknown"@,
    }
}

/// The title of a history row.
pub fn history_title(source: &str) -> (r: String)
    ensures
        r@ == history_title_spec(source@),
{
    let p = chars_of(source);
    match file_name(&p) {
        Some(n) => string_of(&n),
        None => string_of(&lit("Unknown")),
    }
}

/// Which file a finished pipeline is queued again with.
#[derive(Clone, Copy, Debug, PartialEq, Eq, Structural)]
pub enum RequeueSource {
    /// The kept PNG of the upscale.
    Png,
    /// The pipeline's output.
    Result,
    /// The pipeline's original source.
    Original,
}

/// The file a finished pipeline is queued again with: the kept PNG when its
/// button is chosen and the file is there, else the output when its button is
/// chosen and the file is there, else the original.
pub fn requeue_source(png_chosen: bool, png_exists: bool, result_chosen: bool, output_exists: bool) -> (r: RequeueSource)
    ensures
        r == if png_chosen && png_exists {
            RequeueSource::Png
        } else if result_chosen && output_exists {
            RequeueSource::Result
        } else {
            RequeueSource::Original
        },
{
    if png_chosen && png_exists {
        RequeueSource::Png
    } else if result_chosen && output_exists {
        RequeueSource::Result
    } else {
        RequeueSource::Original
    }
}

/// How the source buttons of a history row start: the result is chosen and
/// can be chosen only when the output file is there, the original otherwise.
#[derive(Clone, Copy, Debug, PartialEq, Eq, Structural)]
pub struct SourceButtons {
    pub original_active: bool,
    pub result_active: bool,
    pub result_sensitive: bool,
    pub compare_sensitive: bool,
}

/// How the source and compare buttons of a history row start; comparing
/// needs both the source and the output file.
pub fn initial_source_buttons(source_exists: bool, output_exists: bool) -> (r: SourceButtons)
    ensures
        r.original_active == !output_exists,
        r.result_active == output_exists,
        r.result_sensitive == output_exists,
        r.compare_sensitive == (source_exists && output_exists),
{
    SourceButtons {
        original_active: !output_exists,
        result_active: output_exists,
        result_sensitive: output_exists,
        compare_sensitive: source_exists && output_exists,
    }
}

/// One of the source buttons of a history row.
#[derive(Clone, Copy, Debug, PartialEq, Eq, Structural)]
pub enum SourceChoice {
    Original,
    Result,
    Png,
}

/// Which source buttons are pressed; `png` stays released when the row has
/// no PNG button.
#[derive(Clone, Copy, Debug, PartialEq, Eq, Structural)]
pub struct SourceToggles {
    pub original: bool,
    pub result: bool,
    pub png: bool,
}

/// Whether the button is pressed.
pub open spec fn source_pressed(b: SourceToggles, which: SourceChoice) -> bool {
    match which {
        SourceChoice::Original => b.original,
        SourceChoice::Result => b.result,
        SourceChoice::Png => b.png,
    }
}

/// Only `which` pressed.
pub open spec fn only_source(which: SourceChoice) -> SourceToggles {
    SourceToggles {
        original: which == SourceChoice::Original,
        result: which == SourceChoice::Result,
        png: which == SourceChoice::Png,
    }
}

/// The buttons after `which` was toggled (`b` holds its new state): a
/// pressed button releases the others; when the last pressed button is
/// released, the original is pressed for a released result, and a released
/// original or PNG button is pressed again.
pub open spec fn source_after_toggle_spec(b: SourceToggles, which: SourceChoice) -> SourceToggles {
    if source_pressed(b, which) {
        only_source(which)
    } else if !b.original && !b.result && !b.png {
        if which == SourceChoice::Result {
            only_source(SourceChoice::Original)
        } else {
            only_source(which)
        }
    } else {
        b
    }
}

/// The source buttons after `which` was toggled.
pub fn source_toggled(b: SourceToggles, which: SourceChoice) -> (r: SourceToggles)
    ensures
        r == source_after_toggle_spec(b, which),
{
    let now = match which {
        SourceChoice::Original => b.original,
        SourceChoice::Result => b.result,
        SourceChoice::Png => b.png,
    };
    let target = if now {
        which
    } else if !b.original && !b.result && !b.png {
        match which {
            SourceChoice::Result => SourceChoice::Original,
            _ => which,
        }
    } else {
        return b;
    };
    SourceToggles {
        original: match target {
            SourceChoice::Original => true,
            _ => false,
        },
        result: match target {
            SourceChoice::Result => true,
            _ => false,
        },
        png: match target {
            SourceChoice::Png => true,
            _ => false,
        },
    }
}

/// Exactly one source button is pressed.
pub open spec fn one_source(b: SourceToggles) -> bool {
    (b.original && !b.result && !b.png) || (!b.original && b.result && !b.png) || (!b.original && !b.result && b.png)
}

/// `b` with `which` clicked.
pub open spec fn source_flip(b: SourceToggles, which: SourceChoice) -> SourceToggles {
    match which {
        SourceChoice::Original => SourceToggles { original: !b.original, ..b },
        SourceChoice::Result => SourceToggles { result: !b.result, ..b },
        SourceChoice::Png => SourceToggles { png: !b.png, ..b },
    }
}

/// The source buttons stay a radio group: from one pressed button, any
/// click leaves exactly one pressed, so a row is always queued again from
/// one chosen file.
pub proof fn lemma_source_radio(b: SourceToggles, which: SourceChoice)
    requires
        one_source(b),
    ensures
        one_source(source_after_toggle_spec(source_flip(b, which), which)),
{
}

} // verus!
