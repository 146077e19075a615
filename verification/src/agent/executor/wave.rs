//! A wave of steps that go at the same time. Whenever one of them ends, the
//! steps that have become ready join; questions and retries wait until the wave
//! is over.
use crate::agent::executor::run;
use crate::agent::executor::run::{RunState, Step, StepResult, StepTrace, MAX_TOTAL_STEPS};
use crate::json;
use crate::json::{Fields, Json, JsonView};
use crate::text;
use vstd::prelude::*;

verus! {

pub struct Wave {
    /// How many steps are displayed in all, as of the wave's beginning.
    pub total: usize,
    /// The steps that have been launched.
    pub spawned: Vec<String>,
    /// The failed steps that are tried again after the wave.
    pub retry: Vec<Step>,
    /// The questions that have come up; while there are any, nothing is launched.
    pub questions: Vec<Json>,
}

// ---------------------------------------------------------------------------
// Launching
// ---------------------------------------------------------------------------
/// Begins a wave with the steps that are ready, all of which are launched. The
/// run has already counted one step for the wave as a whole. The steps are
/// displayed from the position on at which the run stood.
pub fn begin_wave(state: &mut RunState, ready: &Vec<Step>) -> (r: Wave)
    ensures
        r.total == run::total_of(*old(state)),
        text::views(r.spawned@) == run::ids(ready@),
        r.retry@.len() == 0 && r.questions@.len() == 0,
        final(state).executed == run::minus(
            run::plus(old(state).executed as int, ready@.len() as int),
            1,
        ),
        final(state).displayed == run::plus(old(state).displayed as int, ready@.len() as int),
        *final(state) == (RunState {
            executed: final(state).executed,
            displayed: final(state).displayed,
            ..*old(state)
        }),
{
    let total = state.effective_total();
    let mut spawned: Vec<String> = Vec::new();
    let mut i: usize = 0;
    assert(text::views(spawned@) =~= run::ids(ready@).take(0));
    while i < ready.len()
        invariant
            i <= ready@.len(),
            text::views(spawned@) == run::ids(ready@).take(i as int),
            *state == *old(state),
        decreases ready@.len() - i,
    {
        let id = ready[i].id.clone();
        proof {
            text::views_push(spawned@, id);
            assert(run::ids(ready@).take(i + 1) =~= run::ids(ready@).take(i as int).push(id@));
        }
        spawned.push(id);
        i = i + 1;
    }
    assert(run::ids(ready@).take(ready@.len() as int) =~= run::ids(ready@));
    let count = ready.len();
    state.executed = state.executed.saturating_add(count).saturating_sub(1);
    state.displayed = state.displayed.saturating_add(count);
    Wave { total, spawned, retry: Vec::new(), questions: Vec::new() }
}

/// What has been launched so far, and the counts of the run.
#[verifier::ext_equal]
pub struct Launching {
    pub spawned: Seq<Seq<char>>,
    pub launched: Seq<Step>,
    pub executed: int,
    pub displayed: int,
}

/// A ready step is launched unless the wave has launched it before or the run
/// has executed as many steps as it may.
pub open spec fn launch_one(at: Launching, step: Step) -> Launching {
    if at.spawned.contains(step.id@) || at.executed >= MAX_TOTAL_STEPS {
        at
    } else {
        Launching {
            spawned: at.spawned.push(step.id@),
            launched: at.launched.push(step),
            executed: at.executed + 1,
            displayed: run::plus(at.displayed, 1),
        }
    }
}

pub open spec fn launching(at: Launching, ready: Seq<Step>) -> Launching
    decreases ready.len(),
{
    if ready.len() == 0 {
        at
    } else {
        launch_one(launching(at, ready.drop_last()), ready.last())
    }
}

pub open spec fn standing(state: RunState, wave: Wave) -> Launching {
    Launching {
        spawned: text::views(wave.spawned@),
        launched: Seq::empty(),
        executed: state.executed as int,
        displayed: state.displayed as int,
    }
}

/// Launches the steps that have become ready, in their order, while no question
/// is open. What is over the limit stays with the scheduler. The result are the
/// steps to launch.
pub fn join_ready(state: &mut RunState, wave: &mut Wave, ready: Vec<Step>) -> (r: Vec<Step>)
    ensures
        if old(wave).questions@.len() > 0 {
            r@.len() == 0 && *final(state) == *old(state) && *final(wave) == *old(wave)
        } else {
            let end = launching(standing(*old(state), *old(wave)), ready@);
            &&& r@ == end.launched
            &&& text::views(final(wave).spawned@) == end.spawned
            &&& final(state).executed == end.executed
            &&& final(state).displayed == end.displayed
            &&& *final(state) == (RunState {
                executed: final(state).executed,
                displayed: final(state).displayed,
                ..*old(state)
            })
            &&& *final(wave) == (Wave { spawned: final(wave).spawned, ..*old(wave) })
        },
{
    let mut launched: Vec<Step> = Vec::new();
    if wave.questions.len() > 0 {
        return launched;
    }
    let ghost all = ready@;
    let ghost first = standing(*state, *wave);
    let mut rest = ready;
    let ghost mut done: int = 0;
    assert(all.skip(0) =~= all);
    assert(all.take(0) =~= Seq::empty());
    assert(launched@ =~= first.launched);
    while rest.len() > 0
        invariant
            0 <= done <= all.len(),
            rest@ == all.skip(done),
            ({
                let at = launching(first, all.take(done));
                &&& launched@ == at.launched
                &&& text::views(wave.spawned@) == at.spawned
                &&& state.executed == at.executed
                &&& state.displayed == at.displayed
            }),
            *state == (RunState {
                executed: state.executed,
                displayed: state.displayed,
                ..*old(state)
            }),
            *wave == (Wave { spawned: wave.spawned, ..*old(wave) }),
        decreases rest@.len(),
    {
        let step = rest.remove(0);
        proof {
            assert(all.take(done + 1).drop_last() =~= all.take(done));
            assert(rest@ =~= all.skip(done + 1));
            assert(all.take(done + 1).last() == step);
        }
        if !text::list_contains(&wave.spawned, step.id.as_str()) && state.executed
            < MAX_TOTAL_STEPS {
            let id = step.id.clone();
            proof {
                text::views_push(wave.spawned@, id);
            }
            wave.spawned.push(id);
            state.executed = state.executed + 1;
            state.displayed = state.displayed.saturating_add(1);
            launched.push(step);
        }
        proof {
            done = done + 1;
        }
    }
    assert(all.take(all.len() as int) =~= all);
    launched
}

// ---------------------------------------------------------------------------
// Ends of steps
// ---------------------------------------------------------------------------
/// The variables once those of a step are merged: only what is missing.
pub open spec fn with_missing(
    variables: Seq<(Seq<char>, JsonView)>,
    more: Seq<(Seq<char>, JsonView)>,
) -> Seq<(Seq<char>, JsonView)>
    decreases more.len(),
{
    if more.len() == 0 {
        variables
    } else {
        let before = with_missing(variables, more.drop_last());
        if json::entry(before, more.last().0) is None {
            json::with_entry(before, more.last().0, more.last().1)
        } else {
            before
        }
    }
}

/// Merges the variables that a step saw into those of the run. What the run has
/// is not written over.
pub fn merge_variables(variables: &mut Fields, more: &Fields)
    ensures
        json::entries(final(variables)@) == with_missing(
            json::entries(old(variables)@),
            json::entries(more@),
        ),
{
    let ghost first = json::entries(variables@);
    let ghost all = json::entries(more@);
    let mut i: usize = 0;
    while i < more.len()
        invariant
            i <= more@.len(),
            all == json::entries(more@),
            json::entries(variables@) == with_missing(first, all.take(i as int)),
        decreases more@.len() - i,
    {
        assert(all.take(i + 1).drop_last() =~= all.take(i as int));
        if json::field(variables, more[i].0.as_str()).is_none() {
            json::set(variables, more[i].0.as_str(), more[i].1.copy());
        }
        i = i + 1;
    }
    assert(all.take(all.len() as int) =~= all);
}

/// What a step of a wave was.
pub struct Finished {
    pub duration_ms: u64,
    /// The tier that worked on the step; empty if it asks no model.
    pub tier: String,
}

pub open spec fn is_injected(state: RunState, step: Step) -> bool {
    text::views(state.injected@).contains(step.id@)
}

pub open spec fn trace_shows(
    trace: StepTrace,
    step: Step,
    finished: Finished,
    success: bool,
    error: Option<Seq<char>>,
    is_dynamic: bool,
) -> bool {
    &&& trace.step_id@ == step.id@
    &&& trace.capability_id@ == step.capability_id@
    &&& trace.tier_used@ == finished.tier@
    &&& trace.duration_ms == finished.duration_ms
    &&& trace.success == success
    &&& text::opt_view(trace.error) == error
    &&& trace.action@ == step.action@
    &&& trace.params@ == step.params@
    &&& trace.is_dynamic == is_dynamic
}

pub open spec fn result_shows(
    result: StepResult,
    step: Step,
    finished: Finished,
    success: bool,
    output: Option<Json>,
    error: Option<Seq<char>>,
    retry_count: u32,
) -> bool {
    &&& result.step_id@ == step.id@
    &&& result.success == success
    &&& result.output == output
    &&& text::opt_view(result.error) == error
    &&& result.duration_ms == finished.duration_ms
    &&& result.retry_count == retry_count
}

fn trace_of(
    step: &Step,
    finished: &Finished,
    success: bool,
    error: Option<String>,
    is_dynamic: bool,
) -> (r: StepTrace)
    ensures
        trace_shows(r, *step, *finished, success, text::opt_view(error), is_dynamic),
{
    StepTrace {
        step_id: step.id.clone(),
        capability_id: step.capability_id.clone(),
        tier_used: finished.tier.clone(),
        duration_ms: finished.duration_ms,
        success,
        error,
        action: step.action.clone(),
        params: step.params.copy(),
        is_dynamic,
    }
}

/// What a wave does with the steps that one of its steps made.
pub struct Made {
    /// The steps to hand to the scheduler; [`RunState::handed_over`] takes its
    /// answer.
    pub hand_over: Vec<Step>,
    /// Whether the output of the step is looked at for a question to the user.
    pub analyze: bool,
}

/// Takes in that a step of a wave has succeeded. `generated` are the steps that
/// its generator made, `returned` those that it made itself. The scheduler's own
/// steps generate nothing and are not looked at for questions, so that one does
/// not lead to ever more.
pub fn step_succeeded(
    state: &mut RunState,
    step: &Step,
    output: Json,
    finished: &Finished,
    generated: Vec<Step>,
    returned: Vec<Step>,
) -> (r: Made)
    ensures
        ({
            let was = *old(state);
            let now = *final(state);
            let own = is_injected(was, *step);
            let made = if own || !step.has_generator {
                returned@
            } else {
                generated@ + returned@
            };
            let queued = was.pending@ + made;
            &&& r.analyze == !own
            &&& r.hand_over@ == run::taken_over(queued, was.pending@.len() as int)
            &&& now.pending@ == queued.take(queued.len() - r.hand_over@.len())
            &&& now.dynamic_queued == run::plus(was.dynamic_queued as int, made.len() as int)
            &&& (exists|result: StepResult|
                result_shows(result, *step, *finished, true, Some(output), None, 0)
                    && #[trigger] run::with_result(was.results@, result) == now.results@)
            &&& now.traces@.len() == was.traces@.len() + 1
            &&& now.traces@.drop_last() == was.traces@
            &&& trace_shows(now.traces@.last(), *step, *finished, true, None, own)
            &&& run::usage_view(now.tier_usage@) == run::counted(
                run::usage_view(was.tier_usage@),
                finished.tier@,
            )
            &&& now == (RunState {
                pending: now.pending,
                dynamic_queued: now.dynamic_queued,
                results: now.results,
                traces: now.traces,
                tier_usage: now.tier_usage,
                ..was
            })
        }),
{
    let own = is_own(state, step);
    let result = StepResult {
        step_id: step.id.clone(),
        success: true,
        output: Some(output),
        error: None,
        duration_ms: finished.duration_ms,
        retry_count: 0,
    };
    assert(result_shows(result, *step, *finished, true, Some(output), None, 0));
    state.record_result(result);
    let pending_before = state.pending.len();
    let mut made: Vec<Step> = Vec::new();
    if !own && step.has_generator {
        let mut by_generator = generated;
        made.append(&mut by_generator);
    }
    let mut by_itself = returned;
    made.append(&mut by_itself);
    assert(made@ =~= if own || !step.has_generator {
        returned@
    } else {
        generated@ + returned@
    });
    let hand_over = state.queue_made(made, pending_before);
    let trace = trace_of(step, finished, true, None, own);
    state.record_trace(trace);
    assert(state.traces@.drop_last() =~= old(state).traces@);
    Made { hand_over, analyze: !own }
}

/// Keeps a question that a step of the wave has led to.
pub fn ask_later(wave: &mut Wave, question: Json)
    ensures
        final(wave).questions@ == old(wave).questions@.push(question),
        *final(wave) == (Wave { questions: final(wave).questions, ..*old(wave) }),
{
    wave.questions.push(question);
}

/// Takes in that a step of a wave has failed. It is tried again after the wave if
/// that may help, there is budget left and the step allows it; else it has
/// failed for good. The result says whether it is tried again.
pub fn step_failed(
    state: &mut RunState,
    wave: &mut Wave,
    step: Step,
    error: &str,
    finished: &Finished,
    retryable: bool,
    max_retries: u32,
) -> (r: bool)
    ensures
        r == (retryable && old(state).retry_budget > 0 && max_retries > 1),
        r ==> *final(state) == *old(state) && final(wave).retry@ == old(wave).retry@.push(step)
            && *final(wave) == (Wave { retry: final(wave).retry, ..*old(wave) }),
        !r ==> {
            let was = *old(state);
            let now = *final(state);
            &&& *final(wave) == *old(wave)
            &&& failure_kept(was, now, step, is_injected(was, step), Some(error@), *finished, 0)
        },
{
    if retryable && state.retry_budget > 0 && max_retries > 1 {
        wave.retry.push(step);
        return true;
    }
    let own = is_own(state, &step);
    keep_failure(state, &step, own, &Some(error.to_owned()), finished, 0);
    false
}

/// The run keeps the failure of a step as its result and in its trace.
pub open spec fn failure_kept(
    was: RunState,
    now: RunState,
    step: Step,
    is_dynamic: bool,
    error: Option<Seq<char>>,
    finished: Finished,
    retry_count: u32,
) -> bool {
    &&& exists|result: StepResult|
        result_shows(result, step, finished, false, None, error, retry_count)
            && #[trigger] run::with_result(was.results@, result) == now.results@
    &&& now.traces@.len() == was.traces@.len() + 1
    &&& now.traces@.drop_last() == was.traces@
    &&& trace_shows(
        now.traces@.last(),
        step,
        finished,
        false,
        error,
        is_dynamic,
    )
    &&& run::usage_view(now.tier_usage@) == run::counted(
        run::usage_view(was.tier_usage@),
        finished.tier@,
    )
    &&& now == (RunState {
        results: now.results,
        traces: now.traces,
        tier_usage: now.tier_usage,
        ..was
    })
}

fn keep_failure(
    state: &mut RunState,
    step: &Step,
    is_dynamic: bool,
    error: &Option<String>,
    finished: &Finished,
    retry_count: u32,
)
    ensures
        failure_kept(
            *old(state),
            *final(state),
            *step,
            is_dynamic,
            text::opt_view(*error),
            *finished,
            retry_count,
        ),
{
    let result = StepResult {
        step_id: step.id.clone(),
        success: false,
        output: None,
        error: text::clone_opt(error),
        duration_ms: finished.duration_ms,
        retry_count,
    };
    assert(result_shows(
        result,
        *step,
        *finished,
        false,
        None,
        text::opt_view(*error),
        retry_count,
    ));
    state.record_result(result);
    let trace = trace_of(step, finished, false, text::clone_opt(error), is_dynamic);
    state.record_trace(trace);
    assert(state.traces@.drop_last() =~= old(state).traces@);
}

// ---------------------------------------------------------------------------
// The end of a wave
// ---------------------------------------------------------------------------
/// What follows a wave.
pub enum WaveEnd {
    /// The run goes on.
    Next,
    /// The user is asked this first.
    Ask(Json),
    /// These steps are tried again, one after the other.
    Retry(Vec<Step>),
}

/// Ends a wave. A wave that was cancelled asks nothing and retries nothing. Of
/// several questions the first is asked now and the others when the run goes on.
pub fn end_wave(state: &mut RunState, wave: Wave, cancelled: bool) -> (r: WaveEnd)
    ensures
        if cancelled {
            r is Next && *final(state) == *old(state)
        } else if wave.questions@.len() > 0 {
            &&& r == WaveEnd::Ask(wave.questions@[0])
            &&& final(state).deferred@ == old(state).deferred@ + wave.questions@.skip(1)
            &&& *final(state) == (RunState { deferred: final(state).deferred, ..*old(state) })
        } else if wave.retry@.len() > 0 {
            r == WaveEnd::Retry(wave.retry) && *final(state) == *old(state)
        } else {
            r is Next && *final(state) == *old(state)
        },
{
    if cancelled {
        return WaveEnd::Next;
    }
    let mut questions = wave.questions;
    if questions.len() > 0 {
        let first = questions.remove(0);
        assert(questions@ =~= wave.questions@.skip(1));
        state.deferred.append(&mut questions);
        return WaveEnd::Ask(first);
    }
    if wave.retry.len() > 0 {
        return WaveEnd::Retry(wave.retry);
    }
    WaveEnd::Next
}

/// What trying a step again came to.
pub struct Attempted {
    pub budget: u32,
    pub prepend: Vec<Step>,
    pub retry_count: u32,
    /// The output, or the error as far as there is one.
    pub outcome: Result<Json, Option<String>>,
}

pub open spec fn error_text(error: Option<Seq<char>>) -> Seq<char> {
    match error {
        Some(e) => e,
        None => "unknown error"@,
    }
}

/// What is said of an error.
pub fn error_message(error: &Option<String>) -> (r: String)
    ensures
        r@ == error_text(text::opt_view(*error)),
{
    match error {
        Some(e) => e.clone(),
        None => "unknown error".to_owned(),
    }
}

/// Whether a step is one that the scheduler took over.
pub fn is_own(state: &RunState, step: &Step) -> (r: bool)
    ensures
        r == is_injected(*state, *step),
{
    text::list_contains(&state.injected, step.id.as_str())
}

/// Takes in what the attempts at a step came to: at a step that goes alone, or
/// at one that is tried again after its wave.
pub fn step_attempted(state: &mut RunState, step: &Step, finished: &Finished, attempted: Attempted)
    ensures
        ({
            let was = *old(state);
            let now = *final(state);
            &&& now.retry_budget == attempted.budget
            &&& now.pending@ == was.pending@ + attempted.prepend@
            &&& (exists|result: StepResult|
                #[trigger] run::with_result(was.results@, result) == now.results@ && (
                match attempted.outcome {
                    Ok(output) => result_shows(
                        result,
                        *step,
                        *finished,
                        true,
                        Some(output),
                        None,
                        attempted.retry_count,
                    ),
                    Err(e) => result_shows(
                        result,
                        *step,
                        *finished,
                        false,
                        None,
                        text::opt_view(e),
                        attempted.retry_count,
                    ),
                }))
            &&& now == (RunState {
                retry_budget: now.retry_budget,
                pending: now.pending,
                results: now.results,
                ..was
            })
        }),
{
    state.after_attempts(run::Attempts { budget: attempted.budget, prepend: attempted.prepend });
    let (success, output, error) = match attempted.outcome {
        Ok(output) => (true, Some(output), None),
        Err(error) => (false, None, error),
    };
    let result = StepResult {
        step_id: step.id.clone(),
        success,
        output,
        error,
        duration_ms: finished.duration_ms,
        retry_count: attempted.retry_count,
    };
    assert(result_shows(
        result,
        *step,
        *finished,
        success,
        output,
        text::opt_view(error),
        attempted.retry_count,
    ));
    state.record_result(result);
}

/// Keeps a step whose attempts are over for the trace. A step that leads to a
/// question at once is not kept: the run stops before.
pub fn step_traced(
    state: &mut RunState,
    step: &Step,
    is_dynamic: bool,
    finished: &Finished,
    success: bool,
    error: &Option<String>,
)
    ensures
        ({
            let was = *old(state);
            let now = *final(state);
            &&& now.traces@.len() == was.traces@.len() + 1
            &&& now.traces@.drop_last() == was.traces@
            &&& trace_shows(
                now.traces@.last(),
                *step,
                *finished,
                success,
                text::opt_view(*error),
                is_dynamic,
            )
            &&& run::usage_view(now.tier_usage@) == run::counted(
                run::usage_view(was.tier_usage@),
                finished.tier@,
            )
            &&& now == (RunState { traces: now.traces, tier_usage: now.tier_usage, ..was })
        }),
{
    let trace = trace_of(step, finished, success, text::clone_opt(error), is_dynamic);
    state.record_trace(trace);
    assert(state.traces@.drop_last() =~= old(state).traces@);
}

/// What is shown of an output. One of more than 1000 bytes is cut there.
pub open spec fn preview(output: Seq<char>) -> Seq<char> {
    if vstd::utf8::encode_utf8(output).len() > 1000 {
        text::byte_head(output, 1000) + "..."@
    } else {
        output
    }
}

/// Shows the beginning of an output. Where it is cut, a character has to begin.
pub fn output_preview(output: String) -> (r: String)
    requires
        vstd::utf8::encode_utf8(output@).len() > 1000 ==> text::width(
            text::byte_head(output@, 1000),
        ) == 1000,
    ensures
        r@ == preview(output@),
{
    if text::byte_len(output.as_str()) > 1000 {
        let mut cut = text::truncate_str(output.as_str(), 1000);
        cut.append("...");
        cut
    } else {
        output
    }
}

// ---------------------------------------------------------------------------
// Laws
// ---------------------------------------------------------------------------
/// While a wave goes on, no step is launched twice, and none is launched over
/// the run's limit.
pub proof fn a_wave_launches_each_step_once(at: Launching, ready: Seq<Step>)
    requires
        at.spawned.no_duplicates(),
    ensures
        launching(at, ready).spawned.no_duplicates(),
        launching(at, ready).executed <= if at.executed > MAX_TOTAL_STEPS {
            at.executed
        } else {
            MAX_TOTAL_STEPS as int
        },
        launching(at, ready).executed - at.executed == launching(at, ready).launched.len()
            - at.launched.len(),
    decreases ready.len(),
{
    if ready.len() > 0 {
        a_wave_launches_each_step_once(at, ready.drop_last());
    }
}

/// What a run knows is not written over by what a step saw.
pub proof fn merging_keeps_what_is_known(
    variables: Seq<(Seq<char>, JsonView)>,
    more: Seq<(Seq<char>, JsonView)>,
    key: Seq<char>,
)
    requires
        json::entry(variables, key) is Some,
    ensures
        json::entry(with_missing(variables, more), key) == json::entry(variables, key),
    decreases more.len(),
{
    if more.len() > 0 {
        merging_keeps_what_is_known(variables, more.drop_last(), key);
        let before = with_missing(variables, more.drop_last());
        if json::entry(before, more.last().0) is None {
            json::lookup_after_set(before, more.last().0, more.last().1, key);
        }
    }
}

/// Every step that is ready has been launched by the wave, unless the run has
/// executed as many steps as it may; and what is newly launched was ready and not
/// launched before.
pub proof fn a_wave_launches_what_is_ready(at: Launching, ready: Seq<Step>, k: int)
    requires
        0 <= k < ready.len(),
    ensures
        launching(at, ready).executed < 15 ==> launching(at, ready).spawned.contains(ready[k].id@),
        forall|i: int|
            at.launched.len() <= i < launching(at, ready).launched.len() ==> ready.contains(
                #[trigger] launching(at, ready).launched[i],
            ) && !at.spawned.contains(launching(at, ready).launched[i].id@),
    decreases ready.len(),
{
    let front = ready.drop_last();
    let before = launching(at, front);
    let after = launching(at, ready);
    launched_were_ready(at, ready);
    if k < front.len() {
        a_wave_launches_what_is_ready(at, front, k);
        if after.executed < 15 {
            let j = choose|j: int| 0 <= j < before.spawned.len() && before.spawned[j] == ready[k].id@;
            assert(after.spawned[j] == ready[k].id@);
        }
    } else if !before.spawned.contains(ready[k].id@) && before.executed < 15 {
        assert(after.spawned[before.spawned.len() as int] == ready[k].id@);
    }
}

proof fn launched_were_ready(at: Launching, ready: Seq<Step>)
    ensures
        forall|i: int|
            at.launched.len() <= i < launching(at, ready).launched.len() ==> ready.contains(
                #[trigger] launching(at, ready).launched[i],
            ) && !at.spawned.contains(launching(at, ready).launched[i].id@),
        at.launched.len() <= launching(at, ready).launched.len(),
        forall|id: Seq<char>| at.spawned.contains(id) ==> #[trigger] launching(
            at,
            ready,
        ).spawned.contains(id),
    decreases ready.len(),
{
    if ready.len() > 0 {
        let front = ready.drop_last();
        let before = launching(at, front);
        let after = launching(at, ready);
        launched_were_ready(at, front);
        assert forall|id: Seq<char>| at.spawned.contains(id) implies #[trigger] after.spawned.contains(
            id,
        ) by {
            assert(before.spawned.contains(id));
            let j = choose|j: int| 0 <= j < before.spawned.len() && before.spawned[j] == id;
            assert(after.spawned[j] == id);
        }
        assert forall|i: int| at.launched.len() <= i < after.launched.len() implies ready.contains(
            #[trigger] after.launched[i],
        ) && !at.spawned.contains(after.launched[i].id@) by {
            if i < before.launched.len() {
                assert(after.launched[i] == before.launched[i]);
                let j = choose|j: int| 0 <= j < front.len() && front[j] == before.launched[i];
                assert(ready[j] == after.launched[i]);
            } else {
                assert(ready[ready.len() - 1] == after.launched[i]);
            }
        }
    }
}

/// What a step saw and the run does not know is taken over; of what neither knows
/// nothing is made up.
pub proof fn merging_takes_what_is_missing(
    variables: Seq<(Seq<char>, JsonView)>,
    more: Seq<(Seq<char>, JsonView)>,
    key: Seq<char>,
)
    requires
        json::entry(variables, key) is None,
    ensures
        json::entry(with_missing(variables, more), key) == json::entry(more, key),
    decreases more.len(),
{
    if more.len() > 0 {
        let front = more.drop_last();
        let last = more.last();
        merging_takes_what_is_missing(variables, front, key);
        let before = with_missing(variables, front);
        assert(front.push((last.0, last.1)) =~= more);
        json::lookup_after_set(before, last.0, last.1, key);
        json::lookup_after_put(front, last.0, last.1, key);
        if key == last.0 && json::entry(front, key) is Some {
            json::entry_is_the_first(front, last, key);
        }
    }
}

/// A short output is shown whole; of a long one the beginning is shown, with dots
/// behind it.
pub proof fn previews_begin_as_outputs_do(output: Seq<char>)
    ensures
        vstd::utf8::encode_utf8(output).len() <= 1000 ==> preview(output) == output,
        vstd::utf8::encode_utf8(output).len() > 1000 ==> ({
            let shown = preview(output);
            let n = shown.len() - 3;
            &&& 0 <= n <= output.len()
            &&& shown.take(n) == output.take(n)
            &&& shown.skip(n) == "..."@
            &&& text::width(output.take(n)) <= 1000
            &&& n < output.len() ==> text::width(output.take(n + 1)) > 1000
        }),
{
    reveal_strlit("...");
    text::byte_head_fits(output, 1000);
    let head = text::byte_head(output, 1000);
    let shown = head + "..."@;
    assert(shown.take(head.len() as int) =~= head);
    assert(shown.skip(head.len() as int) =~= "..."@);
    assert(head =~= output.take(head.len() as int));
}

/// A step that failed for good leaves a failed result, in which its error stands,
/// and a failed trace; nothing else of the run changes but the count of what was
/// used.
pub proof fn failures_are_kept(
    was: RunState,
    now: RunState,
    step: Step,
    is_dynamic: bool,
    error: Option<Seq<char>>,
    finished: Finished,
    retry_count: u32,
)
    requires
        failure_kept(was, now, step, is_dynamic, error, finished, retry_count),
        forall|i: int, j: int|
            0 <= i < j < was.results@.len() ==> (#[trigger] was.results@[i]).step_id@ != (
            #[trigger] was.results@[j]).step_id@,
    ensures
        exists|k: int|
            0 <= k < now.results@.len() && {
                let result = #[trigger] now.results@[k];
                &&& result.step_id@ == step.id@
                &&& !result.success
                &&& result.output is None
                &&& text::opt_view(result.error) == error
                &&& result.retry_count == retry_count
            },
        ({
            let trace = now.traces@.last();
            &&& trace.step_id@ == step.id@
            &&& !trace.success
            &&& text::opt_view(trace.error) == error
            &&& trace.capability_id@ == step.capability_id@
            &&& trace.params@ == step.params@
            &&& trace.is_dynamic == is_dynamic
        }),
        now.pending == was.pending && now.step_index == was.step_index && now.executed
            == was.executed && now.retry_budget == was.retry_budget,
{
    let result = choose|result: StepResult|
        result_shows(result, step, finished, false, None, error, retry_count)
            && #[trigger] run::with_result(was.results@, result) == now.results@;
    run::results_are_kept_per_step(was.results@, result);
    let k = choose|k: int| 0 <= k < now.results@.len() && now.results@[k] == result;
    assert(now.results@[k].step_id@ == step.id@);
}

/// A step is the run's own exactly where it is among those that were put into it.
pub proof fn own_steps_are_those_put_in(state: RunState, step: Step)
    ensures
        is_injected(state, step) <==> exists|i: int|
            0 <= i < state.injected@.len() && (#[trigger] state.injected@[i])@ == step.id@,
{
    let ids = text::views(state.injected@);
    if is_injected(state, step) {
        let k = choose|k: int| 0 <= k < ids.len() && ids[k] == step.id@;
        assert(state.injected@[k]@ == step.id@);
    }
    if exists|i: int| 0 <= i < state.injected@.len() && (#[trigger] state.injected@[i])@ == step.id@ {
        let k = choose|i: int|
            0 <= i < state.injected@.len() && (#[trigger] state.injected@[i])@ == step.id@;
        assert(ids[k] == step.id@);
    }
}

} // verus!
