//! The state of a run. What a step does is outside work; which step is next,
//! what its outcome changes and how the run ends is decided here.
use crate::agent::capability;
use crate::agent::capability::CapabilityRef;
use crate::json::Json;
use crate::text;
use vstd::prelude::*;

verus! {

/// How many steps a run executes at most, so that steps that make further steps
/// come to an end.
pub const MAX_TOTAL_STEPS: usize = 15;

/// How often a run retries, over all its steps.
pub const GLOBAL_RETRY_BUDGET: u32 = 5;

/// A step of a recipe.
pub struct Step {
    pub id: String,
    pub capability_id: String,
    pub action: String,
    pub params: Json,
    /// Whether the output of the step makes further steps.
    pub has_generator: bool,
}

/// What came of a step.
pub struct StepResult {
    pub step_id: String,
    pub success: bool,
    pub output: Option<Json>,
    pub error: Option<String>,
    pub duration_ms: u64,
    pub retry_count: u32,
}

/// What is kept of a step for the trace of its run. `tier_used` is empty for a
/// step that asks no model.
pub struct StepTrace {
    pub step_id: String,
    pub capability_id: String,
    pub tier_used: String,
    pub duration_ms: u64,
    pub success: bool,
    pub error: Option<String>,
    pub action: String,
    pub params: Json,
    pub is_dynamic: bool,
}

pub struct RunState {
    /// The steps of the recipe.
    pub steps: Vec<Step>,
    /// How many of them the run is past.
    pub step_index: usize,
    /// Further steps, to be executed in this order before all others.
    pub pending: Vec<Step>,
    pub results: Vec<StepResult>,
    pub traces: Vec<StepTrace>,
    /// How many steps each tier of models has worked on.
    pub tier_usage: Vec<(String, u32)>,
    pub retry_budget: u32,
    pub executed: usize,
    /// How many further steps there have been, for display.
    pub dynamic_queued: usize,
    /// How many steps have been announced, for display.
    pub displayed: usize,
    /// How many steps only plan others and are not displayed.
    pub hidden: usize,
    /// Whether there is a scheduler of steps by their dependencies.
    pub has_dag: bool,
    /// Whether steps are taken from that scheduler.
    pub use_dag: bool,
    /// The further steps that the scheduler took over.
    pub injected: Vec<String>,
    /// Questions to ask when the run goes on.
    pub deferred: Vec<Json>,
}

/// A sum that stays within the machine's range.
pub open spec fn plus(a: int, b: int) -> int {
    if a + b > usize::MAX {
        usize::MAX as int
    } else {
        a + b
    }
}

pub open spec fn minus(a: int, b: int) -> int {
    if a < b {
        0
    } else {
        a - b
    }
}

pub open spec fn ids(steps: Seq<Step>) -> Seq<Seq<char>> {
    Seq::new(steps.len(), |i: int| steps[i].id@)
}

// ---------------------------------------------------------------------------
// Choosing
// ---------------------------------------------------------------------------
/// Whether a step of an interactive app is among the steps.
pub open spec fn interacts(steps: Seq<Step>) -> bool {
    exists|i: int| 0 <= i < steps.len() && (#[trigger] steps[i]).capability_id@ == "tapp.interact"@
}

/// Position of the first step with the identifier, from `i` on.
pub open spec fn step_from(steps: Seq<Step>, id: Seq<char>, i: int) -> Option<int>
    decreases steps.len() - i,
{
    if i < 0 || i >= steps.len() {
        None
    } else if steps[i].id@ == id {
        Some(i)
    } else {
        step_from(steps, id, i + 1)
    }
}

/// Where the run stands once it is past the step.
pub open spec fn past(steps: Seq<Step>, id: Seq<char>, step_index: int) -> int {
    match step_from(steps, id, 0) {
        Some(i) => if step_index > i + 1 {
            step_index
        } else {
            i + 1
        },
        None => step_index,
    }
}

/// What a run does next.
pub enum Turn {
    /// The run is over.
    Finish,
    /// The user has cancelled it.
    Cancel,
    /// The steps are executed at the same time.
    Parallel(Vec<Step>),
    /// The step is executed alone. `is_dynamic` says of it that it was not part
    /// of the recipe.
    Serial { step: Step, is_dynamic: bool },
    /// The step of the recipe at this position is executed alone.
    Listed(usize),
}

/// Which steps there are to take, of those that are ready.
pub open spec fn chosen(run: RunState, ready: Seq<Step>) -> TurnView {
    if run.pending@.len() > 0 {
        TurnView::Serial(run.pending@[0], true)
    } else if run.use_dag {
        if run.has_dag && ready.len() > 1 {
            TurnView::Parallel(ready)
        } else if run.has_dag && ready.len() == 1 {
            TurnView::Serial(ready[0], text::views(run.injected@).contains(ready[0].id@))
        } else {
            TurnView::Finish
        }
    } else if run.step_index < run.steps@.len() {
        TurnView::Listed(run.step_index as int)
    } else {
        TurnView::Finish
    }
}

pub enum TurnView {
    Finish,
    Cancel,
    Parallel(Seq<Step>),
    Serial(Step, bool),
    Listed(int),
}

impl View for Turn {
    type V = TurnView;

    open spec fn view(&self) -> TurnView {
        match self {
            Turn::Finish => TurnView::Finish,
            Turn::Cancel => TurnView::Cancel,
            Turn::Parallel(v) => TurnView::Parallel(v@),
            Turn::Serial { step, is_dynamic } => TurnView::Serial(*step, *is_dynamic),
            Turn::Listed(i) => TurnView::Listed(*i as int),
        }
    }
}

/// The steps that a turn hands out to be executed.
pub open spec fn handed_out(turn: TurnView, steps: Seq<Step>) -> Seq<Step> {
    match turn {
        TurnView::Parallel(together) => together,
        TurnView::Serial(step, _) => seq![step],
        TurnView::Listed(i) => seq![steps[i]],
        _ => Seq::empty(),
    }
}

pub open spec fn works(run: RunState, remaining: bool) -> bool {
    ||| run.step_index < run.steps@.len()
    ||| run.pending@.len() > 0
    ||| (run.has_dag && remaining)
}

impl RunState {
    /// A run of the steps. `parallel` is `None` where their dependencies cannot be
    /// scheduled, and else says whether some of them can go at the same time.
    pub fn new(steps: Vec<Step>, parallel: Option<bool>) -> (r: Self)
        ensures
            r.steps == steps,
            r.has_dag == (parallel is Some),
            r.use_dag == (parallel == Some(true) && !interacts(steps@)),
            r.use_dag ==> (forall|i: int|
                0 <= i < steps@.len() ==> (#[trigger] steps@[i]).capability_id@ != "tapp.interact"@),
            r.retry_budget == 5,
            r.step_index == 0 && r.executed == 0 && r.displayed == 0 && r.hidden == 0,
            r.dynamic_queued == 0,
            r.retry_budget == GLOBAL_RETRY_BUDGET,
            r.pending@.len() == 0 && r.results@.len() == 0 && r.traces@.len() == 0,
            r.tier_usage@.len() == 0 && r.injected@.len() == 0 && r.deferred@.len() == 0,
    {
        let mut interactive = false;
        let mut i: usize = 0;
        while i < steps.len()
            invariant
                i <= steps@.len(),
                interactive == exists|k: int|
                    0 <= k < i && (#[trigger] steps@[k]).capability_id@ == "tapp.interact"@,
            decreases steps@.len() - i,
        {
            if text::eq(steps[i].capability_id.as_str(), "tapp.interact") {
                interactive = true;
                assert(steps@[i as int].capability_id@ == "tapp.interact"@);
            }
            i = i + 1;
        }
        let use_dag = match parallel {
            Some(p) => p && !interactive,
            None => false,
        };
        RunState {
            steps,
            step_index: 0,
            pending: Vec::new(),
            results: Vec::new(),
            traces: Vec::new(),
            tier_usage: Vec::new(),
            retry_budget: GLOBAL_RETRY_BUDGET,
            executed: 0,
            dynamic_queued: 0,
            displayed: 0,
            hidden: 0,
            has_dag: parallel.is_some(),
            use_dag,
            injected: Vec::new(),
            deferred: Vec::new(),
        }
    }

    /// Whether there is something left to do. `remaining` says whether the
    /// scheduler has steps left.
    pub fn has_work(&self, remaining: bool) -> (r: bool)
        ensures
            r == works(*self, remaining),
    {
        self.step_index < self.steps.len() || self.pending.len() > 0 || (self.has_dag && remaining)
    }

    /// How many steps are displayed in all.
    pub fn effective_total(&self) -> (r: usize)
        ensures
            r == total_of(*self),
    {
        self.steps.len().saturating_add(self.dynamic_queued).saturating_sub(self.hidden)
    }

    /// Moves past a step. Steps that go at the same time end in any order, and
    /// the run only moves forward.
    pub fn advance_past(&mut self, step_id: &str)
        ensures
            *final(self) == (RunState { step_index: final(self).step_index, ..*old(self) }),
            final(self).step_index == past(
                old(self).steps@,
                step_id@,
                old(self).step_index as int,
            ),
            final(self).step_index >= old(self).step_index,
    {
        let mut i: usize = 0;
        while i < self.steps.len()
            invariant
                i <= self.steps@.len(),
                *self == *old(self),
                step_from(self.steps@, step_id@, 0) == step_from(self.steps@, step_id@, i as int),
            decreases self.steps@.len() - i,
        {
            if text::eq(self.steps[i].id.as_str(), step_id) {
                if self.step_index < i + 1 {
                    self.step_index = i + 1;
                }
                return ;
            }
            i = i + 1;
        }
    }

    /// Chooses what is next: further steps first, then what is ready by its
    /// dependencies, else the recipe in its order.
    fn next_step(&mut self, ready: Vec<Step>) -> (r: Turn)
        ensures
            r@ == chosen(*old(self), ready@),
            *final(self) == (RunState {
                pending: final(self).pending,
                step_index: final(self).step_index,
                ..*old(self)
            }),
            final(self).pending@ == (if old(self).pending@.len() > 0 {
                old(self).pending@.skip(1)
            } else {
                old(self).pending@
            }),
            final(self).step_index == (match chosen(*old(self), ready@) {
                TurnView::Serial(step, _) => if old(self).pending@.len() > 0 {
                    old(self).step_index as int
                } else {
                    past(old(self).steps@, step.id@, old(self).step_index as int)
                },
                TurnView::Listed(i) => i + 1,
                _ => old(self).step_index as int,
            }),
    {
        if self.pending.len() > 0 {
            let step = self.pending.remove(0);
            assert(self.pending@ =~= old(self).pending@.skip(1));
            return Turn::Serial { step, is_dynamic: true };
        }
        if self.use_dag {
            if !self.has_dag || ready.len() == 0 {
                return Turn::Finish;
            }
            if ready.len() > 1 {
                return Turn::Parallel(ready);
            }
            let mut ready = ready;
            let step = ready.remove(0);
            self.advance_past(step.id.as_str());
            let is_dynamic = text::list_contains(&self.injected, step.id.as_str());
            return Turn::Serial { step, is_dynamic };
        }
        if self.step_index < self.steps.len() {
            let at = self.step_index;
            self.step_index = self.step_index + 1;
            return Turn::Listed(at);
        }
        Turn::Finish
    }

    /// The next turn of a run. `cancelled` says whether the user has cancelled it,
    /// `remaining` whether the scheduler has steps left, and `ready` which of them
    /// are ready.
    pub fn turn(&mut self, cancelled: bool, remaining: bool, ready: Vec<Step>) -> (r: Turn)
        ensures
            ({
                let run = *old(self);
                if !works(run, remaining) {
                    r is Finish && *final(self) == run
                } else if cancelled {
                    r is Cancel && *final(self) == run
                } else if run.executed >= MAX_TOTAL_STEPS {
                    &&& r is Finish
                    &&& *final(self) == (RunState { pending: final(self).pending, ..run })
                    &&& final(self).pending@.len() == 0
                } else {
                    &&& r@ == chosen(run, ready@)
                    &&& final(self).executed == run.executed + 1
                    &&& final(self).pending@ == (if run.pending@.len() > 0 {
                        run.pending@.skip(1)
                    } else {
                        run.pending@
                    })
                    &&& final(self).step_index == (match chosen(run, ready@) {
                        TurnView::Serial(step, _) => if run.pending@.len() > 0 {
                            run.step_index as int
                        } else {
                            past(run.steps@, step.id@, run.step_index as int)
                        },
                        TurnView::Listed(i) => i + 1,
                        _ => run.step_index as int,
                    })
                    &&& *final(self) == (RunState {
                        executed: final(self).executed,
                        pending: final(self).pending,
                        step_index: final(self).step_index,
                        ..run
                    })
                }
            }),
            // What waits is taken first, then all that is ready, then the recipe.
            !cancelled && old(self).executed < 15 && old(self).pending@.len() > 0 ==> r@
                == TurnView::Serial(old(self).pending@[0], true),
            !cancelled && old(self).executed < 15 && old(self).pending@.len() == 0 && old(
                self,
            ).use_dag && old(self).has_dag && remaining && ready@.len() > 0 ==> handed_out(
                r@,
                old(self).steps@,
            ) == ready@,
            !cancelled && old(self).executed < 15 && old(self).pending@.len() == 0 && !old(
                self,
            ).use_dag && old(self).step_index < old(self).steps@.len() ==> handed_out(
                r@,
                old(self).steps@,
            ) == seq![old(self).steps@[old(self).step_index as int]] && final(self).step_index
                == old(self).step_index + 1,
    {
        if !self.has_work(remaining) {
            return Turn::Finish;
        }
        if cancelled {
            return Turn::Cancel;
        }
        if self.executed >= MAX_TOTAL_STEPS {
            self.pending.clear();
            return Turn::Finish;
        }
        self.executed = self.executed + 1;
        assert(ready@.len() == 1 ==> ready@ =~= seq![ready@[0]]);
        self.next_step(ready)
    }
}

pub open spec fn total_of(run: RunState) -> int {
    minus(plus(run.steps@.len() as int, run.dynamic_queued as int), run.hidden as int)
}

// ---------------------------------------------------------------------------
// One step at a time
// ---------------------------------------------------------------------------
/// How a step that begins is announced. A step that only plans others is not.
pub struct SerialStart {
    pub visible: bool,
    pub total: usize,
    /// The position under which the step is displayed.
    pub display_index: usize,
    /// How many further steps were waiting when the step began.
    pub pending_before: usize,
}

/// What the attempts at a step came to.
pub struct Attempts {
    /// What is left of the retry budget.
    pub budget: u32,
    /// Steps that have to go first.
    pub prepend: Vec<Step>,
}

/// How a pause is stored.
#[derive(Clone, Copy, Debug, PartialEq, Eq, Structural)]
pub enum PausePersist {
    Background,
    /// The pause has to be stored before anyone is told: the answer arrives
    /// through the store.
    AwaitTappWait,
}

/// Whether steps that were queued since are taken over by the scheduler: only
/// when there is more than one.
pub open spec fn taken_over(pending: Seq<Step>, before: int) -> Seq<Step> {
    if pending.len() - before > 1 {
        pending.skip(before)
    } else {
        Seq::empty()
    }
}

impl RunState {
    /// Begins a step that goes alone.
    pub fn begin_serial(&mut self, step: &Step) -> (r: SerialStart)
        ensures
            r.visible == !(capability::name_of(step.capability_id@) is Skill),
            r.total == total_of(*old(self)),
            r.pending_before == old(self).pending@.len(),
            r.display_index == minus(final(self).displayed as int, 1),
            *final(self) == (if r.visible {
                RunState { displayed: final(self).displayed, ..*old(self) }
            } else {
                RunState { hidden: final(self).hidden, ..*old(self) }
            }),
            r.visible ==> final(self).displayed == plus(old(self).displayed as int, 1),
            !r.visible ==> final(self).hidden == plus(old(self).hidden as int, 1),
    {
        let total = self.effective_total();
        let visible = !CapabilityRef::parse(step.capability_id.as_str()).is_skill();
        if visible {
            self.displayed = self.displayed.saturating_add(1);
        } else {
            self.hidden = self.hidden.saturating_add(1);
        }
        SerialStart {
            visible,
            total,
            display_index: self.displayed.saturating_sub(1),
            pending_before: self.pending.len(),
        }
    }

    /// Takes in what the attempts at a step came to.
    pub fn after_attempts(&mut self, attempts: Attempts)
        ensures
            *final(self) == (RunState {
                retry_budget: attempts.budget,
                pending: final(self).pending,
                ..*old(self)
            }),
            final(self).pending@ == old(self).pending@ + attempts.prepend@,
    {
        let mut prepend = attempts.prepend;
        self.retry_budget = attempts.budget;
        self.pending.append(&mut prepend);
    }

    /// Queues the steps that a step made. The result are the steps to hand to the
    /// scheduler: all that were queued since the step began, when there are more
    /// than one; [`RunState::handed_over`] takes the answer.
    pub fn queue_made(&mut self, made: Vec<Step>, pending_before: usize) -> (r: Vec<Step>)
        requires
            pending_before <= old(self).pending@.len(),
        ensures
            ({
                let queued = old(self).pending@ + made@;
                &&& r@ == taken_over(queued, pending_before as int)
                &&& final(self).pending@ == queued.take(queued.len() - r@.len())
                &&& final(self).dynamic_queued == plus(
                    old(self).dynamic_queued as int,
                    queued.len() - pending_before,
                )
                &&& *final(self) == (RunState {
                    pending: final(self).pending,
                    dynamic_queued: final(self).dynamic_queued,
                    ..*old(self)
                })
            }),
    {
        let mut made = made;
        self.pending.append(&mut made);
        let ghost queued = self.pending@;
        let count = self.pending.len() - pending_before;
        self.dynamic_queued = self.dynamic_queued.saturating_add(count);
        if count > 1 {
            let taken = self.pending.split_off(pending_before);
            assert(taken@ =~= queued.skip(pending_before as int));
            assert(self.pending@ =~= queued.take(pending_before as int));
            taken
        } else {
            assert(queued.take(queued.len() as int) =~= queued);
            Vec::new()
        }
    }

    /// Takes in whether the scheduler took the steps. If it did they are known as
    /// its own, and a run that went step by step goes on by dependencies; if it
    /// did not, they wait at the end of the queue.
    pub fn handed_over(&mut self, steps: Vec<Step>, taken: bool, may_start: bool)
        ensures
            ({
                let run = *old(self);
                let done = taken && (run.has_dag || may_start) && steps@.len() > 0;
                if done {
                    &&& text::views(final(self).injected@) == text::views(run.injected@) + ids(
                        steps@,
                    )
                    &&& *final(self) == (RunState {
                        injected: final(self).injected,
                        has_dag: true,
                        use_dag: run.use_dag || may_start,
                        ..run
                    })
                } else {
                    &&& final(self).pending@ == run.pending@ + steps@
                    &&& *final(self) == (RunState { pending: final(self).pending, ..run })
                }
            }),
    {
        let mut steps = steps;
        if !(taken && (self.has_dag || may_start) && steps.len() > 0) {
            self.pending.append(&mut steps);
            return ;
        }
        let mut i: usize = 0;
        let ghost known = text::views(self.injected@);
        assert(known + ids(steps@).take(0) =~= known);
        while i < steps.len()
            invariant
                i <= steps@.len(),
                *self == (RunState { injected: self.injected, ..*old(self) }),
                text::views(self.injected@) == known + ids(steps@).take(i as int),
            decreases steps@.len() - i,
        {
            let id = steps[i].id.clone();
            proof {
                text::views_push(self.injected@, id);
                assert(known + ids(steps@).take(i + 1) =~= (known + ids(steps@).take(
                    i as int,
                )).push(id@));
            }
            self.injected.push(id);
            i = i + 1;
        }
        assert(ids(steps@).take(steps@.len() as int) =~= ids(steps@));
        self.has_dag = true;
        if may_start {
            self.use_dag = true;
        }
    }

    /// Keeps what came of a step, in place of what was kept before.
    pub fn record_result(&mut self, result: StepResult)
        ensures
            final(self).results@ == with_result(old(self).results@, result),
            *final(self) == (RunState { results: final(self).results, ..*old(self) }),
    {
        let mut i: usize = 0;
        while i < self.results.len()
            invariant
                i <= self.results@.len(),
                *self == *old(self),
                result_from(self.results@, result.step_id@, 0) == result_from(
                    self.results@,
                    result.step_id@,
                    i as int,
                ),
            decreases self.results@.len() - i,
        {
            if text::eq(self.results[i].step_id.as_str(), result.step_id.as_str()) {
                self.results[i] = result;
                return ;
            }
            i = i + 1;
        }
        self.results.push(result);
    }

    /// Keeps a step for the trace, and counts the tier that worked on it.
    pub fn record_trace(&mut self, trace: StepTrace)
        ensures
            final(self).traces@ == old(self).traces@.push(trace),
            usage_view(final(self).tier_usage@) == counted(
                usage_view(old(self).tier_usage@),
                trace.tier_used@,
            ),
            *final(self) == (RunState {
                traces: final(self).traces,
                tier_usage: final(self).tier_usage,
                ..*old(self)
            }),
    {
        if !trace.tier_used.as_str().is_empty() {
            self.count_tier(trace.tier_used.as_str());
        }
        self.traces.push(trace);
    }

    fn count_tier(&mut self, tier: &str)
        requires
            tier@.len() > 0,
        ensures
            usage_view(final(self).tier_usage@) == counted(
                usage_view(old(self).tier_usage@),
                tier@,
            ),
            *final(self) == (RunState { tier_usage: final(self).tier_usage, ..*old(self) }),
    {
        let ghost before = usage_view(self.tier_usage@);
        let mut i: usize = 0;
        while i < self.tier_usage.len()
            invariant
                i <= self.tier_usage@.len(),
                *self == *old(self),
                before == usage_view(self.tier_usage@),
                tier@.len() > 0,
                tier_from(before, tier@, 0) == tier_from(before, tier@, i as int),
            decreases self.tier_usage@.len() - i,
        {
            if text::eq(self.tier_usage[i].0.as_str(), tier) {
                let used = self.tier_usage[i].1;
                let count = used.saturating_add(1);
                assert(before[i as int] == (tier@, used));
                assert(tier_from(before, tier@, 0) == Some(i as int));
                self.tier_usage[i] = (tier.to_owned(), count);
                assert(usage_view(self.tier_usage@) =~= before.update(i as int, (tier@, count)));
                return ;
            }
            i = i + 1;
        }
        self.tier_usage.push((tier.to_owned(), 1));
        assert(usage_view(self.tier_usage@) =~= before.push((tier@, 1u32)));
    }
}

/// Position of the result of a step, from `i` on.
pub open spec fn result_from(results: Seq<StepResult>, id: Seq<char>, i: int) -> Option<int>
    decreases results.len() - i,
{
    if i < 0 || i >= results.len() {
        None
    } else if results[i].step_id@ == id {
        Some(i)
    } else {
        result_from(results, id, i + 1)
    }
}

pub open spec fn with_result(results: Seq<StepResult>, result: StepResult) -> Seq<StepResult> {
    match result_from(results, result.step_id@, 0) {
        Some(i) => results.update(i, result),
        None => results.push(result),
    }
}

pub open spec fn usage_view(usage: Seq<(String, u32)>) -> Seq<(Seq<char>, u32)> {
    Seq::new(usage.len(), |i: int| (usage[i].0@, usage[i].1))
}

pub open spec fn tier_from(usage: Seq<(Seq<char>, u32)>, tier: Seq<char>, i: int) -> Option<int>
    decreases usage.len() - i,
{
    if i < 0 || i >= usage.len() {
        None
    } else if usage[i].0 == tier {
        Some(i)
    } else {
        tier_from(usage, tier, i + 1)
    }
}

/// The counts once a step of the tier is counted; a step without a tier is not.
pub open spec fn counted(usage: Seq<(Seq<char>, u32)>, tier: Seq<char>) -> Seq<(Seq<char>, u32)> {
    if tier.len() == 0 {
        usage
    } else {
        match tier_from(usage, tier, 0) {
            Some(i) => usage.update(
                i,
                (
                    tier,
                    if usage[i].1 == u32::MAX {
                        u32::MAX
                    } else {
                        (usage[i].1 + 1) as u32
                    },
                ),
            ),
            None => usage.push((tier, 1u32)),
        }
    }
}

/// Whether a step that succeeded is looked at for a question to the user. Steps
/// that were made by others are not, nor those that wait for an app.
pub fn is_analyzed(is_dynamic: bool, waits_for_app: bool) -> (r: bool)
    ensures
        r == (!is_dynamic && !waits_for_app),
{
    !is_dynamic && !waits_for_app
}

/// The question that a step leads to, and how the pause is stored: an app that
/// is waited for comes first.
pub fn question_after(app_wait: Option<Json>, analysis: Option<Json>) -> (r: Option<
    (Json, PausePersist),
>)
    ensures
        match (app_wait, analysis) {
            (Some(q), _) => r == Some((q, PausePersist::AwaitTappWait)),
            (None, Some(q)) => r == Some((q, PausePersist::Background)),
            (None, None) => r is None,
        },
{
    match (app_wait, analysis) {
        (Some(q), _) => Some((q, PausePersist::AwaitTappWait)),
        (None, Some(q)) => Some((q, PausePersist::Background)),
        (None, None) => None,
    }
}

/// The error of a run whose pause could not be stored.
pub const PAUSE_NOT_STORED: &'static str = "Failed to persist Tapp interaction wait state";

/// Where a run that pauses stands.
#[derive(Clone, Copy, Debug, PartialEq, Eq, Structural)]
pub enum PauseOutcome {
    /// The user is asked; the pause still has to be stored.
    AskAndStore,
    /// The user is asked; the pause is stored.
    Ask,
    /// The pause could not be stored: the run has failed, with
    /// [`PAUSE_NOT_STORED`].
    Failed,
}

/// What follows when a run pauses. `stored` says whether the pause was stored,
/// where that had to come first.
pub fn pause_for_input(persist: PausePersist, stored: bool) -> (r: PauseOutcome)
    ensures
        r == (match persist {
            PausePersist::Background => PauseOutcome::AskAndStore,
            PausePersist::AwaitTappWait => if stored {
                PauseOutcome::Ask
            } else {
                PauseOutcome::Failed
            },
        }),
{
    match persist {
        PausePersist::Background => PauseOutcome::AskAndStore,
        PausePersist::AwaitTappWait => {
            if stored {
                PauseOutcome::Ask
            } else {
                PauseOutcome::Failed
            }
        },
    }
}

// ---------------------------------------------------------------------------
// The end
// ---------------------------------------------------------------------------
/// How a run has ended.
pub enum Ending {
    Cancelled,
    /// Every step failed, with these errors.
    Failed(String),
    Completed,
}

pub open spec fn all_failed(results: Seq<StepResult>) -> bool {
    &&& results.len() > 0
    &&& forall|i: int| 0 <= i < results.len() ==> !(#[trigger] results[i]).success
}

pub open spec fn errors_of(results: Seq<StepResult>) -> Seq<Seq<char>>
    decreases results.len(),
{
    if results.len() == 0 {
        Seq::empty()
    } else {
        match results.last().error {
            Some(e) => errors_of(results.drop_last()).push(e@),
            None => errors_of(results.drop_last()),
        }
    }
}

impl RunState {
    /// How the run ends, once nothing is left to do. A cancellation that came in
    /// while the last step ran still counts.
    pub fn finish(&self, cancelled: bool) -> (r: Ending)
        ensures
            if cancelled {
                r is Cancelled
            } else if all_failed(self.results@) {
                r matches Ending::Failed(m) && m@ == text::joined(
                    errors_of(self.results@),
                    "; "@,
                )
            } else {
                r is Completed
            },
    {
        if cancelled {
            return Ending::Cancelled;
        }
        let mut errors: Vec<String> = Vec::new();
        let mut failed: bool = true;
        let mut i: usize = 0;
        assert(text::views(errors@) =~= Seq::empty());
        while i < self.results.len()
            invariant
                i <= self.results@.len(),
                failed == forall|k: int| 0 <= k < i ==> !(#[trigger] self.results@[k]).success,
                text::views(errors@) == errors_of(self.results@.take(i as int)),
            decreases self.results@.len() - i,
        {
            assert(self.results@.take(i + 1).drop_last() =~= self.results@.take(i as int));
            if self.results[i].success {
                failed = false;
                assert(self.results@[i as int].success);
            }
            if let Some(e) = &self.results[i].error {
                let e = e.clone();
                proof {
                    text::views_push(errors@, e);
                }
                errors.push(e);
            }
            i = i + 1;
        }
        assert(self.results@.take(self.results@.len() as int) =~= self.results@);
        if failed && self.results.len() > 0 {
            Ending::Failed(text::join(&errors, "; "))
        } else {
            Ending::Completed
        }
    }
}

// ---------------------------------------------------------------------------
// Laws
// ---------------------------------------------------------------------------
/// A run goes over its own steps only forward, whichever step it moves past.
pub proof fn a_run_only_moves_forward(steps: Seq<Step>, id: Seq<char>, step_index: int)
    requires
        0 <= step_index <= steps.len(),
    ensures
        step_index <= past(steps, id, step_index) <= steps.len(),
{
    step_from_is_inside(steps, id, 0);
}

proof fn step_from_is_inside(steps: Seq<Step>, id: Seq<char>, i: int)
    requires
        0 <= i,
    ensures
        step_from(steps, id, i) matches Some(k) ==> i <= k < steps.len() && steps[k].id@ == id,
    decreases steps.len() - i,
{
    if i < steps.len() && steps[i].id@ != id {
        step_from_is_inside(steps, id, i + 1);
    }
}

/// A run in which a step has just succeeded does not end as failed.
pub proof fn one_success_completes_a_run(results: Seq<StepResult>, result: StepResult)
    requires
        result.success,
    ensures
        !all_failed(with_result(results, result)),
{
    let after = with_result(results, result);
    result_from_is_inside(results, result.step_id@, 0);
    match result_from(results, result.step_id@, 0) {
        Some(i) => {
            assert(after[i].success);
        },
        None => {
            assert(after[results.len() as int].success);
        },
    }
}

proof fn result_from_is_inside(results: Seq<StepResult>, id: Seq<char>, i: int)
    requires
        0 <= i,
    ensures
        result_from(results, id, i) matches Some(k) ==> i <= k < results.len(),
    decreases results.len() - i,
{
    if i < results.len() && results[i].step_id@ != id {
        result_from_is_inside(results, id, i + 1);
    }
}

/// What a turn hands out: of the steps that wait the first, alone and as one that
/// others made; with none waiting, exactly the steps that are ready by their
/// dependencies, one alone and several at the same time; in a run without
/// dependencies, the step of the recipe at which the run stands. Only where there is
/// none of these the run is over.
pub proof fn a_turn_hands_out_what_is_next(run: RunState, ready: Seq<Step>, next: TurnView)
    requires
        next == chosen(run, ready),
    ensures
        run.pending@.len() > 0 ==> handed_out(next, run.steps@) == run.pending@.take(1)
            && (next matches TurnView::Serial(_, made) && made),
        run.pending@.len() == 0 && run.use_dag && run.has_dag && ready.len() > 0 ==> handed_out(
            next,
            run.steps@,
        ) == ready && (next is Serial <==> ready.len() == 1) && (next is Parallel <==> ready.len()
            > 1),
        run.pending@.len() == 0 && !run.use_dag && run.step_index < run.steps@.len()
            ==> handed_out(next, run.steps@) == run.steps@.subrange(
            run.step_index as int,
            run.step_index + 1,
        ),
        next is Finish ==> run.pending@.len() == 0 && (run.use_dag && run.has_dag ==> ready.len()
            == 0) && (!run.use_dag ==> run.step_index >= run.steps@.len()),
        next !is Cancel,
{
    if run.pending@.len() > 0 {
        assert(handed_out(next, run.steps@) =~= run.pending@.take(1));
    } else if run.use_dag {
        if run.has_dag && ready.len() == 1 {
            assert(handed_out(next, run.steps@) =~= ready);
        }
    } else if run.step_index < run.steps@.len() {
        assert(handed_out(next, run.steps@) =~= run.steps@.subrange(
            run.step_index as int,
            run.step_index + 1,
        ));
    }
}

/// A step that is ready alone counts as made by others exactly when the scheduler
/// took it over from the run.
pub proof fn only_steps_taken_over_are_dynamic(run: RunState, step: Step)
    requires
        run.pending@.len() == 0,
        run.use_dag,
        run.has_dag,
    ensures
        chosen(run, seq![step]) == TurnView::Serial(
            step,
            exists|i: int| 0 <= i < run.injected@.len() && #[trigger] run.injected@[i]@ == step.id@,
        ),
{
    let known = text::views(run.injected@);
    if known.contains(step.id@) {
        let i = choose|i: int| 0 <= i < known.len() && known[i] == step.id@;
        assert(run.injected@[i]@ == step.id@);
    }
    if exists|i: int| 0 <= i < run.injected@.len() && #[trigger] run.injected@[i]@ == step.id@ {
        let i = choose|i: int|
            0 <= i < run.injected@.len() && #[trigger] run.injected@[i]@ == step.id@;
        assert(known[i] == step.id@);
    }
}

/// Moving past a step leaves it behind, and skips nothing that comes after it.
pub proof fn moving_past_a_step_leaves_it_behind(
    steps: Seq<Step>,
    id: Seq<char>,
    step_index: int,
    k: int,
)
    requires
        0 <= k < steps.len(),
        steps[k].id@ == id,
        forall|j: int| 0 <= j < k ==> (#[trigger] steps[j]).id@ != id,
    ensures
        past(steps, id, step_index) > k,
        past(steps, id, step_index) == step_index || past(steps, id, step_index) == k + 1,
        step_index <= k ==> past(steps, id, step_index) == k + 1,
{
    step_from_finds(steps, id, 0, k);
}

proof fn step_from_finds(steps: Seq<Step>, id: Seq<char>, i: int, k: int)
    requires
        0 <= i <= k < steps.len(),
        steps[k].id@ == id,
        forall|j: int| i <= j < k ==> (#[trigger] steps[j]).id@ != id,
    ensures
        step_from(steps, id, i) == Some(k),
    decreases k - i,
{
    if i < k {
        assert(steps[i].id@ != id);
        step_from_finds(steps, id, i + 1, k);
    }
}

/// A step that is not of the recipe moves nothing.
pub proof fn foreign_steps_move_nothing(steps: Seq<Step>, id: Seq<char>, step_index: int)
    requires
        forall|j: int| 0 <= j < steps.len() ==> (#[trigger] steps[j]).id@ != id,
    ensures
        past(steps, id, step_index) == step_index,
{
    step_from_is_inside(steps, id, 0);
}

/// Of the steps that were queued since a step began, either all go to the scheduler,
/// where there are at least two, or all stay in the queue. None is lost, and none
/// that waited before is handed over.
pub proof fn new_steps_go_together(queued: Seq<Step>, before: int)
    requires
        0 <= before <= queued.len(),
    ensures
        ({
            let taken = taken_over(queued, before);
            let kept = queued.take(queued.len() - taken.len());
            &&& kept + taken == queued
            &&& queued.len() >= before + 2 ==> kept == queued.take(before)
            &&& queued.len() < before + 2 ==> kept == queued
        }),
{
    let taken = taken_over(queued, before);
    let kept = queued.take(queued.len() - taken.len());
    assert(kept + taken =~= queued);
    if queued.len() < before + 2 {
        assert(kept =~= queued);
    }
}

/// After a result is kept, it is the one of its step; the results of the other steps
/// are as they were, and no step has more results than before.
pub proof fn results_are_kept_per_step(results: Seq<StepResult>, result: StepResult)
    requires
        forall|i: int, j: int|
            0 <= i < j < results.len() ==> (#[trigger] results[i]).step_id@ != (
            #[trigger] results[j]).step_id@,
    ensures
        ({
            let after = with_result(results, result);
            &&& after.contains(result)
            &&& forall|i: int|
                0 <= i < results.len() && (#[trigger] results[i]).step_id@ != result.step_id@
                    ==> after.contains(results[i])
            &&& forall|i: int|
                0 <= i < after.len() ==> (#[trigger] after[i]) == result || (results.contains(
                    after[i],
                ) && after[i].step_id@ != result.step_id@)
            &&& forall|i: int, j: int|
                0 <= i < j < after.len() ==> (#[trigger] after[i]).step_id@ != (
                #[trigger] after[j]).step_id@
        }),
{
    let after = with_result(results, result);
    result_from_is_first(results, result.step_id@, 0);
    match result_from(results, result.step_id@, 0) {
        Some(k) => {
            assert(after[k] == result);
            assert forall|i: int|
                0 <= i < results.len() && (#[trigger] results[i]).step_id@
                    != result.step_id@ implies after.contains(results[i]) by {
                assert(after[i] == results[i]);
            }
        },
        None => {
            assert(after[results.len() as int] == result);
            assert forall|i: int|
                0 <= i < results.len() && (#[trigger] results[i]).step_id@
                    != result.step_id@ implies after.contains(results[i]) by {
                assert(after[i] == results[i]);
            }
        },
    }
}

proof fn result_from_is_first(results: Seq<StepResult>, id: Seq<char>, i: int)
    requires
        0 <= i,
    ensures
        result_from(results, id, i) matches Some(k) ==> i <= k < results.len()
            && results[k].step_id@ == id,
        result_from(results, id, i) is None ==> (forall|j: int|
            i <= j < results.len() ==> (#[trigger] results[j]).step_id@ != id),
    decreases results.len() - i,
{
    if i < results.len() && results[i].step_id@ != id {
        result_from_is_first(results, id, i + 1);
    }
}

/// How often a tier was counted.
pub open spec fn times_used(usage: Seq<(Seq<char>, u32)>, tier: Seq<char>) -> int {
    match tier_from(usage, tier, 0) {
        Some(i) => usage[i].1 as int,
        None => 0,
    }
}

/// Counting a step counts its tier once more, as far as the counter goes, and no
/// other tier. A step without a tier counts for none.
pub proof fn a_step_counts_for_its_tier(
    usage: Seq<(Seq<char>, u32)>,
    tier: Seq<char>,
    other: Seq<char>,
)
    ensures
        tier.len() > 0 && times_used(usage, tier) < u32::MAX ==> times_used(
            counted(usage, tier),
            tier,
        ) == times_used(usage, tier) + 1,
        other != tier || tier.len() == 0 ==> times_used(counted(usage, tier), other) == times_used(
            usage,
            other,
        ),
{
    let after = counted(usage, tier);
    if tier.len() > 0 {
        tier_from_is_first(usage, tier, 0);
        tier_from_is_first(usage, other, 0);
        match tier_from(usage, tier, 0) {
            Some(k) => {
                assert forall|j: int| 0 <= j < k implies (#[trigger] after[j]).0 != tier by {
                    assert(after[j] == usage[j]);
                }
                tier_from_finds(after, tier, 0, k);
            },
            None => {
                assert forall|j: int| 0 <= j < usage.len() implies (#[trigger] after[j]).0
                    != tier by {
                    assert(after[j] == usage[j]);
                }
                tier_from_finds(after, tier, 0, usage.len() as int);
            },
        }
        if other != tier {
            match tier_from(usage, other, 0) {
                Some(k) => {
                    assert(after[k] == usage[k]);
                    assert forall|j: int| 0 <= j < k implies (#[trigger] after[j]).0 != other by {
                        if after[j] != usage[j] {
                            assert(after[j].0 == tier);
                        }
                    }
                    tier_from_finds(after, other, 0, k);
                },
                None => {
                    tier_from_is_first(after, other, 0);
                    if let Some(k) = tier_from(after, other, 0) {
                        if k < usage.len() && after[k] == usage[k] {
                            assert(usage[k].0 != other);
                        }
                    }
                },
            }
        }
    }
}

proof fn tier_from_is_first(usage: Seq<(Seq<char>, u32)>, tier: Seq<char>, i: int)
    requires
        0 <= i,
    ensures
        tier_from(usage, tier, i) matches Some(k) ==> i <= k < usage.len() && usage[k].0 == tier
            && (forall|j: int| i <= j < k ==> (#[trigger] usage[j]).0 != tier),
        tier_from(usage, tier, i) is None ==> (forall|j: int|
            i <= j < usage.len() ==> (#[trigger] usage[j]).0 != tier),
    decreases usage.len() - i,
{
    if i < usage.len() && usage[i].0 != tier {
        tier_from_is_first(usage, tier, i + 1);
    }
}

proof fn tier_from_finds(usage: Seq<(Seq<char>, u32)>, tier: Seq<char>, i: int, k: int)
    requires
        0 <= i <= k < usage.len(),
        usage[k].0 == tier,
        forall|j: int| i <= j < k ==> (#[trigger] usage[j]).0 != tier,
    ensures
        tier_from(usage, tier, i) == Some(k),
    decreases k - i,
{
    if i < k {
        assert(usage[i].0 != tier);
        tier_from_finds(usage, tier, i + 1, k);
    }
}

/// A run fails only if it has results and every one of them is a failure; what its
/// steps said of their failures is told, each once and in order.
pub proof fn a_failed_run_tells_every_error(results: Seq<StepResult>, k: int)
    requires
        0 <= k < results.len(),
        results[k].error is Some,
    ensures
        ({
            let told = errors_of(results);
            let before = errors_of(results.take(k));
            &&& before.len() < told.len()
            &&& told.take(before.len() as int) == before
            &&& told[before.len() as int] == results[k].error->0@
        }),
        errors_of(results.take(k + 1)).len() == errors_of(results.take(k)).len() + 1,
    decreases results.len(),
{
    let last = results.drop_last();
    assert(results.take(k + 1).drop_last() =~= results.take(k));
    assert(results.take(k + 1).last() == results[k]);
    if k == results.len() - 1 {
        assert(results.take(k) =~= last);
        let before = errors_of(last);
        assert(errors_of(results).take(before.len() as int) =~= before);
    } else {
        a_failed_run_tells_every_error(last, k);
        assert(last.take(k) =~= results.take(k));
        let before = errors_of(results.take(k));
        let so_far = errors_of(last);
        let told = errors_of(results);
        assert(told.take(so_far.len() as int) =~= so_far);
        assert(told.take(before.len() as int) =~= so_far.take(before.len() as int));
        assert(told[before.len() as int] == so_far[before.len() as int]);
    }
}

/// As many errors are told as steps have one.
pub proof fn steps_without_an_error_tell_none(results: Seq<StepResult>, k: int)
    requires
        0 <= k < results.len(),
        results[k].error is None,
    ensures
        errors_of(results.take(k + 1)) == errors_of(results.take(k)),
{
    assert(results.take(k + 1).drop_last() =~= results.take(k));
    assert(results.take(k + 1).last() == results[k]);
}

/// A run goes on while a step of the recipe, one that waits, or one of the plan
/// is left, and ends when none is.
pub proof fn runs_go_on_while_something_is_left(run: RunState, remaining: bool)
    ensures
        run.step_index < run.steps@.len() ==> works(run, remaining),
        run.pending@.len() > 0 ==> works(run, remaining),
        run.has_dag && remaining ==> works(run, remaining),
        run.step_index >= run.steps@.len() && run.pending@.len() == 0 && !(run.has_dag && remaining)
            ==> !works(run, remaining),
{
}

/// The steps that are counted are those of the recipe and those that came up on
/// the way, without the hidden ones.
pub proof fn hidden_steps_are_not_counted(run: RunState)
    requires
        run.steps@.len() + run.dynamic_queued <= usize::MAX,
    ensures
        run.hidden <= run.steps@.len() + run.dynamic_queued ==> total_of(run) + run.hidden
            == run.steps@.len() + run.dynamic_queued,
        run.hidden > run.steps@.len() + run.dynamic_queued ==> total_of(run) == 0,
{
}

} // verus!
