//! Turns of a conversation with the agent.
use crate::json;
use crate::json::Json;
use crate::text;
use vstd::prelude::*;

verus! {

/// How many tokens are reserved for a turn before it runs. What a turn costs is
/// known only after it.
pub const AGENT_TURN_TOKEN_ESTIMATE: usize = 10_000;

/// What a reservation is for.
#[derive(Clone, Copy, Debug, PartialEq, Eq, Structural)]
pub enum AgentTurnKind {
    /// A turn that the user begins.
    Fresh,
    /// A turn that goes on where the last one waited for the user.
    Continuation,
}

pub struct ReserveOptions {
    pub skip_cooldown: bool,
}

impl AgentTurnKind {
    /// The cooldown keeps new turns apart. A continuation answers the agent's own
    /// question and does not wait for it.
    pub fn reserve_options(self) -> (r: ReserveOptions)
        ensures
            r.skip_cooldown == (self is Continuation),
    {
        ReserveOptions { skip_cooldown: matches!(self, AgentTurnKind::Continuation) }
    }
}

/// How a turn talks.
#[derive(Clone, Copy, Debug, PartialEq, Eq, Structural)]
pub enum InteractionMode {
    Chat,
    Work,
}

/// What a turn is handed to.
#[derive(Clone, Copy, Debug, PartialEq, Eq, Structural)]
pub enum TurnPath {
    /// Conversation: no tools and no recipe, whatever the words ask for.
    Chat,
    Work,
}

/// Conversation is told apart before anything plans work; without a mode a turn
/// is work.
pub fn turn_path(mode: Option<InteractionMode>) -> (r: TurnPath)
    ensures
        r == (if mode == Some(InteractionMode::Chat) {
            TurnPath::Chat
        } else {
            TurnPath::Work
        }),
{
    match mode {
        Some(InteractionMode::Chat) => TurnPath::Chat,
        _ => TurnPath::Work,
    }
}

pub open spec fn task_id_of(
    run_id: Option<Seq<char>>,
    session_id: Option<Seq<char>>,
    timestamp_ms: int,
) -> Seq<char> {
    match (run_id, session_id) {
        (Some(run), _) => run,
        (None, Some(session)) => session,
        (None, None) => "turn_"@ + text::decimal(timestamp_ms),
    }
}

/// The identifier of a turn in the books: that of the run, else that of the
/// session, else one by the time of the request.
pub fn turn_task_id(
    run_id: &Option<String>,
    session_id: &Option<String>,
    timestamp_ms: i64,
) -> (r: String)
    ensures
        r@ == task_id_of(
            text::opt_view(*run_id),
            text::opt_view(*session_id),
            timestamp_ms as int,
        ),
{
    match (run_id, session_id) {
        (Some(run), _) => run.clone(),
        (None, Some(session)) => session.clone(),
        (None, None) => {
            let mut out = "turn_".to_owned();
            let n = text::i64_text(timestamp_ms);
            out.append(n.as_str());
            out
        },
    }
}

/// The identifier of the run of a preset.
pub fn preset_task_id(preset_id: i32, timestamp_ms: i64) -> (r: String)
    ensures
        r@ == "preset_"@ + text::decimal(preset_id as int) + "_"@ + text::decimal(
            timestamp_ms as int,
        ),
{
    let mut out = "preset_".to_owned();
    let preset = text::i64_text(preset_id as i64);
    out.append(preset.as_str());
    out.append("_");
    let time = text::i64_text(timestamp_ms);
    out.append(time.as_str());
    out
}

/// An answer without work: the message and the data that goes with it.
pub struct Answer {
    pub message: String,
    pub data: Json,
}

/// The answer to work that is refused out of mood; `None` when there is no
/// refusal.
pub fn mood_refuse_response(message: Option<String>) -> (r: Option<Answer>)
    ensures
        match message {
            Some(m) => {
                &&& r matches Some(a)
                &&& a.message == m
                &&& a.data@ == json::empty().with("type"@, json::text_json("mood_refuse"@))
            },
            None => r is None,
        },
{
    match message {
        Some(message) => Some(
            Answer {
                message,
                data: json::object().with("type", json::string("mood_refuse")),
            },
        ),
        None => None,
    }
}

// ---------------------------------------------------------------------------
// Going on with a task
// ---------------------------------------------------------------------------
/// What is known of a task that is to go on.
pub struct WaitingTask {
    pub waits_for_input: bool,
    /// Whether the task's recipe is one of the current engine; `None` when there
    /// is no recipe.
    pub recipe_is_current: Option<bool>,
}

pub open spec fn resume_refusal(task: Option<WaitingTask>) -> Option<Seq<char>> {
    match task {
        None => Some("Task not found or access denied"@),
        Some(t) => if !t.waits_for_input {
            Some("Task is not waiting for input"@)
        } else {
            match t.recipe_is_current {
                None => Some(
                    "Recipe not available for resume (task may have been loaded from DB after restart)"@,
                ),
                Some(false) => Some(
                    "This"@ + " task was started by a retired engine and cannot resume."@
                        + " Please send the request again."@,
                ),
                Some(true) => None,
            }
        },
    }
}

/// Whether a task can go on. This comes before anything is reserved for it.
pub fn check_resumable_work(task: Option<WaitingTask>) -> (r: Result<(), String>)
    ensures
        match resume_refusal(task) {
            Some(e) => r matches Err(m) && m@ == e,
            None => r is Ok,
        },
{
    let task = match task {
        Some(task) => task,
        None => return Err("Task not found or access denied".to_owned()),
    };
    if !task.waits_for_input {
        return Err("Task is not waiting for input".to_owned());
    }
    match task.recipe_is_current {
        None => Err(
            "Recipe not available for resume (task may have been loaded from DB after restart)".to_owned(),
        ),
        Some(false) => {
            let mut out = "This".to_owned();
            out.append(" task was started by a retired engine and cannot resume.");
            out.append(" Please send the request again.");
            Err(out)
        },
        Some(true) => Ok(()),
    }
}

/// A task is taken up again exactly where it is there, waits for an answer, and
/// its recipe is still the one it was begun with.
pub proof fn only_waiting_tasks_are_taken_up(task: Option<WaitingTask>)
    ensures
        resume_refusal(task) is None <==> (task matches Some(t) && t.waits_for_input
            && t.recipe_is_current == Some(true)),
{
}

/// A turn goes by its run, or by its session where it has none; one that has
/// neither goes by when it was.
pub proof fn turns_go_by_their_run(run: Seq<char>, session: Option<Seq<char>>, at: int, later: int)
    requires
        at != later,
    ensures
        task_id_of(Some(run), session, at) == run,
        session matches Some(s) ==> task_id_of(None, session, at) == s,
        task_id_of(None, None, at) != task_id_of(None, None, later),
{
    reveal_strlit("turn_");
    let a = task_id_of(None, None, at);
    let b = task_id_of(None, None, later);
    if a == b {
        assert(a.skip(5) =~= text::decimal(at));
        assert(b.skip(5) =~= text::decimal(later));
        text::decimal_reads_back(at);
        text::decimal_reads_back(later);
    }
}

} // verus!
