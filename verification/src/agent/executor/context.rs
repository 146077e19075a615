//! What a run knows when it begins.
use crate::agent::permissions;
use crate::json;
use crate::json::{Fields, Json, JsonView};
use crate::text;
use vstd::prelude::*;

verus! {

/// How many characters of a memory the steps are told.
pub const MEMORY_CHARS: usize = 200;

pub struct ExecutionContext {
    pub variables: Fields,
    /// What each role is told about itself.
    pub role_contexts: Fields,
    pub memory_context: Option<String>,
    pub outputs: Fields,
    /// What a turn under personal autonomy may use at most.
    pub autonomy_permission_cap: Option<Vec<String>>,
}

pub open spec fn with_metadata(
    variables: Seq<(Seq<char>, JsonView)>,
    metadata: JsonView,
    key: Seq<char>,
    name: Seq<char>,
) -> Seq<(Seq<char>, JsonView)> {
    match metadata.get(key) {
        Some(v) => json::with_entry(variables, name, v),
        None => variables,
    }
}

/// The variables that a recipe brings along.
pub open spec fn first_variables(
    variables: Seq<(Seq<char>, JsonView)>,
    metadata: JsonView,
    task_id: Seq<char>,
) -> Seq<(Seq<char>, JsonView)> {
    let variables = json::with_entry(variables, "_task_id"@, json::text_json(task_id));
    let variables = with_metadata(variables, metadata, "current_route"@, "_current_route"@);
    let variables = with_metadata(variables, metadata, "music_status"@, "_music_status"@);
    with_metadata(variables, metadata, "window_state"@, "_window_state"@)
}

/// The texts among the entries, one after the other.
pub open spec fn with_texts(
    roles: Seq<(Seq<char>, JsonView)>,
    given: Seq<(Seq<char>, JsonView)>,
) -> Seq<(Seq<char>, JsonView)>
    decreases given.len(),
{
    if given.len() == 0 {
        roles
    } else {
        let before = with_texts(roles, given.drop_last());
        if given.last().1 is Str {
            json::with_entry(before, given.last().0, given.last().1)
        } else {
            before
        }
    }
}

/// The line for one memory.
pub open spec fn memory_line(content: Seq<char>) -> Seq<char> {
    if content.len() > MEMORY_CHARS {
        "- "@ + text::at_most(content, MEMORY_CHARS as nat) + "..."@
    } else {
        "- "@ + content
    }
}

pub open spec fn memory_lines(memories: Seq<Seq<char>>) -> Seq<Seq<char>> {
    memories.map_values(|m: Seq<char>| memory_line(m))
}

pub open spec fn remembered(memories: Seq<Seq<char>>) -> Option<Seq<char>> {
    if memories.len() == 0 {
        None
    } else {
        Some(text::joined(memory_lines(memories), "\n"@))
    }
}

fn put_metadata(variables: &mut Fields, metadata: &Json, key: &str, name: &str)
    ensures
        json::entries(final(variables)@) == with_metadata(
            json::entries(old(variables)@),
            metadata@,
            key@,
            name@,
        ),
{
    if let Some(v) = metadata.get(key) {
        json::set(variables, name, v.copy());
    }
}

fn put_texts(roles: &mut Fields, given: &Fields)
    ensures
        json::entries(final(roles)@) == with_texts(
            json::entries(old(roles)@),
            json::entries(given@),
        ),
{
    let ghost first = json::entries(roles@);
    let ghost all = json::entries(given@);
    let mut i: usize = 0;
    while i < given.len()
        invariant
            i <= given@.len(),
            all == json::entries(given@),
            json::entries(roles@) == with_texts(first, all.take(i as int)),
        decreases given@.len() - i,
    {
        assert(all.take(i + 1).drop_last() =~= all.take(i as int));
        if let Json::Str(s) = &given[i].1 {
            json::set(roles, given[i].0.as_str(), json::string(s.as_str()));
        }
        i = i + 1;
    }
    assert(all.take(all.len() as int) =~= all);
}

fn line_of(content: &str) -> (r: String)
    ensures
        r@ == memory_line(content@),
{
    let mut line = "- ".to_owned();
    let head = text::take_chars(content, MEMORY_CHARS);
    line.append(head.as_str());
    if text::char_count(content) > MEMORY_CHARS {
        line.append("...");
    }
    line
}

fn remember_lines(memories: &Vec<String>) -> (r: Option<String>)
    ensures
        text::opt_view(r) == remembered(text::views(memories@)),
{
    if memories.len() == 0 {
        return None;
    }
    let mut lines: Vec<String> = Vec::new();
    let mut i: usize = 0;
    while i < memories.len()
        invariant
            i <= memories@.len(),
            lines@.len() == i,
            forall|k: int| 0 <= k < i ==> #[trigger] lines@[k]@ == memory_line(memories@[k]@),
        decreases memories@.len() - i,
    {
        lines.push(line_of(memories[i].as_str()));
        i = i + 1;
    }
    assert(text::views(lines@) =~= memory_lines(text::views(memories@)));
    Some(text::join(&lines, "\n"))
}

/// What a run of a recipe knows at its beginning: the variables that the request
/// brought along, the roles, the memories that were recalled, the page that the
/// user is on and the cap of the recipe.
pub fn prepare_execution_context(
    context: ExecutionContext,
    task_id: &str,
    metadata: &Json,
    memories: &Vec<String>,
    page_context: &Option<Json>,
    autonomy_permission_cap: &Option<Vec<String>>,
) -> (r: ExecutionContext)
    ensures
        permissions::opt_views(r.autonomy_permission_cap) == permissions::opt_views(
            *autonomy_permission_cap,
        ),
        json::entries(r.variables@) == first_variables(
            json::entries(context.variables@),
            metadata@,
            task_id@,
        ),
        json::entries(r.role_contexts@) == (match metadata@.get("role_contexts"@) {
            Some(JsonView::Object(o)) => with_texts(json::entries(context.role_contexts@), o),
            _ => json::entries(context.role_contexts@),
        }),
        text::opt_view(r.memory_context) == (if memories@.len() == 0 {
            text::opt_view(context.memory_context)
        } else {
            remembered(text::views(memories@))
        }),
        json::entries(r.outputs@) == (match *page_context {
            Some(page) => json::with_entry(
                json::entries(context.outputs@),
                "__page_context__"@,
                page@,
            ),
            None => json::entries(context.outputs@),
        }),
{
    broadcast use json::group_json;

    let mut variables = context.variables;
    json::set(&mut variables, "_task_id", json::string(task_id));
    put_metadata(&mut variables, metadata, "current_route", "_current_route");
    put_metadata(&mut variables, metadata, "music_status", "_music_status");
    put_metadata(&mut variables, metadata, "window_state", "_window_state");
    let mut role_contexts = context.role_contexts;
    if let Some(Json::Object(roles)) = metadata.get("role_contexts") {
        assert(metadata@.get("role_contexts"@) == Some(JsonView::Object(json::entries(roles@))));
        put_texts(&mut role_contexts, roles);
    }
    let memory_context = match remember_lines(memories) {
        Some(lines) => Some(lines),
        None => context.memory_context,
    };
    let mut outputs = context.outputs;
    if let Some(page) = page_context {
        json::set(&mut outputs, "__page_context__", page.copy());
    }
    let autonomy_permission_cap = match autonomy_permission_cap {
        Some(cap) => Some(text::clone_list(cap)),
        None => None,
    };
    ExecutionContext { variables, role_contexts, memory_context, outputs, autonomy_permission_cap }
}

/// A run begins knowing its task and what the request said of the page, the
/// music and the windows; all else that was known stays.
pub proof fn a_run_begins_with_what_the_request_said(
    variables: Seq<(Seq<char>, JsonView)>,
    metadata: JsonView,
    task_id: Seq<char>,
    key: Seq<char>,
)
    ensures
        ({
            let known = first_variables(variables, metadata, task_id);
            &&& json::entry(known, "_task_id"@) == Some(JsonView::Str(task_id))
            &&& metadata.get("current_route"@) is Some ==> json::entry(known, "_current_route"@)
                == metadata.get("current_route"@)
            &&& metadata.get("music_status"@) is Some ==> json::entry(known, "_music_status"@)
                == metadata.get("music_status"@)
            &&& metadata.get("window_state"@) is Some ==> json::entry(known, "_window_state"@)
                == metadata.get("window_state"@)
            &&& key != "_task_id"@ && key != "_current_route"@ && key != "_music_status"@ && key
                != "_window_state"@ ==> json::entry(known, key) == json::entry(variables, key)
        }),
{
    reveal_strlit("_task_id");
    reveal_strlit("_current_route");
    reveal_strlit("_music_status");
    reveal_strlit("_window_state");
    assert("_task_id"@[1] == 't' && "_current_route"@[1] == 'c' && "_music_status"@[1] == 'm'
        && "_window_state"@[1] == 'w');
    let a = json::with_entry(variables, "_task_id"@, json::text_json(task_id));
    json::lookup_after_set(variables, "_task_id"@, json::text_json(task_id), key);
    let b = with_metadata(a, metadata, "current_route"@, "_current_route"@);
    metadata_is_put(a, metadata, "current_route"@, "_current_route"@, key);
    metadata_is_put(a, metadata, "current_route"@, "_current_route"@, "_task_id"@);
    let c = with_metadata(b, metadata, "music_status"@, "_music_status"@);
    metadata_is_put(b, metadata, "music_status"@, "_music_status"@, key);
    metadata_is_put(b, metadata, "music_status"@, "_music_status"@, "_task_id"@);
    metadata_is_put(b, metadata, "music_status"@, "_music_status"@, "_current_route"@);
    metadata_is_put(c, metadata, "window_state"@, "_window_state"@, key);
    metadata_is_put(c, metadata, "window_state"@, "_window_state"@, "_task_id"@);
    metadata_is_put(c, metadata, "window_state"@, "_window_state"@, "_current_route"@);
    metadata_is_put(c, metadata, "window_state"@, "_window_state"@, "_music_status"@);
}

proof fn metadata_is_put(
    variables: Seq<(Seq<char>, JsonView)>,
    metadata: JsonView,
    from: Seq<char>,
    name: Seq<char>,
    key: Seq<char>,
)
    ensures
        metadata.get(from) is Some ==> json::entry(
            with_metadata(variables, metadata, from, name),
            name,
        ) == metadata.get(from),
        key != name ==> json::entry(with_metadata(variables, metadata, from, name), key)
            == json::entry(variables, key),
{
    if let Some(v) = metadata.get(from) {
        json::lookup_after_set(variables, name, v, key);
    }
}

/// Texts that are given for roles are taken, over those that stood there;
/// whatever else is given for a role leaves it as it was.
pub proof fn texts_are_taken_for_roles(
    roles: Seq<(Seq<char>, JsonView)>,
    given: Seq<(Seq<char>, JsonView)>,
    role: Seq<char>,
)
    requires
        forall|i: int, j: int|
            0 <= i < j < given.len() ==> (#[trigger] given[i]).0 != (#[trigger] given[j]).0,
    ensures
        json::entry(with_texts(roles, given), role) == match json::entry(given, role) {
            Some(JsonView::Str(t)) => Some(JsonView::Str(t)),
            _ => json::entry(roles, role),
        },
    decreases given.len(),
{
    if given.len() > 0 {
        let last = given.last();
        let rest = given.drop_last();
        texts_are_taken_for_roles(roles, rest, role);
        json::lookup_after_set(with_texts(roles, rest), last.0, last.1, role);
        json::key_from_is_first(rest, last.0, 0);
        assert(json::entry(rest, last.0) is None) by {
            if let Some(k) = json::key_from(rest, last.0, 0) {
                assert(given[k] == rest[k]);
                assert(given[given.len() - 1] == last);
            }
        }
        assert(rest.push(last) =~= given);
        json::lookup_after_put(rest, last.0, last.1, role);
    }
}

/// Each memory is told on a line of its own, in the order in which they came,
/// the first two hundred characters of it.
pub proof fn each_memory_is_told(memories: Seq<Seq<char>>, i: int)
    requires
        0 <= i < memories.len(),
    ensures
        remembered(memories) == Some(text::joined(memory_lines(memories), "\n"@)),
        memory_lines(memories).len() == memories.len(),
        memories[i].len() <= 200 ==> memory_lines(memories)[i] == "- "@ + memories[i],
        memories[i].len() > 200 ==> memory_lines(memories)[i] == "- "@ + memories[i].take(200)
            + "..."@,
{
}

} // verus!
