//! Parameters and outputs of steps: references between steps, what the turn
//! itself fills in, and the declared output contract.
use crate::agent::capability;
use crate::agent::capability::CapabilityRef;
use crate::json;
use crate::json::{Fields, Json, JsonView};
use crate::text;
use vstd::prelude::*;

verus! {

// ---------------------------------------------------------------------------
// Output contracts
// ---------------------------------------------------------------------------
/// How an output departs from the schema that its capability declares.
pub struct ContractViolation {
    /// Whether the step fails on it. What is not fatal is a schema that has
    /// drifted from its handler.
    pub fatal: bool,
    pub message: String,
}

/// What an output contract makes of a step. Tools of outside servers are
/// checked elsewhere, against their own schemas.
pub fn apply_output_contract(capability_id: &str, violation: Option<ContractViolation>) -> (r:
    Result<(), String>)
    ensures
        match violation {
            Some(v) if v.fatal && !(capability::name_of(capability_id@) is Mcp) => r matches Err(m)
                && m@ == v.message@,
            _ => r is Ok,
        },
{
    if CapabilityRef::parse(capability_id).is_mcp() {
        return Ok(());
    }
    match violation {
        Some(v) => {
            if v.fatal {
                Err(v.message)
            } else {
                Ok(())
            }
        },
        None => Ok(()),
    }
}

// ---------------------------------------------------------------------------
// Envelopes
// ---------------------------------------------------------------------------
/// The result inside the envelope of a model task; anything else stands for
/// itself.
pub open spec fn inner(v: JsonView) -> JsonView {
    if v.text_at("format"@) is Some && v.get("contextProvenance"@) is Some && v.get(
        "value"@,
    ) is Some {
        v.get("value"@)->0
    } else {
        v
    }
}

pub fn task_inner_value(output: &Json) -> (r: &Json)
    ensures
        r@ == inner(output@),
{
    if output.str_at("format").is_some() && output.get("contextProvenance").is_some() {
        match output.get("value") {
            Some(v) => v,
            None => output,
        }
    } else {
        output
    }
}

// ---------------------------------------------------------------------------
// Paths
// ---------------------------------------------------------------------------
/// The item of an array at a position.
pub open spec fn item_at(v: JsonView, n: nat) -> Option<JsonView> {
    match v {
        JsonView::Array(a) => if n < a.len() {
            Some(a[n as int])
        } else {
            None
        },
        _ => None,
    }
}

/// One segment of a path: `field`, `field[3]` or `[3]`.
pub open spec fn step_into(v: JsonView, segment: Seq<char>) -> Option<JsonView> {
    match text::char_from(segment, '[', 0) {
        Some(p) => if segment.last() != ']' || p + 1 >= segment.len() - 1 {
            None
        } else {
            let within = if p == 0 {
                Some(v)
            } else {
                v.get(segment.take(p))
            };
            match (within, text::unsigned_of(segment.subrange(p + 1, segment.len() - 1))) {
                (Some(w), Some(n)) => item_at(w, n),
                _ => None,
            }
        },
        None => v.get(segment),
    }
}

/// What the segments from `i` on lead to.
pub open spec fn along(v: JsonView, segments: Seq<Seq<char>>, i: int) -> Option<JsonView>
    decreases segments.len() - i,
{
    if i < 0 || i >= segments.len() {
        Some(v)
    } else {
        match step_into(v, segments[i]) {
            Some(w) => along(w, segments, i + 1),
            None => None,
        }
    }
}

pub open spec fn lookup(v: JsonView, path: Seq<char>) -> Option<JsonView> {
    along(v, text::split_on(path, '.'), 0)
}

/// What a path leads to: first in the value as it is, then inside its envelope.
pub open spec fn value_at(v: JsonView, path: Seq<char>) -> Option<JsonView> {
    match lookup(v, path) {
        Some(w) => Some(w),
        None => lookup(inner(v), path),
    }
}

fn find_item<'a>(v: &'a Json, n: usize) -> (r: Option<&'a Json>)
    ensures
        json::opt_json_ref_view(r) == item_at(v@, n as nat),
{
    broadcast use json::group_json;

    match v {
        Json::Array(a) => {
            if n < a.len() {
                Some(&a[n])
            } else {
                None
            }
        },
        _ => None,
    }
}

proof fn arrays_are_indexed_by_usize(v: Json)
    ensures
        v@ matches JsonView::Array(a) ==> a.len() <= usize::MAX,
{
    broadcast use json::group_json;

    if let Json::Array(a) = v {
        assert(a@.len() == a.len());
    }
}

fn find_step<'a>(v: &'a Json, segment: &str) -> (r: Option<&'a Json>)
    ensures
        json::opt_json_ref_view(r) == step_into(v@, segment@),
{
    let s = text::chars_of(segment);
    match text::find_char(&s, '[') {
        Some(p) => {
            if s[s.len() - 1] != ']' || p + 1 >= s.len() - 1 {
                return None;
            }
            let within: &'a Json = if p == 0 {
                v
            } else {
                let name = text::string_of(&s, 0, p);
                assert(name@ =~= segment@.take(p as int));
                match v.get(name.as_str()) {
                    Some(w) => w,
                    None => return None,
                }
            };
            let number = text::string_of(&s, p + 1, s.len() - 1);
            proof {
                arrays_are_indexed_by_usize(*within);
            }
            match text::parse_usize(number.as_str()) {
                Some(n) => find_item(within, n),
                None => None,
            }
        },
        None => v.get(segment),
    }
}

fn lookup_path<'a>(value: &'a Json, path: &str) -> (r: Option<&'a Json>)
    ensures
        json::opt_json_ref_view(r) == lookup(value@, path@),
{
    let segments = text::split(path, '.');
    let ghost names = text::split_on(path@, '.');
    let mut current: &'a Json = value;
    let mut i: usize = 0;
    while i < segments.len()
        invariant
            i <= segments@.len(),
            names == text::views(segments@),
            lookup(value@, path@) == along(current@, names, i as int),
        decreases segments@.len() - i,
    {
        match find_step(current, segments[i].as_str()) {
            Some(next) => {
                current = next;
            },
            None => return None,
        }
        i = i + 1;
    }
    Some(current)
}

pub fn get_value_by_path(value: &Json, path: &str) -> (r: Option<Json>)
    ensures
        json::opt_json_view(r) == value_at(value@, path@),
{
    match lookup_path(value, path) {
        Some(v) => Some(v.copy()),
        None => match lookup_path(task_inner_value(value), path) {
            Some(v) => Some(v.copy()),
            None => None,
        },
    }
}

// ---------------------------------------------------------------------------
// References
// ---------------------------------------------------------------------------
/// The output of the last of the named steps that has one.
pub open spec fn last_output(
    ids: Seq<JsonView>,
    outputs: Seq<(Seq<char>, JsonView)>,
) -> Option<JsonView>
    decreases ids.len(),
{
    if ids.len() == 0 {
        None
    } else {
        match ids.last() {
            JsonView::Str(id) => match json::entry(outputs, id) {
                Some(v) => Some(v),
                None => last_output(ids.drop_last(), outputs),
            },
            _ => last_output(ids.drop_last(), outputs),
        }
    }
}

/// What the output of a step stands for. The output of a skill names its steps,
/// and the last of them that is done speaks for it.
pub open spec fn effective(
    output: JsonView,
    outputs: Seq<(Seq<char>, JsonView)>,
) -> JsonView {
    match output.array_at("__substep_ids"@) {
        Some(ids) => match last_output(ids, outputs) {
            Some(v) => v,
            None => output,
        },
        None => output,
    }
}

/// What a reference of the form `step` or `step.path` leads to.
pub open spec fn referred(
    reference: Seq<char>,
    outputs: Seq<(Seq<char>, JsonView)>,
) -> Option<JsonView> {
    match json::entry(outputs, text::before_char(reference, '.')) {
        Some(output) => match text::split_once_of(reference, '.') {
            Some(parts) => value_at(effective(output, outputs), parts.1),
            None => Some(effective(output, outputs)),
        },
        None => None,
    }
}

fn find_effective<'a>(output: &'a Json, outputs: &'a Fields) -> (r: &'a Json)
    ensures
        r@ == effective(output@, json::entries(outputs@)),
{
    broadcast use json::group_json;

    match output.get("__substep_ids") {
        Some(Json::Array(ids)) => {
            let mut last: &'a Json = output;
            let mut i: usize = 0;
            let ghost all = json::items(ids@);
            let ghost done = json::entries(outputs@);
            assert(output@.array_at("__substep_ids"@) == Some(all));
            while i < ids.len()
                invariant
                    i <= ids@.len(),
                    all == json::items(ids@),
                    done == json::entries(outputs@),
                    last@ == (match last_output(all.take(i as int), done) {
                        Some(v) => v,
                        None => output@,
                    }),
                decreases ids@.len() - i,
            {
                assert(all.take(i + 1).drop_last() =~= all.take(i as int));
                assert(all.take(i + 1).last() == ids@[i as int]@);
                if let Some(id) = ids[i].as_str() {
                    if let Some(sub) = json::field(outputs, id) {
                        last = sub;
                    }
                }
                i = i + 1;
            }
            assert(all.take(ids@.len() as int) =~= all);
            last
        },
        _ => output,
    }
}

pub fn resolve_path_reference(reference: &str, outputs: &Fields) -> (r: Option<Json>)
    ensures
        json::opt_json_view(r) == referred(reference@, json::entries(outputs@)),
{
    let step_id = text::head_before(reference, '.');
    match json::field(outputs, step_id.as_str()) {
        Some(output) => {
            let effective = find_effective(output, outputs);
            match text::split_once(reference, '.') {
                Some(parts) => get_value_by_path(effective, parts.1.as_str()),
                None => Some(effective.copy()),
            }
        },
        None => None,
    }
}

// ---------------------------------------------------------------------------
// Identifiers and texts in outputs
// ---------------------------------------------------------------------------
pub open spec fn either(a: Option<JsonView>, b: Option<JsonView>) -> Option<JsonView> {
    if a is Some {
        a
    } else {
        b
    }
}

/// The identifier under `key`: a text or a number.
pub open spec fn id_at(v: JsonView, key: Seq<char>) -> Option<JsonView> {
    match v.get(key) {
        Some(id) if id is Str || id is Number => Some(id),
        _ => None,
    }
}

/// The identifier of the first item of a list.
pub open spec fn id_in_list(v: JsonView, list: Seq<char>, key: Seq<char>) -> Option<JsonView> {
    match v.array_at(list) {
        Some(a) if a.len() > 0 => either(id_at(a[0], key), id_at(a[0], "id"@)),
        _ => None,
    }
}

/// The identifier that an output holds for a parameter: under the parameter's
/// own name, under `id`, or in the first item of one of the usual lists. Of an
/// array the first item counts.
pub open spec fn id_in(v: JsonView, key: Seq<char>) -> Option<JsonView>
    decreases v,
{
    match v {
        JsonView::Array(a) => if a.len() > 0 {
            id_in(a[0], key)
        } else {
            None
        },
        JsonView::Object(_) => either(
            id_at(v, key),
            either(
                id_at(v, "id"@),
                either(
                    id_in_list(v, "playlists"@, key),
                    either(
                        id_in_list(v, "results"@, key),
                        either(
                            id_in_list(v, "items"@, key),
                            either(
                                id_in_list(v, "list"@, key),
                                either(
                                    id_in_list(v, "songs"@, key),
                                    id_in_list(v, "data"@, key),
                                ),
                            ),
                        ),
                    ),
                ),
            ),
        ),
        _ => None,
    }
}

fn find_id(v: &Json, key: &str) -> (r: Option<Json>)
    ensures
        json::opt_json_view(r) == id_at(v@, key@),
{
    match v.get(key) {
        Some(Json::Str(s)) => Some(Json::Str(s.clone())),
        Some(Json::Number(n)) => Some(Json::Number(*n)),
        _ => None,
    }
}

fn find_id_in_list(v: &Json, list: &str, key: &str) -> (r: Option<Json>)
    ensures
        json::opt_json_view(r) == id_in_list(v@, list@, key@),
{
    broadcast use json::group_json;

    match v.get(list) {
        Some(Json::Array(a)) => {
            assert(v@.array_at(list@) == Some(json::items(a@)));
            if a.len() > 0 {
                match find_id(&a[0], key) {
                    Some(id) => Some(id),
                    None => find_id(&a[0], "id"),
                }
            } else {
                None
            }
        },
        _ => None,
    }
}

pub fn extract_id_from_output(output: &Json, param_key: &str) -> (r: Option<Json>)
    ensures
        json::opt_json_view(r) == id_in(output@, param_key@),
    decreases output,
{
    broadcast use json::group_json;

    match output {
        Json::Array(a) => {
            assert(output@ == JsonView::Array(json::items(a@)));
            if a.len() > 0 {
                assert(decreases_to!(*output => output->Array_0));
                assert(decreases_to!(a => a[0]));
                extract_id_from_output(&a[0], param_key)
            } else {
                None
            }
        },
        Json::Object(_) => {
            if let Some(id) = find_id(output, param_key) {
                return Some(id);
            }
            if let Some(id) = find_id(output, "id") {
                return Some(id);
            }
            if let Some(id) = find_id_in_list(output, "playlists", param_key) {
                return Some(id);
            }
            if let Some(id) = find_id_in_list(output, "results", param_key) {
                return Some(id);
            }
            if let Some(id) = find_id_in_list(output, "items", param_key) {
                return Some(id);
            }
            if let Some(id) = find_id_in_list(output, "list", param_key) {
                return Some(id);
            }
            if let Some(id) = find_id_in_list(output, "songs", param_key) {
                return Some(id);
            }
            find_id_in_list(output, "data", param_key)
        },
        _ => None,
    }
}

/// The text under `key`, unless it is empty.
pub open spec fn said_at(v: JsonView, key: Seq<char>) -> Seq<char> {
    match v.text_at(key) {
        Some(s) => s,
        None => Seq::empty(),
    }
}

/// The first of two texts that is not empty.
pub open spec fn first_said(a: Seq<char>, b: Seq<char>) -> Seq<char> {
    if a.len() > 0 {
        a
    } else {
        b
    }
}

/// The main text of an output; empty if it has none.
pub open spec fn said(output: JsonView) -> Seq<char> {
    let v = inner(output);
    match v {
        JsonView::Str(s) => s,
        JsonView::Object(_) => first_said(
            said_at(v, "analysis"@),
            first_said(
                said_at(v, "reply"@),
                first_said(
                    said_at(v, "aiSummary"@),
                    first_said(
                        said_at(v, "summary"@),
                        first_said(
                            said_at(v, "description"@),
                            first_said(
                                said_at(v, "message"@),
                                first_said(
                                    said_at(v, "content"@),
                                    said_at(v, "prompt"@),
                                ),
                            ),
                        ),
                    ),
                ),
            ),
        ),
        _ => Seq::empty(),
    }
}

fn find_said(v: &Json, key: &str) -> (r: String)
    ensures
        r@ == said_at(v@, key@),
{
    match v.str_at(key) {
        Some(s) => s.to_owned(),
        None => String::new(),
    }
}

fn or_said(a: String, v: &Json, key: &str) -> (r: String)
    ensures
        r@ == first_said(a@, said_at(v@, key@)),
{
    if a.as_str().is_empty() {
        find_said(v, key)
    } else {
        a
    }
}

pub fn extract_text_from_output(output: &Json) -> (r: String)
    ensures
        r@ == said(output@),
{
    broadcast use json::group_json;

    let v = task_inner_value(output);
    match v {
        Json::Str(s) => s.clone(),
        Json::Object(o) => {
            assert(v@ == JsonView::Object(json::entries(o@)));
            let a = find_said(v, "analysis");
            let a = or_said(a, v, "reply");
            let a = or_said(a, v, "aiSummary");
            let a = or_said(a, v, "summary");
            let a = or_said(a, v, "description");
            let a = or_said(a, v, "message");
            let a = or_said(a, v, "content");
            or_said(a, v, "prompt")
        },
        _ => String::new(),
    }
}

// ---------------------------------------------------------------------------
// Parameters
// ---------------------------------------------------------------------------
/// The name without the `From` at its end, however often it stands there.
pub open spec fn target_key(key: Seq<char>) -> Seq<char>
    decreases key.len(),
{
    if text::ends(key, "From"@) && "From"@.len() > 0 {
        target_key(key.take(key.len() - "From"@.len()))
    } else {
        key
    }
}

/// Parameters that take structured data whole.
pub open spec fn is_data_key(key: Seq<char>) -> bool {
    ||| key == "data"@
    ||| key == "content"@
    ||| key == "input"@
    ||| key == "context"@
    ||| key == "items"@
}

/// Parameters that take an identifier.
pub open spec fn is_id_key(key: Seq<char>) -> bool {
    ||| key == "id"@
    ||| text::ends(key, "Id"@)
    ||| text::ends(key, "ID"@)
    ||| text::ends(key, "_id"@)
}

/// What a parameter takes of the output that it refers to; `None` if it needs
/// an identifier and there is none.
pub open spec fn taken_value(key: Seq<char>, output: JsonView) -> Option<JsonView> {
    if output is Str || is_data_key(key) {
        Some(output)
    } else if is_id_key(key) && (output is Object || output is Array) {
        id_in(output, key)
    } else if output is Object && said(output).len() > 0 {
        Some(JsonView::Str(said(output)))
    } else {
        Some(output)
    }
}

/// The parameters worked out so far, and the references that led nowhere.
pub struct Resolution {
    pub params: Seq<(Seq<char>, JsonView)>,
    pub unresolved: Seq<Seq<char>>,
}

pub open spec fn resolve_one(
    acc: Resolution,
    key: Seq<char>,
    value: JsonView,
    outputs: Seq<(Seq<char>, JsonView)>,
) -> Resolution {
    if text::ends(key, "From"@) && value is Str {
        let target = target_key(key);
        let found = match referred(value->Str_0, outputs) {
            Some(output) => taken_value(target, output),
            None => None,
        };
        match found {
            Some(v) => Resolution { params: json::with_entry(acc.params, target, v), ..acc },
            None => Resolution {
                params: json::with_entry(acc.params, key, value),
                unresolved: acc.unresolved.push(key + ": "@ + value->Str_0),
            },
        }
    } else {
        Resolution { params: json::with_entry(acc.params, key, value), ..acc }
    }
}

/// The parameters of a step once its references are followed, taken in order.
pub open spec fn resolution(
    params: Seq<(Seq<char>, JsonView)>,
    outputs: Seq<(Seq<char>, JsonView)>,
) -> Resolution
    decreases params.len(),
{
    if params.len() == 0 {
        Resolution { params: Seq::empty(), unresolved: Seq::empty() }
    } else {
        resolve_one(
            resolution(params.drop_last(), outputs),
            params.last().0,
            params.last().1,
            outputs,
        )
    }
}

fn strip_from(key: &str) -> (r: String)
    ensures
        r@ == target_key(key@),
{
    proof {
        reveal_strlit("From");
    }
    let mut out: String = key.to_owned();
    loop
        invariant_except_break
            target_key(key@) == target_key(out@),
        invariant
            "From"@.len() == 4,
        ensures
            target_key(key@) == out@,
        decreases out@.len(),
    {
        match text::strip_suffix(out.as_str(), "From") {
            Some(shorter) => {
                out = shorter;
            },
            None => break ,
        }
    }
    out
}

fn takes_data(key: &str) -> (r: bool)
    ensures
        r == is_data_key(key@),
{
    text::eq(key, "data") || text::eq(key, "content") || text::eq(key, "input") || text::eq(
        key,
        "context",
    ) || text::eq(key, "items")
}

fn takes_id(key: &str) -> (r: bool)
    ensures
        r == is_id_key(key@),
{
    text::eq(key, "id") || text::ends_with(key, "Id") || text::ends_with(key, "ID")
        || text::ends_with(key, "_id")
}

fn take_value(key: &str, output: Json) -> (r: Option<Json>)
    ensures
        json::opt_json_view(r) == taken_value(key@, output@),
{
    let is_text = matches!(output, Json::Str(_));
    let is_object = matches!(output, Json::Object(_));
    let is_array = matches!(output, Json::Array(_));
    if is_text || takes_data(key) {
        Some(output)
    } else if takes_id(key) && (is_object || is_array) {
        extract_id_from_output(&output, key)
    } else if is_object {
        let said = extract_text_from_output(&output);
        if said.as_str().is_empty() {
            Some(output)
        } else {
            Some(Json::Str(said))
        }
    } else {
        Some(output)
    }
}

/// Follows the references among the parameters of a step. A reference that
/// leads nowhere stays as it is and is reported.
pub fn resolve_params(params: &Fields, previous_outputs: &Fields) -> (r: (Fields, Vec<String>))
    ensures
        json::entries(r.0@) == resolution(
            json::entries(params@),
            json::entries(previous_outputs@),
        ).params,
        text::views(r.1@) == resolution(
            json::entries(params@),
            json::entries(previous_outputs@),
        ).unresolved,
{
    let mut resolved: Fields = Vec::new();
    let mut unresolved: Vec<String> = Vec::new();
    let ghost given = json::entries(params@);
    let ghost outputs = json::entries(previous_outputs@);
    assert(json::entries(resolved@) =~= Seq::empty());
    assert(text::views(unresolved@) =~= Seq::empty());
    let mut i: usize = 0;
    while i < params.len()
        invariant
            i <= params@.len(),
            given == json::entries(params@),
            outputs == json::entries(previous_outputs@),
            json::entries(resolved@) == resolution(given.take(i as int), outputs).params,
            text::views(unresolved@) == resolution(given.take(i as int), outputs).unresolved,
        decreases params@.len() - i,
    {
        let key = params[i].0.as_str();
        let value = &params[i].1;
        proof {
            assert(given.take(i + 1).drop_last() =~= given.take(i as int));
            assert(given.take(i + 1).last() == (key@, value@));
        }
        let mut done = false;
        if text::ends_with(key, "From") {
            if let Json::Str(reference) = value {
                let target = strip_from(key);
                let found = match resolve_path_reference(reference.as_str(), previous_outputs) {
                    Some(output) => take_value(target.as_str(), output),
                    None => None,
                };
                match found {
                    Some(v) => {
                        json::set(&mut resolved, target.as_str(), v);
                        done = true;
                    },
                    None => {
                        let mut line = key.to_owned();
                        line.append(": ");
                        line.append(reference.as_str());
                        proof {
                            text::views_push(unresolved@, line);
                        }
                        unresolved.push(line);
                    },
                }
            }
        }
        if !done {
            json::set(&mut resolved, key, value.copy());
        }
        i = i + 1;
    }
    assert(given.take(given.len() as int) =~= given);
    (resolved, unresolved)
}

// ---------------------------------------------------------------------------
// What the turn fills in
// ---------------------------------------------------------------------------
/// What the browser told about itself when the turn began.
pub struct Snapshots {
    pub current_route: Option<Json>,
    pub page_context: Option<Json>,
    pub music_status: Option<Json>,
    pub window_state: Option<Json>,
}

pub open spec fn needs_path(capability_id: Seq<char>) -> bool {
    ||| capability_id == "router.state"@
    ||| capability_id == "page.content"@
    ||| capability_id == "page.understand"@
    ||| capability_id == "page.interact"@
}

/// A text with something in it.
pub open spec fn tells(v: Option<JsonView>) -> bool {
    match v {
        Some(JsonView::Str(s)) => !text::blank(s),
        _ => false,
    }
}

pub open spec fn filled_path(
    capability_id: Seq<char>,
    params: Seq<(Seq<char>, JsonView)>,
    route: Option<JsonView>,
) -> Seq<(Seq<char>, JsonView)> {
    if needs_path(capability_id) && !tells(json::entry(params, "currentPath"@)) && tells(route) {
        json::with_entry(params, "currentPath"@, route->0)
    } else {
        params
    }
}

pub open spec fn filled(
    params: Seq<(Seq<char>, JsonView)>,
    wanted: bool,
    key: Seq<char>,
    value: Option<JsonView>,
) -> Seq<(Seq<char>, JsonView)> {
    if wanted && json::entry(params, key) is None && value is Some {
        json::with_entry(params, key, value->0)
    } else {
        params
    }
}

/// The parameters once the turn has filled in what was left out.
pub open spec fn filled_in(
    capability_id: Seq<char>,
    params: Seq<(Seq<char>, JsonView)>,
    s: Snapshots,
) -> Seq<(Seq<char>, JsonView)> {
    let params = filled_path(capability_id, params, json::opt_json_view(s.current_route));
    let params = filled(
        params,
        capability_id == "page.content"@ || capability_id == "page.understand"@,
        "context"@,
        json::opt_json_view(s.page_context),
    );
    let params = filled(
        params,
        capability_id == "music.status"@,
        "status"@,
        json::opt_json_view(s.music_status),
    );
    filled(
        params,
        capability_id == "tapp.windows"@,
        "windowState"@,
        json::opt_json_view(s.window_state),
    )
}

fn does_tell(v: Option<&Json>) -> (r: bool)
    ensures
        r == tells(json::opt_json_ref_view(v)),
{
    match v {
        Some(Json::Str(s)) => !text::is_blank(s.as_str()),
        _ => false,
    }
}

fn fill(params: &mut Fields, wanted: bool, key: &str, value: &Option<Json>)
    ensures
        json::entries(final(params)@) == filled(
            json::entries(old(params)@),
            wanted,
            key@,
            json::opt_json_view(*value),
        ),
{
    if wanted && json::field(params, key).is_none() {
        if let Some(v) = value {
            json::set(params, key, v.copy());
        }
    }
}

pub fn inject_request_context_params(
    capability_id: &str,
    params: &mut Fields,
    snapshots: &Snapshots,
)
    ensures
        json::entries(final(params)@) == filled_in(
            capability_id@,
            json::entries(old(params)@),
            *snapshots,
        ),
{
    let page_reader = text::eq(capability_id, "page.content") || text::eq(
        capability_id,
        "page.understand",
    );
    let path_user = text::eq(capability_id, "router.state") || page_reader || text::eq(
        capability_id,
        "page.interact",
    );
    if path_user && !does_tell(json::field(params, "currentPath")) {
        if let Some(route) = &snapshots.current_route {
            if does_tell(Some(route)) {
                json::set(params, "currentPath", route.copy());
            }
        }
    }
    fill(params, page_reader, "context", &snapshots.page_context);
    fill(params, text::eq(capability_id, "music.status"), "status", &snapshots.music_status);
    fill(
        params,
        text::eq(capability_id, "tapp.windows"),
        "windowState",
        &snapshots.window_state,
    );
}

// ---------------------------------------------------------------------------
// Laws
// ---------------------------------------------------------------------------
/// What a step states itself is not written over: neither a path that says
/// something, nor any other parameter that is there.
pub proof fn stated_parameters_stay(
    capability_id: Seq<char>,
    params: Seq<(Seq<char>, JsonView)>,
    s: Snapshots,
    key: Seq<char>,
)
    requires
        json::entry(params, key) is Some,
        key == "currentPath"@ ==> tells(json::entry(params, key)),
    ensures
        json::entry(filled_in(capability_id, params, s), key) == json::entry(params, key),
{
    let route = json::opt_json_view(s.current_route);
    let p1 = filled_path(capability_id, params, route);
    if p1 != params {
        json::lookup_after_set(params, "currentPath"@, route->0, key);
    }
    let page = json::opt_json_view(s.page_context);
    let p2 = filled(
        p1,
        capability_id == "page.content"@ || capability_id == "page.understand"@,
        "context"@,
        page,
    );
    if p2 != p1 {
        json::lookup_after_set(p1, "context"@, page->0, key);
    }
    let music = json::opt_json_view(s.music_status);
    let p3 = filled(p2, capability_id == "music.status"@, "status"@, music);
    if p3 != p2 {
        json::lookup_after_set(p2, "status"@, music->0, key);
    }
    let windows = json::opt_json_view(s.window_state);
    let p4 = filled(p3, capability_id == "tapp.windows"@, "windowState"@, windows);
    if p4 != p3 {
        json::lookup_after_set(p3, "windowState"@, windows->0, key);
    }
}

/// A parameter that needs an identifier never gets a text in its place: what it
/// is given is a text or a number that stands in the output as an identifier.
pub proof fn identifiers_are_texts_or_numbers(v: JsonView, key: Seq<char>)
    ensures
        id_in(v, key) matches Some(id) ==> id is Str || id is Number,
    decreases v,
{
    if let JsonView::Array(a) = v {
        if a.len() > 0 {
            identifiers_are_texts_or_numbers(a[0], key);
        }
    }
}

// ---------------------------------------------------------------------------
// Laws of references
// ---------------------------------------------------------------------------
proof fn last_output_is_last(ids: Seq<JsonView>, outputs: Seq<(Seq<char>, JsonView)>, k: int)
    requires
        0 <= k < ids.len(),
        ids[k] is Str,
        json::entry(outputs, ids[k]->Str_0) is Some,
        forall|j: int|
            k < j < ids.len() ==> !((#[trigger] ids[j]) is Str && json::entry(
                outputs,
                ids[j]->Str_0,
            ) is Some),
    ensures
        last_output(ids, outputs) == json::entry(outputs, ids[k]->Str_0),
    decreases ids.len(),
{
    if k < ids.len() - 1 {
        assert(!(ids[ids.len() - 1] is Str && json::entry(
            outputs,
            ids[ids.len() - 1]->Str_0,
        ) is Some));
        last_output_is_last(ids.drop_last(), outputs, k);
    }
}

proof fn no_last_output(ids: Seq<JsonView>, outputs: Seq<(Seq<char>, JsonView)>)
    requires
        forall|j: int|
            0 <= j < ids.len() ==> !((#[trigger] ids[j]) is Str && json::entry(
                outputs,
                ids[j]->Str_0,
            ) is Some),
    ensures
        last_output(ids, outputs) is None,
    decreases ids.len(),
{
    if ids.len() > 0 {
        assert(!(ids[ids.len() - 1] is Str && json::entry(
            outputs,
            ids[ids.len() - 1]->Str_0,
        ) is Some));
        no_last_output(ids.drop_last(), outputs);
    }
}

/// A reference that is just the identifier of a step takes the whole output of the
/// step. Where the output names substeps, it takes that of the last of them that has
/// one, if any has.
pub proof fn whole_outputs_are_taken(
    id: Seq<char>,
    output: JsonView,
    outputs: Seq<(Seq<char>, JsonView)>,
    k: int,
)
    requires
        !text::has_char(id, '.'),
        json::entry(outputs, id) == Some(output),
    ensures
        referred(id, outputs) is Some,
        output.array_at("__substep_ids"@) is None ==> referred(id, outputs) == Some(output),
        output.array_at("__substep_ids"@) matches Some(ids) ==> (forall|j: int|
            0 <= j < ids.len() ==> !((#[trigger] ids[j]) is Str && json::entry(
                outputs,
                ids[j]->Str_0,
            ) is Some)) ==> referred(id, outputs) == Some(output),
        output.array_at("__substep_ids"@) matches Some(ids) ==> (0 <= k < ids.len() && ids[k] is Str
            && json::entry(outputs, ids[k]->Str_0) is Some && forall|j: int|
            k < j < ids.len() ==> !((#[trigger] ids[j]) is Str && json::entry(
                outputs,
                ids[j]->Str_0,
            ) is Some)) ==> referred(id, outputs) == json::entry(outputs, ids[k]->Str_0),
{
    text::texts_part_at_the_first_separator(id, '.', Seq::empty());
    if let Some(ids) = output.array_at("__substep_ids"@) {
        if forall|j: int|
            0 <= j < ids.len() ==> !((#[trigger] ids[j]) is Str && json::entry(
                outputs,
                ids[j]->Str_0,
            ) is Some) {
            no_last_output(ids, outputs);
        }
        if 0 <= k < ids.len() && ids[k] is Str && json::entry(outputs, ids[k]->Str_0) is Some && (
        forall|j: int|
            k < j < ids.len() ==> !((#[trigger] ids[j]) is Str && json::entry(
                outputs,
                ids[j]->Str_0,
            ) is Some)) {
            last_output_is_last(ids, outputs, k);
        }
    }
}

/// A reference with a path takes what the path leads to in what the reference
/// without it takes. Nothing is taken of a step without an output.
pub proof fn paths_lead_into_outputs(
    id: Seq<char>,
    path: Seq<char>,
    outputs: Seq<(Seq<char>, JsonView)>,
)
    requires
        !text::has_char(id, '.'),
    ensures
        referred(id + seq!['.'] + path, outputs) == (match referred(id, outputs) {
            Some(whole) => value_at(whole, path),
            None => None,
        }),
        referred(id, outputs) is Some <==> json::entry(outputs, id) is Some,
{
    text::texts_part_at_the_first_separator(id, '.', path);
}

proof fn the_rest_of_a_path(
    v: JsonView,
    first: Seq<char>,
    rest: Seq<Seq<char>>,
    i: int,
)
    requires
        0 <= i,
    ensures
        along(v, seq![first] + rest, i + 1) == along(v, rest, i),
    decreases rest.len() - i,
{
    let all = seq![first] + rest;
    if i < rest.len() {
        assert(all[i + 1] == rest[i]);
        if let Some(w) = step_into(v, rest[i]) {
            the_rest_of_a_path(w, first, rest, i + 1);
        }
    }
}

/// A path is followed segment by segment, from the left.
pub proof fn paths_go_segment_by_segment(v: JsonView, segment: Seq<char>, path: Seq<char>)
    requires
        !text::has_char(segment, '.'),
    ensures
        lookup(v, segment) == step_into(v, segment),
        lookup(v, segment + seq!['.'] + path) == (match step_into(v, segment) {
            Some(w) => lookup(w, path),
            None => None,
        }),
{
    text::texts_part_at_the_first_separator(segment, '.', path);
    let all = text::split_on(segment + seq!['.'] + path, '.');
    assert(all[0] == segment);
    if let Some(w) = step_into(v, segment) {
        the_rest_of_a_path(w, segment, text::split_on(path, '.'), 0);
        assert(along(w, seq![segment], 1) == Some(w));
    }
    assert(along(v, seq![segment], 0) == step_into(v, segment));
}

/// A segment is the name of a field; with an index behind it, the item of the array
/// there; an index alone is an item of the array itself.
pub proof fn segments_name_fields_and_items(v: JsonView, name: Seq<char>, n: nat)
    requires
        !text::has_char(name, '['),
    ensures
        step_into(v, name) == v.get(name),
        name.len() > 0 ==> step_into(v, name + seq!['['] + text::decimal(n as int) + seq![']'])
            == (match v.array_at(name) {
            Some(a) => if n < a.len() {
                Some(a[n as int])
            } else {
                None
            },
            None => None,
        }),
        step_into(v, seq!['['] + text::decimal(n as int) + seq![']']) == (match v {
            JsonView::Array(a) => if n < a.len() {
                Some(a[n as int])
            } else {
                None
            },
            _ => None,
        }),
{
    text::char_from_is_first(name, '[', 0);
    text::indices_read_back(n);
    let number = text::decimal(n as int);
    let indexed = name + seq!['['] + number + seq![']'];
    assert forall|j: int| 0 <= j < name.len() implies #[trigger] indexed[j] != '[' by {
        assert(indexed[j] == name[j]);
    }
    assert(indexed[name.len() as int] == '[');
    text::char_from_finds(indexed, '[', 0, name.len() as int);
    assert(indexed.subrange(name.len() + 1int, indexed.len() - 1) =~= number);
    assert(indexed.take(name.len() as int) =~= name);
    assert(indexed.last() == ']');
    let bare = seq!['['] + number + seq![']'];
    assert(bare[0] == '[');
    text::char_from_finds(bare, '[', 0, 0);
    assert(bare.subrange(1, bare.len() - 1) =~= number);
    assert(bare.last() == ']');
}

/// A path is looked up in an output as it is, and where it leads nowhere there, in
/// the value inside the envelope of a model task.
pub proof fn envelopes_are_looked_into(v: JsonView, path: Seq<char>)
    ensures
        lookup(v, path) is Some ==> value_at(v, path) == lookup(v, path),
        lookup(v, path) is None && v.text_at("format"@) is Some && v.get(
            "contextProvenance"@,
        ) is Some && v.get("value"@) is Some ==> value_at(v, path) == lookup(
            v.get("value"@)->0,
            path,
        ),
        lookup(v, path) is None && (v.text_at("format"@) is None || v.get(
            "contextProvenance"@,
        ) is None || v.get("value"@) is None) ==> value_at(v, path) is None,
{
}

/// What becomes of one reference, after the parameters before it. A text is taken as
/// it is, and so is anything by a parameter for data; a parameter for an identifier
/// takes one out of an object or a list; any other takes the main text of an object,
/// if it has one. A reference is reported only if it leads nowhere, or if an
/// identifier is needed and there is none: then it stays as it was.
pub proof fn references_are_followed(
    before: Seq<(Seq<char>, JsonView)>,
    name: Seq<char>,
    reference: Seq<char>,
    outputs: Seq<(Seq<char>, JsonView)>,
    other: Seq<char>,
)
    requires
        !text::ends(name, "From"@),
        other != name,
        other != name + "From"@,
    ensures
        ({
            let key = name + "From"@;
            let was = resolution(before, outputs);
            let now = resolution(before.push((key, JsonView::Str(reference))), outputs);
            let data = name == "data"@ || name == "content"@ || name == "input"@ || name
                == "context"@ || name == "items"@;
            let id = name == "id"@ || text::ends(name, "Id"@) || text::ends(name, "ID"@)
                || text::ends(name, "_id"@);
            let dropped = now.unresolved == was.unresolved.push(key + ": "@ + reference)
                && json::entry(now.params, key) == Some(JsonView::Str(reference));
            &&& json::entry(now.params, other) == json::entry(was.params, other)
            &&& referred(reference, outputs) is None ==> dropped
            &&& referred(reference, outputs) matches Some(output) ==> {
                &&& output is Str || data ==> now.unresolved == was.unresolved && json::entry(
                    now.params,
                    name,
                ) == Some(output)
                &&& !(output is Str || data) && id && (output is Object || output is Array) ==> (
                if id_in(output, name) is Some {
                    now.unresolved == was.unresolved && json::entry(now.params, name) == id_in(
                        output,
                        name,
                    )
                } else {
                    dropped
                })
                &&& !data && !id && output is Object && said(output).len() > 0 ==> now.unresolved
                    == was.unresolved && json::entry(now.params, name) == Some(
                    JsonView::Str(said(output)),
                )
                &&& !data && !id && output is Object && said(output).len() == 0 ==> now.unresolved
                    == was.unresolved && json::entry(now.params, name) == Some(output)
                &&& !(output is Object) && !(output is Array && id) ==> now.unresolved
                    == was.unresolved && json::entry(now.params, name) == Some(output)
            }
        }),
{
    let key = name + "From"@;
    let given = (key, JsonView::Str(reference));
    reveal_strlit("From");
    assert(before.push(given).drop_last() =~= before);
    assert(key.skip(key.len() - 4) =~= "From"@);
    assert(text::ends(key, "From"@));
    assert(key.take(key.len() - 4) =~= name);
    assert(target_key(name) == name);
    assert(target_key(key) == name);
    let was = resolution(before, outputs);
    json::lookup_after_set(was.params, key, JsonView::Str(reference), other);
    if let Some(output) = referred(reference, outputs) {
        if let Some(v) = taken_value(name, output) {
            json::lookup_after_set(was.params, name, v, other);
        }
    }
}

/// A parameter that is no reference is taken as it is given, and changes no other.
pub proof fn plain_parameters_are_taken(
    before: Seq<(Seq<char>, JsonView)>,
    key: Seq<char>,
    value: JsonView,
    outputs: Seq<(Seq<char>, JsonView)>,
    other: Seq<char>,
)
    requires
        !text::ends(key, "From"@) || value !is Str,
        other != key,
    ensures
        ({
            let was = resolution(before, outputs);
            let now = resolution(before.push((key, value)), outputs);
            &&& now.unresolved == was.unresolved
            &&& json::entry(now.params, key) == Some(value)
            &&& json::entry(now.params, other) == json::entry(was.params, other)
        }),
{
    assert(before.push((key, value)).drop_last() =~= before);
    json::lookup_after_set(resolution(before, outputs).params, key, value, other);
}

/// The lists in which the identifier of an output is looked for.
pub open spec fn id_lists() -> Seq<Seq<char>> {
    seq!["playlists"@, "results"@, "items"@, "list"@, "songs"@, "data"@]
}

/// The identifier of an object is the one under the parameter's own name; else the
/// one under `id`; else that of the first item of the first list with one. Of a list
/// it is that of the first item.
pub proof fn identifiers_are_looked_for_in_order(v: JsonView, key: Seq<char>, j: int)
    requires
        0 <= j < 6,
    ensures
        v is Object && id_at(v, key) is Some ==> id_in(v, key) == id_at(v, key),
        v is Object && id_at(v, key) is None && id_at(v, "id"@) is Some ==> id_in(v, key) == id_at(
            v,
            "id"@,
        ),
        v is Object && id_at(v, key) is None && id_at(v, "id"@) is None && id_in_list(
            v,
            id_lists()[j],
            key,
        ) is Some && (forall|i: int|
            0 <= i < j ==> id_in_list(v, #[trigger] id_lists()[i], key) is None) ==> id_in(v, key)
            == id_in_list(v, id_lists()[j], key),
        v is Object && id_in(v, key) is None ==> id_at(v, key) is None && id_at(v, "id"@) is None
            && id_in_list(v, id_lists()[j], key) is None,
        v matches JsonView::Array(a) ==> (a.len() > 0 ==> id_in(v, key) == id_in(a[0], key)) && (
        a.len() == 0 ==> id_in(v, key) is None),
{
    let all = id_lists();
    assert(all[0] == "playlists"@ && all[1] == "results"@ && all[2] == "items"@ && all[3]
        == "list"@ && all[4] == "songs"@ && all[5] == "data"@);
    if v is Object && id_at(v, key) is None && id_at(v, "id"@) is None && (forall|i: int|
        0 <= i < j ==> id_in_list(v, #[trigger] all[i], key) is None) {
        assert(j > 0 ==> id_in_list(v, all[0], key) is None);
        assert(j > 1 ==> id_in_list(v, all[1], key) is None);
        assert(j > 2 ==> id_in_list(v, all[2], key) is None);
        assert(j > 3 ==> id_in_list(v, all[3], key) is None);
        assert(j > 4 ==> id_in_list(v, all[4], key) is None);
    }
}

/// The identifier in a list is that of its first item: under the parameter's own
/// name, else under `id`. Only a text or a number is one.
pub proof fn the_first_item_is_identified(v: JsonView, list: Seq<char>, key: Seq<char>)
    ensures
        v.array_at(list) matches Some(a) ==> a.len() > 0 ==> id_in_list(v, list, key) == (
        if id_at(a[0], key) is Some {
            id_at(a[0], key)
        } else {
            id_at(a[0], "id"@)
        }),
        v.get(key) matches Some(id) ==> (id is Str || id is Number <==> id_at(v, key) == Some(id)),
        v.array_at(list) is None ==> id_in_list(v, list, key) is None,
{
}

/// The fields in which the main text of an output is looked for.
pub open spec fn text_fields() -> Seq<Seq<char>> {
    seq![
        "analysis"@,
        "reply"@,
        "aiSummary"@,
        "summary"@,
        "description"@,
        "message"@,
        "content"@,
        "prompt"@,
    ]
}

/// The main text of an output is a text itself, or the first of the usual fields that
/// holds a text with something in it.
pub proof fn the_main_text_is_the_first(output: JsonView, j: int)
    requires
        0 <= j < 8,
    ensures
        ({
            let v = inner(output);
            &&& v matches JsonView::Str(s) ==> said(output) == s
            &&& v is Object && (v.text_at(text_fields()[j]) matches Some(s) && s.len() > 0) && (
            forall|i: int|
                0 <= i < j ==> (v.text_at(#[trigger] text_fields()[i]) matches Some(s) ==> s.len()
                    == 0)) ==> Some(said(output)) == v.text_at(text_fields()[j])
            &&& v is Object && (v.text_at(text_fields()[j]) matches Some(s) && s.len() > 0)
                ==> said(output).len() > 0
            &&& v !is Str && v !is Object ==> said(output).len() == 0
        }),
{
    let v = inner(output);
    let all = text_fields();
    assert(all[0] == "analysis"@ && all[1] == "reply"@ && all[2] == "aiSummary"@ && all[3]
        == "summary"@ && all[4] == "description"@ && all[5] == "message"@ && all[6] == "content"@
        && all[7] == "prompt"@);
    if v is Object && (forall|i: int|
        0 <= i < j ==> (v.text_at(#[trigger] all[i]) matches Some(s) ==> s.len() == 0)) {
        assert(j > 0 ==> said_at(v, all[0]).len() == 0);
        assert(j > 1 ==> said_at(v, all[1]).len() == 0);
        assert(j > 2 ==> said_at(v, all[2]).len() == 0);
        assert(j > 3 ==> said_at(v, all[3]).len() == 0);
        assert(j > 4 ==> said_at(v, all[4]).len() == 0);
        assert(j > 5 ==> said_at(v, all[5]).len() == 0);
        assert(j > 6 ==> said_at(v, all[6]).len() == 0);
    }
}

/// What a step leaves out is filled in from what the browser told: the path for the
/// capabilities that look at pages, the page for those that read it, the player for
/// the status of music and the windows for that of windows.
pub proof fn left_out_parameters_are_filled(
    capability_id: Seq<char>,
    params: Seq<(Seq<char>, JsonView)>,
    s: Snapshots,
)
    ensures
        ({
            let now = filled_in(capability_id, params, s);
            let looks = capability_id == "router.state"@ || capability_id == "page.content"@
                || capability_id == "page.understand"@ || capability_id == "page.interact"@;
            &&& looks && tells(json::opt_json_view(s.current_route)) && !tells(
                json::entry(params, "currentPath"@),
            ) ==> json::entry(now, "currentPath"@) == json::opt_json_view(s.current_route)
            &&& (capability_id == "page.content"@ || capability_id == "page.understand"@)
                && s.page_context is Some && json::entry(params, "context"@) is None
                ==> json::entry(now, "context"@) == json::opt_json_view(s.page_context)
            &&& capability_id == "music.status"@ && s.music_status is Some && json::entry(
                params,
                "status"@,
            ) is None ==> json::entry(now, "status"@) == json::opt_json_view(s.music_status)
            &&& capability_id == "tapp.windows"@ && s.window_state is Some && json::entry(
                params,
                "windowState"@,
            ) is None ==> json::entry(now, "windowState"@) == json::opt_json_view(s.window_state)
            &&& !looks && capability_id != "music.status"@ && capability_id != "tapp.windows"@
                ==> now == params
        }),
{
    reveal_strlit("currentPath");
    reveal_strlit("context");
    reveal_strlit("status");
    reveal_strlit("windowState");
    assert("currentPath"@.len() == 11 && "context"@.len() == 7 && "status"@.len() == 6
        && "windowState"@.len() == 11);
    assert("currentPath"@[0] == 'c' && "windowState"@[0] == 'w');
    let route = json::opt_json_view(s.current_route);
    let page = json::opt_json_view(s.page_context);
    let music = json::opt_json_view(s.music_status);
    let windows = json::opt_json_view(s.window_state);
    let reads = capability_id == "page.content"@ || capability_id == "page.understand"@;
    let p1 = filled_path(capability_id, params, route);
    let p2 = filled(p1, reads, "context"@, page);
    let p3 = filled(p2, capability_id == "music.status"@, "status"@, music);
    if p1 != params {
        json::lookup_after_set(params, "currentPath"@, route->0, "context"@);
        json::lookup_after_set(params, "currentPath"@, route->0, "status"@);
        json::lookup_after_set(params, "currentPath"@, route->0, "windowState"@);
    }
    if page is Some {
        json::lookup_after_set(p1, "context"@, page->0, "currentPath"@);
        json::lookup_after_set(p1, "context"@, page->0, "status"@);
        json::lookup_after_set(p1, "context"@, page->0, "windowState"@);
    }
    if music is Some {
        json::lookup_after_set(p2, "status"@, music->0, "currentPath"@);
        json::lookup_after_set(p2, "status"@, music->0, "context"@);
        json::lookup_after_set(p2, "status"@, music->0, "windowState"@);
    }
    if windows is Some {
        json::lookup_after_set(p3, "windowState"@, windows->0, "currentPath"@);
        json::lookup_after_set(p3, "windowState"@, windows->0, "context"@);
        json::lookup_after_set(p3, "windowState"@, windows->0, "status"@);
    }
    if needs_path(capability_id) && !tells(json::entry(params, "currentPath"@)) && tells(route) {
        json::lookup_after_set(params, "currentPath"@, route->0, "context"@);
    }
}

} // verus!
