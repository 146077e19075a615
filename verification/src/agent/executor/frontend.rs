//! Actions that the output of a step asks of the browser.
use crate::json;
use crate::json::{Json, JsonView};
use vstd::prelude::*;

verus! {

/// Whether a value is an action: an object with a type that says something.
pub open spec fn is_action(v: JsonView) -> bool {
    &&& v is Object
    &&& v.text_at("type"@) matches Some(kind)
    &&& kind.len() > 0
}

fn typed_frontend_action(value: &Json) -> (r: Option<Json>)
    ensures
        json::opt_json_view(r) == (if is_action(value@) {
            Some(value@)
        } else {
            None
        }),
{
    match value {
        Json::Object(_) => match value.str_at("type") {
            Some(kind) => {
                if kind.is_empty() {
                    None
                } else {
                    Some(value.copy())
                }
            },
            None => None,
        },
        _ => None,
    }
}

/// The actions of a list, in their order.
pub open spec fn actions_among(list: Seq<JsonView>) -> Seq<JsonView> {
    list.filter(|v: JsonView| is_action(v))
}

/// The actions that one output asks for: those of its list if it has one, else
/// its single action.
pub open spec fn actions_of(output: JsonView) -> Seq<JsonView> {
    match output.array_at("frontendActions"@) {
        Some(list) => actions_among(list),
        None => match (output.get("frontendAction"@), output.get("action"@)) {
            (Some(a), _) if is_action(a) => seq![a],
            (_, Some(b)) if is_action(b) => seq![b],
            _ => Seq::empty(),
        },
    }
}

/// The actions that the outputs ask for, one output after the other.
pub open spec fn actions_of_all(outputs: Seq<JsonView>) -> Seq<JsonView>
    decreases outputs.len(),
{
    if outputs.len() == 0 {
        Seq::empty()
    } else {
        actions_of_all(outputs.drop_last()) + actions_of(outputs.last())
    }
}

pub open spec fn ref_views(outputs: Seq<&Json>) -> Seq<JsonView> {
    Seq::new(outputs.len(), |i: int| outputs[i]@)
}

fn collect_from(output: &Json, actions: &mut Vec<Json>)
    ensures
        json::items(final(actions)@) == json::items(old(actions)@) + actions_of(output@),
{
    broadcast use json::group_json;

    let ghost before = json::items(actions@);
    if let Some(Json::Array(list)) = output.get("frontendActions") {
        let ghost all = json::items(list@);
        assert(output@.array_at("frontendActions"@) == Some(all));
        proof {
            reveal(Seq::filter);
            assert(actions_among(all.take(0)) =~= Seq::empty());
            assert(before + Seq::<JsonView>::empty() =~= before);
        }
        let mut i: usize = 0;
        while i < list.len()
            invariant
                i <= list@.len(),
                all == json::items(list@),
                json::items(actions@) == before + actions_among(all.take(i as int)),
            decreases list@.len() - i,
        {
            let ghost so_far = actions@;
            proof {
                reveal(Seq::filter);
                assert(all.take(i + 1).drop_last() =~= all.take(i as int));
                assert(all.take(i + 1).last() == list@[i as int]@);
            }
            if let Some(action) = typed_frontend_action(&list[i]) {
                proof {
                    json::items_push(so_far, action);
                }
                actions.push(action);
                assert(json::items(actions@) =~= before + actions_among(all.take(i + 1)));
            }
            i = i + 1;
        }
        assert(all.take(all.len() as int) =~= all);
        return ;
    }
    assert(output@.array_at("frontendActions"@) is None);
    let single = match output.get("frontendAction") {
        Some(a) => typed_frontend_action(a),
        None => None,
    };
    match single {
        Some(a) => {
            proof {
                json::items_push(actions@, a);
            }
            actions.push(a);
            assert(json::items(actions@) =~= before + actions_of(output@));
        },
        None => {
            if let Some(b) = output.get("action") {
                if let Some(b) = typed_frontend_action(b) {
                    proof {
                        json::items_push(actions@, b);
                    }
                    actions.push(b);
                    assert(json::items(actions@) =~= before + actions_of(output@));
                    return ;
                }
            }
            assert(json::items(actions@) =~= before + actions_of(output@));
        },
    }
}

/// Collects the actions that the outputs of steps ask for.
pub fn collect_step_frontend_actions(outputs: &Vec<&Json>) -> (r: Vec<Json>)
    ensures
        json::items(r@) == actions_of_all(ref_views(outputs@)),
{
    let mut actions: Vec<Json> = Vec::new();
    let ghost all = ref_views(outputs@);
    assert(json::items(actions@) =~= Seq::empty());
    let mut i: usize = 0;
    while i < outputs.len()
        invariant
            i <= outputs@.len(),
            all == ref_views(outputs@),
            json::items(actions@) == actions_of_all(all.take(i as int)),
        decreases outputs@.len() - i,
    {
        assert(all.take(i + 1).drop_last() =~= all.take(i as int));
        collect_from(outputs[i], &mut actions);
        i = i + 1;
    }
    assert(all.take(all.len() as int) =~= all);
    actions
}

/// Whether the value says of what type it is.
pub open spec fn is_typed(v: JsonView) -> bool {
    v.text_at("type"@) is Some
}

/// The action of a final result. A `frontendAction` that is there decides, even
/// when it is null; an `action` takes the criteria of the result with it.
pub open spec fn final_action(result: JsonView) -> Option<JsonView> {
    match result.get("frontendAction"@) {
        Some(action) => if is_typed(action) {
            Some(action)
        } else {
            None
        },
        None => match result.get("action"@) {
            Some(JsonView::Object(o)) if is_typed(JsonView::Object(o)) => if json::entry(
                o,
                "criteria"@,
            ) is None && result.get("criteria"@) is Some {
                Some(
                    JsonView::Object(
                        json::with_entry(o, "criteria"@, result.get("criteria"@)->0),
                    ),
                )
            } else {
                Some(JsonView::Object(o))
            },
            _ => match result.array_at("frontendActions"@) {
                Some(list) if list.len() > 0 && is_typed(list[0]) => Some(list[0]),
                _ => None,
            },
        },
    }
}

pub fn extract_frontend_action_from_result(result: &Json) -> (r: Option<Json>)
    ensures
        json::opt_json_view(r) == final_action(result@),
{
    broadcast use json::group_json;

    if let Some(action) = result.get("frontendAction") {
        return if action.str_at("type").is_some() {
            Some(action.copy())
        } else {
            None
        };
    }
    if let Some(action) = result.get("action") {
        if action.str_at("type").is_some() {
            if let Json::Object(o) = action {
                assert(action@ == JsonView::Object(json::entries(o@)));
                if json::field(o, "criteria").is_none() {
                    if let Some(criteria) = result.get("criteria") {
                        return Some(json::with_field(o, "criteria", criteria.copy()));
                    }
                }
                return Some(action.copy());
            }
        }
    }
    if let Some(Json::Array(list)) = result.get("frontendActions") {
        assert(result@.array_at("frontendActions"@) == Some(json::items(list@)));
        if list.len() > 0 && list[0].str_at("type").is_some() {
            return Some(list[0].copy());
        }
    }
    None
}

/// Everything that is collected says of what type it is.
pub proof fn collected_actions_are_typed(outputs: Seq<JsonView>)
    ensures
        forall|i: int|
            0 <= i < actions_of_all(outputs).len() ==> is_action(
                #[trigger] actions_of_all(outputs)[i],
            ),
    decreases outputs.len(),
{
    if outputs.len() > 0 {
        collected_actions_are_typed(outputs.drop_last());
        let own = actions_of(outputs.last());
        if let Some(list) = outputs.last().array_at("frontendActions"@) {
            only_actions(list);
        }
        let before = actions_of_all(outputs.drop_last());
        assert forall|i: int| 0 <= i < actions_of_all(outputs).len() implies is_action(
            #[trigger] actions_of_all(outputs)[i],
        ) by {
            if i < before.len() {
                assert(actions_of_all(outputs)[i] == before[i]);
            } else {
                assert(actions_of_all(outputs)[i] == own[i - before.len()]);
            }
        }
    }
}

proof fn only_actions(list: Seq<JsonView>)
    ensures
        forall|i: int|
            0 <= i < actions_among(list).len() ==> is_action(#[trigger] actions_among(list)[i]),
    decreases list.len(),
{
    reveal(Seq::filter);
    if list.len() > 0 {
        only_actions(list.drop_last());
    }
}

proof fn actions_stay(list: Seq<JsonView>)
    requires
        forall|i: int| 0 <= i < list.len() ==> is_action(#[trigger] list[i]),
    ensures
        actions_among(list) == list,
    decreases list.len(),
{
    reveal(Seq::filter);
    if list.len() > 0 {
        actions_stay(list.drop_last());
        assert(list.drop_last().push(list.last()) =~= list);
    }
}

/// Where an output lists actions, they are its actions, all of them and in their
/// order. Where it names one, that one is.
pub proof fn actions_are_those_that_are_named(output: JsonView, list: Seq<JsonView>, one: JsonView)
    requires
        forall|i: int|
            0 <= i < list.len() ==> (#[trigger] list[i]) is Object && (list[i].text_at("type"@) matches Some(
            kind) && kind.len() > 0),
        one is Object,
        one.text_at("type"@) matches Some(kind) && kind.len() > 0,
    ensures
        output.get("frontendActions"@) == Some(JsonView::Array(list)) ==> actions_of(output) == list,
        output.get("frontendActions"@) is None && output.get("frontendAction"@) == Some(one)
            ==> actions_of(output) == seq![one],
        output.get("frontendActions"@) is None && output.get("frontendAction"@) is None
            && output.get("action"@) == Some(one) ==> actions_of(output) == seq![one],
{
    assert forall|i: int| 0 <= i < list.len() implies is_action(#[trigger] list[i]) by {}
    actions_stay(list);
}

/// Every action of every output is collected, and the actions of an earlier
/// output come before those of a later one.
pub proof fn every_action_is_collected(before: Seq<JsonView>, output: JsonView, after: Seq<JsonView>)
    ensures
        actions_of_all(before.push(output) + after) == actions_of_all(before) + actions_of(output)
            + actions_of_all(after),
    decreases after.len(),
{
    let all = before.push(output) + after;
    if after.len() == 0 {
        assert(all =~= before.push(output));
        assert(all.drop_last() =~= before);
        assert(actions_of_all(after) =~= Seq::empty());
        assert(actions_of_all(before) + actions_of(output) + actions_of_all(after)
            =~= actions_of_all(before) + actions_of(output));
    } else {
        every_action_is_collected(before, output, after.drop_last());
        assert(all.drop_last() =~= before.push(output) + after.drop_last());
        assert(all.last() == after.last());
        let a = actions_of_all(before) + actions_of(output);
        let b = actions_of_all(after.drop_last());
        let c = actions_of(after.last());
        assert((a + b) + c =~= a + (b + c));
    }
}

/// The action that a result ends on is the one that it names first; what it asks
/// for is told along.
pub proof fn results_end_on_the_action_they_name(result: JsonView, action: JsonView, list: Seq<JsonView>)
    requires
        action is Object,
        action.text_at("type"@) is Some,
    ensures
        result.get("frontendAction"@) == Some(action) ==> final_action(result) == Some(action),
        result.get("frontendAction"@) is None && result.get("action"@) == Some(action)
            ==> (final_action(result) matches Some(ended) && ended.get("type"@) == action.get(
            "type"@,
        ) && ended.get("criteria"@) == (if action.get("criteria"@) is Some {
            action.get("criteria"@)
        } else {
            result.get("criteria"@)
        })),
        result.get("frontendAction"@) is None && result.get("action"@) is None && result.get(
            "frontendActions"@,
        ) == Some(JsonView::Array(list)) && list.len() > 0 && list[0] == action ==> final_action(
            result,
        ) == Some(action),
        result.get("frontendAction"@) is None && result.get("action"@) is None && result.get(
            "frontendActions"@,
        ) is None ==> final_action(result) is None,
{
    if let JsonView::Object(o) = action {
        reveal_strlit("type");
        reveal_strlit("criteria");
        assert("type"@.len() == 4 && "criteria"@.len() == 8);
        if let Some(c) = result.get("criteria"@) {
            json::lookup_after_set(o, "criteria"@, c, "type"@);
        }
    }
}

/// What is no object, or is of no kind, is no action, wherever it stands.
pub proof fn what_is_of_no_kind_is_no_action(output: JsonView, thing: JsonView)
    requires
        !(thing is Object) || thing.text_at("type"@) is None || thing.text_at("type"@) == Some(
            Seq::<char>::empty(),
        ),
    ensures
        !actions_of(output).contains(thing),
        output.get("frontendActions"@) is None && output.get("frontendAction"@) == Some(thing)
            && output.get("action"@) is None ==> actions_of(output).len() == 0,
        output.get("frontendAction"@) is None && output.get("action"@) is None && output.get(
            "frontendActions"@,
        ) == Some(JsonView::Array(Seq::empty())) ==> final_action(output) is None,
{
    let all = actions_of(output);
    if all.contains(thing) {
        let k = choose|k: int| 0 <= k < all.len() && all[k] == thing;
        if let Some(list) = output.array_at("frontendActions"@) {
            list.lemma_filter_pred(|v: JsonView| is_action(v), k);
        }
    }
}

} // verus!
