//! Running the steps of a task.
use myriad::agent::executor::ack::{self, PendingAcks};
use myriad::agent::executor::context::{self, ExecutionContext};
use myriad::agent::executor::frontend;
use myriad::agent::executor::params::{self, ContractViolation, Snapshots};
use myriad::agent::executor::run::{
    self, Attempts, Ending, PauseOutcome, PausePersist, RunState, Step, StepResult, Turn,
    GLOBAL_RETRY_BUDGET,
};
use myriad::agent::executor::wave::{self, Attempted, Finished, WaveEnd};
use myriad::json::{self, Fields, Json, Number};

fn from_value(v: serde_json::Value) -> Json {
    match v {
        serde_json::Value::Null => Json::Null,
        serde_json::Value::Bool(b) => Json::Bool(b),
        serde_json::Value::Number(n) => {
            if let Some(u) = n.as_u64() {
                Json::Number(Number::Pos(u))
            } else if let Some(i) = n.as_i64() {
                Json::Number(Number::Neg(i))
            } else {
                Json::Number(Number::Fraction(n.as_f64().unwrap().to_bits()))
            }
        }
        serde_json::Value::String(s) => Json::Str(s),
        serde_json::Value::Array(a) => Json::Array(a.into_iter().map(from_value).collect()),
        serde_json::Value::Object(o) => {
            Json::Object(o.into_iter().map(|(k, v)| (k, from_value(v))).collect())
        }
    }
}

fn j(text: &str) -> Json {
    from_value(serde_json::from_str::<serde_json::Value>(text).unwrap())
}

fn fields(text: &str) -> Fields {
    match j(text) {
        Json::Object(o) => o,
        _ => panic!("an object"),
    }
}

fn nothing() -> Snapshots {
    Snapshots { current_route: None, page_context: None, music_status: None, window_state: None }
}

// --- output contracts and parameters ---------------------------------------

#[test]
fn breach_fails_the_step_and_drift_does_not() {
    let breach = |fatal: bool| {
        Some(ContractViolation { fatal, message: "summary: expected string".to_string() })
    };
    assert!(params::apply_output_contract("ai.summarize", None).is_ok());
    assert!(params::apply_output_contract("ai.summarize", breach(true)).is_err());
    assert!(params::apply_output_contract("ai.summarize", breach(false)).is_ok());
}

#[test]
fn mcp_tools_are_exempt_from_the_contract() {
    let breach = ContractViolation { fatal: true, message: "not a string".to_string() };
    assert!(params::apply_output_contract("mcp.docs.lookup", Some(breach)).is_ok());
}

#[test]
fn capabilities_without_a_declared_schema_are_unconstrained() {
    assert!(params::apply_output_contract("router.navigate", None).is_ok());
}

#[test]
fn extract_text_and_path_unwrap_task_envelope() {
    let envelope = j(
        r#"{
            "format": "json",
            "value": { "analysis": "分析正文", "type": "custom" },
            "contextProvenance": []
        }"#,
    );
    assert_eq!(params::extract_text_from_output(&envelope), "分析正文");
    assert_eq!(
        params::extract_text_from_output(&j(
            r#"{"format": "text", "value": "回复正文", "contextProvenance": []}"#
        )),
        "回复正文"
    );
    let at = |path: &str| {
        params::get_value_by_path(&envelope, path).and_then(|v| v.as_str().map(str::to_string))
    };
    assert_eq!(at("analysis"), Some("分析正文".to_string()));
    assert_eq!(at("value.analysis"), Some("分析正文".to_string()));
    assert_eq!(at("format"), Some("json".to_string()));
}

#[test]
fn request_route_fills_router_state_current_path() {
    let mut given = Fields::new();
    params::inject_request_context_params(
        "router.state",
        &mut given,
        &Snapshots { current_route: Some(j("\"/library\"")), ..nothing() },
    );
    assert_eq!(json::field(&given, "currentPath").and_then(Json::as_str), Some("/library"));
}

#[test]
fn page_snapshot_fills_page_content_context() {
    let mut given = Fields::new();
    let snapshot = r#"{ "content": "正文", "title": "标题" }"#;
    params::inject_request_context_params(
        "page.content",
        &mut given,
        &Snapshots {
            current_route: Some(j("\"/phantasi\"")),
            page_context: Some(j(snapshot)),
            ..nothing()
        },
    );
    assert_eq!(json::field(&given, "currentPath").and_then(Json::as_str), Some("/phantasi"));
    assert_eq!(json::field(&given, "context"), Some(&j(snapshot)));
}

#[test]
fn explicit_current_path_is_not_overwritten() {
    let mut given = fields(r#"{"currentPath": "/tapp"}"#);
    params::inject_request_context_params(
        "router.state",
        &mut given,
        &Snapshots { current_route: Some(j("\"/library\"")), ..nothing() },
    );
    assert_eq!(json::field(&given, "currentPath").and_then(Json::as_str), Some("/tapp"));
}

#[test]
fn music_and_window_snapshots_fill_status_params() {
    let music = r#"{ "isPlaying": true, "title": "song" }"#;
    let windows = r#"{ "windows": [], "windowCount": 0 }"#;
    let snapshots = || Snapshots {
        music_status: Some(j(music)),
        window_state: Some(j(windows)),
        ..nothing()
    };
    let mut given = Fields::new();
    params::inject_request_context_params("music.status", &mut given, &snapshots());
    assert_eq!(json::field(&given, "status"), Some(&j(music)));
    let mut given = Fields::new();
    params::inject_request_context_params("tapp.windows", &mut given, &snapshots());
    assert_eq!(json::field(&given, "windowState"), Some(&j(windows)));
}

#[test]
fn id_param_extracts_from_search_output() {
    let output = j(
        r#"{
            "success": true,
            "message": "找到 10 个「凉宫春日」相关歌单",
            "keyword": "凉宫春日",
            "playlists": [
                { "id": 12597740641, "name": "悲情篇章" },
                { "id": 12764048642, "name": "アニサマ" }
            ]
        }"#,
    );
    let got = params::extract_id_from_output(&output, "playlistId");
    assert_eq!(got, Some(json::unsigned(12597740641)));
}

#[test]
fn id_param_prefers_same_name_field_then_top_level_id() {
    let output = j(r#"{ "playlistId": "abc123", "id": "other", "message": "文案" }"#);
    assert_eq!(
        params::extract_id_from_output(&output, "playlistId"),
        Some(json::string("abc123"))
    );
    let output = j(r#"{ "id": 42, "message": "文案" }"#);
    assert_eq!(params::extract_id_from_output(&output, "songId"), Some(json::number(42)));
    let output = j(r#"[{ "id": "first" }, { "id": "second" }]"#);
    assert_eq!(params::extract_id_from_output(&output, "itemId"), Some(json::string("first")));
}

#[test]
fn id_param_without_id_yields_none() {
    let output = j(r#"{ "message": "找到 10 个歌单", "success": true }"#);
    assert_eq!(params::extract_id_from_output(&output, "playlistId"), None);
}

#[test]
fn references_are_resolved_from_what_ran_before() {
    let outputs = fields(r#"{"s1": {"list": [{"name": "n0"}, {"name": "n1"}]}}"#);
    let (given, unresolved) = params::resolve_params(
        &fields(r#"{"titleFrom": "s1.list[1].name", "keep": 5, "otherFrom": "nope.x"}"#),
        &outputs,
    );
    assert_eq!(json::field(&given, "title").and_then(Json::as_str), Some("n1"));
    assert_eq!(json::field(&given, "keep"), Some(&json::number(5)));
    assert_eq!(unresolved.len(), 1);
}

// --- frontend actions ------------------------------------------------------

#[test]
fn understand_null_frontend_action_does_not_synthesize_clicks() {
    let result = j(
        r#"{
            "frontendAction": null,
            "plan": {
                "canFulfill": true,
                "steps": [{ "actionType": "click", "target": { "text": "保存" } }]
            }
        }"#,
    );
    assert_eq!(frontend::extract_frontend_action_from_result(&result), None);
}

#[test]
fn typed_frontend_action_is_returned() {
    let result = j(r#"{"frontendAction": { "type": "navigate", "path": "/library" }}"#);
    let action = frontend::extract_frontend_action_from_result(&result).unwrap();
    assert_eq!(action.str_at("type"), Some("navigate"));
    assert_eq!(action.str_at("path"), Some("/library"));
}

#[test]
fn reading_list_action_field_is_still_collected() {
    let result = j(
        r#"{"action": { "type": "reading_list", "payload": { "items": [] } }, "criteria": "科幻"}"#,
    );
    let action = frontend::extract_frontend_action_from_result(&result).unwrap();
    assert_eq!(action.str_at("type"), Some("reading_list"));
    assert_eq!(action.str_at("criteria"), Some("科幻"));
}

#[test]
fn collect_skips_string_action_and_null_frontend_action() {
    let music = j(
        r#"{"action": "play", "frontendAction": { "type": "music_control", "action": "play" }}"#,
    );
    let understand = j(r#"{"frontendAction": null, "plan": { "steps": [] }}"#);
    let reading = j(r#"{"action": { "type": "reading_list", "payload": { "items": [] } }}"#);
    let collected =
        frontend::collect_step_frontend_actions(&vec![&music, &understand, &reading]);
    assert_eq!(collected.len(), 2);
    assert_eq!(collected[0].str_at("type"), Some("music_control"));
    assert_eq!(collected[1].str_at("type"), Some("reading_list"));
}

#[test]
fn collect_prefers_frontend_actions_array() {
    let plan = j(
        r#"{
            "frontendActions": [
                { "type": "page_interact", "action": "click" },
                { "type": "navigate", "path": "/library" }
            ],
            "frontendAction": { "type": "page_interact", "action": "click" }
        }"#,
    );
    let collected = frontend::collect_step_frontend_actions(&vec![&plan]);
    assert_eq!(collected.len(), 2);
    assert_eq!(collected[1].str_at("type"), Some("navigate"));
}

// --- waiting for the page --------------------------------------------------

fn snapshot_output() -> Json {
    j(r#"{"available": false, "frontendAction": {"type": "music_get_status"}}"#)
}

#[test]
fn dropping_registration_releases_pending_ack() {
    let mut acks = PendingAcks::new();
    let pending = acks.begin_if_needed("ack-drop-registration", "snapshot", &snapshot_output());
    assert!(pending.is_some());
    acks.release(&pending.unwrap());
    assert_eq!(acks.submit("ack-drop-registration", "snapshot"), None);
}

#[test]
fn submitted_snapshot_is_merged_and_releases_pending_ack() {
    let mut acks = PendingAcks::new();
    let pending =
        acks.begin_if_needed("ack-submit", "snapshot", &snapshot_output()).unwrap();
    assert_eq!(acks.submit("ack-submit", "snapshot"), Some(pending.identity));
    let mut variables = Fields::new();
    let merged = ack::finish(
        "music.status",
        snapshot_output(),
        &Some(j(r#"{"musicStatus": {"isPlaying": true}}"#)),
        &mut variables,
    );
    assert_eq!(merged.bool_at("available"), Some(true));
    assert_eq!(merged.bool_at("isPlaying"), Some(true));
    assert_eq!(
        json::field(&variables, "_music_status").unwrap().bool_at("isPlaying"),
        Some(true)
    );
    assert_eq!(acks.submit("ack-submit", "snapshot"), None);
}

#[test]
fn timed_out_snapshot_preserves_output_and_releases_pending_ack() {
    let mut acks = PendingAcks::new();
    let pending = acks.begin_if_needed("ack-timeout", "snapshot", &snapshot_output()).unwrap();
    let mut variables = Fields::new();
    let merged = ack::finish("music.status", snapshot_output(), &None, &mut variables);
    acks.release(&pending);
    assert_eq!(merged, snapshot_output());
    assert!(json::field(&variables, "_music_status").is_none());
    assert_eq!(acks.submit("ack-timeout", "snapshot"), None);
}

#[test]
fn replaced_wait_cannot_remove_new_registration() {
    let mut acks = PendingAcks::new();
    let old = acks.begin_if_needed("ack-replace-wait", "snapshot", &snapshot_output()).unwrap();
    let replacement =
        acks.begin_if_needed("ack-replace-wait", "snapshot", &snapshot_output()).unwrap();
    acks.release(&old);
    assert_eq!(acks.submit("ack-replace-wait", "snapshot"), Some(replacement.identity));
    assert_eq!(acks.submit("ack-replace-wait", "snapshot"), None);
    assert!(acks.has_identities());
}

#[test]
fn query_and_music_status_need_ack() {
    assert!(ack::actions_need_snapshot_ack(&j(
        r#"{"frontendAction": { "type": "music_get_status", "timestamp": 1 }}"#
    )));
    assert!(ack::actions_need_snapshot_ack(&j(
        r#"{"frontendAction": { "type": "query_windows", "timestamp": 1 }}"#
    )));
    assert!(!ack::actions_need_snapshot_ack(&j(
        r#"{"frontendAction": { "type": "navigate", "path": "/phantasi", "timestamp": 1 }}"#
    )));
}

#[test]
fn merge_writes_live_music_into_status_output() {
    let mut variables = Fields::new();
    let output = ack::merge_ack(
        "music.status",
        snapshot_output(),
        &j(r#"{ "musicStatus": { "isPlaying": true, "isEnabled": true } }"#),
        &mut variables,
    );
    assert_eq!(output.bool_at("available"), Some(true));
    assert_eq!(output.bool_at("isPlaying"), Some(true));
    assert_eq!(
        json::field(&variables, "_music_status").unwrap().bool_at("isPlaying"),
        Some(true)
    );
}

// --- runs ------------------------------------------------------------------

fn step(id: &str) -> Step {
    Step {
        id: id.to_string(),
        capability_id: "ai.summarize".to_string(),
        action: id.to_string(),
        params: Json::Null,
        has_generator: false,
    }
}

fn took(duration_ms: u64) -> Finished {
    Finished { duration_ms, tier: "standard".to_string() }
}

fn result(step_id: &str, success: bool) -> StepResult {
    StepResult {
        step_id: step_id.to_string(),
        success,
        output: None,
        error: if success { None } else { Some("boom".to_string()) },
        duration_ms: 1,
        retry_count: 0,
    }
}

#[test]
fn a_serial_run_takes_its_steps_in_order() {
    let mut state = RunState::new(vec![step("a"), step("b")], None);
    assert!(!state.use_dag);
    assert_eq!(state.effective_total(), 2);
    assert!(state.has_work(false));
    assert!(matches!(state.turn(false, false, vec![]), Turn::Listed(0)));
    assert!(matches!(state.turn(true, false, vec![]), Turn::Cancel));
    state.advance_past("a");
    assert!(matches!(state.turn(false, false, vec![]), Turn::Listed(1)));
    state.advance_past("b");
    assert!(matches!(state.turn(false, false, vec![]), Turn::Finish));
}

#[test]
fn one_success_is_enough_to_complete() {
    let mut state = RunState::new(vec![step("a"), step("b")], None);
    state.record_result(result("a", false));
    assert!(matches!(state.finish(false), Ending::Failed(_)));
    assert!(matches!(state.finish(true), Ending::Cancelled));
    state.record_result(result("b", true));
    assert!(matches!(state.finish(false), Ending::Completed));
}

#[test]
fn made_steps_run_before_what_is_left() {
    let mut state = RunState::new(vec![step("a"), step("b")], None);
    let start = state.begin_serial(&step("a"));
    assert_eq!(start.pending_before, 0);
    state.after_attempts(Attempts { budget: GLOBAL_RETRY_BUDGET - 1, prepend: vec![] });
    assert_eq!(state.retry_budget, GLOBAL_RETRY_BUDGET - 1);
    let made = state.queue_made(vec![step("m")], start.pending_before);
    assert!(made.iter().all(|s| s.id == "m"));
}

#[test]
fn a_question_stops_a_run() {
    assert!(run::question_after(None, None).is_none());
    let (asked, persist) = run::question_after(None, Some(Json::Null)).unwrap();
    assert_eq!(asked, Json::Null);
    assert_eq!(persist, PausePersist::Background);
    let (_, persist) = run::question_after(Some(Json::Null), None).unwrap();
    assert_eq!(persist, PausePersist::AwaitTappWait);
    assert_eq!(run::pause_for_input(PausePersist::AwaitTappWait, false), PauseOutcome::Failed);
}

#[test]
fn a_wave_launches_each_step_once() {
    let mut state = RunState::new(vec![step("a"), step("b")], Some(true));
    let mut running = wave::begin_wave(&mut state, &vec![step("a"), step("b")]);
    assert_eq!(running.spawned, vec!["a", "b"]);
    let launched = wave::join_ready(&mut state, &mut running, vec![step("a"), step("c")]);
    assert_eq!(launched.len(), 1);
    assert_eq!(launched[0].id, "c");
    let again = wave::join_ready(&mut state, &mut running, vec![step("c")]);
    assert!(again.is_empty());
    let made = wave::step_succeeded(&mut state, &step("a"), j("{}"), &took(3), vec![], vec![]);
    assert!(made.hand_over.is_empty());
    assert_eq!(state.results.len(), 1);
    let retried =
        wave::step_failed(&mut state, &mut running, step("b"), "boom", &took(1), true, 2);
    assert!(retried);
    match wave::end_wave(&mut state, running, false) {
        WaveEnd::Retry(steps) => assert_eq!(steps[0].id, "b"),
        _ => panic!("a retry"),
    }
}

#[test]
fn only_the_platform_may_ask_the_page() {
    assert!(ack::may_wait("music.status", true));
    assert!(!ack::may_wait("music.status", false));
    assert!(!ack::may_wait("mcp.docs.lookup", true));
    assert!(run::is_analyzed(false, false));
    assert!(!run::is_analyzed(true, false));
    assert!(!run::is_analyzed(false, true));
}

#[test]
fn a_question_waits_for_the_end_of_the_wave() {
    let mut state = RunState::new(vec![step("a")], Some(true));
    let mut running = wave::begin_wave(&mut state, &vec![step("a")]);
    wave::ask_later(&mut running, j("\"which one?\""));
    match wave::end_wave(&mut state, running, false) {
        WaveEnd::Ask(question) => assert_eq!(question, j("\"which one?\"")),
        _ => panic!("a question"),
    }
}

#[test]
fn a_long_output_is_shown_by_its_beginning() {
    assert_eq!(wave::output_preview("x".repeat(1000)), "x".repeat(1000));
    assert_eq!(wave::output_preview("x".repeat(1001)), format!("{}...", "x".repeat(1000)));
}

#[test]
fn merging_never_forgets_a_variable() {
    let mut known = fields(r#"{"a": 1}"#);
    wave::merge_variables(&mut known, &fields(r#"{"a": 2, "b": 3}"#));
    assert!(json::field(&known, "a").is_some());
    assert_eq!(json::field(&known, "b"), Some(&json::number(3)));
}

#[test]
fn an_attempt_is_recorded_with_its_outcome() {
    let mut state = RunState::new(vec![step("a")], None);
    wave::step_attempted(
        &mut state,
        &step("a"),
        &took(4),
        Attempted {
            budget: 3,
            prepend: vec![],
            retry_count: 2,
            outcome: Err(Some("boom".to_string())),
        },
    );
    assert_eq!(state.retry_budget, 3);
    assert_eq!(state.results[0].error.as_deref(), Some("boom"));
    assert!(!state.results[0].success);
    assert_eq!(state.results[0].retry_count, 2);
    assert!(state.traces.is_empty());
    let mut tried = step("a");
    tried.params = json::object().with("q", json::string("tea"));
    wave::step_traced(&mut state, &tried, true, &took(4), false, &Some("boom".to_string()));
    assert_eq!(state.traces.len(), 1);
    assert_eq!(state.traces[0].params, tried.params);
    assert_eq!(state.traces[0].error.as_deref(), Some("boom"));
    assert!(state.traces[0].is_dynamic && !state.traces[0].success);
    assert_eq!(wave::error_message(&Some("e".to_string())), "e");
}

#[test]
fn a_run_begins_with_what_is_known() {
    let before = ExecutionContext {
        variables: vec![],
        role_contexts: vec![],
        memory_context: None,
        outputs: vec![],
        autonomy_permission_cap: None,
    };
    let ready = context::prepare_execution_context(
        before,
        "task-1",
        &Json::Null,
        &vec!["likes tea".to_string()],
        &None,
        &Some(vec!["http:fetch".to_string()]),
    );
    assert_eq!(ready.autonomy_permission_cap, Some(vec!["http:fetch".to_string()]));
    assert!(ready.memory_context.unwrap().contains("likes tea"));
}
