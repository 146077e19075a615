//! The agent: what it may do, what it is given, and what it tells.
use base64::Engine;
use myriad::agent::attachments::{self, MAX_IMAGES, MAX_IMAGE_BYTES};
use myriad::agent::capability::{self, CapabilityRef, ModelTier, RiskLevel};
use myriad::agent::delegate::{self, ChannelChat};
use myriad::agent::notifications::{self, ClickTarget, EventKey, Priority, Review};
use myriad::agent::pages::{
    self, Article, ArticleSource, ItemCounts, ItemFilter, ItemRow, PageAsk, ReadingState, SourceRow,
};
use myriad::agent::permissions::{self, RoleUnread, Standing, TappPermission, UsageRefusal};
use myriad::agent::recipe::{self, RecipeStep};
use myriad::agent::turn::{self, AgentTurnKind, InteractionMode, TurnPath, WaitingTask};
use myriad::db::source_merge::SourceType;
use myriad::json::{self, Json, Number};
use std::collections::HashMap;

fn from_value(v: serde_json::Value) -> Json {
    match v {
        serde_json::Value::Null => Json::Null,
        serde_json::Value::Bool(b) => Json::Bool(b),
        serde_json::Value::Number(n) => {
            if let Some(u) = n.as_u64() {
                Json::Number(Number::Pos(u))
            } else if let Some(i) = n.as_i64() {
                Json::Number(Number::Neg(i))
            } else {
                Json::Number(Number::Fraction(n.as_f64().unwrap().to_bits()))
            }
        }
        serde_json::Value::String(s) => Json::Str(s),
        serde_json::Value::Array(a) => Json::Array(a.into_iter().map(from_value).collect()),
        serde_json::Value::Object(o) => {
            Json::Object(o.into_iter().map(|(k, v)| (k, from_value(v))).collect())
        }
    }
}

fn j(text: &str) -> Json {
    from_value(serde_json::from_str::<serde_json::Value>(text).unwrap())
}

fn list(names: &[&str]) -> Vec<String> {
    names.iter().map(|n| n.to_string()).collect()
}

fn has(names: &[String], name: &str) -> bool {
    names.iter().any(|n| n == name)
}

fn shows(value: &Json, part: &str) -> bool {
    match value {
        Json::Str(s) => s.contains(part),
        Json::Array(a) => a.iter().any(|v| shows(v, part)),
        Json::Object(o) => o.iter().any(|(k, v)| k.contains(part) || shows(v, part)),
        _ => false,
    }
}

// --- capabilities ----------------------------------------------------------

#[test]
fn ids_round_trip_through_their_constructors() {
    let skill = capability::skill_capability_id("daily-brief");
    assert_eq!(CapabilityRef::parse(&skill), CapabilityRef::Skill("daily-brief"));
    let mcp = capability::mcp_capability_id("files.local", "read");
    assert!(CapabilityRef::parse(&mcp).is_mcp());
    assert_eq!(
        CapabilityRef::parse("phantasi.search"),
        CapabilityRef::Builtin("phantasi.search")
    );
    assert_eq!(CapabilityRef::parse(&skill).skill_id(), Some("daily-brief"));
    assert!(CapabilityRef::parse(&skill).is_skill());
    assert_eq!(CapabilityRef::parse(&mcp).skill_id(), None);
}

#[test]
fn heartbeat_auto_runs_low_and_medium_but_never_self_spreading_work() {
    let may = capability::unattended_may_auto_run;
    assert!(!may("cache.clear", RiskLevel::High));
    assert!(!may("system.shutdown", RiskLevel::Critical));
    assert!(may("http.fetch", RiskLevel::Medium));
    assert!(may("storage.set", RiskLevel::Low));
    for id in [
        "heartbeat.create",
        "heartbeat.update",
        "heartbeat.delete",
        "heartbeat.toggle",
        "scheduler.create",
        "scheduler.trigger",
        "task.submit",
        "tapp.install",
    ] {
        assert!(!may(id, RiskLevel::Medium), "{id}");
        assert!(!may(id, RiskLevel::Low), "{id}");
    }
}

#[test]
fn a_tier_falls_back_to_a_model_that_is_there() {
    let pick = capability::get_analyzer_for_tier;
    assert_eq!(pick(ModelTier::Pro, true, true), Some(ModelTier::Pro));
    assert_eq!(pick(ModelTier::Standard, true, true), Some(ModelTier::Standard));
    assert_eq!(capability::resolve_tier_with_breaker(None, ModelTier::Lite), ModelTier::Lite);
    assert_eq!(
        capability::resolve_tier_with_breaker(Some(ModelTier::Pro), ModelTier::Lite),
        ModelTier::Pro
    );
    assert!(capability::should_block_unconfirmed_dynamic_step(RiskLevel::Critical));
    assert!(!capability::should_block_unconfirmed_dynamic_step(RiskLevel::Low));
}

// --- permissions -----------------------------------------------------------

#[test]
fn a_step_needs_every_required_permission_in_the_granted_set() {
    let granted = list(&["storage:read"]);
    assert!(permissions::missing_permission(&granted, "x", &list(&["storage:read"])).is_none());
    assert!(
        permissions::missing_permission(&granted, "x", &list(&["storage:write"]))
            .is_some_and(|message| message.contains("storage:write"))
    );
    assert!(permissions::missing_permission(&granted, "x", &list(&[])).is_none());
    assert_eq!(
        permissions::missing_permission(&granted, "x", &list(&["a", "storage:read"])).as_deref(),
        Some("权限不足：执行 'x' 需要 'a' 权限")
    );
}

#[test]
fn the_network_fetch_switch_does_not_hand_out_mcp() {
    let granted = vec![TappPermission::NetworkFetch];
    for perm in ["http:fetch", "web:scrape", "proxy:read", "notion:read"] {
        let mapped = permissions::agent_perm_to_tapp(perm).expect("mapped");
        assert!(granted.contains(&mapped), "{perm}");
    }
    assert_eq!(permissions::agent_perm_to_tapp("mcp:execute"), None);
    assert!(!permissions::host_agent_permission("mcp:execute"));
    let mcp_only = list(&["mcp:execute"]);
    assert!(!permissions::granted_covers_tapp_permission(&mcp_only, TappPermission::NetworkFetch));
    let standing = Standing {
        is_admin: Ok(false),
        visibility: Ok("public".to_string()),
        granted: Some(granted),
    };
    let held = permissions::get_user_permissions(&standing, &list(&[]));
    assert!(has(&held, "http:fetch"));
    assert!(!has(&held, "mcp:execute"));
}

#[test]
fn max_user_agent_permission_candidates() {
    let elevated = permissions::max_user_agent_permissions();
    assert!(has(&elevated, "http:fetch"));
    assert!(has(&elevated, "web:scrape"));
    assert!(has(&elevated, "tapp:write"));
    assert!(has(&elevated, "phantasi:write"));
    assert!(has(&elevated, "scheduler:read"));
    assert!(has(&elevated, "3d:generate"));
    assert!(has(&elevated, "ai:generate"));
    assert!(has(&elevated, "speech:tts"));
    assert!(has(&elevated, "music:control"));
    assert!(has(&elevated, "router:write"));
    assert!(has(&elevated, "mcp:execute"));
    assert!(!has(&elevated, "phantasi:manage"));
    assert!(!has(&elevated, "report:write"));
    assert!(!has(&elevated, "system:admin"));
}

#[test]
fn agent_perm_to_tapp_force_alignment_map() {
    let map = permissions::agent_perm_to_tapp;
    assert_eq!(map("ai:chat"), Some(TappPermission::AiChat));
    assert_eq!(map("3d:generate"), Some(TappPermission::ThreeDGenerate));
    assert_eq!(map("ai:search"), Some(TappPermission::AiSearch));
    assert_eq!(map("http:fetch"), Some(TappPermission::NetworkFetch));
    assert_eq!(map("phantasi:read"), Some(TappPermission::PhantasiRead));
    assert_eq!(map("phantasi:write"), Some(TappPermission::PhantasiWrite));
    assert_eq!(map("phantasi:manage"), Some(TappPermission::PhantasiManage));
    assert_eq!(map("report:write"), Some(TappPermission::ReportWrite));
    assert_eq!(map("system:read"), None);
    assert_eq!(map("router:write"), None);
    assert_eq!(map("speech:tts"), Some(TappPermission::SpeechTts));
    assert_eq!(map("music:control"), Some(TappPermission::MediaControl));
    assert_eq!(map("content:write"), Some(TappPermission::StorageWrite));
    assert_eq!(map("mcp:execute"), None);
    assert_eq!(map("notion:read"), Some(TappPermission::NetworkFetch));
    assert_eq!(map("unknown:perm"), None);
    assert!(permissions::host_agent_permission("router:write"));
    assert!(!permissions::host_agent_permission("speech:tts"));
    let elevated = permissions::max_user_agent_permissions();
    let covers = permissions::granted_covers_tapp_permission;
    assert!(covers(&elevated, TappPermission::NetworkFetch));
    assert!(covers(&elevated, TappPermission::StorageWrite));
    assert!(!covers(&elevated, TappPermission::PlatformWrite));
    assert!(covers(&elevated, TappPermission::StorageRead));
    let within = permissions::scheduler_create_tapp_permissions_within_grants;
    assert!(within(&list(&["http:fetch"]), &vec![TappPermission::NetworkFetch]).is_ok());
    assert!(within(&list(&[]), &vec![TappPermission::NetworkFetch]).is_err());
    assert!(within(&elevated, &vec![TappPermission::PlatformWrite]).is_err());
}

#[test]
fn autonomy_scheduler_create_translates_tapp_permissions() {
    let granted = list(&["scheduler:write"]);
    let basic = vec![
        TappPermission::SchedulerRegister,
        TappPermission::StorageRead,
        TappPermission::UiNotification,
    ];
    let fetch = vec![TappPermission::SchedulerRegister, TappPermission::NetworkFetch];
    assert!(
        permissions::missing_permission(
            &granted,
            "scheduler.create",
            &list(&["scheduler:register", "storage:read"]),
        )
        .is_some(),
        "Tapp strings must not be treated as Agent grants"
    );
    let within = permissions::scheduler_create_tapp_permissions_within_grants;
    assert!(within(&granted, &basic).is_ok(), "scheduler:write plus basic actions must be allowed");
    assert_eq!(within(&granted, &fetch), Err(TappPermission::NetworkFetch));
    assert!(permissions::scheduler_denied("network:fetch").contains("network:fetch"));
}

#[test]
fn current_admin_role_read_failure_is_an_error() {
    assert_eq!(permissions::admin_subject(-4, Some(1)), Some(-4));
    assert_eq!(permissions::admin_subject(910_401, Some(1)), Some(910_401));
    assert_eq!(permissions::admin_subject(0, Some(1)), Some(1));
    assert_eq!(permissions::admin_subject(0, None), None);
    assert_eq!(permissions::user_is_current_admin(-4, Some(None), Some(false)), Ok(false));
    let unread = permissions::user_is_current_admin(910_401, Some(None), None);
    assert_eq!(unread, Err(RoleUnread::Role));
    let unknown = Standing {
        is_admin: unread,
        visibility: Ok("public".to_string()),
        granted: Some(vec![]),
    };
    assert!(permissions::get_user_permissions(&unknown, &list(&["a"])).is_empty());
    assert_eq!(
        permissions::ensure_agent_usage_allowed(910_401, &unknown),
        Err(UsageRefusal::RoleUnknown(RoleUnread::Role))
    );
}

#[test]
fn the_heartbeat_acts_for_the_owner() {
    let heartbeat = |owner, role| permissions::user_is_current_admin(0, owner, role);
    assert_eq!(heartbeat(None, Some(true)), Err(RoleUnread::Owner));
    assert_eq!(heartbeat(Some(None), None), Ok(false));
    assert_eq!(heartbeat(Some(Some(1)), Some(true)), Ok(true));
    assert_eq!(heartbeat(Some(Some(1)), None), Err(RoleUnread::Role));
    assert_eq!(
        UsageRefusal::RoleUnknown(RoleUnread::Owner).message(),
        "Could not resolve the site owner"
    );
    assert_eq!(
        UsageRefusal::RoleUnknown(RoleUnread::Role).message(),
        "Could not verify current administrator status"
    );
}

#[test]
fn who_may_use_the_agent() {
    let ask = |is_admin: bool, visibility: Result<&str, &str>, granted| {
        let visibility = visibility.map(str::to_string).map_err(str::to_string);
        permissions::ensure_agent_usage_allowed(
            5,
            &Standing { is_admin: Ok(is_admin), visibility, granted },
        )
    };
    assert_eq!(ask(true, Err("gone"), None), Ok(true));
    let unseen = ask(false, Err("settings are locked"), None).unwrap_err();
    assert_eq!(unseen.message(), "settings are locked");
    assert_eq!(ask(false, Ok("admin"), None), Err(UsageRefusal::AdminOnly));
    assert_eq!(ask(false, Ok("public"), None), Err(UsageRefusal::PolicyUnknown));
    assert_eq!(ask(false, Ok("public"), Some(vec![])), Err(UsageRefusal::ChatDisabled));
    assert_eq!(ask(false, Ok("public"), Some(vec![TappPermission::AiChat])), Ok(false));
    assert_eq!(UsageRefusal::AdminOnly.message(), "Agent is admin only");
    let admin = Standing { is_admin: Ok(true), visibility: Err("gone".to_string()), granted: None };
    let held = permissions::get_user_permissions(&admin, &list(&["seo:write"]));
    assert!(has(&held, "seo:write") && has(&held, "mcp:execute"));
}

#[test]
fn autonomy_only_narrows_what_is_granted() {
    let current = list(&["a", "b"]);
    let narrowed =
        permissions::effective_granted(&current, &Some(list(&["b", "c"])), Some(true)).unwrap();
    assert_eq!(narrowed, list(&["b"]));
    let whole = permissions::effective_granted(&current, &None, None).unwrap();
    assert_eq!(whole, current);
    assert!(permissions::effective_granted(&current, &Some(list(&["b"])), Some(false)).is_err());
}

#[test]
fn a_capability_is_authorized_by_all_that_it_needs() {
    let current = list(&["a", "b"]);
    let cap = Some(list(&["b", "c"]));
    let ask = |cap: &Option<Vec<String>>, grant, required: &[&str]| {
        permissions::authorize_capability(&current, cap, grant, "x", &list(required))
    };
    assert_eq!(ask(&None, None, &["a", "b"]), Ok(current.clone()));
    assert_eq!(ask(&cap, Some(true), &["b"]), Ok(list(&["b"])));
    let missing = |p: &str| Err(format!("权限不足：执行 'x' 需要 '{p}' 权限"));
    assert_eq!(ask(&cap, Some(true), &["b", "a"]), missing("a"));
    assert_eq!(ask(&None, None, &["c"]), missing("c"));
    assert_eq!(ask(&cap, None, &["b"]), Err("Unable to verify autonomy grant".to_string()));
    assert_eq!(
        ask(&cap, Some(false), &["b"]),
        Err("Personal autonomy is no longer granted".to_string())
    );
}

// --- recipes and turns -----------------------------------------------------

fn step(id: &str, needs: &[&str]) -> RecipeStep {
    RecipeStep { id: id.to_string(), depends_on: list(needs) }
}

#[test]
fn saved_recipe_validation_rejects_dependency_cycles() {
    let error = recipe::validate_saved_recipe(&vec![step("a", &["b"]), step("b", &["a"])])
        .expect_err("cycle must be rejected");
    assert!(error.contains("dependency cycle"));
}

#[test]
fn a_recipe_that_can_run_can_be_saved() {
    let ok = vec![step("a", &[]), step("b", &["a"]), step("c", &["a", "b"])];
    assert_eq!(recipe::validate_saved_recipe(&ok), Ok(()));
    let refused = |steps: Vec<RecipeStep>| recipe::validate_saved_recipe(&steps).unwrap_err();
    assert_eq!(refused(vec![]), "Saved recipe contains no steps");
    assert_eq!(
        refused((0..33).map(|i| step(&i.to_string(), &[])).collect()),
        "Saved recipe exceeds the 32-step limit"
    );
    assert_eq!(
        refused(vec![step("a", &[]), step("a", &[])]),
        "Saved recipe contains empty or duplicate step IDs"
    );
    assert!(recipe::validate_saved_recipe(&vec![step("a", &["x"])]).is_err());
}

#[test]
fn only_continuations_skip_the_cooldown_gate() {
    assert!(
        AgentTurnKind::Continuation.reserve_options().skip_cooldown,
        "confirm / resume must not re-apply cooldown"
    );
    assert!(
        !AgentTurnKind::Fresh.reserve_options().skip_cooldown,
        "a new user turn is exactly what cooldown is for"
    );
}

#[test]
fn chat_mode_still_branches_before_process_work() {
    assert_eq!(turn::turn_path(Some(InteractionMode::Chat)), TurnPath::Chat);
    assert_eq!(turn::turn_path(Some(InteractionMode::Work)), TurnPath::Work);
}

#[test]
fn a_turn_has_a_task_of_its_own() {
    let run = turn::turn_task_id(&Some("run-1".to_string()), &Some("s".to_string()), 5);
    assert!(run.contains("run-1"));
    assert!(turn::preset_task_id(3, 9).contains('3'));
    let refusal = turn::mood_refuse_response(Some("no".to_string())).unwrap();
    assert_eq!(refusal.message, "no");
    assert_eq!(refusal.data.str_at("type"), Some("mood_refuse"));
    assert!(turn::mood_refuse_response(None).is_none());
}

#[test]
fn a_task_goes_on_only_where_it_can() {
    let ask = |waits: bool, current: Option<bool>| {
        turn::check_resumable_work(Some(WaitingTask {
            waits_for_input: waits,
            recipe_is_current: current,
        }))
    };
    assert_eq!(
        turn::check_resumable_work(None),
        Err("Task not found or access denied".to_string())
    );
    assert_eq!(ask(false, Some(true)), Err("Task is not waiting for input".to_string()));
    assert!(ask(true, None).unwrap_err().starts_with("Recipe not available for resume"));
    assert_eq!(
        ask(true, Some(false)).unwrap_err(),
        ["This", "task was started by a retired engine and cannot resume. Please send the request again."]
            .join(" ")
    );
    assert_eq!(ask(true, Some(true)), Ok(()));
}

// --- handing off -----------------------------------------------------------

#[test]
fn her_hand_off_line_is_taken_out_of_what_she_says() {
    assert_eq!(
        delegate::split("好，我让助手去查。\n[[work: 查一下明天东京的天气]]"),
        ("好，我让助手去查。".into(), Some("查一下明天东京的天气".into()))
    );
    assert_eq!(delegate::split("今天好累"), ("今天好累".into(), None));
    assert_eq!(delegate::split("嗯[[work:   ]]"), ("嗯".into(), None));
    assert_eq!(delegate::split("嗯[[work: 查"), ("嗯[[work: 查".into(), None));
}

#[test]
fn she_hands_off_only_what_they_asked_for() {
    let section = delegate::section(&ChannelChat { busy: false, handed_off: None });
    assert!(section.contains("If it is your own idea, ask first"));
    assert!(section.contains("with their permissions"));
    assert!(!section.contains("still being done"));
    let busy = delegate::section(&ChannelChat {
        busy: true,
        handed_off: Some("<handed_off>You handed off: 查天气</handed_off>".into()),
    });
    assert!(busy.contains("still being done"));
    assert!(busy.contains("handed_off"));
}

// --- attachments -----------------------------------------------------------

const PNG: &[u8] = &[0x89, b'P', b'N', b'G', 0x0D, 0x0A, 0x1A, 0x0A];

fn data_url(mime: &str, bytes: &[u8]) -> String {
    format!(
        "data:{mime};base64,{}",
        base64::engine::general_purpose::STANDARD.encode(bytes)
    )
}

fn image(url: &str) -> Json {
    json::object().with("image", json::string(url))
}

fn attached(items: Vec<Json>) -> Json {
    json::object().with("attachments", json::array(items))
}

#[test]
fn images_leave_the_request_data_and_only_real_ones_are_kept() {
    let data = attached(vec![
        image(&data_url("image/png", PNG)).with("name", json::string("a.png")),
        image(&data_url("image/png", b"<svg/>")).with("name", json::string("fake.png")),
        image("not a data url").with("name", json::string("b.jpg")),
        json::object().with("name", json::string("notes.txt")).with("text", json::string("hi")),
    ]);
    let (data, images) = attachments::take_images(data);
    assert_eq!(images.len(), 1);
    assert_eq!(images[0].mime, "image/png");
    assert!(!shows(&data, "base64"), "no image data stays in the context");
    match data.get("attachments") {
        Some(Json::Array(a)) => assert_eq!(a[3].str_at("text"), Some("hi")),
        _ => panic!("a list"),
    }
}

#[test]
fn no_image_is_left_under_a_repeated_key() {
    let key = || "image".to_string();
    let twice = Json::Object(vec![
        (key(), json::string(&data_url("image/png", PNG))),
        ("name".to_string(), json::string("a.png")),
        (key(), json::string(&data_url("image/png", PNG))),
    ]);
    let (data, images) = attachments::take_images(attached(vec![twice]));
    assert_eq!(images.len(), 1);
    assert!(!shows(&data, "base64"));
    assert!(shows(&data, "a.png"));
}

#[test]
fn the_declared_type_is_not_trusted() {
    let (_, images) = attachments::take_images(attached(vec![image(&data_url("image/webp", PNG))]));
    assert_eq!(images[0].mime, "image/png");
    let webp = b"RIFF\x10\0\0\0WEBPVP8 ";
    let (_, images) = attachments::take_images(attached(vec![image(&data_url("image/png", webp))]));
    assert_eq!(images[0].mime, "image/webp");
    assert!(attachments::image_from_bytes("x", &b"<svg/>".to_vec()).is_none());
    assert_eq!(attachments::image_data("data:image/png;base64,QUJD").as_deref(), Some("QUJD"));
    assert_eq!(attachments::image_data("https://example.com/a.png"), None);
}

#[test]
fn images_are_bounded_in_count_and_size() {
    let mut big = PNG.to_vec();
    big.resize(MAX_IMAGE_BYTES + 1, 0);
    let mut items: Vec<Json> = (0..6).map(|_| image(&data_url("image/png", PNG))).collect();
    items.push(image(&data_url("image/png", &big)));
    assert_eq!(attachments::take_images(attached(items)).1.len(), MAX_IMAGES);
    let (data, images) =
        attachments::take_images(attached(vec![image(&data_url("image/png", &big))]));
    assert!(images.is_empty());
    assert!(!shows(&data, "base64"));
    assert!(attachments::take_images(Json::Null).1.is_empty());
}

#[test]
fn she_is_told_what_came_with_the_message() {
    let data = j(
        r#"{"attachments": [
            {"name": "a.png", "mime": "image/png"},
            {"name": "todo.md", "mime": "text/markdown", "text": "  买牛奶  "}
        ]}"#,
    );
    let told = attachments::format_attached(&data, 1);
    assert!(told.starts_with("They attached 1 image to this message; you can see it."));
    assert!(told.contains("Attached file \"todo.md\":\n买牛奶"));
    assert_eq!(attachments::format_attached(&Json::Null, 0), "");
}

// --- notifications ---------------------------------------------------------

#[test]
fn a_failed_task_is_told_loudly() {
    let told = notifications::heartbeat_result("open", "Digest", "boom", false);
    assert_eq!(told.title, "Scheduled task: Digest");
    assert_eq!(told.priority, Priority::High);
    assert_eq!(told.event, EventKey::HeartbeatFailed);
    assert_eq!(told.metadata.str_at("status"), Some("failed"));
    let told = notifications::heartbeat_result("open", "Digest", "fine", true);
    assert_eq!(told.priority, Priority::Low);
}

#[test]
fn a_review_proposes_what_it_says_something_about() {
    let told = notifications::seo_review_draft(
        7,
        &Review {
            why: " because ".to_string(),
            site_description: Some(" d ".to_string()),
            site_keywords: Some("  ".to_string()),
            site_ai_intro: None,
        },
    );
    assert_eq!(told.body, "because\n\nsite_description\nd");
    assert_eq!(told.id.as_deref(), Some("seo_review_draft_u7"));
    assert_eq!(told.metadata.str_at("site_description"), Some("d"));
    assert!(told.metadata.get("site_keywords").is_none());
}

#[test]
fn feeds_and_platforms_tell_what_happened() {
    let told = notifications::phantasi_new_items(3, "Blog", 2, &list(&["A", "B"]));
    assert_eq!(told.title, "Blog · 2 new items");
    assert_eq!(told.body, "A\nB");
    let told = notifications::phantasi_new_items(3, "Blog", 2, &list(&[]));
    assert_eq!(told.body, "2 new items found");
    let told = notifications::phantasi_source_error(3, "Blog", "404", &ClickTarget::Page);
    assert_eq!(told.metadata.str_at("route"), Some("/journal"));
    assert!(told.metadata.get("action").is_none());
    let talk = ClickTarget::Conversation { action: "chat".to_string(), session_id: None };
    let told = notifications::platform_sync_error("steam", "down", &talk);
    assert_eq!(told.title, "steam auto-refresh failed");
    assert_eq!(told.metadata.str_at("action"), Some("chat"));
    assert!(told.metadata.get("route").is_none());
    let told = notifications::skill_evolution("open", "brief", "merged", "d");
    assert_eq!(told.title, "Skill changed (merged): brief");
    let told = notifications::tapp_notification("notes", &None, "hi", "danger");
    assert_eq!((told.title.as_str(), told.priority), ("App notification", Priority::High));
}

#[test]
fn the_states_of_a_job_share_one_notification() {
    let running = notifications::updater_job(4, "job", "core", "running", "");
    let done = notifications::updater_job(4, "job", "core", "succeeded", "");
    assert_eq!(running.id, done.id);
    assert_eq!(done.title, "System update finished");
    let digest = format!("{:x}", md5::compute("job".as_bytes()));
    assert_eq!(done.id, Some(format!("upd_{digest}_u4")));
    let up = notifications::mcp_server_status(4, "files", true, "ok");
    let down = notifications::mcp_server_status(4, "files", false, "gone");
    assert_eq!(up.id, down.id);
    assert_eq!(down.title, "MCP files disconnected");
}

// --- pages -----------------------------------------------------------------

fn row(id: i32) -> ItemRow {
    ItemRow {
        id,
        guid: format!("g{id}"),
        title: format!("t{id}"),
        summary: None,
        link: None,
        author: None,
        published_at: "2026-01-01".to_string(),
    }
}

fn reading(item_id: i32) -> ReadingState {
    ReadingState {
        item_id,
        is_read: true,
        is_starred: true,
        read_progress: Json::Null,
        read_at: None,
    }
}

#[test]
fn sources_are_listed_by_category() {
    let source = |id: i32, category: Option<&str>, kind: SourceType, asked: Option<&str>| SourceRow {
        id,
        name: format!("s{id}"),
        url: None,
        site_url: None,
        icon: None,
        category: category.map(str::to_string),
        source_type: "rss".to_string(),
        kind,
        category_matches: category.is_some() && category == asked,
        item_count: 2,
        updated_at: "2026-01-01".to_string(),
    };
    let mut unread = HashMap::new();
    unread.insert(1, 5);
    let shown = |category: Option<&str>| {
        let page = pages::sources_page(
            &vec![
                source(1, Some("Tech"), SourceType::Rss, category),
                source(2, None, SourceType::Link, category),
            ],
            &unread,
            &category.map(str::to_string),
            "all",
            false,
        );
        match page.get("content").and_then(|c| c.get("sources")) {
            Some(Json::Array(list)) => {
                list.iter().map(|s| (s.i64_at("id"), s.i64_at("unreadCount"))).collect::<Vec<_>>()
            }
            _ => panic!("sources"),
        }
    };
    assert_eq!(shown(None), vec![(Some(1), Some(5)), (Some(2), Some(0))]);
    assert_eq!(shown(Some("Tech")), vec![(Some(1), Some(5))]);
    assert_eq!(shown(Some("友情链接")), vec![(Some(2), Some(0))]);
}

#[test]
fn items_level_uses_session_reading_state() {
    let page = pages::items_page(
        3,
        "Blog",
        &vec![row(1), row(2)],
        &vec![reading(1)],
        ItemCounts { total: 9, unread: 4, starred: 1 },
        "all",
        true,
    );
    let items = match page.get("content").and_then(|c| c.get("items")) {
        Some(Json::Array(items)) => items,
        _ => panic!("items"),
    };
    assert_eq!(items[0].bool_at("isRead"), Some(true));
    assert_eq!(items[1].bool_at("isRead"), Some(false));
    assert_eq!(items[0].bool_at("isStarred"), Some(true));
    assert_eq!(page.get("stats").unwrap().i64_at("unreadCount"), Some(4));
    assert_eq!(pages::plan_items(Some(true), "unread", false), Ok(ItemFilter::Unread));
    assert_eq!(pages::plan_items(Some(true), "starred", true), Ok(ItemFilter::Starred));
    assert!(pages::plan_items(Some(true), "starred", false).is_err());
    assert!(pages::plan_items(Some(false), "all", true).is_err());
}

fn article() -> Article {
    Article {
        id: 8,
        guid: "g8".to_string(),
        source_id: 3,
        title: "T".to_string(),
        content: Some("abc".to_string()),
        summary: None,
        link: None,
        author: None,
        image: None,
        published_at: "2026-01-01".to_string(),
        word_count: None,
        reading_time: None,
        fulltext_fetched: false,
        audio_url: None,
        video_url: None,
    }
}

fn source(visible: bool) -> ArticleSource {
    ArticleSource {
        id: 3,
        name: "Blog".to_string(),
        icon: None,
        site_url: None,
        kind: SourceType::Rss,
        visible,
    }
}

#[test]
fn detail_level_reads_session_user_not_params() {
    let page =
        pages::article_page(&Some(article()), &Some(source(true)), &Some(reading(8)), 1).unwrap();
    assert!(shows(&page, "T"));
    assert!(shows(&page, "Rss"));
    assert!(pages::article_is_readable(&Some(article()), &Some(source(true))));
    assert!(!pages::article_is_readable(&Some(article()), &Some(source(false))));
    assert!(pages::article_page(&Some(article()), &Some(source(false)), &None, 1).is_err());
    assert!(pages::article_page(&None, &None, &None, 1).is_err());
    let named = pages::page_request(&j(r#"{"level": "detail", "itemId": "8", "userId": 99}"#));
    assert_eq!(named.map(|r| r.ask), Ok(PageAsk::Article("8".to_string())));
}
