//! Notifications that events of the site become. Where they are stored and whom
//! they reach is decided elsewhere.
use crate::json;
use crate::json::{Json, JsonView};
use crate::text;
use vstd::prelude::*;

verus! {

/// How many characters the body of a review may have.
pub const MAX_REVIEW_CHARS: usize = 4000;

#[derive(Clone, Copy, Debug, PartialEq, Eq, Structural)]
pub enum Priority {
    Low,
    Normal,
    High,
    Urgent,
}

#[derive(Clone, Copy, Debug, PartialEq, Eq, Structural)]
pub enum NotificationKind {
    HeartbeatResult,
    PhantasiNewItems,
    PhantasiSourceError,
    SystemInfo,
    McpServerStatus,
    TappNotification,
    UpdaterStatus,
}

#[derive(Clone, Copy, Debug, PartialEq, Eq, Structural)]
pub enum EventKey {
    HeartbeatSucceeded,
    HeartbeatFailed,
    HeartbeatSeoReview,
    PhantasiNewItems,
    PhantasiSourceError,
    PlatformSyncFailed,
    SkillPruned,
    SkillImproved,
    SkillChanged,
    McpConnected,
    McpDisconnected,
    TappError,
    TappWarning,
    TappMessage,
    UpdaterSucceeded,
    UpdaterFailed,
    UpdaterNeedsManual,
    UpdaterRunning,
    UpdaterUnknown,
    UpdaterSubmitted,
}

pub struct Notification {
    pub kind: NotificationKind,
    pub priority: Priority,
    pub event: EventKey,
    pub title: String,
    pub body: String,
    pub metadata: Json,
    /// The identifier under which the notification replaces an earlier one;
    /// without it each stands for itself.
    pub id: Option<String>,
}

pub struct NotificationView {
    pub kind: NotificationKind,
    pub priority: Priority,
    pub event: EventKey,
    pub title: Seq<char>,
    pub body: Seq<char>,
    pub metadata: JsonView,
    pub id: Option<Seq<char>>,
}

impl View for Notification {
    type V = NotificationView;

    open spec fn view(&self) -> NotificationView {
        NotificationView {
            kind: self.kind,
            priority: self.priority,
            event: self.event,
            title: self.title@,
            body: self.body@,
            metadata: self.metadata@,
            id: text::opt_view(self.id),
        }
    }
}

fn said(a: &str, b: &str) -> (r: String)
    ensures
        r@ == a@ + b@,
{
    let mut out = a.to_owned();
    out.append(b);
    out
}

// ---------------------------------------------------------------------------
// Heartbeat
// ---------------------------------------------------------------------------
pub open spec fn heartbeat_shown(
    manage_action: Seq<char>,
    task_name: Seq<char>,
    result: Seq<char>,
    success: bool,
) -> NotificationView {
    NotificationView {
        kind: NotificationKind::HeartbeatResult,
        priority: if success {
            Priority::Low
        } else {
            Priority::High
        },
        event: if success {
            EventKey::HeartbeatSucceeded
        } else {
            EventKey::HeartbeatFailed
        },
        title: "Scheduled task: "@ + task_name,
        body: result,
        metadata: json::empty().with("action"@, json::text_json(manage_action)).with(
            "tab"@,
            json::text_json("heartbeat"@),
        ).with("task_name"@, json::text_json(task_name)).with(
            "success"@,
            JsonView::Bool(success),
        ).with(
            "status"@,
            json::text_json(
                if success {
                    "completed"@
                } else {
                    "failed"@
                },
            ),
        ),
        id: None,
    }
}

/// The result of a task of the heartbeat. `manage_action` is the action that
/// opens the agent's management.
pub fn heartbeat_result(manage_action: &str, task_name: &str, result: &str, success: bool) -> (r:
    Notification)
    ensures
        r@ == heartbeat_shown(manage_action@, task_name@, result@, success),
{
    let status = if success {
        "completed"
    } else {
        "failed"
    };
    Notification {
        kind: NotificationKind::HeartbeatResult,
        priority: if success {
            Priority::Low
        } else {
            Priority::High
        },
        event: if success {
            EventKey::HeartbeatSucceeded
        } else {
            EventKey::HeartbeatFailed
        },
        title: said("Scheduled task: ", task_name),
        body: result.to_owned(),
        metadata: json::object().with("action", json::string(manage_action)).with(
            "tab",
            json::string("heartbeat"),
        ).with("task_name", json::string(task_name)).with("success", Json::Bool(success)).with(
            "status",
            json::string(status),
        ),
        id: None,
    }
}

// ---------------------------------------------------------------------------
// Review
// ---------------------------------------------------------------------------
/// What a review proposes for the site.
pub struct Review {
    pub why: String,
    pub site_description: Option<String>,
    pub site_keywords: Option<String>,
    pub site_ai_intro: Option<String>,
}

/// A proposal that says something.
pub open spec fn proposed(value: Option<Seq<char>>) -> Option<Seq<char>> {
    match value {
        Some(v) if text::trimmed(v).len() > 0 => Some(text::trimmed(v)),
        _ => None,
    }
}

pub open spec fn with_proposal(
    body: Seq<char>,
    label: Seq<char>,
    value: Option<Seq<char>>,
) -> Seq<char> {
    match proposed(value) {
        Some(v) => (if body.len() > 0 {
            body + "\n\n"@
        } else {
            body
        }) + label + "\n"@ + v,
        None => body,
    }
}

pub open spec fn review_body(review: Review) -> Seq<char> {
    let body = text::trimmed(review.why@);
    let body = with_proposal(body, "site_description"@, text::opt_view(review.site_description));
    let body = with_proposal(body, "site_keywords"@, text::opt_view(review.site_keywords));
    let body = with_proposal(body, "site_ai_intro"@, text::opt_view(review.site_ai_intro));
    text::at_most(body, MAX_REVIEW_CHARS as nat)
}

pub open spec fn with_field(
    metadata: JsonView,
    key: Seq<char>,
    value: Option<Seq<char>>,
) -> JsonView {
    match proposed(value) {
        Some(v) => metadata.with(key, json::text_json(v)),
        None => metadata,
    }
}

pub open spec fn review_metadata(review: Review) -> JsonView {
    let metadata = json::empty().with("task_name"@, json::text_json("SEO review"@)).with(
        "actions"@,
        JsonView::Array(seq![json::empty().with("id"@, json::text_json("apply"@))]),
    );
    let metadata = with_field(
        metadata,
        "site_description"@,
        text::opt_view(review.site_description),
    );
    let metadata = with_field(metadata, "site_keywords"@, text::opt_view(review.site_keywords));
    with_field(metadata, "site_ai_intro"@, text::opt_view(review.site_ai_intro))
}

pub open spec fn review_shown(user_id: int, review: Review) -> NotificationView {
    NotificationView {
        kind: NotificationKind::HeartbeatResult,
        priority: Priority::Normal,
        event: EventKey::HeartbeatSeoReview,
        title: "Agent SEO"@,
        body: review_body(review),
        metadata: review_metadata(review),
        id: Some("seo_review_draft_u"@ + text::decimal(user_id)),
    }
}

fn proposal(value: &Option<String>) -> (r: Option<String>)
    ensures
        text::opt_view(r) == proposed(text::opt_view(*value)),
{
    match value {
        Some(v) => {
            let v = text::trim(v.as_str());
            if v.as_str().is_empty() {
                None
            } else {
                Some(v)
            }
        },
        None => None,
    }
}

fn propose(body: String, label: &str, value: &Option<String>) -> (r: String)
    ensures
        r@ == with_proposal(body@, label@, text::opt_view(*value)),
{
    let mut out = body;
    if let Some(v) = proposal(value) {
        if !out.as_str().is_empty() {
            out.append("\n\n");
        }
        out.append(label);
        out.append("\n");
        out.append(v.as_str());
    }
    out
}

fn put_field(metadata: Json, key: &str, value: &Option<String>) -> (r: Json)
    ensures
        r@ == with_field(metadata@, key@, text::opt_view(*value)),
{
    match proposal(value) {
        Some(v) => metadata.with(key, json::string(v.as_str())),
        None => metadata,
    }
}

/// The draft of a review of the site, for one administrator.
pub fn seo_review_draft(user_id: i32, review: &Review) -> (r: Notification)
    ensures
        r@ == review_shown(user_id as int, *review),
{
    let body = text::trim(review.why.as_str());
    let body = propose(body, "site_description", &review.site_description);
    let body = propose(body, "site_keywords", &review.site_keywords);
    let body = propose(body, "site_ai_intro", &review.site_ai_intro);
    let body = text::take_chars(body.as_str(), MAX_REVIEW_CHARS);
    let apply = json::object().with("id", json::string("apply"));
    let actions: Vec<Json> = vec![apply];
    assert(json::items(actions@) =~= seq![json::empty().with("id"@, json::text_json("apply"@))]);
    let metadata = json::object().with("task_name", json::string("SEO review")).with(
        "actions",
        json::array(actions),
    );
    let metadata = put_field(metadata, "site_description", &review.site_description);
    let metadata = put_field(metadata, "site_keywords", &review.site_keywords);
    let metadata = put_field(metadata, "site_ai_intro", &review.site_ai_intro);
    let user = text::i64_text(user_id as i64);
    Notification {
        kind: NotificationKind::HeartbeatResult,
        priority: Priority::Normal,
        event: EventKey::HeartbeatSeoReview,
        title: "Agent SEO".to_owned(),
        body,
        metadata,
        id: Some(said("seo_review_draft_u", user.as_str())),
    }
}

// ---------------------------------------------------------------------------
// Feeds and platforms
// ---------------------------------------------------------------------------
pub open spec fn new_items_shown(
    source_id: int,
    source_name: Seq<char>,
    new_count: int,
    titles: Seq<Seq<char>>,
) -> NotificationView {
    NotificationView {
        kind: NotificationKind::PhantasiNewItems,
        priority: Priority::Normal,
        event: EventKey::PhantasiNewItems,
        title: source_name + " · "@ + text::decimal(new_count) + " new items"@,
        body: if titles.len() == 0 {
            text::decimal(new_count) + " new items found"@
        } else {
            text::joined(titles, "\n"@)
        },
        metadata: json::empty().with("route"@, json::text_json("/journal"@)).with(
            "source_id"@,
            json::int_json(source_id),
        ).with("source_name"@, json::text_json(source_name)).with(
            "new_count"@,
            json::int_json(new_count),
        ),
        id: None,
    }
}

pub fn phantasi_new_items(
    source_id: i32,
    source_name: &str,
    new_count: i32,
    titles: &Vec<String>,
) -> (r: Notification)
    ensures
        r@ == new_items_shown(
            source_id as int,
            source_name@,
            new_count as int,
            text::views(titles@),
        ),
{
    let count = text::i64_text(new_count as i64);
    let body = if titles.len() == 0 {
        said(count.as_str(), " new items found")
    } else {
        text::join(titles, "\n")
    };
    let mut title = said(source_name, " · ");
    title.append(count.as_str());
    title.append(" new items");
    Notification {
        kind: NotificationKind::PhantasiNewItems,
        priority: Priority::Normal,
        event: EventKey::PhantasiNewItems,
        title,
        body,
        metadata: json::object().with("route", json::string("/journal")).with(
            "source_id",
            json::number(source_id as i64),
        ).with("source_name", json::string(source_name)).with(
            "new_count",
            json::number(new_count as i64),
        ),
        id: None,
    }
}

/// Where a click on an error leads: into the conversation, where there is a
/// speaker to talk to about it, else to the page. There is exactly one target.
pub enum ClickTarget {
    Conversation { action: String, session_id: Option<String> },
    Page,
}

pub open spec fn with_target(metadata: JsonView, target: ClickTarget, route: Seq<char>) -> JsonView {
    match target {
        ClickTarget::Conversation { action, session_id } => metadata.with(
            "action"@,
            json::text_json(action@),
        ).with("session_id"@, json::opt_text_json(text::opt_view(session_id))),
        ClickTarget::Page => metadata.with("route"@, json::text_json(route)),
    }
}

fn put_target(metadata: Json, target: &ClickTarget, route: &str) -> (r: Json)
    ensures
        r@ == with_target(metadata@, *target, route@),
{
    match target {
        ClickTarget::Conversation { action, session_id } => metadata.with(
            "action",
            json::string(action.as_str()),
        ).with("session_id", json::opt_string(session_id)),
        ClickTarget::Page => metadata.with("route", json::string(route)),
    }
}

pub open spec fn source_error_shown(
    source_id: int,
    source_name: Seq<char>,
    error: Seq<char>,
    target: ClickTarget,
) -> NotificationView {
    NotificationView {
        kind: NotificationKind::PhantasiSourceError,
        priority: Priority::High,
        event: EventKey::PhantasiSourceError,
        title: source_name + " feed failed repeatedly"@,
        body: error,
        metadata: with_target(
            json::empty().with("source_id"@, json::int_json(source_id)).with(
                "source_name"@,
                json::text_json(source_name),
            ).with("status"@, json::text_json("failed"@)),
            target,
            "/journal"@,
        ),
        id: None,
    }
}

pub fn phantasi_source_error(
    source_id: i32,
    source_name: &str,
    error: &str,
    target: &ClickTarget,
) -> (r: Notification)
    ensures
        r@ == source_error_shown(source_id as int, source_name@, error@, *target),
{
    Notification {
        kind: NotificationKind::PhantasiSourceError,
        priority: Priority::High,
        event: EventKey::PhantasiSourceError,
        title: said(source_name, " feed failed repeatedly"),
        body: error.to_owned(),
        metadata: put_target(
            json::object().with("source_id", json::number(source_id as i64)).with(
                "source_name",
                json::string(source_name),
            ).with("status", json::string("failed")),
            target,
            "/journal",
        ),
        id: None,
    }
}

pub open spec fn sync_error_shown(
    platform: Seq<char>,
    error: Seq<char>,
    target: ClickTarget,
) -> NotificationView {
    NotificationView {
        kind: NotificationKind::SystemInfo,
        priority: Priority::High,
        event: EventKey::PlatformSyncFailed,
        title: platform + " auto-refresh failed"@,
        body: error,
        metadata: with_target(
            json::empty().with("platform"@, json::text_json(platform)).with(
                "status"@,
                json::text_json("failed"@),
            ),
            target,
            "/config?section=platforms"@,
        ),
        id: None,
    }
}

pub fn platform_sync_error(platform: &str, error: &str, target: &ClickTarget) -> (r: Notification)
    ensures
        r@ == sync_error_shown(platform@, error@, *target),
{
    Notification {
        kind: NotificationKind::SystemInfo,
        priority: Priority::High,
        event: EventKey::PlatformSyncFailed,
        title: said(platform, " auto-refresh failed"),
        body: error.to_owned(),
        metadata: put_target(
            json::object().with("platform", json::string(platform)).with(
                "status",
                json::string("failed"),
            ),
            target,
            "/config?section=platforms",
        ),
        id: None,
    }
}

// ---------------------------------------------------------------------------
// Skills, servers, apps, updates
// ---------------------------------------------------------------------------
pub open spec fn skill_shown(
    manage_action: Seq<char>,
    skill_id: Seq<char>,
    action: Seq<char>,
    detail: Seq<char>,
) -> NotificationView {
    NotificationView {
        kind: NotificationKind::SystemInfo,
        priority: if action == "pruned"@ {
            Priority::Normal
        } else {
            Priority::Low
        },
        event: if action == "pruned"@ {
            EventKey::SkillPruned
        } else if action == "improved"@ {
            EventKey::SkillImproved
        } else {
            EventKey::SkillChanged
        },
        title: if action == "pruned"@ {
            "Skill removed: "@ + skill_id
        } else if action == "improved"@ {
            "Skill improved: "@ + skill_id
        } else {
            "Skill changed ("@ + action + "): "@ + skill_id
        },
        body: detail,
        metadata: json::empty().with("action"@, json::text_json(manage_action)).with(
            "tab"@,
            json::text_json("skills"@),
        ).with("skill_id"@, json::text_json(skill_id)).with("status"@, json::text_json(action)),
        id: None,
    }
}

/// That a skill was removed, improved or otherwise changed.
pub fn skill_evolution(manage_action: &str, skill_id: &str, action: &str, detail: &str) -> (r:
    Notification)
    ensures
        r@ == skill_shown(manage_action@, skill_id@, action@, detail@),
{
    let (title, event, priority) = if text::eq(action, "pruned") {
        (said("Skill removed: ", skill_id), EventKey::SkillPruned, Priority::Normal)
    } else if text::eq(action, "improved") {
        (said("Skill improved: ", skill_id), EventKey::SkillImproved, Priority::Low)
    } else {
        let mut title = said("Skill changed (", action);
        title.append("): ");
        title.append(skill_id);
        (title, EventKey::SkillChanged, Priority::Low)
    };
    Notification {
        kind: NotificationKind::SystemInfo,
        priority,
        event,
        title,
        body: detail.to_owned(),
        metadata: json::object().with("action", json::string(manage_action)).with(
            "tab",
            json::string("skills"),
        ).with("skill_id", json::string(skill_id)).with("status", json::string(action)),
        id: None,
    }
}

/// The MD5 digest of the text's bytes, in lower-case hexadecimal digits.
pub uninterp spec fn md5_hex(s: Seq<char>) -> Seq<char>;

/// Calls `md5::compute` on the bytes of the text and writes the digest with
/// `{:x}`. The digest is named, not stated.
#[verifier::external_body]
fn digest_hex(s: &str) -> (r: String)
    ensures
        r@ == md5_hex(s@),
{
    format!("{:x}", md5::compute(s.as_bytes()))
}

pub open spec fn digest_id(prefix: Seq<char>, digest: Seq<char>, user_id: int) -> Seq<char> {
    prefix + digest + "_u"@ + text::decimal(user_id)
}

fn id_of_digest(prefix: &str, digest: &str, user_id: i32) -> (r: String)
    ensures
        r@ == digest_id(prefix@, digest@, user_id as int),
{
    let mut out = said(prefix, digest);
    out.append("_u");
    let user = text::i64_text(user_id as i64);
    out.append(user.as_str());
    out
}

pub open spec fn server_shown(
    user_id: int,
    server_id: Seq<char>,
    digest: Seq<char>,
    connected: bool,
    detail: Seq<char>,
) -> NotificationView {
    NotificationView {
        kind: NotificationKind::McpServerStatus,
        priority: if connected {
            Priority::Low
        } else {
            Priority::High
        },
        event: if connected {
            EventKey::McpConnected
        } else {
            EventKey::McpDisconnected
        },
        title: "MCP "@ + server_id + (if connected {
            " connected"@
        } else {
            " disconnected"@
        }),
        body: detail,
        metadata: json::empty().with("route"@, json::text_json("/config?section=about"@)).with(
            "server_id"@,
            json::text_json(server_id),
        ).with(
            "status"@,
            json::text_json(
                if connected {
                    "connected"@
                } else {
                    "failed"@
                },
            ),
        ),
        id: Some(digest_id("mcp_"@, digest, user_id)),
    }
}

/// Whether an outside server is connected, given the digest of its identifier.
pub fn server_status_with(
    user_id: i32,
    server_id: &str,
    digest: &str,
    connected: bool,
    detail: &str,
) -> (r: Notification)
    ensures
        r@ == server_shown(user_id as int, server_id@, digest@, connected, detail@),
{
    let mut title = said("MCP ", server_id);
    let (priority, event, status) = if connected {
        title.append(" connected");
        (Priority::Low, EventKey::McpConnected, "connected")
    } else {
        title.append(" disconnected");
        (Priority::High, EventKey::McpDisconnected, "failed")
    };
    Notification {
        kind: NotificationKind::McpServerStatus,
        priority,
        event,
        title,
        body: detail.to_owned(),
        metadata: json::object().with("route", json::string("/config?section=about")).with(
            "server_id",
            json::string(server_id),
        ).with("status", json::string(status)),
        id: Some(id_of_digest("mcp_", digest, user_id)),
    }
}

pub fn mcp_server_status(user_id: i32, server_id: &str, connected: bool, detail: &str) -> (r:
    Notification)
    ensures
        r@ == server_shown(
            user_id as int,
            server_id@,
            md5_hex(server_id@),
            connected,
            detail@,
        ),
{
    let digest = digest_hex(server_id);
    server_status_with(user_id, server_id, digest.as_str(), connected, detail)
}

pub open spec fn app_priority(notification_type: Seq<char>) -> (Priority, EventKey) {
    if notification_type == "error"@ || notification_type == "danger"@ {
        (Priority::High, EventKey::TappError)
    } else if notification_type == "warning"@ {
        (Priority::Normal, EventKey::TappWarning)
    } else {
        (Priority::Low, EventKey::TappMessage)
    }
}

pub open spec fn app_shown(
    tapp_id: Seq<char>,
    title: Option<Seq<char>>,
    message: Seq<char>,
    notification_type: Seq<char>,
) -> NotificationView {
    NotificationView {
        kind: NotificationKind::TappNotification,
        priority: app_priority(notification_type).0,
        event: app_priority(notification_type).1,
        title: match title {
            Some(t) => t,
            None => "App notification"@,
        },
        body: message,
        metadata: json::empty().with("route"@, json::text_json("/tapp/run/"@ + tapp_id)).with(
            "tapp_id"@,
            json::text_json(tapp_id),
        ).with("tapp_notification_type"@, json::text_json(notification_type)),
        id: None,
    }
}

/// What an app tells its user.
pub fn tapp_notification(
    tapp_id: &str,
    title: &Option<String>,
    message: &str,
    notification_type: &str,
) -> (r: Notification)
    ensures
        r@ == app_shown(tapp_id@, text::opt_view(*title), message@, notification_type@),
{
    let (priority, event) = if text::eq(notification_type, "error") || text::eq(
        notification_type,
        "danger",
    ) {
        (Priority::High, EventKey::TappError)
    } else if text::eq(notification_type, "warning") {
        (Priority::Normal, EventKey::TappWarning)
    } else {
        (Priority::Low, EventKey::TappMessage)
    };
    let route = said("/tapp/run/", tapp_id);
    Notification {
        kind: NotificationKind::TappNotification,
        priority,
        event,
        title: match title {
            Some(t) => t.clone(),
            None => "App notification".to_owned(),
        },
        body: message.to_owned(),
        metadata: json::object().with("route", json::string(route.as_str())).with(
            "tapp_id",
            json::string(tapp_id),
        ).with("tapp_notification_type", json::string(notification_type)),
        id: None,
    }
}

/// How the state of an update is told.
pub open spec fn update_told(status: Seq<char>) -> (Seq<char>, Priority, EventKey) {
    if status == "succeeded"@ {
        ("System update finished"@, Priority::Normal, EventKey::UpdaterSucceeded)
    } else if status == "failed"@ {
        ("System update failed"@, Priority::High, EventKey::UpdaterFailed)
    } else if status == "needs_manual"@ {
        ("System update needs attention"@, Priority::Urgent, EventKey::UpdaterNeedsManual)
    } else if status == "running"@ {
        ("System update is running"@, Priority::Low, EventKey::UpdaterRunning)
    } else if status == "unknown"@ {
        ("System update status unknown"@, Priority::High, EventKey::UpdaterUnknown)
    } else {
        ("System update submitted"@, Priority::Low, EventKey::UpdaterSubmitted)
    }
}

fn tell_update(status: &str) -> (r: (&'static str, Priority, EventKey))
    ensures
        (r.0@, r.1, r.2) == update_told(status@),
{
    if text::eq(status, "succeeded") {
        ("System update finished", Priority::Normal, EventKey::UpdaterSucceeded)
    } else if text::eq(status, "failed") {
        ("System update failed", Priority::High, EventKey::UpdaterFailed)
    } else if text::eq(status, "needs_manual") {
        ("System update needs attention", Priority::Urgent, EventKey::UpdaterNeedsManual)
    } else if text::eq(status, "running") {
        ("System update is running", Priority::Low, EventKey::UpdaterRunning)
    } else if text::eq(status, "unknown") {
        ("System update status unknown", Priority::High, EventKey::UpdaterUnknown)
    } else {
        ("System update submitted", Priority::Low, EventKey::UpdaterSubmitted)
    }
}

pub open spec fn update_shown(
    user_id: int,
    job_id: Seq<char>,
    digest: Seq<char>,
    kind: Seq<char>,
    status: Seq<char>,
    detail: Seq<char>,
) -> NotificationView {
    NotificationView {
        kind: NotificationKind::UpdaterStatus,
        priority: update_told(status).1,
        event: update_told(status).2,
        title: update_told(status).0,
        body: detail,
        metadata: json::empty().with("route"@, json::text_json("/config?section=about"@)).with(
            "job_id"@,
            json::text_json(job_id),
        ).with("kind"@, json::text_json(kind)).with("status"@, json::text_json(status)),
        id: Some(digest_id("upd_"@, digest, user_id)),
    }
}

/// The state of an update, given the digest of its job's identifier.
pub fn updater_job_with(
    user_id: i32,
    job_id: &str,
    digest: &str,
    kind: &str,
    status: &str,
    detail: &str,
) -> (r: Notification)
    ensures
        r@ == update_shown(user_id as int, job_id@, digest@, kind@, status@, detail@),
{
    let (title, priority, event) = tell_update(status);
    Notification {
        kind: NotificationKind::UpdaterStatus,
        priority,
        event,
        title: title.to_owned(),
        body: detail.to_owned(),
        metadata: json::object().with("route", json::string("/config?section=about")).with(
            "job_id",
            json::string(job_id),
        ).with("kind", json::string(kind)).with("status", json::string(status)),
        id: Some(id_of_digest("upd_", digest, user_id)),
    }
}

pub fn updater_job(user_id: i32, job_id: &str, kind: &str, status: &str, detail: &str) -> (r:
    Notification)
    ensures
        r@ == update_shown(
            user_id as int,
            job_id@,
            md5_hex(job_id@),
            kind@,
            status@,
            detail@,
        ),
{
    let digest = digest_hex(job_id);
    updater_job_with(user_id, job_id, digest.as_str(), kind, status, detail)
}

// ---------------------------------------------------------------------------
// Laws
// ---------------------------------------------------------------------------
/// The states of one job go to one notification: its identifier does not depend
/// on the state, so that a later state replaces an earlier one.
pub proof fn states_of_a_job_share_a_notification(
    user_id: int,
    job_id: Seq<char>,
    digest: Seq<char>,
    kind: Seq<char>,
    first: Seq<char>,
    then_state: Seq<char>,
    detail: Seq<char>,
    more: Seq<char>,
)
    ensures
        update_shown(user_id, job_id, digest, kind, first, detail).id == update_shown(
            user_id,
            job_id,
            digest,
            kind,
            then_state,
            more,
        ).id,
{
}

/// An error notification has exactly one click target.
pub proof fn errors_have_one_target(metadata: JsonView, target: ClickTarget, route: Seq<char>)
    requires
        metadata is Object,
        metadata.get("action"@) is None,
        metadata.get("route"@) is None,
    ensures
        (with_target(metadata, target, route).get("action"@) is Some) != (with_target(
            metadata,
            target,
            route,
        ).get("route"@) is Some),
{
    reveal_strlit("action");
    reveal_strlit("route");
    reveal_strlit("session_id");
    assert("action"@.len() == 6 && "route"@.len() == 5 && "session_id"@.len() == 10);
    let o = metadata->Object_0;
    match target {
        ClickTarget::Conversation { action, session_id } => {
            let a = json::text_json(action@);
            let s = json::opt_text_json(text::opt_view(session_id));
            json::lookup_after_put(o, "action"@, a, "action"@);
            json::lookup_after_put(o, "action"@, a, "route"@);
            json::lookup_after_put(o.push(("action"@, a)), "session_id"@, s, "action"@);
            json::lookup_after_put(o.push(("action"@, a)), "session_id"@, s, "route"@);
        },
        ClickTarget::Page => {
            let r = json::text_json(route);
            json::lookup_after_put(o, "route"@, r, "route"@);
            json::lookup_after_put(o, "route"@, r, "action"@);
        },
    }
}

/// How urgent something is, as a number.
pub open spec fn urgency(p: Priority) -> int {
    match p {
        Priority::Low => 0,
        Priority::Normal => 1,
        Priority::High => 2,
        Priority::Urgent => 3,
    }
}

/// What went wrong is more urgent than what went well, and what needs a hand is
/// the most urgent of all.
pub proof fn failures_are_more_urgent(
    action: Seq<char>,
    name: Seq<char>,
    result: Seq<char>,
    user_id: int,
    digest: Seq<char>,
    target: ClickTarget,
    status: Seq<char>,
)
    ensures
        urgency(heartbeat_shown(action, name, result, false).priority) > urgency(
            heartbeat_shown(action, name, result, true).priority,
        ),
        urgency(server_shown(user_id, name, digest, false, result).priority) > urgency(
            server_shown(user_id, name, digest, true, result).priority,
        ),
        urgency(source_error_shown(user_id, name, result, target).priority) > urgency(
            new_items_shown(user_id, name, 1, Seq::empty()).priority,
        ),
        urgency(sync_error_shown(name, result, target).priority) >= 2,
        urgency(app_priority("error"@).0) > urgency(app_priority("warning"@).0) > urgency(
            app_priority("info"@).0,
        ),
        app_priority("danger"@) == app_priority("error"@),
        urgency(update_told(status).1) <= urgency(update_told("needs_manual"@).1),
        urgency(update_told("needs_manual"@).1) > urgency(update_told("failed"@).1) > urgency(
            update_told("succeeded"@).1,
        ) > urgency(update_told("running"@).1),
{
    reveal_strlit("error");
    reveal_strlit("danger");
    reveal_strlit("warning");
    reveal_strlit("info");
    assert("error"@.len() == 5 && "danger"@.len() == 6 && "warning"@.len() == 7 && "info"@.len() == 4);
    reveal_strlit("succeeded");
    reveal_strlit("failed");
    reveal_strlit("needs_manual");
    reveal_strlit("running");
    reveal_strlit("unknown");
    assert("succeeded"@.len() == 9 && "failed"@.len() == 6 && "needs_manual"@.len() == 12
        && "running"@.len() == 7 && "unknown"@.len() == 7 && "running"@[0] == 'r' && "unknown"@[0]
        == 'u');
}

/// A notification says of what it is and what happened.
pub proof fn notifications_say_what_happened(
    action: Seq<char>,
    name: Seq<char>,
    result: Seq<char>,
    success: bool,
    source_id: int,
    target: ClickTarget,
)
    ensures
        ({
            let beat = heartbeat_shown(action, name, result, success);
            &&& beat.title == "Scheduled task: "@ + name
            &&& beat.body == result
            &&& beat.metadata.bool_at("success"@) == Some(success)
            &&& beat.metadata.text_at("task_name"@) == Some(name)
            &&& beat.event is HeartbeatSucceeded <==> success
            &&& beat.event is HeartbeatFailed <==> !success
        }),
        source_error_shown(source_id, name, result, target).body == result,
        source_error_shown(source_id, name, result, target).title == name
            + " feed failed repeatedly"@,
        sync_error_shown(name, result, target).body == result,
        sync_error_shown(name, result, target).title == name + " auto-refresh failed"@,
{
    reveal_strlit("action");
    reveal_strlit("tab");
    reveal_strlit("task_name");
    reveal_strlit("success");
    assert("action"@.len() == 6 && "tab"@.len() == 3 && "task_name"@.len() == 9 && "success"@.len()
        == 7);
    reveal_with_fuel(json::key_from, 5);
}

/// Two people never share a notification.
pub proof fn each_person_has_their_own_notification(
    prefix: Seq<char>,
    digest: Seq<char>,
    one: int,
    other: int,
)
    requires
        one != other,
    ensures
        digest_id(prefix, digest, one) != digest_id(prefix, digest, other),
{
    reveal_strlit("_u");
    let a = digest_id(prefix, digest, one);
    let b = digest_id(prefix, digest, other);
    if a == b {
        let n = prefix.len() + digest.len() + 2;
        assert(a.skip(n as int) =~= text::decimal(one));
        assert(b.skip(n as int) =~= text::decimal(other));
        text::decimal_reads_back(one);
        text::decimal_reads_back(other);
    }
}

/// A review carries what it proposes, each under its name and without the space
/// around it, and nothing where it proposes nothing.
pub proof fn reviews_carry_what_they_propose(review: Review)
    ensures
        ({
            let m = review_metadata(review);
            &&& m.text_at("site_description"@) == proposed(text::opt_view(review.site_description))
            &&& m.text_at("site_keywords"@) == proposed(text::opt_view(review.site_keywords))
            &&& m.text_at("site_ai_intro"@) == proposed(text::opt_view(review.site_ai_intro))
        }),
        review_body(review).len() <= 4000,
        proposed(text::opt_view(review.site_description)) is None && proposed(
            text::opt_view(review.site_keywords),
        ) is None && proposed(text::opt_view(review.site_ai_intro)) is None && text::trimmed(
            review.why@,
        ).len() <= 4000 ==> review_body(review) == text::trimmed(review.why@),
{
    reveal_strlit("task_name");
    reveal_strlit("actions");
    reveal_strlit("site_description");
    reveal_strlit("site_keywords");
    reveal_strlit("site_ai_intro");
    assert("task_name"@.len() == 9 && "actions"@.len() == 7 && "site_description"@.len() == 16
        && "site_keywords"@.len() == 13 && "site_ai_intro"@.len() == 13 && "site_keywords"@[5] == 'k'
        && "site_ai_intro"@[5] == 'a');
    reveal_with_fuel(json::key_from, 6);
    let body = text::trimmed(review.why@);
    if body.len() <= 4000 {
        assert(text::at_most(body, 4000) =~= body);
    }
}

/// What a person proposes counts where it says something.
pub proof fn blank_proposals_are_none(value: Option<Seq<char>>)
    ensures
        proposed(value) is Some <==> (value matches Some(v) && text::trimmed(v).len() > 0),
        proposed(value) matches Some(v) ==> value is Some && v == text::trimmed(value->0),
{
}

/// What became of a skill is said in the title, by its name; one that is gone
/// matters more than one that changed.
pub proof fn skills_are_told_by_what_became_of_them(
    manage: Seq<char>,
    skill: Seq<char>,
    action: Seq<char>,
    detail: Seq<char>,
)
    ensures
        ({
            let shown = skill_shown(manage, skill, action, detail);
            &&& shown.body == detail
            &&& shown.event is SkillPruned <==> action == "pruned"@
            &&& shown.event is SkillImproved <==> action == "improved"@
            &&& action == "pruned"@ ==> shown.title == "Skill removed: "@ + skill && urgency(
                shown.priority,
            ) == 1
            &&& action == "improved"@ ==> shown.title == "Skill improved: "@ + skill
            &&& action != "pruned"@ && action != "improved"@ ==> shown.title == "Skill changed ("@
                + action + "): "@ + skill
            &&& action != "pruned"@ ==> urgency(shown.priority) == 0
        }),
{
    reveal_strlit("pruned");
    reveal_strlit("improved");
    assert("pruned"@.len() == 6 && "improved"@.len() == 8);
}

/// An app's notification has its title, or a plain one, and leads to the app.
pub proof fn app_notifications_lead_to_the_app(
    tapp_id: Seq<char>,
    title: Option<Seq<char>>,
    message: Seq<char>,
    kind: Seq<char>,
)
    ensures
        ({
            let shown = app_shown(tapp_id, title, message, kind);
            &&& shown.body == message
            &&& title matches Some(t) ==> shown.title == t
            &&& title is None ==> shown.title == "App notification"@
            &&& shown.metadata.text_at("route"@) == Some("/tapp/run/"@ + tapp_id)
            &&& urgency(shown.priority) == 2 <==> kind == "error"@ || kind == "danger"@
            &&& urgency(shown.priority) == 1 <==> kind == "warning"@
        }),
{
    reveal_with_fuel(json::key_from, 2);
    reveal_strlit("error");
    reveal_strlit("danger");
    reveal_strlit("warning");
    assert("error"@.len() == 5 && "danger"@.len() == 6 && "warning"@.len() == 7);
}

} // verus!
