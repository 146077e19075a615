//! What the agent may do for whom.
use crate::text;
use vstd::prelude::*;

verus! {

/// The first permission of `required`, from position `i`, that is not granted.
pub open spec fn first_missing(granted: Seq<Seq<char>>, required: Seq<Seq<char>>, i: int) -> Option<
    Seq<char>,
>
    decreases required.len() - i,
{
    if i < 0 || i >= required.len() {
        None
    } else if !granted.contains(required[i]) {
        Some(required[i])
    } else {
        first_missing(granted, required, i + 1)
    }
}

pub open spec fn missing_text(capability_id: Seq<char>, permission: Seq<char>) -> Seq<char> {
    "权限不足：执行 '"@ + capability_id + "' 需要 '"@ + permission + "' 权限"@
}

/// Why a step may not run: a permission that it needs is not granted. `None`
/// when it may run.
pub fn missing_permission(granted: &Vec<String>, capability_id: &str, required: &Vec<String>) -> (r:
    Option<String>)
    ensures
        match first_missing(text::views(granted@), text::views(required@), 0) {
            Some(p) => r matches Some(m) && m@ == missing_text(capability_id@, p),
            None => r is None,
        },
{
    let ghost needed = text::views(required@);
    let mut i: usize = 0;
    while i < required.len()
        invariant
            i <= required@.len(),
            needed == text::views(required@),
            first_missing(text::views(granted@), needed, 0) == first_missing(
                text::views(granted@),
                needed,
                i as int,
            ),
        decreases required@.len() - i,
    {
        if !text::list_contains(granted, required[i].as_str()) {
            let mut out = "权限不足：执行 '".to_owned();
            out.append(capability_id);
            out.append("' 需要 '");
            out.append(required[i].as_str());
            out.append("' 权限");
            return Some(out);
        }
        i = i + 1;
    }
    None
}

/// A step runs exactly when every permission that it needs is granted.
pub proof fn a_step_needs_all_its_permissions(
    granted: Seq<Seq<char>>,
    required: Seq<Seq<char>>,
    i: int,
)
    requires
        0 <= i,
    ensures
        first_missing(granted, required, i) is None <==> (forall|k: int|
            i <= k < required.len() ==> granted.contains(#[trigger] required[k])),
        first_missing(granted, required, i) matches Some(p) ==> !granted.contains(p),
    decreases required.len() - i,
{
    if i < required.len() && granted.contains(required[i]) {
        a_step_needs_all_its_permissions(granted, required, i + 1);
    }
}

// ---------------------------------------------------------------------------
// Autonomy
// ---------------------------------------------------------------------------
/// The permissions that lie within the cap of the turn.
pub open spec fn capped(current: Seq<Seq<char>>, cap: Option<Seq<Seq<char>>>) -> Seq<Seq<char>> {
    match cap {
        Some(c) => current.filter(|p: Seq<char>| c.contains(p)),
        None => current,
    }
}

pub open spec fn opt_views(list: Option<Vec<String>>) -> Option<Seq<Seq<char>>> {
    match list {
        Some(v) => Some(text::views(v@)),
        None => None,
    }
}

fn effective_granted_permissions(current: &Vec<String>, cap: &Option<Vec<String>>) -> (r: Vec<
    String,
>)
    ensures
        text::views(r@) == capped(text::views(current@), opt_views(*cap)),
{
    let cap = match cap {
        Some(cap) => cap,
        None => return text::clone_list(current),
    };
    let ghost all = text::views(current@);
    let ghost limit = Some(text::views(cap@));
    let mut out: Vec<String> = Vec::new();
    let mut i: usize = 0;
    proof {
        reveal(Seq::filter);
        assert(text::views(out@) =~= capped(all.take(0), limit));
    }
    while i < current.len()
        invariant
            i <= current@.len(),
            all == text::views(current@),
            limit == Some(text::views(cap@)),
            text::views(out@) == capped(all.take(i as int), limit),
        decreases current@.len() - i,
    {
        proof {
            reveal(Seq::filter);
            assert(all.take(i + 1).drop_last() =~= all.take(i as int));
            assert(all.take(i + 1).last() == current@[i as int]@);
        }
        if text::list_contains(cap, current[i].as_str()) {
            let name = current[i].clone();
            proof {
                text::views_push(out@, name);
            }
            out.push(name);
        }
        i = i + 1;
    }
    assert(all.take(all.len() as int) =~= all);
    out
}

/// What a step may use now. A turn that runs under personal autonomy has a cap,
/// and its grant is looked up again for each step: `grant` says whether it still
/// stands, and is `None` where that could not be read.
pub fn effective_granted(
    current: &Vec<String>,
    cap: &Option<Vec<String>>,
    grant: Option<bool>,
) -> (r: Result<Vec<String>, &'static str>)
    ensures
        if *cap is Some && grant is None {
            r matches Err(m) && m@ == "Unable to verify autonomy grant"@
        } else if *cap is Some && grant == Some(false) {
            r matches Err(m) && m@ == "Personal autonomy is no longer granted"@
        } else {
            r matches Ok(v) && text::views(v@) == capped(text::views(current@), opt_views(*cap))
        },
{
    if cap.is_some() {
        match grant {
            None => return Err("Unable to verify autonomy grant"),
            Some(false) => return Err("Personal autonomy is no longer granted"),
            Some(true) => {},
        }
    }
    Ok(effective_granted_permissions(current, cap))
}

/// Whether a capability has every permission that it needs, under a grant that
/// still stands where the turn runs under personal autonomy.
pub open spec fn authorized(
    current: Seq<Seq<char>>,
    cap: Option<Seq<Seq<char>>>,
    grant: Option<bool>,
    required: Seq<Seq<char>>,
) -> bool {
    &&& cap is Some ==> (grant matches Some(stands) && stands)
    &&& first_missing(capped(current, cap), required, 0) is None
}

/// What a capability may use now, once it has every permission that it needs. The
/// result is the granted set, for checks that depend on parameters.
pub fn authorize_capability(
    current: &Vec<String>,
    cap: &Option<Vec<String>>,
    grant: Option<bool>,
    capability_id: &str,
    required: &Vec<String>,
) -> (r: Result<Vec<String>, String>)
    ensures
        if *cap is Some && grant is None {
            r matches Err(m) && m@ == "Unable to verify autonomy grant"@
        } else if *cap is Some && grant == Some(false) {
            r matches Err(m) && m@ == "Personal autonomy is no longer granted"@
        } else {
            let granted = capped(text::views(current@), opt_views(*cap));
            match first_missing(granted, text::views(required@), 0) {
                Some(p) => r matches Err(m) && m@ == missing_text(capability_id@, p),
                None => r matches Ok(v) && text::views(v@) == granted,
            }
        },
        r is Ok <==> authorized(
            text::views(current@),
            opt_views(*cap),
            grant,
            text::views(required@),
        ),
{
    match effective_granted(current, cap, grant) {
        Err(message) => Err(message.to_owned()),
        Ok(granted) => match missing_permission(&granted, capability_id, required) {
            Some(message) => Err(message),
            None => Ok(granted),
        },
    }
}

/// What a capability is authorized for, the user has, and the cap of the turn
/// allows.
pub proof fn authorized_is_granted_and_allowed(
    current: Seq<Seq<char>>,
    cap: Option<Seq<Seq<char>>>,
    grant: Option<bool>,
    required: Seq<Seq<char>>,
    k: int,
)
    requires
        authorized(current, cap, grant, required),
        0 <= k < required.len(),
    ensures
        current.contains(required[k]),
        cap matches Some(c) ==> c.contains(required[k]),
{
    a_step_needs_all_its_permissions(capped(current, cap), required, 0);
    autonomy_only_narrows(current, cap, required[k]);
}

/// Autonomy never adds a permission, whatever its cap says.
pub proof fn autonomy_only_narrows(current: Seq<Seq<char>>, cap: Option<Seq<Seq<char>>>, p: Seq<char>)
    ensures
        capped(current, cap).contains(p) ==> current.contains(p),
        cap matches Some(c) ==> (capped(current, cap).contains(p) <==> current.contains(p)
            && c.contains(p)),
    decreases current.len(),
{
    if let Some(c) = cap {
        reveal(Seq::filter);
        if current.len() > 0 {
            let front = current.drop_last();
            autonomy_only_narrows(front, cap, p);
            let before = capped(front, cap);
            let after = capped(current, cap);
            if current.contains(p) {
                let i = choose|i: int| 0 <= i < current.len() && current[i] == p;
                if i < front.len() {
                    assert(front[i] == p);
                } else if c.contains(p) {
                    assert(after[before.len() as int] == p);
                }
            }
            if before.contains(p) {
                let i = choose|i: int| 0 <= i < before.len() && before[i] == p;
                assert(after[i] == p);
            }
            if front.contains(p) {
                let i = choose|i: int| 0 <= i < front.len() && front[i] == p;
                assert(current[i] == p);
            }
            if after.contains(p) {
                let i = choose|i: int| 0 <= i < after.len() && after[i] == p;
                if i < before.len() {
                    assert(before[i] == p);
                } else {
                    assert(current[current.len() - 1] == p);
                }
            }
        }
    }
}

// ---------------------------------------------------------------------------
// Permissions of the agent and of apps
// ---------------------------------------------------------------------------
/// A permission of apps, as far as the agent's own permissions map to them.
#[derive(Clone, Copy, Debug, PartialEq, Eq, Structural)]
pub enum TappPermission {
    AiChat,
    AiAnalyze,
    AiImage,
    ThreeDGenerate,
    AiSearch,
    AiGenerate,
    PhantasiRead,
    PhantasiWrite,
    PhantasiManage,
    ReportRead,
    ReportWrite,
    PlatformRead,
    PlatformWrite,
    TappListRead,
    NetworkFetch,
    SchedulerRegister,
    StorageRead,
    StorageWrite,
    SpeechTts,
    MediaControl,
    MediaRead,
    UiNotification,
}

/// The permission of apps that a permission of the agent stands for. Tools of
/// outside servers have none, so the switch for network requests does not hand
/// them out.
pub open spec fn tapp_of(perm: Seq<char>) -> Option<TappPermission> {
    if perm == "ai:chat"@ {
        Some(TappPermission::AiChat)
    } else if perm == "ai:analyze"@ {
        Some(TappPermission::AiAnalyze)
    } else if perm == "ai:image"@ {
        Some(TappPermission::AiImage)
    } else if perm == "3d:generate"@ {
        Some(TappPermission::ThreeDGenerate)
    } else if perm == "ai:search"@ {
        Some(TappPermission::AiSearch)
    } else if perm == "ai:generate"@ {
        Some(TappPermission::AiGenerate)
    } else if perm == "phantasi:read"@ {
        Some(TappPermission::PhantasiRead)
    } else if perm == "phantasi:write"@ {
        Some(TappPermission::PhantasiWrite)
    } else if perm == "report:read"@ {
        Some(TappPermission::ReportRead)
    } else if is_platform_read(perm) {
        Some(TappPermission::PlatformRead)
    } else if perm == "tapp:read"@ {
        Some(TappPermission::TappListRead)
    } else if perm == "phantasi:manage"@ || perm == "phantasi:admin"@ {
        Some(TappPermission::PhantasiManage)
    } else if perm == "report:write"@ {
        Some(TappPermission::ReportWrite)
    } else if is_network(perm) {
        Some(TappPermission::NetworkFetch)
    } else if perm == "scheduler:read"@ || perm == "scheduler:write"@ {
        Some(TappPermission::SchedulerRegister)
    } else if is_own_content(perm) {
        Some(TappPermission::StorageWrite)
    } else if perm == "speech:tts"@ {
        Some(TappPermission::SpeechTts)
    } else if perm == "music:control"@ {
        Some(TappPermission::MediaControl)
    } else if perm == "music:read"@ {
        Some(TappPermission::MediaRead)
    } else if perm == "platform:write"@ {
        Some(TappPermission::PlatformWrite)
    } else {
        None
    }
}

/// Reading what the platforms or the site show.
pub open spec fn is_platform_read(perm: Seq<char>) -> bool {
    ||| perm == "platform:read"@
    ||| perm == "steam:read"@
    ||| perm == "bilibili:read"@
    ||| perm == "bangumi:read"@
    ||| perm == "github:read"@
    ||| perm == "netease:read"@
    ||| perm == "weather:read"@
    ||| perm == "metadata:read"@
    ||| perm == "profile:read"@
    ||| perm == "random:read"@
    ||| perm == "search:read"@
    ||| perm == "rsshub:read"@
}

/// Requests to other sites.
pub open spec fn is_network(perm: Seq<char>) -> bool {
    ||| perm == "http:fetch"@
    ||| perm == "web:scrape"@
    ||| perm == "proxy:read"@
    ||| perm == "notion:read"@
}

/// Keeping content of one's own.
pub open spec fn is_own_content(perm: Seq<char>) -> bool {
    ||| perm == "storage:write"@
    ||| perm == "tapp:write"@
    ||| perm == "tapp:interact"@
    ||| perm == "content:write"@
    ||| perm == "reminder:write"@
    ||| perm == "note:write"@
    ||| perm == "bookmark:write"@
}

pub fn agent_perm_to_tapp(perm: &str) -> (r: Option<TappPermission>)
    ensures
        r == tapp_of(perm@),
{
    if text::eq(perm, "ai:chat") {
        Some(TappPermission::AiChat)
    } else if text::eq(perm, "ai:analyze") {
        Some(TappPermission::AiAnalyze)
    } else if text::eq(perm, "ai:image") {
        Some(TappPermission::AiImage)
    } else if text::eq(perm, "3d:generate") {
        Some(TappPermission::ThreeDGenerate)
    } else if text::eq(perm, "ai:search") {
        Some(TappPermission::AiSearch)
    } else if text::eq(perm, "ai:generate") {
        Some(TappPermission::AiGenerate)
    } else if text::eq(perm, "phantasi:read") {
        Some(TappPermission::PhantasiRead)
    } else if text::eq(perm, "phantasi:write") {
        Some(TappPermission::PhantasiWrite)
    } else if text::eq(perm, "report:read") {
        Some(TappPermission::ReportRead)
    } else if text::eq(perm, "platform:read") || text::eq(perm, "steam:read") || text::eq(
        perm,
        "bilibili:read",
    ) || text::eq(perm, "bangumi:read") || text::eq(perm, "github:read") || text::eq(
        perm,
        "netease:read",
    ) || text::eq(perm, "weather:read") || text::eq(perm, "metadata:read") || text::eq(
        perm,
        "profile:read",
    ) || text::eq(perm, "random:read") || text::eq(perm, "search:read") || text::eq(
        perm,
        "rsshub:read",
    ) {
        Some(TappPermission::PlatformRead)
    } else if text::eq(perm, "tapp:read") {
        Some(TappPermission::TappListRead)
    } else if text::eq(perm, "phantasi:manage") || text::eq(perm, "phantasi:admin") {
        Some(TappPermission::PhantasiManage)
    } else if text::eq(perm, "report:write") {
        Some(TappPermission::ReportWrite)
    } else if text::eq(perm, "http:fetch") || text::eq(perm, "web:scrape") || text::eq(
        perm,
        "proxy:read",
    ) || text::eq(perm, "notion:read") {
        Some(TappPermission::NetworkFetch)
    } else if text::eq(perm, "scheduler:read") || text::eq(perm, "scheduler:write") {
        Some(TappPermission::SchedulerRegister)
    } else if text::eq(perm, "storage:write") || text::eq(perm, "tapp:write") || text::eq(
        perm,
        "tapp:interact",
    ) || text::eq(perm, "content:write") || text::eq(perm, "reminder:write") || text::eq(
        perm,
        "note:write",
    ) || text::eq(perm, "bookmark:write") {
        Some(TappPermission::StorageWrite)
    } else if text::eq(perm, "speech:tts") {
        Some(TappPermission::SpeechTts)
    } else if text::eq(perm, "music:control") {
        Some(TappPermission::MediaControl)
    } else if text::eq(perm, "music:read") {
        Some(TappPermission::MediaRead)
    } else if text::eq(perm, "platform:write") {
        Some(TappPermission::PlatformWrite)
    } else {
        None
    }
}

/// What the agent may do at most for somebody who is no administrator. Managing
/// the shared library, writing reports and administration are not among it.
pub open spec fn candidates() -> Seq<Seq<char>> {
    seq![
        "platform:read"@,
        "steam:read"@,
        "bilibili:read"@,
        "bangumi:read"@,
        "github:read"@,
        "netease:read"@,
        "ai:analyze"@,
        "ai:chat"@,
        "ai:search"@,
        "ai:image"@,
        "phantasi:read"@,
        "report:read"@,
        "tapp:read"@,
        "system:read"@,
        "http:fetch"@,
        "web:scrape"@,
        "tapp:write"@,
        "tapp:interact"@,
        "phantasi:write"@,
        "weather:read"@,
        "metadata:read"@,
        "proxy:read"@,
        "scheduler:read"@,
        "scheduler:write"@,
        "3d:generate"@,
        "ai:generate"@,
        "speech:tts"@,
        "music:control"@,
        "music:read"@,
        "storage:write"@,
        "content:write"@,
        "reminder:write"@,
        "note:write"@,
        "bookmark:write"@,
        "mcp:execute"@,
        "notion:read"@,
        "rsshub:read"@,
        "profile:read"@,
        "random:read"@,
        "search:read"@,
        "router:read"@,
        "router:write"@,
        "ui:read"@,
        "ui:interact"@,
        "page:read"@,
    ]
}

pub fn max_user_agent_permissions() -> (r: Vec<String>)
    ensures
        text::views(r@) == candidates(),
{
    let out: Vec<String> = vec![
        "platform:read".to_owned(),
        "steam:read".to_owned(),
        "bilibili:read".to_owned(),
        "bangumi:read".to_owned(),
        "github:read".to_owned(),
        "netease:read".to_owned(),
        "ai:analyze".to_owned(),
        "ai:chat".to_owned(),
        "ai:search".to_owned(),
        "ai:image".to_owned(),
        "phantasi:read".to_owned(),
        "report:read".to_owned(),
        "tapp:read".to_owned(),
        "system:read".to_owned(),
        "http:fetch".to_owned(),
        "web:scrape".to_owned(),
        "tapp:write".to_owned(),
        "tapp:interact".to_owned(),
        "phantasi:write".to_owned(),
        "weather:read".to_owned(),
        "metadata:read".to_owned(),
        "proxy:read".to_owned(),
        "scheduler:read".to_owned(),
        "scheduler:write".to_owned(),
        "3d:generate".to_owned(),
        "ai:generate".to_owned(),
        "speech:tts".to_owned(),
        "music:control".to_owned(),
        "music:read".to_owned(),
        "storage:write".to_owned(),
        "content:write".to_owned(),
        "reminder:write".to_owned(),
        "note:write".to_owned(),
        "bookmark:write".to_owned(),
        "mcp:execute".to_owned(),
        "notion:read".to_owned(),
        "rsshub:read".to_owned(),
        "profile:read".to_owned(),
        "random:read".to_owned(),
        "search:read".to_owned(),
        "router:read".to_owned(),
        "router:write".to_owned(),
        "ui:read".to_owned(),
        "ui:interact".to_owned(),
        "page:read".to_owned(),
    ];
    assert(text::views(out@) =~= candidates());
    out
}

/// What the agent does on the site itself as its user would; no app has it.
pub open spec fn is_host(perm: Seq<char>) -> bool {
    ||| perm == "system:read"@
    ||| perm == "router:read"@
    ||| perm == "router:write"@
    ||| perm == "ui:read"@
    ||| perm == "ui:interact"@
    ||| perm == "page:read"@
}

pub fn host_agent_permission(perm: &str) -> (r: bool)
    ensures
        r == is_host(perm@),
{
    text::eq(perm, "system:read") || text::eq(perm, "router:read") || text::eq(
        perm,
        "router:write",
    ) || text::eq(perm, "ui:read") || text::eq(perm, "ui:interact") || text::eq(perm, "page:read")
}

/// Whether a set of the agent's permissions covers a permission of apps that a
/// scheduled action needs. Reading storage and notifying are open to everyone.
pub open spec fn covers(granted: Seq<Seq<char>>, permission: TappPermission) -> bool {
    match permission {
        TappPermission::SchedulerRegister => granted.contains("scheduler:write"@)
            || granted.contains("scheduler:read"@),
        TappPermission::PlatformWrite => granted.contains("platform:write"@),
        TappPermission::StorageWrite => {
            ||| granted.contains("storage:write"@)
            ||| granted.contains("tapp:write"@)
            ||| granted.contains("tapp:interact"@)
            ||| granted.contains("content:write"@)
            ||| granted.contains("reminder:write"@)
            ||| granted.contains("note:write"@)
            ||| granted.contains("bookmark:write"@)
        },
        TappPermission::StorageRead | TappPermission::UiNotification => true,
        TappPermission::AiGenerate => granted.contains("ai:generate"@),
        TappPermission::AiSearch => granted.contains("ai:search"@),
        TappPermission::NetworkFetch => {
            ||| granted.contains("http:fetch"@)
            ||| granted.contains("web:scrape"@)
            ||| granted.contains("proxy:read"@)
            ||| granted.contains("notion:read"@)
        },
        _ => false,
    }
}

pub fn granted_covers_tapp_permission(granted: &Vec<String>, permission: TappPermission) -> (r: bool)
    ensures
        r == covers(text::views(granted@), permission),
{
    match permission {
        TappPermission::SchedulerRegister => text::list_contains(granted, "scheduler:write")
            || text::list_contains(granted, "scheduler:read"),
        TappPermission::PlatformWrite => text::list_contains(granted, "platform:write"),
        TappPermission::StorageWrite => text::list_contains(granted, "storage:write")
            || text::list_contains(granted, "tapp:write") || text::list_contains(
            granted,
            "tapp:interact",
        ) || text::list_contains(granted, "content:write") || text::list_contains(
            granted,
            "reminder:write",
        ) || text::list_contains(granted, "note:write") || text::list_contains(
            granted,
            "bookmark:write",
        ),
        TappPermission::StorageRead | TappPermission::UiNotification => true,
        TappPermission::AiGenerate => text::list_contains(granted, "ai:generate"),
        TappPermission::AiSearch => text::list_contains(granted, "ai:search"),
        TappPermission::NetworkFetch => text::list_contains(granted, "http:fetch")
            || text::list_contains(granted, "web:scrape") || text::list_contains(
            granted,
            "proxy:read",
        ) || text::list_contains(granted, "notion:read"),
        _ => false,
    }
}

/// A permission that is granted covers the permission of apps that it stands
/// for, of those that scheduled actions can need.
pub proof fn a_grant_covers_what_it_stands_for(
    granted: Seq<Seq<char>>,
    perm: Seq<char>,
    permission: TappPermission,
)
    requires
        granted.contains(perm),
        tapp_of(perm) == Some(permission),
        permission is SchedulerRegister || permission is PlatformWrite || permission is StorageWrite
            || permission is AiGenerate || permission is AiSearch || permission is NetworkFetch,
    ensures
        covers(granted, permission),
{
}

/// The first permission of `needed`, from position `i`, that the grants do not
/// cover.
pub open spec fn first_uncovered(
    granted: Seq<Seq<char>>,
    needed: Seq<TappPermission>,
    i: int,
) -> Option<TappPermission>
    decreases needed.len() - i,
{
    if i < 0 || i >= needed.len() {
        None
    } else if !covers(granted, needed[i]) {
        Some(needed[i])
    } else {
        first_uncovered(granted, needed, i + 1)
    }
}

/// Whether a scheduled action stays within the grants of the agent that creates
/// it; else the permission that it lacks.
pub fn scheduler_create_tapp_permissions_within_grants(
    granted: &Vec<String>,
    needed: &Vec<TappPermission>,
) -> (r: Result<(), TappPermission>)
    ensures
        match first_uncovered(text::views(granted@), needed@, 0) {
            Some(p) => r == Err::<(), TappPermission>(p),
            None => r is Ok,
        },
{
    let mut i: usize = 0;
    while i < needed.len()
        invariant
            i <= needed@.len(),
            first_uncovered(text::views(granted@), needed@, 0) == first_uncovered(
                text::views(granted@),
                needed@,
                i as int,
            ),
        decreases needed@.len() - i,
    {
        if !granted_covers_tapp_permission(granted, needed[i]) {
            return Err(needed[i]);
        }
        i = i + 1;
    }
    Ok(())
}

// ---------------------------------------------------------------------------
// Who may do what
// ---------------------------------------------------------------------------
/// The user of the heartbeat, who is no person.
pub const SYSTEM_USER_ID: i32 = 0;

/// Whose role decides: the heartbeat acts for the owner of the site. `None` when
/// there is no owner yet.
pub fn admin_subject(user_id: i32, owner: Option<i32>) -> (r: Option<i32>)
    ensures
        r == (if user_id == SYSTEM_USER_ID {
            owner
        } else {
            Some(user_id)
        }),
{
    if user_id == SYSTEM_USER_ID {
        owner
    } else {
        Some(user_id)
    }
}

/// Why it is not known whether somebody is an administrator.
#[derive(Clone, Copy, Debug, PartialEq, Eq, Structural)]
pub enum RoleUnread {
    /// Whom the heartbeat acts for could not be read.
    Owner,
    /// The role could not be read.
    Role,
}

/// Whether somebody is an administrator now. `owner` is the owner of the site, if
/// there is one, and counts for the heartbeat only; `role` says whether the
/// [`admin_subject`] is an administrator. Either is `None` where it could not be
/// read: that is an error, not somebody without rights.
pub fn user_is_current_admin(user_id: i32, owner: Option<Option<i32>>, role: Option<bool>) -> (r:
    Result<bool, RoleUnread>)
    ensures
        r == (if user_id == SYSTEM_USER_ID && owner is None {
            Err::<bool, RoleUnread>(RoleUnread::Owner)
        } else if user_id == SYSTEM_USER_ID && owner == Some(None::<i32>) {
            Ok(false)
        } else {
            match role {
                Some(admin) => Ok(admin),
                None => Err(RoleUnread::Role),
            }
        }),
{
    if user_id == SYSTEM_USER_ID {
        match owner {
            None => return Err(RoleUnread::Owner),
            Some(None) => return Ok(false),
            Some(Some(_)) => {},
        }
    }
    match role {
        Some(admin) => Ok(admin),
        None => Err(RoleUnread::Role),
    }
}

/// Whether a permission holds for somebody with these permissions of apps. What
/// stands for no permission of apps is refused, but for what the agent does on
/// the site itself.
pub open spec fn holds(perm: Seq<char>, granted: Seq<TappPermission>) -> bool {
    is_host(perm) || (tapp_of(perm) matches Some(p) && granted.contains(p))
}

pub open spec fn held(perms: Seq<Seq<char>>, granted: Seq<TappPermission>) -> Seq<Seq<char>> {
    perms.filter(|p: Seq<char>| holds(p, granted))
}

fn is_granted(granted: &Vec<TappPermission>, permission: TappPermission) -> (r: bool)
    ensures
        r == granted@.contains(permission),
{
    let mut i: usize = 0;
    while i < granted.len()
        invariant
            i <= granted@.len(),
            forall|k: int| 0 <= k < i ==> #[trigger] granted@[k] != permission,
        decreases granted@.len() - i,
    {
        if granted[i] == permission {
            return true;
        }
        i = i + 1;
    }
    false
}

fn keep_held(perms: &Vec<String>, granted: &Vec<TappPermission>) -> (r: Vec<String>)
    ensures
        text::views(r@) == held(text::views(perms@), granted@),
{
    let ghost all = text::views(perms@);
    let mut out: Vec<String> = Vec::new();
    let mut i: usize = 0;
    proof {
        reveal(Seq::filter);
        assert(text::views(out@) =~= held(all.take(0), granted@));
    }
    while i < perms.len()
        invariant
            i <= perms@.len(),
            all == text::views(perms@),
            text::views(out@) == held(all.take(i as int), granted@),
        decreases perms@.len() - i,
    {
        proof {
            reveal(Seq::filter);
            assert(all.take(i + 1).drop_last() =~= all.take(i as int));
            assert(all.take(i + 1).last() == perms@[i as int]@);
        }
        let ok = host_agent_permission(perms[i].as_str()) || match agent_perm_to_tapp(
            perms[i].as_str(),
        ) {
            Some(p) => is_granted(granted, p),
            None => false,
        };
        if ok {
            let name = perms[i].clone();
            proof {
                text::views_push(out@, name);
            }
            out.push(name);
        }
        i = i + 1;
    }
    assert(all.take(all.len() as int) =~= all);
    out
}

/// What is known of somebody when their permissions are worked out.
pub struct Standing {
    pub is_admin: Result<bool, RoleUnread>,
    /// Who may see the agent, or why that could not be read.
    pub visibility: Result<String, String>,
    /// The permissions of apps that users have; `None` where they could not be
    /// read.
    pub granted: Option<Vec<TappPermission>>,
}

/// Whether it is known that not only administrators may see the agent.
pub open spec fn seen_by_users(standing: Standing) -> bool {
    standing.visibility matches Ok(v) && v@ != "admin"@
}

/// The permissions of somebody: all that capabilities need for an administrator,
/// the candidates that are granted for anyone else, and none where something
/// could not be read.
pub open spec fn permissions_of(standing: Standing, needed: Seq<Seq<char>>) -> Seq<Seq<char>> {
    match standing.is_admin {
        Ok(true) => needed.push("mcp:execute"@),
        Ok(false) => match standing.granted {
            Some(granted) if seen_by_users(standing) => held(candidates(), granted@),
            _ => Seq::empty(),
        },
        Err(_) => Seq::empty(),
    }
}

/// Works out the permissions of somebody. `needed` are the permissions that the
/// capabilities need.
pub fn get_user_permissions(standing: &Standing, needed: &Vec<String>) -> (r: Vec<String>)
    ensures
        text::views(r@) == permissions_of(*standing, text::views(needed@)),
{
    let nothing: Vec<String> = Vec::new();
    assert(text::views(nothing@) =~= Seq::empty());
    match standing.is_admin {
        Ok(true) => {
            let mut out = text::clone_list(needed);
            let name = "mcp:execute".to_owned();
            proof {
                text::views_push(out@, name);
            }
            out.push(name);
            out
        },
        Ok(false) => {
            match &standing.visibility {
                Ok(visibility) => {
                    if text::eq(visibility.as_str(), "admin") {
                        return nothing;
                    }
                },
                Err(_) => return nothing,
            }
            match &standing.granted {
                Some(granted) => {
                    let perms = max_user_agent_permissions();
                    keep_held(&perms, granted)
                },
                None => nothing,
            }
        },
        Err(_) => nothing,
    }
}

/// Why the agent may not be used.
#[derive(Debug, PartialEq, Eq)]
pub enum UsageRefusal {
    /// Whether the user is an administrator is not known.
    RoleUnknown(RoleUnread),
    /// Who may see the agent could not be read, for this reason.
    VisibilityUnknown(String),
    AdminOnly,
    /// What users may do could not be read.
    PolicyUnknown,
    ChatDisabled,
}

impl UsageRefusal {
    pub open spec fn text(self) -> Seq<char> {
        match self {
            UsageRefusal::RoleUnknown(RoleUnread::Owner) => "Could not resolve the site owner"@,
            UsageRefusal::RoleUnknown(
                RoleUnread::Role,
            ) => "Could not verify current administrator status"@,
            UsageRefusal::VisibilityUnknown(reason) => reason@,
            UsageRefusal::AdminOnly => "Agent is admin only"@,
            UsageRefusal::PolicyUnknown => "Could not verify current Agent permission policy"@,
            UsageRefusal::ChatDisabled => "Agent chat is not enabled for this account"@,
        }
    }

    pub fn message(&self) -> (r: String)
        ensures
            r@ == self.text(),
    {
        match self {
            UsageRefusal::RoleUnknown(
                RoleUnread::Owner,
            ) => "Could not resolve the site owner".to_owned(),
            UsageRefusal::RoleUnknown(
                RoleUnread::Role,
            ) => "Could not verify current administrator status".to_owned(),
            UsageRefusal::VisibilityUnknown(reason) => reason.clone(),
            UsageRefusal::AdminOnly => "Agent is admin only".to_owned(),
            UsageRefusal::PolicyUnknown => "Could not verify current Agent permission policy".to_owned(),
            UsageRefusal::ChatDisabled => "Agent chat is not enabled for this account".to_owned(),
        }
    }
}

/// What somebody is told who may not use the agent; `None` if they may.
pub open spec fn usage_refusal(user_id: i32, standing: Standing) -> Option<Seq<char>> {
    match standing.is_admin {
        Err(unread) => Some(UsageRefusal::RoleUnknown(unread).text()),
        Ok(admin) => if admin || user_id == SYSTEM_USER_ID {
            None
        } else {
            match standing.visibility {
                Err(reason) => Some(reason@),
                Ok(v) => if v@ == "admin"@ {
                    Some(UsageRefusal::AdminOnly.text())
                } else {
                    match standing.granted {
                        None => Some(UsageRefusal::PolicyUnknown.text()),
                        Some(granted) => if granted@.contains(TappPermission::AiChat) {
                            None
                        } else {
                            Some(UsageRefusal::ChatDisabled.text())
                        },
                    }
                },
            }
        },
    }
}

/// Whether somebody may use the agent, and if so whether with an administrator's
/// rights. The heartbeat may.
pub fn ensure_agent_usage_allowed(user_id: i32, standing: &Standing) -> (r: Result<
    bool,
    UsageRefusal,
>)
    ensures
        match standing.is_admin {
            Err(unread) => r == Err::<bool, UsageRefusal>(UsageRefusal::RoleUnknown(unread)),
            Ok(admin) => if admin || user_id == SYSTEM_USER_ID {
                r == Ok::<bool, UsageRefusal>(true)
            } else {
                match (standing.visibility, standing.granted) {
                    (Err(reason), _) => r matches Err(UsageRefusal::VisibilityUnknown(given))
                        && given@ == reason@,
                    (Ok(v), granted) => r == (if v@ == "admin"@ {
                        Err::<bool, UsageRefusal>(UsageRefusal::AdminOnly)
                    } else {
                        match granted {
                            None => Err(UsageRefusal::PolicyUnknown),
                            Some(granted) => if granted@.contains(TappPermission::AiChat) {
                                Ok(false)
                            } else {
                                Err(UsageRefusal::ChatDisabled)
                            },
                        }
                    }),
                }
            },
        },
        usage_refusal(user_id, *standing) == (match r {
            Ok(_) => None,
            Err(refusal) => Some(refusal.text()),
        }),
{
    let admin = match standing.is_admin {
        Ok(admin) => admin,
        Err(unread) => return Err(UsageRefusal::RoleUnknown(unread)),
    };
    if admin || user_id == SYSTEM_USER_ID {
        return Ok(true);
    }
    match &standing.visibility {
        Err(reason) => return Err(UsageRefusal::VisibilityUnknown(reason.clone())),
        Ok(visibility) => {
            if text::eq(visibility.as_str(), "admin") {
                return Err(UsageRefusal::AdminOnly);
            }
        },
    }
    match &standing.granted {
        Some(granted) => {
            if is_granted(granted, TappPermission::AiChat) {
                Ok(false)
            } else {
                Err(UsageRefusal::ChatDisabled)
            }
        },
        None => Err(UsageRefusal::PolicyUnknown),
    }
}

/// Somebody who is no administrator never gets the tools of outside servers,
/// whatever users may do.
pub proof fn outside_tools_are_for_administrators(standing: Standing, needed: Seq<Seq<char>>)
    requires
        standing.is_admin != Ok::<bool, RoleUnread>(true),
    ensures
        !permissions_of(standing, needed).contains("mcp:execute"@),
{
    if standing.granted is Some {
        let granted = standing.granted->0@;
        only_held(candidates(), granted, "mcp:execute"@);
        tools_stand_for_nothing();
    }
}

proof fn only_held(perms: Seq<Seq<char>>, granted: Seq<TappPermission>, perm: Seq<char>)
    ensures
        held(perms, granted).contains(perm) ==> holds(perm, granted),
    decreases perms.len(),
{
    reveal(Seq::filter);
    if perms.len() > 0 {
        only_held(perms.drop_last(), granted, perm);
        let before = held(perms.drop_last(), granted);
        if held(perms, granted).contains(perm) && !before.contains(perm) {
            let i = choose|i: int|
                0 <= i < held(perms, granted).len() && held(perms, granted)[i] == perm;
            assert(i == before.len());
        }
    }
}

/// Whether a permission begins as those for the tools of outside servers do. No
/// other permission does.
spec fn like_tools(perm: Seq<char>) -> bool {
    perm.len() > 1 && perm[0] == 'm' && perm[1] == 'c'
}

proof fn tools_are_no_platforms(perm: Seq<char>)
    requires
        like_tools(perm),
    ensures
        !is_platform_read(perm),
{
    reveal_strlit("platform:read");
    reveal_strlit("steam:read");
    reveal_strlit("bilibili:read");
    reveal_strlit("bangumi:read");
    reveal_strlit("github:read");
    reveal_strlit("netease:read");
    reveal_strlit("weather:read");
    reveal_strlit("metadata:read");
    reveal_strlit("profile:read");
    reveal_strlit("random:read");
    reveal_strlit("search:read");
    reveal_strlit("rsshub:read");
}

proof fn tools_are_no_requests(perm: Seq<char>)
    requires
        like_tools(perm),
    ensures
        !is_network(perm),
{
    reveal_strlit("http:fetch");
    reveal_strlit("web:scrape");
    reveal_strlit("proxy:read");
    reveal_strlit("notion:read");
}

proof fn tools_are_no_content(perm: Seq<char>)
    requires
        like_tools(perm),
    ensures
        !is_own_content(perm),
{
    reveal_strlit("storage:write");
    reveal_strlit("tapp:write");
    reveal_strlit("tapp:interact");
    reveal_strlit("content:write");
    reveal_strlit("reminder:write");
    reveal_strlit("note:write");
    reveal_strlit("bookmark:write");
}

proof fn tools_are_not_of_the_site(perm: Seq<char>)
    requires
        like_tools(perm),
    ensures
        !is_host(perm),
{
    reveal_strlit("system:read");
    reveal_strlit("router:read");
    reveal_strlit("router:write");
    reveal_strlit("ui:read");
    reveal_strlit("ui:interact");
    reveal_strlit("page:read");
}

proof fn tools_stand_for_nothing()
    ensures
        tapp_of("mcp:execute"@) is None,
        !is_host("mcp:execute"@),
{
    let perm = "mcp:execute"@;
    reveal_strlit("mcp:execute");
    assert(like_tools(perm));
    tools_are_no_platforms(perm);
    tools_are_no_requests(perm);
    tools_are_no_content(perm);
    tools_are_not_of_the_site(perm);
    reveal_strlit("ai:chat");
    reveal_strlit("ai:analyze");
    reveal_strlit("ai:image");
    reveal_strlit("3d:generate");
    reveal_strlit("ai:search");
    reveal_strlit("ai:generate");
    reveal_strlit("phantasi:read");
    reveal_strlit("phantasi:write");
    reveal_strlit("report:read");
    reveal_strlit("tapp:read");
    reveal_strlit("phantasi:manage");
    reveal_strlit("phantasi:admin");
    reveal_strlit("report:write");
    reveal_strlit("scheduler:read");
    reveal_strlit("scheduler:write");
    reveal_strlit("speech:tts");
    reveal_strlit("music:control");
    reveal_strlit("music:read");
    reveal_strlit("platform:write");
}

pub open spec fn scheduler_denied_text(permission: Seq<char>) -> Seq<char> {
    "capability 'scheduler.create' is not available for scheduled action: "@ + permission
}

pub fn scheduler_denied(permission: &str) -> (r: String)
    ensures
        r@ == scheduler_denied_text(permission@),
{
    let mut out =
        "capability 'scheduler.create' is not available for scheduled action: ".to_owned();
    out.append(permission);
    out
}

/// A permission of the site is stood for by the names of it alone: none that is
/// for something else lets the agent do what the permission is for.
pub proof fn names_stand_for_nothing_else(perm: Seq<char>)
    ensures
        tapp_of(perm) == Some(TappPermission::AiChat) ==> perm == "ai:chat"@,
        tapp_of(perm) == Some(TappPermission::AiAnalyze) ==> perm == "ai:analyze"@,
        tapp_of(perm) == Some(TappPermission::AiImage) ==> perm == "ai:image"@,
        tapp_of(perm) == Some(TappPermission::ThreeDGenerate) ==> perm == "3d:generate"@,
        tapp_of(perm) == Some(TappPermission::AiSearch) ==> perm == "ai:search"@,
        tapp_of(perm) == Some(TappPermission::AiGenerate) ==> perm == "ai:generate"@,
        tapp_of(perm) == Some(TappPermission::PhantasiRead) ==> perm == "phantasi:read"@,
        tapp_of(perm) == Some(TappPermission::PhantasiWrite) ==> perm == "phantasi:write"@,
        tapp_of(perm) == Some(TappPermission::PhantasiManage) ==> perm == "phantasi:manage"@ || perm
            == "phantasi:admin"@,
        tapp_of(perm) == Some(TappPermission::ReportRead) ==> perm == "report:read"@,
        tapp_of(perm) == Some(TappPermission::ReportWrite) ==> perm == "report:write"@,
        tapp_of(perm) == Some(TappPermission::PlatformRead) ==> seq![
            "platform:read"@,
            "steam:read"@,
            "bilibili:read"@,
            "bangumi:read"@,
            "github:read"@,
            "netease:read"@,
            "weather:read"@,
            "metadata:read"@,
            "profile:read"@,
            "random:read"@,
            "search:read"@,
            "rsshub:read"@,
        ].contains(perm),
        tapp_of(perm) == Some(TappPermission::PlatformWrite) ==> perm == "platform:write"@,
        tapp_of(perm) == Some(TappPermission::TappListRead) ==> perm == "tapp:read"@,
        tapp_of(perm) == Some(TappPermission::NetworkFetch) ==> seq![
            "http:fetch"@,
            "web:scrape"@,
            "proxy:read"@,
            "notion:read"@,
        ].contains(perm),
        tapp_of(perm) == Some(TappPermission::SchedulerRegister) ==> perm == "scheduler:read"@
            || perm == "scheduler:write"@,
        tapp_of(perm) == Some(TappPermission::StorageWrite) ==> seq![
            "storage:write"@,
            "tapp:write"@,
            "tapp:interact"@,
            "content:write"@,
            "reminder:write"@,
            "note:write"@,
            "bookmark:write"@,
        ].contains(perm),
        tapp_of(perm) == Some(TappPermission::SpeechTts) ==> perm == "speech:tts"@,
        tapp_of(perm) == Some(TappPermission::MediaControl) ==> perm == "music:control"@,
        tapp_of(perm) == Some(TappPermission::MediaRead) ==> perm == "music:read"@,
{
    let platform = seq![
        "platform:read"@,
        "steam:read"@,
        "bilibili:read"@,
        "bangumi:read"@,
        "github:read"@,
        "netease:read"@,
        "weather:read"@,
        "metadata:read"@,
        "profile:read"@,
        "random:read"@,
        "search:read"@,
        "rsshub:read"@,
    ];
    if is_platform_read(perm) {
        assert(platform[0] == "platform:read"@ && platform[1] == "steam:read"@ && platform[2]
            == "bilibili:read"@ && platform[3] == "bangumi:read"@ && platform[4] == "github:read"@
            && platform[5] == "netease:read"@ && platform[6] == "weather:read"@ && platform[7]
            == "metadata:read"@ && platform[8] == "profile:read"@ && platform[9] == "random:read"@
            && platform[10] == "search:read"@ && platform[11] == "rsshub:read"@);
    }
    let network = seq!["http:fetch"@, "web:scrape"@, "proxy:read"@, "notion:read"@];
    if is_network(perm) {
        assert(network[0] == "http:fetch"@ && network[1] == "web:scrape"@ && network[2]
            == "proxy:read"@ && network[3] == "notion:read"@);
    }
    let own = seq![
        "storage:write"@,
        "tapp:write"@,
        "tapp:interact"@,
        "content:write"@,
        "reminder:write"@,
        "note:write"@,
        "bookmark:write"@,
    ];
    if is_own_content(perm) {
        assert(own[0] == "storage:write"@ && own[1] == "tapp:write"@ && own[2] == "tapp:interact"@
            && own[3] == "content:write"@ && own[4] == "reminder:write"@ && own[5] == "note:write"@
            && own[6] == "bookmark:write"@);
    }
}

/// A person who is no administrator has, of what the agent may do at most,
/// exactly what their grants stand for and what the page itself gives; nothing
/// where the agent is for administrators or where that cannot be told.
pub proof fn users_hold_what_their_grants_stand_for(
    standing: Standing,
    needed: Seq<Seq<char>>,
    perm: Seq<char>,
)
    ensures
        standing.is_admin == Ok::<bool, RoleUnread>(true) ==> permissions_of(
            standing,
            needed,
        ).contains("mcp:execute"@) && (needed.contains(perm) ==> permissions_of(
            standing,
            needed,
        ).contains(perm)),
        standing.is_admin is Err ==> permissions_of(standing, needed).len() == 0,
        standing.is_admin == Ok::<bool, RoleUnread>(false) ==> match (
            standing.visibility,
            standing.granted,
        ) {
            (Ok(v), Some(granted)) => permissions_of(standing, needed).contains(perm) <==> v@
                != "admin"@ && candidates().contains(perm) && (seq![
                "system:read"@,
                "router:read"@,
                "router:write"@,
                "ui:read"@,
                "ui:interact"@,
                "page:read"@,
            ].contains(perm) || exists|p: TappPermission|
                tapp_of(perm) == Some(p) && #[trigger] granted@.contains(p)),
            _ => permissions_of(standing, needed).len() == 0,
        },
{
    let all = needed.push("mcp:execute"@);
    assert(all[needed.len() as int] == "mcp:execute"@);
    if needed.contains(perm) {
        let k = choose|k: int| 0 <= k < needed.len() && needed[k] == perm;
        assert(all[k] == perm);
    }
    let page = seq![
        "system:read"@,
        "router:read"@,
        "router:write"@,
        "ui:read"@,
        "ui:interact"@,
        "page:read"@,
    ];
    assert(is_host(perm) <==> page.contains(perm)) by {
        assert(page[0] == "system:read"@ && page[1] == "router:read"@ && page[2] == "router:write"@
            && page[3] == "ui:read"@ && page[4] == "ui:interact"@ && page[5] == "page:read"@);
    }
    if let (Ok(v), Some(granted)) = (standing.visibility, standing.granted) {
        let keep = |p: Seq<char>| holds(p, granted@);
        let perms = candidates();
        if held(perms, granted@).contains(perm) {
            let k = choose|k: int|
                0 <= k < held(perms, granted@).len() && held(perms, granted@)[k] == perm;
            perms.lemma_filter_pred(keep, k);
            kept_were_there(perms, granted@, k);
        }
        if perms.contains(perm) && holds(perm, granted@) {
            let k = choose|k: int| 0 <= k < perms.len() && perms[k] == perm;
            perms.lemma_filter_contains(keep, k);
        }
    }
}

proof fn kept_were_there(perms: Seq<Seq<char>>, granted: Seq<TappPermission>, k: int)
    requires
        0 <= k < held(perms, granted).len(),
    ensures
        perms.contains(held(perms, granted)[k]),
    decreases perms.len(),
{
    reveal(Seq::filter);
    let all = held(perms, granted);
    let before = held(perms.drop_last(), granted);
    if k < before.len() {
        kept_were_there(perms.drop_last(), granted, k);
        assert(all[k] == before[k]);
        let j = choose|j: int|
            0 <= j < perms.drop_last().len() && perms.drop_last()[j] == before[k];
        assert(perms[j] == before[k]);
    } else {
        assert(all[k] == perms[perms.len() - 1]);
    }
}

/// Administrators and the site itself may use the agent; others where it is not
/// for administrators alone and they may chat. Nobody may where it cannot be told
/// who they are.
pub proof fn the_agent_is_for_those_who_may_chat(user_id: i32, standing: Standing)
    ensures
        standing.is_admin is Err ==> usage_refusal(user_id, standing) is Some,
        standing.is_admin is Ok && (standing.is_admin->Ok_0 || user_id == 0) ==> usage_refusal(
            user_id,
            standing,
        ) is None,
        standing.is_admin == Ok::<bool, RoleUnread>(false) && user_id != 0 ==> (usage_refusal(
            user_id,
            standing,
        ) is None <==> (standing.visibility matches Ok(v) && v@ != "admin"@) && (
        standing.granted matches Some(granted) && granted@.contains(TappPermission::AiChat))),
{
}

/// What a task that is set up for later needs is within the grants exactly where
/// each single thing is. More grants never cover less, and none cover only what
/// needs no grant.
pub proof fn tasks_stay_within_the_grants(
    granted: Seq<Seq<char>>,
    more: Seq<Seq<char>>,
    needed: Seq<TappPermission>,
    permission: TappPermission,
    from: int,
)
    requires
        0 <= from,
        forall|i: int| 0 <= i < granted.len() ==> more.contains(#[trigger] granted[i]),
    ensures
        match first_uncovered(granted, needed, from) {
            Some(p) => !covers(granted, p) && needed.contains(p),
            None => forall|k: int| from <= k < needed.len() ==> covers(granted, #[trigger] needed[k]),
        },
        covers(granted, permission) ==> covers(more, permission),
        covers(Seq::empty(), permission) <==> permission is StorageRead || permission
            is UiNotification,
    decreases needed.len() - from,
{
    if from < needed.len() {
        tasks_stay_within_the_grants(granted, more, needed, permission, from + 1);
        assert(needed.contains(needed[from]));
    }
}

/// A step may run exactly where everything that it needs is granted and, where
/// it runs by itself, allowed to run so while the grant for that stands.
pub proof fn steps_run_with_what_is_granted_and_allowed(
    current: Seq<Seq<char>>,
    cap: Option<Seq<Seq<char>>>,
    grant: Option<bool>,
    required: Seq<Seq<char>>,
)
    ensures
        authorized(current, cap, grant, required) <==> (cap is Some ==> grant == Some(true)) && (
        forall|k: int|
            0 <= k < required.len() ==> current.contains(#[trigger] required[k]) && (
            cap matches Some(c) ==> c.contains(required[k]))),
{
    let left = capped(current, cap);
    a_step_needs_all_its_permissions(left, required, 0);
    assert forall|k: int| 0 <= k < required.len() implies (left.contains(#[trigger] required[k])
        <==> current.contains(required[k]) && (cap matches Some(c) ==> c.contains(required[k]))) by {
        autonomy_only_narrows(current, cap, required[k]);
    }
}

} // verus!
