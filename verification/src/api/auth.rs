//! The session probe, the account's language, and logging out.
use crate::json;
use crate::json::{Json, JsonView};
use crate::refusal;
use crate::refusal::Refusal;
use crate::text;
use vstd::prelude::*;

verus! {

broadcast use crate::json::group_json;

/// What came of authenticating a request.
#[derive(Clone, Copy, Debug, PartialEq, Eq, Structural)]
pub enum Session {
    /// No credential was given.
    Anonymous,
    /// The credential is good. A signed guest session has no account.
    Authenticated { account: Option<i32> },
    /// The credential has expired, was forged or has been revoked.
    Unauthorized,
    /// The credential could not be checked.
    Fault,
}

/// What the session probe does first.
#[derive(Clone, Copy, Debug, PartialEq, Eq, Structural)]
pub enum ProbeStep {
    /// Answer as to a guest; clear the cookie where it holds a bad credential.
    Guest { clear_cookie: bool },
    /// Answer with the fault of the credential check.
    Fault,
    LoadUser(i32),
}

/// What a guest is told. The probe is no gate: a guest is an expected answer.
pub open spec fn guest_body() -> JsonView {
    json::empty().with("authenticated"@, JsonView::Bool(false))
}

pub fn unauthenticated_me_body() -> (r: Json)
    ensures
        r@ == guest_body(),
{
    json::object().with("authenticated", Json::Bool(false))
}

pub open spec fn probe_step(from_cookie: bool, session: Session) -> ProbeStep {
    match session {
        Session::Anonymous => ProbeStep::Guest { clear_cookie: false },
        Session::Unauthorized => ProbeStep::Guest { clear_cookie: from_cookie },
        Session::Fault => ProbeStep::Fault,
        Session::Authenticated { account: None } => ProbeStep::Guest { clear_cookie: from_cookie },
        Session::Authenticated { account: Some(id) } => ProbeStep::LoadUser(id),
    }
}

/// The first step of the probe; `from_cookie` says whether the credential came
/// with a cookie.
pub fn begin_probe(from_cookie: bool, session: Session) -> (r: ProbeStep)
    ensures
        r == probe_step(from_cookie, session),
{
    match session {
        Session::Anonymous => ProbeStep::Guest { clear_cookie: false },
        Session::Unauthorized => ProbeStep::Guest { clear_cookie: from_cookie },
        Session::Fault => ProbeStep::Fault,
        Session::Authenticated { account } => match account {
            None => ProbeStep::Guest { clear_cookie: from_cookie },
            Some(id) => ProbeStep::LoadUser(id),
        },
    }
}

/// An account as it was read; a column that could not be decoded is `None`.
pub struct UserRow {
    pub id: Option<i32>,
    pub username: Option<String>,
    pub auth_provider: Option<String>,
    pub is_admin: Option<bool>,
    pub is_owner: Option<bool>,
    pub avatar_url: Option<String>,
    pub github_id: Option<i64>,
    pub linked_github_id: Option<i64>,
    pub bio: Option<String>,
    pub display_name: Option<String>,
    pub has_password: Option<bool>,
    pub last_login_at: Option<String>,
    pub locale: Option<String>,
}

/// A login of an account, as it was read.
pub struct IdentityRow {
    pub id: Option<i32>,
    pub provider: Option<String>,
    pub provider_username: Option<String>,
    pub is_primary: Option<bool>,
    pub linked_at: Option<String>,
}

/// How the probe ends.
#[derive(Debug, PartialEq, Eq)]
pub enum ProbeReply {
    Guest { clear_cookie: bool },
    ServerError,
    Profile(Json),
}

/// The label of a row that cannot be an account.
pub fn load_failure() -> (r: Refusal)
    ensures
        r@ == refusal::fault(500, "Failed to load current user"@),
{
    refusal::refuse(500, "Failed to load current user")
}

pub open spec fn or_false(b: Option<bool>) -> bool {
    match b {
        Some(v) => v,
        None => false,
    }
}

fn flag(b: Option<bool>) -> (r: bool)
    ensures
        r == or_false(b),
{
    match b {
        Some(v) => v,
        None => false,
    }
}

pub open spec fn or_text(s: Option<Seq<char>>, fallback: Seq<char>) -> Seq<char> {
    match s {
        Some(t) => t,
        None => fallback,
    }
}

fn text_or(s: &Option<String>, fallback: &str) -> (r: String)
    ensures
        r@ == or_text(text::opt_view(*s), fallback@),
{
    match s {
        Some(t) => t.clone(),
        None => fallback.to_owned(),
    }
}

pub open spec fn identity_json(row: IdentityRow) -> JsonView {
    json::empty()
        .with(
            "id"@,
            json::int_json(
                match row.id {
                    Some(n) => n as int,
                    None => 0,
                },
            ),
        )
        .with("provider"@, json::text_json(or_text(text::opt_view(row.provider), ""@)))
        .with("provider_username"@, json::opt_text_json(text::opt_view(row.provider_username)))
        .with("is_primary"@, JsonView::Bool(or_false(row.is_primary)))
        .with("linked_at"@, json::opt_text_json(text::opt_view(row.linked_at)))
}

fn identity(row: &IdentityRow) -> (r: Json)
    ensures
        r@ == identity_json(*row),
{
    let id: i64 = match row.id {
        Some(n) => n as i64,
        None => 0,
    };
    let provider = text_or(&row.provider, "");
    json::object()
        .with("id", json::number(id))
        .with("provider", json::string(provider.as_str()))
        .with("provider_username", json::opt_string(&row.provider_username))
        .with("is_primary", Json::Bool(flag(row.is_primary)))
        .with("linked_at", json::opt_string(&row.linked_at))
}

pub open spec fn identities_json(rows: Seq<IdentityRow>) -> JsonView {
    JsonView::Array(Seq::new(rows.len(), |i: int| identity_json(rows[i])))
}

fn identities(rows: &Vec<IdentityRow>) -> (r: Json)
    ensures
        r@ == identities_json(rows@),
{
    let mut out: Vec<Json> = Vec::new();
    let mut i: usize = 0;
    while i < rows.len()
        invariant
            i <= rows@.len(),
            out@.len() == i,
            forall|k: int| 0 <= k < i ==> #[trigger] out@[k]@ == identity_json(rows@[k]),
        decreases rows@.len() - i,
    {
        out.push(identity(&rows[i]));
        i = i + 1;
    }
    assert(json::items(out@) =~= identities_json(rows@)->Array_0);
    json::array(out)
}

/// The name that is shown: the chosen one unless it is blank.
pub open spec fn shown_name(row: UserRow) -> Seq<char> {
    match text::opt_view(row.display_name) {
        Some(name) if !text::blank(name) => name,
        _ => or_text(text::opt_view(row.username), ""@),
    }
}

pub open spec fn number_text_json(n: Option<i64>) -> JsonView {
    match n {
        Some(k) => json::text_json(text::decimal(k as int)),
        None => JsonView::Null,
    }
}

pub open spec fn profile_json(row: UserRow, logins: Seq<IdentityRow>) -> JsonView {
    json::empty()
        .with("authenticated"@, JsonView::Bool(true))
        .with("id"@, json::int_json(row.id->0 as int))
        .with("username"@, json::text_json(row.username->0@))
        .with("display_name"@, json::text_json(shown_name(row)))
        .with("auth_provider"@, json::text_json(or_text(text::opt_view(row.auth_provider), "local"@)))
        .with("is_admin"@, JsonView::Bool(or_false(row.is_admin)))
        .with("is_owner"@, JsonView::Bool(or_false(row.is_owner)))
        .with("avatar_url"@, json::opt_text_json(text::opt_view(row.avatar_url)))
        .with("github_id"@, json::opt_int_json(json::opt_i64_view(row.github_id)))
        .with("linked_github_id"@, number_text_json(row.linked_github_id))
        .with("bio"@, json::opt_text_json(text::opt_view(row.bio)))
        .with("has_password"@, JsonView::Bool(or_false(row.has_password)))
        .with("last_login_at"@, json::opt_text_json(text::opt_view(row.last_login_at)))
        .with("locale"@, json::opt_text_json(text::opt_view(row.locale)))
        .with("identities"@, identities_json(logins))
}

/// Whether a row can be an account: it has a positive number and a name.
pub open spec fn is_account(row: UserRow) -> bool {
    &&& row.id matches Some(id) && id > 0
    &&& row.username matches Some(name) && name@.len() > 0
}

/// Ends the probe once the account has been looked up. A good credential whose
/// account is gone is a guest's; a row that cannot be an account is an error.
pub fn finish_probe(from_cookie: bool, row: &Option<UserRow>, logins: &Vec<IdentityRow>) -> (r:
    ProbeReply)
    ensures
        match row {
            None => r == (ProbeReply::Guest { clear_cookie: from_cookie }),
            Some(user) => if is_account(*user) {
                r matches ProbeReply::Profile(body) && body@ == profile_json(*user, logins@)
            } else {
                r is ServerError
            },
        },
{
    let user = match row {
        None => return ProbeReply::Guest { clear_cookie: from_cookie },
        Some(user) => user,
    };
    let id = match user.id {
        Some(id) if id > 0 => id,
        _ => return ProbeReply::ServerError,
    };
    let username = match &user.username {
        Some(name) if !name.as_str().is_empty() => name,
        _ => return ProbeReply::ServerError,
    };
    let display = match &user.display_name {
        Some(name) if !text::is_blank(name.as_str()) => name.clone(),
        _ => username.clone(),
    };
    let provider = text_or(&user.auth_provider, "local");
    let linked = match user.linked_github_id {
        Some(n) => json::string(text::i64_text(n).as_str()),
        None => Json::Null,
    };
    let body = json::object()
        .with("authenticated", Json::Bool(true))
        .with("id", json::number(id as i64))
        .with("username", json::string(username.as_str()))
        .with("display_name", json::string(display.as_str()))
        .with("auth_provider", json::string(provider.as_str()))
        .with("is_admin", Json::Bool(flag(user.is_admin)))
        .with("is_owner", Json::Bool(flag(user.is_owner)))
        .with("avatar_url", json::opt_string(&user.avatar_url))
        .with("github_id", json::opt_int(user.github_id))
        .with("linked_github_id", linked)
        .with("bio", json::opt_string(&user.bio))
        .with("has_password", Json::Bool(flag(user.has_password)))
        .with("last_login_at", json::opt_string(&user.last_login_at))
        .with("locale", json::opt_string(&user.locale))
        .with("identities", identities(logins));
    ProbeReply::Profile(body)
}

/// The probe never answers a missing or bad credential as a refusal, and a
/// cookie is cleared only where it brought the bad credential.
pub proof fn bad_credentials_probe_as_guest(from_cookie: bool, session: Session)
    requires
        session is Anonymous || session is Unauthorized || session == (Session::Authenticated {
            account: None,
        }),
    ensures
        probe_step(from_cookie, session) matches ProbeStep::Guest { clear_cookie }
            && (clear_cookie ==> from_cookie && !(session is Anonymous)),
{
}

// ---------------------------------------------------------------------------
// Language
// ---------------------------------------------------------------------------
/// Why a language is not saved.
#[derive(Clone, Copy, Debug, PartialEq, Eq, Structural)]
pub enum LocaleRefusal {
    Unauthorized,
    GuestReadonly,
    Invalid,
    NotFound,
}

impl LocaleRefusal {
    pub open spec fn status_of(self) -> int {
        match self {
            LocaleRefusal::Unauthorized => 401,
            LocaleRefusal::GuestReadonly => 403,
            LocaleRefusal::Invalid => 400,
            LocaleRefusal::NotFound => 404,
        }
    }

    pub open spec fn body_of(self) -> JsonView {
        match self {
            LocaleRefusal::Unauthorized => json::empty().with(
                "error"@,
                json::text_json("Unauthorized"@),
            ),
            LocaleRefusal::GuestReadonly => json::empty().with(
                "error"@,
                json::text_json("Forbidden"@),
            ).with("code"@, json::text_json("GUEST_LOCALE_READONLY"@)),
            LocaleRefusal::Invalid => json::empty().with(
                "error"@,
                json::text_json("Bad request"@),
            ).with("code"@, json::text_json("locale_invalid"@)).with(
                "message"@,
                json::text_json("locale must be a host UI tag"@),
            ),
            LocaleRefusal::NotFound => json::empty().with("error"@, json::text_json("Not found"@)),
        }
    }

    pub fn status(self) -> (r: u16)
        ensures
            r == self.status_of(),
    {
        match self {
            LocaleRefusal::Unauthorized => 401,
            LocaleRefusal::GuestReadonly => 403,
            LocaleRefusal::Invalid => 400,
            LocaleRefusal::NotFound => 404,
        }
    }

    pub fn body(self) -> (r: Json)
        ensures
            r@ == self.body_of(),
    {
        match self {
            LocaleRefusal::Unauthorized => json::object().with(
                "error",
                json::string("Unauthorized"),
            ),
            LocaleRefusal::GuestReadonly => json::object().with(
                "error",
                json::string("Forbidden"),
            ).with("code", json::string("GUEST_LOCALE_READONLY")),
            LocaleRefusal::Invalid => json::object().with(
                "error",
                json::string("Bad request"),
            ).with("code", json::string("locale_invalid")).with(
                "message",
                json::string("locale must be a host UI tag"),
            ),
            LocaleRefusal::NotFound => json::object().with("error", json::string("Not found")),
        }
    }
}

pub open spec fn locale_in(payload: JsonView) -> Seq<char> {
    or_text(payload.text_at("locale"@), ""@)
}

/// The language that a request names; empty when it names none.
pub fn requested_locale(payload: &Json) -> (r: String)
    ensures
        r@ == locale_in(payload@),
{
    match payload.str_at("locale") {
        Some(raw) => raw.to_owned(),
        None => "".to_owned(),
    }
}

/// Whose language is set to what: only an account's, and only to a language of
/// the site. `locale` is what the requested name was read as.
pub fn plan_locale(authenticated: bool, account: Option<i32>, locale: Option<String>) -> (r: Result<
    (i32, String),
    LocaleRefusal,
>)
    ensures
        match r {
            Ok(plan) => authenticated && account == Some(plan.0) && locale == Some(plan.1),
            Err(LocaleRefusal::Unauthorized) => !authenticated,
            Err(LocaleRefusal::GuestReadonly) => authenticated && account is None,
            Err(LocaleRefusal::Invalid) => authenticated && account is Some && locale is None,
            Err(LocaleRefusal::NotFound) => false,
        },
{
    if !authenticated {
        return Err(LocaleRefusal::Unauthorized);
    }
    match account {
        None => Err(LocaleRefusal::GuestReadonly),
        Some(id) => match locale {
            None => Err(LocaleRefusal::Invalid),
            Some(tag) => Ok((id, tag)),
        },
    }
}

/// What is answered once the language has been written to `rows` accounts.
pub fn locale_reply(rows: u64, locale: &str) -> (r: Result<Json, LocaleRefusal>)
    ensures
        match r {
            Ok(body) => rows > 0 && body@ == json::empty().with("ok"@, JsonView::Bool(true)).with(
                "locale"@,
                json::text_json(locale@),
            ),
            Err(e) => rows == 0 && e is NotFound,
        },
{
    if rows == 0 {
        Err(LocaleRefusal::NotFound)
    } else {
        Ok(json::object().with("ok", Json::Bool(true)).with("locale", json::string(locale)))
    }
}

// ---------------------------------------------------------------------------
// Logging out
// ---------------------------------------------------------------------------
/// The account whose session is revoked. The cookie is cleared in any case;
/// only a good credential revokes the session it belongs to.
pub fn session_to_revoke(session: Session) -> (r: Option<i32>)
    ensures
        r == (match session {
            Session::Authenticated { account } => account,
            _ => None,
        }),
{
    match session {
        Session::Authenticated { account } => account,
        _ => None,
    }
}

pub fn logout_body() -> (r: Json)
    ensures
        r@ == json::empty().with("success"@, JsonView::Bool(true)).with(
            "message"@,
            json::text_json("Logged out successfully"@),
        ),
{
    json::object().with("success", Json::Bool(true)).with(
        "message",
        json::string("Logged out successfully"),
    )
}

/// A profile says who is there, and that they run or own the site only where
/// their account says so.
pub proof fn profiles_say_who_is_there(row: UserRow, logins: Seq<IdentityRow>)
    requires
        is_account(row),
    ensures
        ({
            let profile = profile_json(row, logins);
            &&& profile.bool_at("authenticated"@) == Some(true)
            &&& profile.get("id"@) == Some(json::int_json(row.id->0 as int))
            &&& profile.text_at("username"@) == Some(row.username->0@)
            &&& profile.bool_at("is_admin"@) == Some(row.is_admin == Some(true))
            &&& profile.bool_at("is_owner"@) == Some(row.is_owner == Some(true))
            &&& profile.text_at("display_name"@) == Some(
                if row.display_name is Some && !text::blank(row.display_name->0@) {
                    row.display_name->0@
                } else {
                    row.username->0@
                },
            )
        }),
        guest_body().bool_at("authenticated"@) == Some(false),
{
    reveal_strlit("authenticated");
    reveal_strlit("id");
    reveal_strlit("username");
    reveal_strlit("display_name");
    reveal_strlit("auth_provider");
    reveal_strlit("is_admin");
    reveal_strlit("is_owner");
    assert("authenticated"@.len() == 13 && "id"@.len() == 2 && "username"@.len() == 8
        && "display_name"@.len() == 12 && "auth_provider"@.len() == 13 && "is_admin"@.len() == 8
        && "is_owner"@.len() == 8);
    assert("username"@[0] == 'u' && "is_admin"@[0] == 'i' && "is_owner"@[0] == 'i' && "is_admin"@[3]
        == 'a' && "is_owner"@[3] == 'o');
    reveal_with_fuel(json::key_from, 8);
}

/// Only a session that stands for an account loads one; a cookie is cleared only
/// where one was sent and did not hold.
pub proof fn sessions_lead_to_their_account(from_cookie: bool, session: Session, id: i32)
    ensures
        probe_step(from_cookie, session) == ProbeStep::LoadUser(id) <==> session
            == (Session::Authenticated { account: Some(id) }),
        probe_step(from_cookie, session) is Fault <==> session is Fault,
        probe_step(from_cookie, session) matches ProbeStep::Guest { clear_cookie } ==> (clear_cookie
            <==> from_cookie && !(session is Anonymous)),
{
}

/// Who is not known is told to log in, a guest that they may not, and everyone
/// else what is wrong with what they asked.
pub proof fn locale_refusals_say_what_is_wrong(refusal: LocaleRefusal)
    ensures
        refusal.status_of() == 401 <==> refusal is Unauthorized,
        refusal.status_of() == 403 <==> refusal is GuestReadonly,
        refusal.status_of() == 400 <==> refusal is Invalid,
        refusal.status_of() == 404 <==> refusal is NotFound,
        refusal.body_of().text_at("error"@) is Some,
{
    reveal_with_fuel(json::key_from, 2);
}

/// A row stands for an account exactly where it has a number and a name.
pub proof fn accounts_have_a_number_and_a_name(row: UserRow)
    ensures
        is_account(row) <==> row.id is Some && row.id->0 >= 1 && row.username is Some
            && row.username->0@.len() >= 1,
{
}

} // verus!
