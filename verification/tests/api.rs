//! The HTTP surface: sessions, permissions, providers, apps and errors.
use myriad::api::access;
use myriad::api::access::{RuntimeGrantContext, StorageAccessError, StoragePermission};
use myriad::api::auth;
use myriad::api::auth::{IdentityRow, LocaleRefusal, ProbeReply, ProbeStep, Session, UserRow};
use myriad::api::oauth;
use myriad::api::oauth::{OAuthProviderEntry, ProviderError, UpdateOAuthProvidersPayload};
use myriad::api::opml;
use myriad::api::opml::OpmlFeed;
use myriad::api::permissions;
use myriad::api::permissions::{Claims, Delegation, UpdatePermissionsPayload, UserRole};
use myriad::http_error;
use myriad::json;
use myriad::json::{Fields, Json, Number};

fn from_value(v: serde_json::Value) -> Json {
    match v {
        serde_json::Value::Null => Json::Null,
        serde_json::Value::Bool(b) => Json::Bool(b),
        serde_json::Value::Number(n) => {
            if let Some(u) = n.as_u64() {
                Json::Number(Number::Pos(u))
            } else if let Some(i) = n.as_i64() {
                Json::Number(Number::Neg(i))
            } else {
                Json::Number(Number::Fraction(n.as_f64().unwrap().to_bits()))
            }
        }
        serde_json::Value::String(s) => Json::Str(s),
        serde_json::Value::Array(a) => Json::Array(a.into_iter().map(from_value).collect()),
        serde_json::Value::Object(o) => {
            Json::Object(o.into_iter().map(|(k, v)| (k, from_value(v))).collect())
        }
    }
}

fn j(text: &str) -> Json {
    from_value(serde_json::from_str::<serde_json::Value>(text).unwrap())
}

fn fields(text: &str) -> Fields {
    match j(text) {
        Json::Object(o) => o,
        _ => panic!("an object"),
    }
}

fn claims(sub: &str, is_admin: bool) -> Claims {
    Claims { sub: sub.to_string(), is_admin }
}

// --- errors ----------------------------------------------------------------

#[test]
fn app_error_response_matches_http_error() {
    assert_eq!(http_error::app_error_response(404), 404);
    assert_eq!(http_error::status_to_http(404).status, 404);
}

#[test]
fn status_json_to_http_preserves_status_label_and_hint() {
    let err = http_error::status_json_to_http(
        400,
        &j(r#"{"error": "Key rotation requires confirm",
               "hint": "pass {\"confirm\": true}",
               "message": "rotation aborted"}"#),
    );
    assert_eq!(err.status, 400);
    assert_eq!(err.error, "Key rotation requires confirm");
    assert_eq!(err.hint.as_deref(), Some("pass {\"confirm\": true}"));
    assert_eq!(err.message.as_deref(), Some("rotation aborted"));
    assert_eq!(err.code, None);
}

#[test]
fn status_json_to_http_preserves_machine_code() {
    let err = http_error::status_json_to_http(
        502,
        &j(r#"{"error": "Failed to suggest a name",
               "code": "name_suggest_failed",
               "message": "provider timed out"}"#),
    );
    assert_eq!(err.status, 502);
    assert_eq!(err.error, "Failed to suggest a name");
    assert_eq!(err.code.as_deref(), Some("name_suggest_failed"));
    assert_eq!(err.message.as_deref(), Some("provider timed out"));
}

#[test]
fn status_json_to_http_preserves_error_field_for_write_paths() {
    let err = http_error::status_json_to_http(
        403,
        &j(r#"{"error": "Setup already completed", "message": "Admin exists"}"#),
    );
    assert_eq!(err.status, 403);
    assert_eq!(err.error, "Setup already completed");
    assert_eq!(err.message.as_deref(), Some("Admin exists"));
}

#[test]
fn a_body_without_a_label_is_an_error() {
    let err = http_error::status_json_to_http(500, &j(r#"{"error": 7, "hint": null}"#));
    assert_eq!(err.error, "error");
    assert_eq!(err.hint, None);
}

#[test]
fn a_bare_status_is_labelled_with_its_phrase() {
    assert_eq!(http_error::status_to_http(404).error, "Not Found");
    assert_eq!(http_error::status_to_http(599).error, "error");
    assert_eq!(http_error::status_to_http(42).error, "error");
    assert_eq!(http_error::status_with_phrase(418, None).error, "error");
}

#[test]
fn a_number_that_is_no_status_is_a_server_error() {
    assert_eq!(http_error::app_error_response(99), 500);
    assert_eq!(http_error::app_error_response(100), 100);
    assert_eq!(http_error::app_error_response(999), 999);
    assert_eq!(http_error::app_error_response(1000), 500);
}

// --- sessions --------------------------------------------------------------

fn user_row(id: Option<i32>) -> UserRow {
    UserRow {
        id,
        username: Some("mia".to_string()),
        auth_provider: Some("local".to_string()),
        is_admin: Some(false),
        is_owner: None,
        avatar_url: None,
        github_id: None,
        linked_github_id: None,
        bio: None,
        display_name: Some("Mia".to_string()),
        has_password: Some(true),
        last_login_at: None,
        locale: Some("en".to_string()),
    }
}

#[test]
fn current_user_probe_uses_the_shared_auth_boundary() {
    assert_eq!(
        auth::begin_probe(true, Session::Authenticated { account: Some(7) }),
        ProbeStep::LoadUser(7)
    );
    assert_eq!(
        auth::begin_probe(true, Session::Authenticated { account: None }),
        ProbeStep::Guest { clear_cookie: true }
    );
    assert_eq!(auth::begin_probe(false, Session::Fault), ProbeStep::Fault);
}

#[test]
fn current_user_probe_does_not_decode_id_to_zero() {
    for id in [None, Some(0), Some(-3)] {
        assert_eq!(
            auth::finish_probe(true, &Some(user_row(id)), &vec![]),
            ProbeReply::ServerError
        );
    }
    assert!(matches!(
        auth::finish_probe(true, &Some(user_row(Some(1))), &vec![]),
        ProbeReply::Profile(_)
    ));
    assert_eq!(auth::load_failure().status, 500);
    assert_eq!(auth::load_failure().error, "Failed to load current user");
}

#[test]
fn unauthenticated_me_body_contract() {
    let body = auth::unauthenticated_me_body();
    assert_eq!(body.bool_at("authenticated"), Some(false));
    assert!(body.get("id").is_none());
    assert!(body.get("error").is_none());
}

#[test]
fn unauthenticated_me_can_clear_an_invalid_httponly_cookie() {
    assert_eq!(
        auth::begin_probe(true, Session::Unauthorized),
        ProbeStep::Guest { clear_cookie: true }
    );
    assert_eq!(
        auth::begin_probe(false, Session::Unauthorized),
        ProbeStep::Guest { clear_cookie: false }
    );
    assert_eq!(
        auth::begin_probe(true, Session::Anonymous),
        ProbeStep::Guest { clear_cookie: false }
    );
    assert_eq!(
        auth::finish_probe(true, &None, &vec![]),
        ProbeReply::Guest { clear_cookie: true }
    );
}

#[test]
fn a_profile_lists_the_logins_of_the_account() {
    let logins = vec![IdentityRow {
        id: Some(3),
        provider: Some("github".to_string()),
        provider_username: Some("mia-gh".to_string()),
        is_primary: Some(true),
        linked_at: None,
    }];
    match auth::finish_probe(true, &Some(user_row(Some(9))), &logins) {
        ProbeReply::Profile(body) => {
            assert_eq!(body.bool_at("authenticated"), Some(true));
            assert_eq!(body.i64_at("id"), Some(9));
            assert_eq!(body.str_at("username"), Some("mia"));
        }
        _ => panic!("a profile"),
    }
}

#[test]
fn a_locale_is_stored_for_accounts_only() {
    let en = || Some("en".to_string());
    assert_eq!(auth::plan_locale(false, None, en()), Err(LocaleRefusal::Unauthorized));
    assert_eq!(auth::plan_locale(true, None, en()), Err(LocaleRefusal::GuestReadonly));
    assert_eq!(auth::plan_locale(true, Some(4), None), Err(LocaleRefusal::Invalid));
    assert_eq!(auth::plan_locale(true, Some(4), en()), Ok((4, "en".to_string())));
    assert_eq!(auth::locale_reply(0, "en"), Err(LocaleRefusal::NotFound));
    assert_eq!(auth::locale_reply(1, "en"), Ok(j(r#"{"ok": true}"#).with("locale", json::string("en"))));
    assert_eq!(LocaleRefusal::Unauthorized.status(), 401);
    assert_eq!(LocaleRefusal::GuestReadonly.status(), 403);
    assert_eq!(LocaleRefusal::Invalid.status(), 400);
    assert_eq!(LocaleRefusal::NotFound.status(), 404);
    assert_eq!(LocaleRefusal::Unauthorized.body().str_at("error"), Some("Unauthorized"));
    assert_eq!(auth::requested_locale(&j(r#"{"locale": "zh"}"#)), "zh");
    assert_eq!(auth::requested_locale(&j(r#"{"locale": 5}"#)), "");
}

#[test]
fn logging_out_revokes_a_real_session() {
    assert_eq!(auth::session_to_revoke(Session::Authenticated { account: Some(8) }), Some(8));
    assert_eq!(auth::session_to_revoke(Session::Unauthorized), None);
    assert_eq!(auth::logout_body().bool_at("success"), Some(true));
    assert_eq!(auth::logout_body().str_at("message"), Some("Logged out successfully"));
}

// --- permissions -----------------------------------------------------------

fn table() -> Vec<Delegation> {
    let both = |user: &str, guest: &str| Delegation {
        user_key: user.to_string(),
        guest_key: Some(guest.to_string()),
    };
    let user = |key: &str| Delegation { user_key: key.to_string(), guest_key: None };
    vec![
        user("user_perm_speech_tts"),
        user("user_perm_speech_asr"),
        both("user_perm_storage_write", "guest_perm_storage_write"),
        user("user_perm_federation_post"),
        user("user_perm_federation_channel"),
        user("user_perm_federation_room"),
        user("user_perm_phantasi_comment_write"),
    ]
}

#[test]
fn permission_role_does_not_treat_subject_zero_as_user() {
    assert_eq!(permissions::permission_role(&Some(claims("0", false))), UserRole::Guest);
    assert_eq!(permissions::permission_role(&Some(claims("-5", false))), UserRole::Guest);
    assert_eq!(permissions::permission_role(&Some(claims("x", false))), UserRole::Guest);
    assert_eq!(permissions::permission_role(&None), UserRole::Guest);
    assert_eq!(permissions::permission_role(&Some(claims("5", false))), UserRole::User);
    assert_eq!(permissions::permission_role(&Some(claims("5", true))), UserRole::Admin);
}

#[test]
fn accepts_permission_delegation_fields() {
    let body = fields(
        r#"{
            "user_perm_speech_tts": true,
            "user_perm_speech_asr": false,
            "user_perm_storage_write": true,
            "guest_perm_storage_write": false,
            "user_perm_federation_post": true,
            "user_perm_federation_channel": false,
            "user_perm_federation_room": true,
            "user_perm_phantasi_comment_write": true,
            "user_perm_report_write": true,
            "guest_perm_federation_post": true,
            "guest_perm_federation_channel": true,
            "guest_perm_federation_room": false,
            "guest_perm_phantasi_comment_write": true
        }"#,
    );
    let updates = permissions::delegation_updates(&table(), &body);
    for (key, value) in [
        ("user_perm_speech_tts", true),
        ("user_perm_speech_asr", false),
        ("user_perm_storage_write", true),
        ("guest_perm_storage_write", false),
        ("user_perm_federation_post", true),
        ("user_perm_federation_channel", false),
        ("user_perm_federation_room", true),
        ("user_perm_phantasi_comment_write", true),
    ] {
        assert_eq!(json::field(&updates, key), Some(&Json::Bool(value)), "{key}");
    }
    for ignored in [
        "user_perm_report_write",
        "guest_perm_federation_post",
        "guest_perm_federation_channel",
        "guest_perm_federation_room",
        "guest_perm_phantasi_comment_write",
    ] {
        assert!(json::field(&updates, ignored).is_none(), "{ignored} must not be stored");
    }
}

#[test]
fn empty_permission_payload_does_not_write_forced_false() {
    let payload = UpdatePermissionsPayload {
        delegations: vec![],
        user_ai_daily_calls: None,
        user_ai_daily_tokens: None,
        user_ai_cooldown_seconds: None,
        guest_ai_daily_calls: None,
        guest_ai_daily_tokens: None,
        guest_ai_cooldown_seconds: None,
    };
    assert!(permissions::plan_permission_updates(&table(), &payload).is_none());
    assert_eq!(
        permissions::no_settings_body().str_at("message"),
        Some("No permission settings provided")
    );
    let payload = UpdatePermissionsPayload { user_ai_daily_calls: Some(5), ..payload };
    let updates = permissions::plan_permission_updates(&table(), &payload).unwrap();
    assert_eq!(updates.len(), 1);
    assert_eq!(json::field(&updates, "user_ai_daily_calls").unwrap().as_i64(), Some(5));
}

#[test]
fn the_levels_of_a_role_are_told_in_lower_case() {
    let told = permissions::permissions_response(
        UserRole::User,
        &vec!["Basic".to_string(), "ADVANCED".to_string()],
        &j(r#"{"a": 1}"#),
    );
    assert_eq!(told.str_at("role"), Some("user"));
    assert_eq!(told.get("allowed_levels"), Some(&j(r#"["basic", "advanced"]"#)));
    assert_eq!(told.get("config"), Some(&j(r#"{"a": 1}"#)));
}

// --- providers -------------------------------------------------------------

fn provider(slug: &str, kind: &str, secret: &str) -> OAuthProviderEntry {
    OAuthProviderEntry {
        slug: slug.to_string(),
        kind: kind.to_string(),
        display_name: "Name".to_string(),
        enabled: true,
        client_id: "id".to_string(),
        client_secret: secret.to_string(),
        scopes: vec!["openid".to_string()],
        discovery_url: None,
        icon_url: None,
    }
}

#[test]
fn a_masked_secret_keeps_the_stored_one() {
    let current = vec![provider("github", "github", "stored")];
    let saved =
        oauth::check_providers(vec![provider("github", "github", "***")], &current).unwrap();
    assert_eq!(saved[0].client_secret, "stored");
    let saved =
        oauth::check_providers(vec![provider("github", "github", "fresh")], &current).unwrap();
    assert_eq!(saved[0].client_secret, "fresh");
}

#[test]
fn every_fault_of_a_provider_has_its_error() {
    let refused = |p: OAuthProviderEntry| oauth::check_providers(vec![p], &vec![]).err();
    assert_eq!(refused(provider("  ", "github", "s")), Some(ProviderError::SlugRequired));
    assert_eq!(refused(provider("a b", "github", "s")), Some(ProviderError::SlugInvalid));
    assert_eq!(
        refused(provider("x".repeat(33).as_str(), "github", "s")),
        Some(ProviderError::SlugInvalid)
    );
    assert_eq!(refused(provider("qq", "github", "s")), Some(ProviderError::SlugReserved));
    assert_eq!(refused(provider("github", "other", "s")), Some(ProviderError::KindUnsupported));
    assert_eq!(refused(provider("mine", "oidc", "s")), Some(ProviderError::DiscoveryRequired));
    assert_eq!(refused(provider("github", "github", "")), Some(ProviderError::ClientSecretRequired));
    let mut nobody = provider("github", "github", "s");
    nobody.client_id = " ".to_string();
    assert_eq!(refused(nobody), Some(ProviderError::ClientIdRequired));
    assert_eq!(
        oauth::check_providers(
            vec![provider("github", "github", "s"), provider("github", "github", "s")],
            &vec![],
        )
        .err(),
        Some(ProviderError::SlugDuplicate)
    );
    assert_eq!(ProviderError::SlugReserved.code(), "oauth_slug_reserved");
    assert_eq!(
        ProviderError::SlugReserved.body().str_at("error"),
        Some("Provider slug is reserved for channel pairing")
    );
}

#[test]
fn secrets_are_never_shown() {
    let shown = oauth::show_providers(
        &vec![provider("github", "github", "stored"), provider("mine", "github", "")],
        true,
        "never",
        30,
    );
    let list = match shown.get("providers") {
        Some(Json::Array(list)) => list,
        _ => panic!("a list"),
    };
    assert_eq!(list[0].str_at("client_secret"), Some("***"));
    assert_eq!(list[1].str_at("client_secret"), Some(""));
    assert_eq!(shown.bool_at("allow_local_registration"), Some(true));
}

#[test]
fn an_update_keeps_what_it_leaves_out() {
    let plan = oauth::plan_update(
        UpdateOAuthProvidersPayload {
            providers: vec![provider("github", "github", "s")],
            allow_local_registration: false,
            tapp_private_install_cleanup: None,
            tapp_private_install_inactivity_days: None,
        },
        &vec![],
    )
    .unwrap();
    assert_eq!(plan.providers.len(), 1);
    assert!(!plan.allow_local_registration);
    assert_eq!(plan.tapp_private_install_cleanup, None);
    let told = oauth::update_response(1, false, "never", 30);
    assert_eq!(told.i64_at("providers_count"), Some(1));
    assert_eq!(told.i64_at("tapp_private_install_inactivity_days"), Some(30));
    assert!(oauth::is_pairing_provider("telegram"));
    assert!(!oauth::is_pairing_provider("github"));
}

// --- apps ------------------------------------------------------------------

fn grant(storage: Vec<StoragePermission>) -> RuntimeGrantContext {
    RuntimeGrantContext { tapp_id: "notes".to_string(), owner_id: 1, subject_id: 7, storage }
}

#[test]
fn storage_subject_rejects_zero() {
    assert_eq!(access::actor_subject_id(&claims("0", false)), None);
    assert_eq!(access::actor_subject_id(&claims("-4", false)), Some(-4));
    assert_eq!(access::actor_subject_id(&claims("7", false)), Some(7));
    assert_eq!(access::optional_authenticated_user_id(&Some(claims("-4", false))), None);
    assert_eq!(access::optional_authenticated_user_id(&Some(claims("0", false))), Some(0));
}

#[test]
fn a_grant_is_for_one_app_and_one_subject() {
    let all = || vec![StoragePermission::StorageRead, StoragePermission::StorageWrite];
    let ok = access::authorize_runtime_storage(&claims("7", false), &grant(all()), "notes");
    assert!(matches!(ok, Ok(a) if a.owner_id == 1 && a.subject_id == 7));
    assert!(matches!(
        access::authorize_runtime_storage(&claims("7", false), &grant(all()), "other"),
        Err(StorageAccessError::OtherTapp)
    ));
    assert!(matches!(
        access::authorize_runtime_storage_write(
            &claims("7", false),
            &grant(vec![StoragePermission::StorageRead]),
            "notes"
        ),
        Err(StorageAccessError::NotGranted(StoragePermission::StorageWrite))
    ));
    assert!(matches!(
        access::authorize_runtime_storage(&claims("0", false), &grant(all()), "notes"),
        Err(StorageAccessError::NoSubject)
    ));
    assert!(matches!(
        access::authorize_runtime_storage(&claims("8", false), &grant(all()), "notes"),
        Err(StorageAccessError::SubjectMismatch)
    ));
}

#[test]
fn a_locked_account_installs_nothing() {
    assert!(access::ensure_tapp_install_allowed(true, None).is_ok());
    assert!(access::ensure_tapp_install_allowed(true, Some(false)).is_ok());
    let failed = access::ensure_tapp_install_allowed(false, None).unwrap_err();
    assert_eq!(failed.status, 500);
    assert_eq!(failed.error, "Failed to check Tapp install permission");
    let refused = access::ensure_tapp_install_allowed(true, Some(true)).unwrap_err();
    assert_eq!(refused.status, 403);
    assert_eq!(refused.error, "Tapp installation is disabled for this account");
    assert_eq!(access::current_user_role(true), UserRole::Admin);
    assert_eq!(access::current_user_role(false), UserRole::User);
}

#[test]
fn app_faults_are_answered_with_their_status() {
    assert_eq!(access::find_visible_tapp(false, true).unwrap_err().status, 400);
    assert_eq!(access::find_visible_tapp(true, false).unwrap_err().error, "Failed to find Tapp");
    assert!(access::find_visible_tapp(true, true).is_ok());
    let err = access::installation_write_forbidden_error(7, "read only", "installation_read_only");
    assert_eq!((err.status, err.code.as_deref()), (403, Some("installation_read_only")));
    let err = access::filter_install_permissions(Err(("no".to_string(), "c".to_string())))
        .err()
        .unwrap();
    assert_eq!((err.status, err.error.as_str()), (409, "no"));
}

// --- feeds -----------------------------------------------------------------

#[test]
fn an_import_is_planned_feed_by_feed() {
    let feed = OpmlFeed {
        title: "Blog".to_string(),
        url: "https://blog.example/feed".to_string(),
        category: Some("Tech".to_string()),
        site_url: None,
    };
    let plan = opml::plan_import(4, vec![feed]).ok().unwrap();
    assert_eq!(plan.len(), 1);
    assert_eq!(plan[0].name, "Blog");
    assert_eq!(plan[0].url, "https://blog.example/feed");
    assert_eq!(plan[0].user_id, 4);
    assert!(plan[0].enabled);
    let told = opml::import_response(&vec![true, false, true]);
    assert_eq!(told.i64_at("imported"), Some(2));
    assert_eq!(told.i64_at("skipped"), Some(1));
}
