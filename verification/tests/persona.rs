//! Calls from the persona process to the web process.
use hmac::{KeyInit, Mac};
use myriad::agent::permissions::{Standing, TappPermission};
use myriad::persona::web_control::{
    self, AccountLookup, MAX_NONCES, MAX_REQUEST, MAX_RESPONSE, UPSTREAM,
};

const SECRET: &str = "test-secret-at-least-thirty-two-bytes";

#[test]
fn authentication_binds_complete_body_and_expires() {
    let nonce = "0123456789abcdef0123456789abcdef";
    let body = br#"{"user_id":7}"#;
    let header = format!(
        "v1:100:{nonce}:{}",
        hex::encode(web_control::signature(SECRET, "100", nonce, body).unwrap())
    );
    assert_eq!(web_control::verify(SECRET, &header, body, 100), Some(nonce.into()));
    assert!(web_control::verify(SECRET, &header, br#"{"user_id":0}"#, 100).is_none());
    assert!(web_control::verify(SECRET, &header, body, 131).is_none());
    assert!(web_control::verify(SECRET, &header, body, 69).is_none());
    assert!(
        web_control::verify(
            "different-secret-at-least-thirty-two-bytes",
            &header,
            body,
            100
        )
        .is_none()
    );
}

#[test]
fn replay_cache_does_not_evict_accepted_calls_under_pressure() {
    let mut cache = Vec::new();
    assert!(web_control::consume_nonce(&mut cache, "first".into(), 100));
    assert!(!web_control::consume_nonce(&mut cache, "first".into(), 101));
    for i in 1..MAX_NONCES {
        assert!(web_control::consume_nonce(&mut cache, i.to_string(), 101));
    }
    assert!(!web_control::consume_nonce(&mut cache, "overflow".into(), 101));
    assert!(!web_control::consume_nonce(&mut cache, "first".into(), 160));
    assert!(web_control::consume_nonce(&mut cache, "new".into(), 162));
}

#[test]
fn remote_surface_excludes_model_and_mcp_execution() {
    for capability in [
        "mcp.any.tool",
        "heartbeat.create",
        "ai.generate",
        "config.set",
        "seo.apply",
        "seo.generate",
        "",
        "scheduler.delete",
    ] {
        assert!(!web_control::is_web_owned(capability));
    }
    for capability in [
        "scheduler.create",
        "scheduler.trigger",
        "scheduler.list",
        "phantasi.schedule",
        "task.submit",
        "platform.refresh",
        "system.metrics",
    ] {
        assert!(web_control::is_web_owned(capability));
    }
}

#[test]
fn the_signature_is_an_hmac_over_context_time_nonce_and_body() {
    let mut mac = <hmac::Hmac<sha2::Sha256> as KeyInit>::new_from_slice(SECRET.as_bytes()).unwrap();
    mac.update(b"myriad.persona.web-capability.v1\0POST\0/internal/persona/web-capability\0");
    mac.update(b"100");
    mac.update(b"\0");
    mac.update(b"abc");
    mac.update(b"\0");
    mac.update(b"body");
    assert_eq!(
        web_control::signature(SECRET, "100", "abc", b"body"),
        Some(mac.finalize().into_bytes().to_vec())
    );
    assert_eq!(web_control::signature("short", "100", "abc", b"body"), None);
}

#[test]
fn a_signed_call_is_accepted_while_it_is_fresh() {
    let nonce = "0123456789ABCDEF0123456789abcdef";
    let header = web_control::sign_call(SECRET, -5, nonce, b"{}").unwrap();
    assert_eq!(web_control::verify(SECRET, &header, b"{}", 25), Some(nonce.to_string()));
    assert_eq!(web_control::verify(SECRET, &header, b"{}", -35), Some(nonce.to_string()));
    assert_eq!(web_control::verify(SECRET, &header, b"{}", 26), None);
    assert_eq!(web_control::verify(SECRET, &header, &vec![0; MAX_REQUEST + 1], 0), None);
    assert_eq!(web_control::sign_call("short", 0, nonce, b"{}"), None);
    let first = web_control::authenticate(Some(SECRET), 10, b"{}").unwrap();
    let second = web_control::authenticate(Some(SECRET), 10, b"{}").unwrap();
    assert_ne!(first, second);
    assert!(web_control::verify(SECRET, &first, b"{}", 10).is_some());
    assert_eq!(
        web_control::authenticate(None, 10, b"{}"),
        Err("Web capability authentication unavailable".to_string())
    );
}

#[test]
fn a_header_has_four_good_fields() {
    let nonce = "0123456789abcdef0123456789abcdef";
    let claim = web_control::read_claim(&format!("v1:100:{nonce}:00ff"), 2, 100).unwrap();
    assert_eq!(claim.time, "100");
    assert_eq!(claim.nonce, nonce);
    assert_eq!(claim.supplied, Some(vec![0, 255]));
    assert_eq!(web_control::check_claim(claim, &Some(vec![0, 255])), Some(nonce.to_string()));
    let odd = web_control::read_claim(&format!("v1:100:{nonce}:0"), 2, 100).unwrap();
    assert_eq!(odd.supplied, None);
    assert_eq!(web_control::check_claim(odd, &Some(vec![])), None);
    let bad = |header: String| web_control::read_claim(&header, 2, 100).is_none();
    assert!(bad(format!("v2:100:{nonce}:00")));
    assert!(bad(format!("v1:100:{nonce}")));
    assert!(bad(format!("v1:100:{nonce}:00:00")));
    assert!(bad(format!("v1:x:{nonce}:00")));
    assert!(bad("v1:100:0123456789abcdef0123456789abcdeg:00".to_string()));
    assert!(bad("v1:100:0123:00".to_string()));
    assert!(bad(format!("v1:100:{nonce}:{}", "0".repeat(200))));
    assert_eq!(
        web_control::auth_header("7", nonce, &vec![1, 171]),
        format!("v1:7:{nonce}:01ab")
    );
}

#[test]
fn a_call_is_let_in_once() {
    let nonce = "0123456789abcdef0123456789abcdef";
    let header = web_control::sign_call(SECRET, 100, nonce, b"{}").unwrap();
    let mut cache = Vec::new();
    assert_eq!(web_control::admit_call(None, Some(&header), b"{}", 100, &mut cache), Err(503));
    assert_eq!(web_control::admit_call(Some(SECRET), None, b"{}", 100, &mut cache), Err(401));
    assert_eq!(
        web_control::admit_call(Some(SECRET), Some(&header), b"x", 100, &mut cache),
        Err(401)
    );
    assert!(cache.is_empty());
    assert_eq!(web_control::admit_call(Some(SECRET), Some(&header), b"{}", 100, &mut cache), Ok(()));
    assert_eq!(
        web_control::admit_call(Some(SECRET), Some(&header), b"{}", 130, &mut cache),
        Err(409)
    );
}

#[test]
fn calls_are_answered_with_their_status() {
    assert_eq!(web_control::check_target("task.submit", 0), Ok(()));
    assert_eq!(web_control::check_target("task.submit", -1), Err(403));
    assert_eq!(web_control::check_target("ai.generate", 1), Err(403));
    assert_eq!(web_control::answer_status(None), 500);
    assert_eq!(web_control::answer_status(Some(MAX_RESPONSE)), 200);
    assert_eq!(web_control::answer_status(Some(MAX_RESPONSE + 1)), 502);
    assert_eq!(web_control::check_account(0, AccountLookup::Failed), Ok(()));
    assert_eq!(web_control::check_account(5, AccountLookup::Found), Ok(()));
    assert_eq!(
        web_control::check_account(5, AccountLookup::Missing),
        Err("Account no longer exists".to_string())
    );
    assert_eq!(
        web_control::check_account(5, AccountLookup::Failed),
        Err("Could not verify current account".to_string())
    );
}

#[test]
fn a_call_without_a_result_says_why() {
    assert_eq!(web_control::check_call("task.submit", Some(MAX_REQUEST)), Ok(()));
    assert_eq!(
        web_control::check_call("ai.generate", Some(1)),
        Err("Capability is not owned by web".to_string())
    );
    assert_eq!(
        web_control::check_call("task.submit", None),
        Err("Could not encode web capability".to_string())
    );
    assert_eq!(
        web_control::check_call("task.submit", Some(MAX_REQUEST + 1)),
        Err("Web capability request is too large".to_string())
    );
    assert_eq!(web_control::check_upstream(None, true), Ok(UPSTREAM.to_string()));
    assert_eq!(
        web_control::check_upstream(Some("http://x".to_string()), false),
        Ok("http://x".to_string())
    );
    assert!(web_control::check_upstream(Some("http://x".to_string()), true).is_err());
    let unknown = "Execution outcome is unknown: web capability did not return a result";
    assert_eq!(web_control::check_reply(204), Ok(()));
    assert_eq!(web_control::check_reply(409), Err(unknown.to_string()));
    assert_eq!(web_control::check_reply(503), Err(unknown.to_string()));
    assert_eq!(
        web_control::check_reply(403),
        Err("Web capability returned HTTP 403".to_string())
    );
    assert_eq!(web_control::check_room(MAX_RESPONSE - 1, 1), Ok(()));
    assert!(web_control::check_room(MAX_RESPONSE, 1).is_err());
}

#[test]
fn a_call_is_authorized_anew() {
    let names = |names: &[&str]| names.iter().map(|n| n.to_string()).collect::<Vec<_>>();
    let standing = |is_admin, visibility: &str| Standing {
        is_admin,
        visibility: Ok(visibility.to_string()),
        granted: Some(vec![TappPermission::AiChat]),
    };
    let ask = |standing: &Standing, required: Option<Vec<String>>, cap: Option<Vec<String>>, grant| {
        web_control::authorize_call("x", 5, standing, &names(&["a"]), &required, &cap, grant)
    };
    let admin = standing(Ok(true), "public");
    let user = standing(Ok(false), "public");
    let denied = Err("Current permission denied".to_string());
    assert_eq!(ask(&admin, Some(names(&["a"])), None, None), Ok(names(&["a", "mcp:execute"])));
    assert_eq!(
        ask(&admin, Some(names(&["a"])), Some(names(&["a"])), Some(true)),
        Ok(names(&["a"]))
    );
    assert_eq!(ask(&admin, Some(names(&["a"])), Some(names(&["a"])), Some(false)), denied);
    assert_eq!(ask(&user, Some(names(&["a"])), None, None), denied);
    assert!(ask(&user, Some(names(&["ai:chat"])), None, None).is_ok());
    assert_eq!(ask(&user, None, None, None), Err("Unknown web capability".to_string()));
    assert_eq!(
        ask(&standing(Ok(false), "admin"), None, None, None),
        Err("Agent is admin only".to_string())
    );
}
