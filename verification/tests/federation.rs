//! What is published to other sites, to whom, and how it is taken back.
use myriad::federation::audience::{self, FanOutScope, Visibility};
use myriad::federation::delivery::{
    self, DeliveryStep, FollowerRoute, FollowerRow, LocalDeliveryError, PostCommit, RoomPeer,
};
use myriad::federation::library;
use myriad::federation::media;
use myriad::federation::object::{
    self, ArticleRow, Content, ContentLookup, LibraryRow, NoteAttachmentInput, NoteLimits,
    Publisher, ReportRow, TappRow,
};
use myriad::federation::publish::{self, CreateNoteRequest, PublishRequest, StoreOutcome};
use myriad::federation::unpublish::{self, PublishedRow, UnpublishLookup, UnpublishLookupError};
use myriad::federation::urls::{self, ContentKind};
use myriad::json::{self, Json, Number};

fn from_value(v: serde_json::Value) -> Json {
    match v {
        serde_json::Value::Null => Json::Null,
        serde_json::Value::Bool(b) => Json::Bool(b),
        serde_json::Value::Number(n) => {
            if let Some(u) = n.as_u64() {
                Json::Number(Number::Pos(u))
            } else if let Some(i) = n.as_i64() {
                Json::Number(Number::Neg(i))
            } else {
                Json::Number(Number::Fraction(n.as_f64().unwrap().to_bits()))
            }
        }
        serde_json::Value::String(s) => Json::Str(s),
        serde_json::Value::Array(a) => Json::Array(a.into_iter().map(from_value).collect()),
        serde_json::Value::Object(o) => {
            Json::Object(o.into_iter().map(|(k, v)| (k, from_value(v))).collect())
        }
    }
}

fn j(text: &str) -> Json {
    from_value(serde_json::from_str::<serde_json::Value>(text).unwrap())
}

fn s(text: &str) -> Option<String> {
    Some(text.to_string())
}

fn alice() -> Publisher {
    Publisher {
        user_id: 1,
        username: "alice".to_string(),
        base_url: "https://myriad.example".to_string(),
        published: "2026-01-02T03:04:05Z".to_string(),
    }
}

fn note(visibility: &str) -> PublishRequest {
    PublishRequest {
        content_type: "note".to_string(),
        content_id: None,
        visibility: s(visibility),
        text: s("hello"),
        attachments: None,
        in_reply_to: None,
    }
}

// --- objects ---------------------------------------------------------------

#[test]
fn escape_html_basic() {
    assert_eq!(object::escape_html("a<b>&c"), "a&lt;b&gt;&amp;c");
}

#[test]
fn lines_break_and_parts_are_escaped_apart() {
    assert_eq!(object::escape_html("a\n<b>\"c\""), "a<br>&lt;b&gt;&quot;c&quot;");
    let (a, b) = ("x & <\n", "> y");
    let whole = object::escape_html(&format!("{a}{b}"));
    assert_eq!(whole, object::escape_html(a) + &object::escape_html(b));
}

#[test]
fn extract_report_summary_plain_from_summary_and_insights() {
    let with_summary = j(r#"{"summary": "活跃开发者", "insights": ["ignored when summary present"]}"#);
    assert_eq!(object::extract_report_summary_plain(&with_summary), "活跃开发者");
    let with_insights = j(r#"{"insights": ["首条洞察", "第二条"]}"#);
    assert_eq!(object::extract_report_summary_plain(&with_insights), "首条洞察");
    assert_eq!(object::extract_report_summary_plain(&j("{}")), "");
}

#[test]
fn extract_report_summary_html_escapes_and_falls_back() {
    let xss = j(r#"{"summary": "a<b>&c"}"#);
    assert_eq!(object::extract_report_summary(&xss), "<p>a&lt;b&gt;&amp;c</p>");
    assert_eq!(object::extract_report_summary(&j("{}")), "<p>Data report</p>");
}

#[test]
fn report_share_snapshot_field_names_are_stable() {
    let row = ReportRow {
        platform: s("github"),
        report: Some(json::object().with("summary", json::string(&"x".repeat(800)))),
        title: None,
    };
    let shared =
        object::build_ap_object(&alice(), "12", Visibility::Public, &Content::Report(Some(row)))
            .unwrap();
    for name in ["report_id", "summary", "platform", "content_preview"] {
        assert!(shared.get(name).is_some(), "snapshot field {name}");
    }
    let long = "x".repeat(800);
    let capped: String = long.chars().take(500).collect();
    assert_eq!(capped.chars().count(), 500);
    assert_eq!(shared.str_at("content_preview").unwrap().chars().count(), 500);
    assert_eq!(object::PREVIEW_CHARS, 500);
}

fn limits() -> NoteLimits {
    NoteLimits { text_chars: 20, attachments: 1 }
}

fn write_note(
    text: &str,
    attachments: Vec<NoteAttachmentInput>,
    parent: Option<String>,
) -> Result<Json, (u16, String)> {
    let content =
        Content::Note { text: s(text), attachments, in_reply_to: parent, limits: limits() };
    object::build_ap_object(&alice(), "n1", Visibility::Followers, &content)
        .map_err(|e| (e.status, e.error))
}

fn photo(url: &str, mime: &str) -> NoteAttachmentInput {
    NoteAttachmentInput { url: url.to_string(), media_type: mime.to_string(), name: s(" a ") }
}

#[test]
fn a_note_is_addressed_and_escaped() {
    let made = write_note(" <hi> ", vec![], s(" https://other.example/n ")).unwrap();
    assert_eq!(made.str_at("type"), Some("Note"));
    assert_eq!(made.str_at("content"), Some("<p>&lt;hi&gt;</p>"));
    assert_eq!(made.get("source").unwrap().str_at("content"), Some("<hi>"));
    assert_eq!(made.str_at("inReplyTo"), Some("https://other.example/n"));
    assert_eq!(made.str_at("attributedTo"), Some("https://myriad.example/users/alice"));
    assert_eq!(
        made.get("to"),
        Some(&j(r#"["https://myriad.example/users/alice/followers"]"#))
    );
}

#[test]
fn a_note_is_refused_for_a_reason() {
    assert_eq!(
        write_note("  ", vec![], None),
        Err((400, "Note requires text and/or attachments".to_string()))
    );
    assert_eq!(
        write_note(&"x".repeat(21), vec![], None),
        Err((400, "Note text too long (max 20 chars)".to_string()))
    );
    let ok = "https://myriad.example/media/federation/1/a.jpg";
    assert_eq!(
        write_note("hi", vec![photo(ok, "image/jpeg"), photo(ok, "image/jpeg")], None),
        Err((400, "Too many attachments (max 1)".to_string()))
    );
    assert!(write_note("hi", vec![photo("https://evil.example/a.jpg", "image/jpeg")], None).is_err());
    assert!(write_note("hi", vec![photo(ok, "application/pdf")], None).is_err());
    assert!(write_note("", vec![photo(ok, "image/jpeg")], None).is_ok());
}

#[test]
fn missing_content_is_not_found() {
    let p = alice();
    for content in [
        Content::Report(None),
        Content::PhantasiArticle(None),
        Content::Tapp(None),
        Content::Library(None),
    ] {
        let refused = object::build_ap_object(&p, "9", Visibility::Public, &content).unwrap_err();
        assert_eq!(refused.status, 404);
    }
}

#[test]
fn articles_and_apps_keep_where_they_came_from() {
    let p = alice();
    let article = Content::PhantasiArticle(Some(ArticleRow {
        title: s("Title"),
        content: s("Body"),
        link: s("https://blog.example/1"),
        author: None,
        source_name: s("Blog"),
    }));
    let made = object::build_ap_object(&p, "5", Visibility::Public, &article).unwrap();
    assert_eq!(made.str_at("name"), Some("Title"));
    assert_eq!(made.str_at("mfp:contentType"), Some(ContentKind::PhantasiArticle.as_str()));
    let tapp = Content::Tapp(Some(TappRow {
        tapp_id: s("notes"),
        name: s("Notes"),
        version: s("1.0"),
        description: None,
        author: None,
        icon: None,
        manifest: None,
    }));
    let made = object::build_ap_object(&p, "notes", Visibility::Public, &tapp).unwrap();
    assert_eq!(made.str_at("name"), Some("Notes"));
}

#[test]
fn a_library_counts_what_it_seems_to_hold() {
    let raw = j(r#"{"games": [{"name": "A"}, {"node": {"title": "B"}}, {"name": "A"}], "x": 3}"#);
    assert_eq!(library::summarize_library_raw(&raw), (3, vec!["A".to_string(), "B".to_string()]));
    assert_eq!(library::summarize_library_raw(&j(r#"{"other": [{"title": " T "}]}"#)).0, 1);
    assert_eq!(library::summarize_library_raw(&j("7")), (0, vec![]));
    let row = LibraryRow { id: 4, platform_name: s("steam"), raw_data: Some(raw) };
    let made = object::build_ap_object(
        &alice(),
        "steam",
        Visibility::Public,
        &Content::Library(Some(row)),
    )
    .unwrap();
    assert_eq!(made.str_at("summary"), Some("3 items on steam — e.g. A, B"));
    assert_eq!(made.i64_at("totalItems"), Some(3));
}

#[test]
fn content_is_looked_up_by_its_kind() {
    assert_eq!(
        object::content_lookup(ContentKind::Report, "12"),
        Ok(ContentLookup::Report(12))
    );
    assert_eq!(object::content_lookup(ContentKind::Report, "x"), Ok(ContentLookup::Report(0)));
    assert_eq!(
        object::content_lookup(ContentKind::Library, "7"),
        Ok(ContentLookup::LibraryById(7))
    );
    assert_eq!(
        object::content_lookup(ContentKind::Library, " steam "),
        Ok(ContentLookup::LibraryByPlatform("steam".to_string()))
    );
    assert_eq!(object::content_lookup(ContentKind::Library, "  ").unwrap_err().status, 400);
}

// --- addresses and audiences -----------------------------------------------

#[test]
fn local_username_from_inbox_url_matches_base() {
    let base = "https://myriad.example.com";
    assert_eq!(
        urls::local_username_from_inbox_url(base, "https://myriad.example.com/users/bob/inbox"),
        Some("bob".to_string())
    );
    assert_eq!(
        urls::local_username_from_inbox_url(base, "https://other.example.com/users/bob/inbox"),
        None
    );
}

#[test]
fn resolve_audience_public_and_followers() {
    let base = "https://myriad.example";
    let (to, cc) = audience::resolve_audience(Visibility::Public, base, "alice");
    assert!(to.iter().any(|u| u.contains("Public") || u == urls::AP_PUBLIC));
    assert!(cc.iter().any(|u| u.ends_with("/users/alice/followers")));
    let (to2, cc2) = audience::resolve_audience(Visibility::Followers, base, "alice");
    assert!(to2.iter().any(|u| u.ends_with("/users/alice/followers")));
    assert!(cc2.is_empty());
    let (to3, cc3) = audience::resolve_audience(Visibility::Direct, base, "alice");
    assert_eq!(to3, vec!["https://myriad.example/users/alice".to_string()]);
    assert!(cc3.is_empty());
}

#[test]
fn local_username_from_inbox_url_rejects_wrong_host() {
    let base = "https://myriad.example";
    assert_eq!(
        urls::local_username_from_inbox_url(base, "https://myriad.example/users/alice/inbox"),
        Some("alice".into())
    );
    assert_eq!(
        urls::local_username_from_inbox_url(base, "https://evil.example/users/alice/inbox"),
        None
    );
}

#[test]
fn w175_resolve_audience_matrix() {
    let base = "https://myriad.example";
    let (to, cc) = audience::resolve_audience(Visibility::Public, base, "alice");
    assert!(to.iter().any(|u| u == urls::AP_PUBLIC || u.contains("Public")));
    assert!(cc.iter().any(|u| u.ends_with("/users/alice/followers")));
    let (to_f, cc_f) = audience::resolve_audience(Visibility::Followers, base, "bob");
    assert!(to_f.iter().any(|u| u.ends_with("/users/bob/followers")));
    assert!(cc_f.is_empty());
    let (to_d, cc_d) = audience::resolve_audience(Visibility::Direct, base, "carol");
    assert_eq!(to_d, vec!["https://myriad.example/users/carol".to_string()]);
    assert!(cc_d.is_empty());
}

#[test]
fn w175_local_username_from_inbox_host() {
    let base = "https://myriad.example";
    assert_eq!(
        urls::local_username_from_inbox_url(base, "https://myriad.example/users/alice/inbox"),
        Some("alice".into())
    );
    assert_eq!(
        urls::local_username_from_inbox_url(base, "https://evil.example/users/alice/inbox"),
        None
    );
}

#[test]
fn route_follower_isolates_bad_rows() {
    let base = "https://myriad.example";
    assert_eq!(
        delivery::route_follower(
            base,
            Some("https://r.example/users/a/inbox"),
            Some("r.example"),
            Some("https://r.example/users/a"),
        ),
        FollowerRoute::Remote {
            inbox: "https://r.example/users/a/inbox".into(),
            domain: "r.example".into(),
        }
    );
    assert_eq!(
        delivery::route_follower(base, Some("https://myriad.example/users/bob/inbox"), None, None),
        FollowerRoute::Local("bob".into())
    );
    assert_eq!(
        delivery::route_follower(base, Some(""), None, Some("https://myriad.example/users/bob")),
        FollowerRoute::Local("bob".into())
    );
    assert!(matches!(
        delivery::route_follower(base, Some("  "), Some("r.example"), Some("https://r.example/a")),
        FollowerRoute::Skip(_)
    ));
    assert!(matches!(
        delivery::route_follower(base, None, Some("r.example"), None),
        FollowerRoute::Skip(_)
    ));
    assert!(matches!(
        delivery::route_follower(base, Some("https://r.example/inbox"), None, None),
        FollowerRoute::Skip(_)
    ));
}

fn follower(inbox: &str, domain: &str, actor: &str) -> FollowerRow {
    FollowerRow { inbox: s(inbox), domain: s(domain), actor: s(actor) }
}

fn followers() -> Vec<FollowerRow> {
    let base = "https://myriad.example";
    vec![
        follower("https://good.example/users/g/inbox", "good.example", "https://good.example/users/g"),
        follower("", "bad.example", "https://bad.example/users/b"),
        follower(&format!("{base}/users/bob/inbox"), "local", &format!("{base}/users/bob")),
        follower(&format!("{base}/users/ghost/inbox"), "local", &format!("{base}/users/ghost")),
    ]
}

#[test]
fn staged_fan_out_is_best_effort_per_recipient() {
    let plan = delivery::plan_follower_fan_out("https://myriad.example", &followers());
    assert_eq!(plan.remote.len(), 1);
    assert_eq!(plan.remote[0].inbox, "https://good.example/users/g/inbox");
    assert_eq!(plan.local_followers, vec!["bob", "ghost"]);
    assert_eq!(plan.skipped, 1);
}

#[test]
fn fan_out_to_followers_is_best_effort_per_recipient() {
    // One remote inbox is queued, bob gets it, ghost is gone.
    assert_eq!(delivery::delivered_count(&vec![1], &vec![true, false]), 2);
    assert_eq!(delivery::delivered_count(&vec![], &vec![]), 0);
}

#[test]
fn direct_posts_reach_no_follower() {
    let peers = vec![
        RoomPeer { inbox_url: "https://peer.example/inbox".into(), domain: "peer.example".into() },
        RoomPeer { inbox_url: "https://myriad.example/inbox".into(), domain: "myriad.example".into() },
    ];
    let base = "https://myriad.example";
    let domain = s("myriad.example");
    let public =
        delivery::stage_fan_out(Visibility::Public, true, base, &followers(), &domain, &peers);
    assert!(public.remote.iter().any(|t| t.domain == "good.example"));
    assert!(public.remote.iter().any(|t| t.domain == "peer.example"));
    let direct =
        delivery::stage_fan_out(Visibility::Direct, false, base, &followers(), &domain, &peers);
    assert!(direct.remote.is_empty());
    assert!(direct.local_followers.is_empty());
}

#[test]
fn non_broadcast_visibility_never_fans_out() {
    for raw in ["direct", "mentioned"] {
        let v = audience::parse_visibility(raw).expect("modelled visibility");
        assert_eq!(audience::fan_out_scope(v), FanOutScope::ExplicitRecipientsOnly, "{raw}");
    }
    for raw in ["public", "followers", "unlisted", "private"] {
        let v = audience::parse_visibility(raw).expect("modelled visibility");
        assert_eq!(audience::fan_out_scope(v), FanOutScope::AllFollowers, "{raw}");
    }
    assert!(audience::parse_visibility("publik").is_err());
}

#[test]
fn delivery_queue_rejects_non_positive_activity_ids() {
    assert!(delivery::validate_delivery_activity_id(0).is_err());
    assert!(delivery::validate_delivery_activity_id(-1).is_err());
    assert_eq!(delivery::validate_delivery_activity_id(1), Ok(1));
}

#[test]
fn a_local_inbox_is_served_in_process() {
    let base = "https://myriad.example";
    assert_eq!(
        delivery::first_delivery_step(base, "https://myriad.example/users/bob/inbox"),
        DeliveryStep::DeliverLocally("bob".to_string())
    );
    assert_eq!(
        delivery::first_delivery_step(base, "https://r.example/users/bob/inbox"),
        DeliveryStep::QueuePending
    );
    assert_eq!(delivery::step_after_local_delivery(true), DeliveryStep::RecordDelivered);
    assert_eq!(delivery::step_after_local_delivery(false), DeliveryStep::QueuePending);
}

#[test]
fn only_local_signers_are_delivered_in_process() {
    let base = "https://myriad.example";
    let follow = j(r#"{"type": "Follow", "actor": "https://myriad.example/users/a"}"#);
    let ok = delivery::check_local_delivery(base, &follow, "https://myriad.example/users/a").unwrap();
    assert_eq!(ok.activity_type, "Follow");
    assert_eq!(
        delivery::check_local_delivery(base, &j("{}"), "https://myriad.example/users/a"),
        Err(LocalDeliveryError::MissingActorOrType)
    );
    let foreign = delivery::check_local_delivery(base, &follow, "https://r.example/users/a");
    assert_eq!(
        foreign.unwrap_err().message(),
        "In-process delivery requires a local signer, got https://r.example/users/a"
    );
    assert_eq!(delivery::error_message(&j(r#"{"error": "no"}"#), "x"), "no");
    assert_eq!(delivery::error_message(&j("{}"), "x"), "x");
}

#[test]
fn effects_wait_for_the_transaction() {
    let mut after: PostCommit<&'static str, i32> = PostCommit::new();
    after.push(None);
    after.push(Some("notice"));
    after.reply_locally(3, 9, "https://myriad.example/users/a/inbox".to_string());
    assert_eq!(after.notices, vec!["notice"]);
    assert_eq!(after.local_replies.len(), 1);
    assert_eq!(after.local_replies[0].user_id, 3);
}

// --- media -----------------------------------------------------------------

#[test]
fn classify_media_mime_allows_image_and_video() {
    assert_eq!(media::classify_media_mime("image/jpeg"), Some("Image"));
    assert_eq!(media::classify_media_mime("video/mp4"), Some("Video"));
    assert_eq!(media::classify_media_mime("application/pdf"), None);
}

fn validate_attachment_url(base_url: &str, user_id: i32, url: &str) -> bool {
    media::attachment_url_rejection_reason(base_url, user_id, url).is_none()
}

#[test]
fn validate_attachment_url_requires_local_media_path() {
    let base = "https://example.com";
    assert!(validate_attachment_url(base, 1, "https://example.com/media/federation/1/abc.jpg"));
    assert!(!validate_attachment_url(base, 1, "https://evil.com/media/federation/1/abc.jpg"));
    assert!(!validate_attachment_url(base, 1, "https://example.com/media/federation/1/../2/x.jpg"));
    assert!(!validate_attachment_url(base, 2, "https://example.com/media/federation/1/abc.jpg"));
    assert!(!validate_attachment_url(base, 1, ""));
    assert!(!validate_attachment_url(base, 1, "   "));
    assert!(!validate_attachment_url(base, 1, "https://example.com/media/federation/1/"));
    assert!(!validate_attachment_url(
        base,
        1,
        "https://example.com/media/federation/1/bad name.jpg"
    ));
}

#[test]
fn attachment_url_rejection_reason_is_specific() {
    let base = "https://example.com";
    let reason = |url: &str| media::attachment_url_rejection_reason(base, 1, url);
    assert_eq!(reason(""), Some("Invalid attachment URL"));
    assert_eq!(
        reason("https://evil.com/media/federation/1/abc.jpg"),
        Some("Invalid attachment URL")
    );
    assert_eq!(reason("https://example.com/media/federation/1/abc.jpg"), None);
    assert_eq!(
        reason("https://example.com/media/assets/11111111-1111-1111-1111-111111111111/shot.png"),
        None
    );
    assert_eq!(reason("/media/assets/11111111-1111-1111-1111-111111111111/shot.png"), None);
    assert_eq!(
        reason("https://evil.com/media/assets/11111111-1111-1111-1111-111111111111/shot.png"),
        Some("Invalid attachment URL")
    );
}

#[test]
fn an_asset_is_named_by_an_identifier() {
    let reason = |url: &str| {
        media::attachment_url_rejection_reason("https://example.com", 1, url)
    };
    assert!(reason("/media/assets/not-an-identifier/shot.png").is_some());
    assert!(reason("/media/assets/11111111-1111-1111-1111-11111111111/shot.png").is_some());
    for id in [
        "11111111111111111111111111111111",
        "{11111111-1111-1111-1111-11111111111a}",
        "URN:uuid:11111111-1111-1111-1111-11111111111A",
    ] {
        assert!(reason(&format!("/media/assets/{id}/shot.png")).is_none(), "{id}");
    }
    assert!(reason("/media/assets/11111111-1111-1111-1111-1111111111-1/shot.png").is_some());
    assert!(reason("/media/assets/11111111-1111-1111-1111-111111111111/a..png").is_some());
    assert!(reason("/api/media/7/content").is_none());
    assert!(reason("/api/media/0").is_some());
}

#[test]
fn classify_media_mime_rejects_unknown() {
    assert_eq!(media::classify_media_mime("application/pdf"), None);
    assert_eq!(media::classify_media_mime("text/plain"), None);
    assert_eq!(media::classify_media_mime("image/svg+xml"), None);
    assert_eq!(media::classify_media_mime("image/jpeg"), Some("Image"));
    assert_eq!(media::classify_media_mime("video/mp4"), Some("Video"));
}

#[test]
fn extension_for_mime_maps_known_types() {
    assert_eq!(media::extension_for_mime("image/jpeg"), Some("jpg"));
    assert_eq!(media::extension_for_mime("image/png"), Some("png"));
    assert_eq!(media::extension_for_mime("video/quicktime"), Some("mov"));
    assert_eq!(media::extension_for_mime("application/octet-stream"), None);
}

#[test]
fn attachment_url_rejects_path_traversal() {
    let base = "https://myriad.example";
    let reason = |url: &str| media::attachment_url_rejection_reason(base, 1, url);
    assert!(reason("https://myriad.example/media/federation/1/../etc").is_some());
    assert!(reason("https://myriad.example/media/federation/1/ok-file.jpg").is_none());
    assert!(reason("").is_some());
}

#[test]
fn w175_classify_media_mime_rejects_unknown() {
    assert_eq!(media::classify_media_mime("application/pdf"), None);
    assert_eq!(media::classify_media_mime("text/html"), None);
    assert_eq!(media::classify_media_mime("image/jpeg"), Some("Image"));
    assert_eq!(media::classify_media_mime("video/webm"), Some("Video"));
}

#[test]
fn w175_extension_for_mime_maps() {
    assert_eq!(media::extension_for_mime("image/png"), Some("png"));
    assert_eq!(media::extension_for_mime("image/webp"), Some("webp"));
    assert_eq!(media::extension_for_mime("video/mp4"), Some("mp4"));
    assert_eq!(media::extension_for_mime("audio/mpeg"), None);
}

#[test]
fn w175_attachment_url_rejects_traversal() {
    let base = "https://myriad.example";
    let reason = |url: &str| media::attachment_url_rejection_reason(base, 7, url);
    assert!(reason("https://myriad.example/media/federation/7/../x").is_some());
    assert!(reason("https://myriad.example/media/federation/7/ok.jpg").is_none());
    assert!(reason("").is_some());
}

#[test]
fn stored_media_uses_mime_extension_not_filename() {
    assert_eq!(media::extension_for_mime("image/jpeg"), Some("jpg"));
    assert_eq!(media::classify_media_mime("image/jpeg"), Some("Image"));
    assert!(media::stored_media_kind("application/pdf").is_none());
}

// --- publishing ------------------------------------------------------------

#[test]
fn publish_uses_one_transaction_and_unique_conflict_as_409() {
    assert_eq!(publish::after_store(StoreOutcome::Stored), Ok(true));
    let refused = publish::after_store(StoreOutcome::UniqueViolation).unwrap_err();
    assert_eq!(refused.status, 409);
    assert_eq!(refused.error, "Content already published");
    assert_eq!(publish::after_store(StoreOutcome::Failed), Ok(false));
}

#[test]
fn a_note_gets_an_identifier_of_its_own() {
    let plan = publish::check_publish(&note("public")).ok().unwrap();
    assert_eq!(plan.content_type, "note");
    assert_eq!(plan.visibility, Visibility::Public);
    let fresh = plan.content_id.strip_prefix("note_").unwrap();
    assert_eq!(fresh.len(), 36);
    let again = publish::check_publish(&note("public")).ok().unwrap();
    assert_ne!(plan.content_id, again.content_id);
    let plan = publish::check_publish_with(&note("public"), "abc").ok().unwrap();
    assert_eq!(plan.content_id, "note_abc");
}

#[test]
fn a_request_to_publish_is_refused_for_a_reason() {
    let refused = publish::check_publish(&note("publik")).err().unwrap();
    assert_eq!(refused.status(), 400);
    assert_eq!(refused.body().str_at("error"), Some("Unsupported visibility"));
    let mut other = note("public");
    other.content_type = "  ".to_string();
    assert_eq!(
        publish::check_publish(&other).err().unwrap().body().str_at("error"),
        Some("content_type required")
    );
    let mut other = note("public");
    other.content_type = "report".to_string();
    assert_eq!(
        publish::check_publish(&other).err().unwrap().body().str_at("error"),
        Some("content_id required")
    );
    let asked = publish::note_request(CreateNoteRequest {
        visibility: None,
        text: s("hi"),
        attachments: None,
        in_reply_to: None,
    });
    assert_eq!(asked.content_type, "note");
    assert_eq!(asked.text.as_deref(), Some("hi"));
}

#[test]
fn attachments_are_linked_where_they_are_public() {
    let object = j(r#"{"attachment": [{"url": "/a"}, {"name": "x"}, {"url": "/b"}]}"#);
    assert_eq!(publish::ap_attachment_urls(&object), vec!["/a", "/b"]);
    let activity = json::object().with("object", object);
    let rewritten = publish::rewrite_activity_attachment_urls(
        &activity,
        "https://myriad.example",
        &vec![s("/media/public/1.png"), None, None],
    );
    assert_eq!(
        publish::ap_attachment_urls(rewritten.get("object").unwrap()),
        vec!["https://myriad.example/media/public/1.png", "/b"]
    );
}

#[test]
fn what_was_published_is_shown_without_its_envelope() {
    let create = j(r#"{"type": "Create", "object": {"type": "Note"}}"#);
    assert_eq!(publish::published_content(&create), j(r#"{"type": "Note"}"#));
    let like = j(r#"{"type": "Like", "object": "https://r.example/n"}"#);
    assert_eq!(publish::published_content(&like), like);
}

#[test]
fn a_create_carries_the_object_and_its_audience() {
    let object = j(r#"{"type": "Note"}"#);
    let made = publish::create_activity(
        &alice(),
        &j(r#"["https://www.w3.org/ns/activitystreams"]"#),
        "https://myriad.example/activities/1",
        Visibility::Public,
        &object,
    );
    assert_eq!(made.str_at("type"), Some("Create"));
    assert_eq!(made.str_at("id"), Some("https://myriad.example/activities/1"));
    assert_eq!(made.get("object"), Some(&object));
    let plan = publish::check_publish_with(&note("public"), "abc").ok().unwrap();
    let told = publish::publish_response(plan, "https://myriad.example/activities/1", 2);
    assert!(told.success);
    assert_eq!(told.delivered_queued, 2);
    assert_eq!(told.visibility, "public");
}

// --- taking back -----------------------------------------------------------

#[test]
fn unpublish_content_id_only_rejects_ambiguous_matches() {
    assert_eq!(
        unpublish::unique_unpublish_row::<i32>(vec![]).unwrap_err(),
        UnpublishLookupError::Missing
    );
    assert_eq!(unpublish::unique_unpublish_row(vec![7]).unwrap(), 7);
    assert_eq!(
        unpublish::unique_unpublish_row(vec![1, 2]).unwrap_err(),
        UnpublishLookupError::Ambiguous
    );
}

#[test]
fn unpublish_audience_matches_the_original_create() {
    let public = unpublish::unpublish_audience(&s("public"), "note");
    assert_eq!(public.addressing, Some(Visibility::Public));
    assert!(public.room_peers);
    assert!(!unpublish::unpublish_audience(&s("public"), "repost").room_peers);
    let followers = unpublish::unpublish_audience(&s("followers"), "note");
    assert_eq!(followers.addressing, Some(Visibility::Followers));
    assert!(!followers.room_peers);
    let direct = unpublish::unpublish_audience(&s("direct"), "note");
    assert_eq!(direct.fan_out, Visibility::Direct);
    assert!(!direct.room_peers);
    for legacy in [None, s("weird")] {
        let audience = unpublish::unpublish_audience(&legacy, "note");
        assert_eq!(audience.addressing, None);
        assert_eq!(audience.fan_out, Visibility::Followers);
        assert!(!audience.room_peers);
    }
}

#[test]
fn unpublish_content_id_lookup_uses_all_rows() {
    assert_eq!(
        unpublish::unpublish_lookup(&None, &s("7"), &None),
        Ok(UnpublishLookup::ById { bare_id: "7".into(), raw_id: "7".into() })
    );
    assert_eq!(unpublish::resolve_rows(vec![5]), Ok(5));
    assert_eq!(unpublish::resolve_rows::<i32>(vec![]).unwrap_err().status, 404);
    assert_eq!(unpublish::resolve_rows(vec![1, 2]).unwrap_err().status, 400);
    assert_eq!(unpublish::resolve_row(Some(5)), Ok(5));
    assert_eq!(unpublish::resolve_row::<i32>(None).unwrap_err().status, 404);
}

#[test]
fn an_address_stands_for_its_content() {
    assert_eq!(
        unpublish::normalize_unpublish_target(&None, "https://myriad.example/notes/n1?x=1"),
        (s("note"), "n1".to_string())
    );
    assert_eq!(
        unpublish::normalize_unpublish_target(&s(" report "), " 7 "),
        (s("report"), "7".to_string())
    );
    assert_eq!(
        unpublish::normalize_unpublish_target(&None, "/phantasi/articles/9/"),
        (s(ContentKind::PhantasiArticle.as_str()), "9".to_string())
    );
    assert_eq!(
        unpublish::normalize_unpublish_target(&None, "https://myriad.example/notes/n1//?x=1/2"),
        (s("note"), "n1".to_string())
    );
    assert_eq!(
        unpublish::unpublish_lookup(&None, &None, &s("https://myriad.example/activities/1")),
        Ok(UnpublishLookup::ByActivity("https://myriad.example/activities/1".to_string()))
    );
    assert_eq!(unpublish::unpublish_lookup(&None, &None, &None).unwrap_err().status, 400);
}

#[test]
fn a_deletion_goes_where_the_post_went() {
    let plan = unpublish::plan_unpublish(
        PublishedRow {
            id: 3,
            activity_id: "https://myriad.example/activities/1".to_string(),
            content_type: s("note"),
            content_id: s("n1"),
            visibility: s("followers"),
        },
        &None,
        &None,
    );
    assert_eq!(plan.published_id, 3);
    assert_eq!(plan.audience.fan_out, Visibility::Followers);
    let made = unpublish::delete_activity(
        &alice(),
        &j("[]"),
        "https://myriad.example/activities/2",
        plan.audience,
        &plan.activity_id,
    );
    assert_eq!(made.str_at("type"), Some("Delete"));
    assert_eq!(made.str_at("object"), Some("https://myriad.example/activities/1"));
    assert_eq!(
        made.get("to"),
        Some(&j(r#"["https://myriad.example/users/alice/followers"]"#))
    );
    let told = unpublish::unpublish_response(&plan, "https://myriad.example/activities/2");
    assert_eq!(told.bool_at("success"), Some(true));
}
