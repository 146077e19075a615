//! Publishing local content, and taking it back.
use crate::federation::audience::Visibility;
use crate::federation::{audience, object, urls};
use crate::ids;
use crate::json;
use crate::json::{Json, JsonView};
use crate::refusal;
use crate::refusal::Refusal;
use crate::text;
use vstd::prelude::*;

verus! {

broadcast use crate::json::group_json;

// ---------------------------------------------------------------------------
// Publishing
// ---------------------------------------------------------------------------
/// A request to publish local content.
pub struct PublishRequest {
    pub content_type: String,
    pub content_id: Option<String>,
    pub visibility: Option<String>,
    pub text: Option<String>,
    pub attachments: Option<Vec<object::NoteAttachmentInput>>,
    pub in_reply_to: Option<String>,
}

/// A request to publish a note.
pub struct CreateNoteRequest {
    pub visibility: Option<String>,
    pub text: Option<String>,
    pub attachments: Option<Vec<object::NoteAttachmentInput>>,
    pub in_reply_to: Option<String>,
}

/// A note is published as content of its own kind, under a new identifier.
pub fn note_request(req: CreateNoteRequest) -> (r: PublishRequest)
    ensures
        r.content_type@ == "note"@,
        r.content_id is None,
        r.visibility == req.visibility,
        r.text == req.text,
        r.attachments == req.attachments,
        r.in_reply_to == req.in_reply_to,
{
    PublishRequest {
        content_type: "note".to_owned(),
        content_id: None,
        visibility: req.visibility,
        text: req.text,
        attachments: req.attachments,
        in_reply_to: req.in_reply_to,
    }
}

/// Why a request to publish is refused.
#[derive(Debug, PartialEq, Eq)]
pub enum PublishRefusal {
    UnsupportedVisibility(String),
    ContentTypeRequired,
    ContentIdRequired,
}

pub open spec fn supported_visibilities() -> Seq<Seq<char>> {
    seq![
        "public"@,
        "followers"@,
        "unlisted"@,
        "private"@,
        "direct"@,
        "mentioned"@,
    ]
}

impl PublishRefusal {
    /// The body of the answer.
    pub open spec fn body_of(self) -> JsonView {
        match self {
            PublishRefusal::UnsupportedVisibility(bad) => json::empty().with(
                "error"@,
                json::text_json("Unsupported visibility"@),
            ).with("visibility"@, json::text_json(bad@)).with(
                "supported"@,
                json::texts_json(supported_visibilities()),
            ),
            PublishRefusal::ContentTypeRequired => json::empty().with(
                "error"@,
                json::text_json("content_type required"@),
            ),
            PublishRefusal::ContentIdRequired => json::empty().with(
                "error"@,
                json::text_json("content_id required"@),
            ),
        }
    }

    pub fn status(&self) -> (r: u16)
        ensures
            r == 400,
    {
        400
    }

    pub fn body(&self) -> (r: Json)
        ensures
            r@ == self.body_of(),
    {
        match self {
            PublishRefusal::UnsupportedVisibility(bad) => {
                let mut list: Vec<String> = Vec::new();
                list.push("public".to_owned());
                list.push("followers".to_owned());
                list.push("unlisted".to_owned());
                list.push("private".to_owned());
                list.push("direct".to_owned());
                list.push("mentioned".to_owned());
                assert(text::views(list@) =~= supported_visibilities());
                json::object().with("error", json::string("Unsupported visibility")).with(
                    "visibility",
                    json::string(bad.as_str()),
                ).with("supported", json::strings(&list))
            },
            PublishRefusal::ContentTypeRequired => json::object().with(
                "error",
                json::string("content_type required"),
            ),
            PublishRefusal::ContentIdRequired => json::object().with(
                "error",
                json::string("content_id required"),
            ),
        }
    }
}

/// What is published and for whom.
pub struct PublishPlan {
    pub content_type: String,
    pub content_id: String,
    pub visibility: Visibility,
}

/// Requested visibility; everyone, where none is requested.
pub open spec fn requested_visibility(req: PublishRequest) -> Seq<char> {
    match req.visibility {
        Some(v) => v@,
        None => "public"@,
    }
}

/// The identifier of the content: the given one or, for a note, a new one.
pub open spec fn content_id_of(req: PublishRequest, fresh: Seq<char>) -> Option<Seq<char>> {
    match object::given(text::opt_view(req.content_id)) {
        Some(id) => Some(id),
        None => if text::trimmed(req.content_type@) == "note"@ {
            Some("note_"@ + fresh)
        } else {
            None
        },
    }
}

/// Whether a request is answered with this plan or refusal when a new
/// identifier is `fresh`.
pub open spec fn publish_answer(
    req: PublishRequest,
    fresh: Seq<char>,
    r: Result<PublishPlan, PublishRefusal>,
) -> bool {
    let visibility = audience::visibility_of(requested_visibility(req));
    let content_type = text::trimmed(req.content_type@);
    match r {
        Err(PublishRefusal::UnsupportedVisibility(bad)) => {
            &&& visibility is None
            &&& bad@ == requested_visibility(req)
        },
        Err(PublishRefusal::ContentTypeRequired) => {
            &&& visibility is Some
            &&& content_type.len() == 0
        },
        Err(PublishRefusal::ContentIdRequired) => {
            &&& visibility is Some
            &&& content_type.len() > 0
            &&& content_id_of(req, fresh) is None
        },
        Ok(plan) => {
            &&& visibility == Some(plan.visibility)
            &&& content_type.len() > 0
            &&& plan.content_type@ == content_type
            &&& content_id_of(req, fresh) == Some(plan.content_id@)
        },
    }
}

/// Checks a request to publish; `fresh` becomes part of the identifier of a
/// note that has none.
pub fn check_publish_with(req: &PublishRequest, fresh: &str) -> (r: Result<
    PublishPlan,
    PublishRefusal,
>)
    ensures
        publish_answer(*req, fresh@, r),
{
    let raw = match &req.visibility {
        Some(v) => v.as_str(),
        None => "public",
    };
    let visibility = match audience::parse_visibility(raw) {
        Ok(v) => v,
        Err(bad) => return Err(PublishRefusal::UnsupportedVisibility(bad)),
    };
    let content_type = text::trim(req.content_type.as_str());
    if content_type.as_str().is_empty() {
        return Err(PublishRefusal::ContentTypeRequired);
    }
    let content_id = match object::trim_given(&req.content_id) {
        Some(id) => id,
        None => {
            if !text::eq(content_type.as_str(), "note") {
                return Err(PublishRefusal::ContentIdRequired);
            }
            let mut id = "note_".to_owned();
            id.append(fresh);
            id
        },
    };
    Ok(PublishPlan { content_type, content_id, visibility })
}

/// Checks a request to publish. A note without an identifier gets a new one.
pub fn check_publish(req: &PublishRequest) -> (r: Result<PublishPlan, PublishRefusal>)
    ensures
        exists|fresh: Seq<char>|
            ids::hyphenated(fresh) && #[trigger] publish_answer(*req, fresh, r),
{
    let fresh = ids::random_uuid();
    let r = check_publish_with(req, fresh.as_str());
    assert(publish_answer(*req, fresh@, r));
    r
}

pub open spec fn create_of(
    p: object::Publisher,
    context: JsonView,
    activity_id: Seq<char>,
    v: Visibility,
    ap_object: JsonView,
) -> JsonView {
    json::empty()
        .with("@context"@, context)
        .with("type"@, json::text_json("Create"@))
        .with("id"@, json::text_json(activity_id))
        .with("actor"@, json::text_json(urls::actor_url_of(p.base_url@, p.username@)))
        .with("published"@, json::text_json(p.published@))
        .with("to"@, json::texts_json(audience::to_of(v, p.base_url@, p.username@)))
        .with("cc"@, json::texts_json(audience::cc_of(v, p.base_url@, p.username@)))
        .with("object"@, ap_object)
}

/// The activity that announces new content.
pub fn create_activity(
    p: &object::Publisher,
    context: &Json,
    activity_id: &str,
    v: Visibility,
    ap_object: &Json,
) -> (r: Json)
    ensures
        r@ == create_of(*p, context@, activity_id@, v, ap_object@),
{
    let (to, cc) = audience::resolve_audience(v, p.base_url.as_str(), p.username.as_str());
    let actor = urls::actor_url(p.base_url.as_str(), p.username.as_str());
    json::object()
        .with("@context", context.copy())
        .with("type", json::string("Create"))
        .with("id", json::string(activity_id))
        .with("actor", json::string(actor.as_str()))
        .with("published", json::string(p.published.as_str()))
        .with("to", json::strings(&to))
        .with("cc", json::strings(&cc))
        .with("object", ap_object.copy())
}

/// How storing the published content went.
#[derive(Clone, Copy, Debug, PartialEq, Eq, Structural)]
pub enum StoreOutcome {
    Stored,
    /// Content of this type and identifier is there already.
    UniqueViolation,
    Failed,
}

/// What publishing comes to once the content has been stored, or not. The
/// uniqueness of type and identifier is what keeps content from being published
/// twice; any other failure is the store's to report.
pub fn after_store(outcome: StoreOutcome) -> (r: Result<bool, Refusal>)
    ensures
        match r {
            Ok(stored) => stored == (outcome is Stored) && !(outcome is UniqueViolation),
            Err(e) => outcome is UniqueViolation && e@ == refusal::fault(
                409,
                "Content already published"@,
            ),
        },
{
    match outcome {
        StoreOutcome::Stored => Ok(true),
        StoreOutcome::Failed => Ok(false),
        StoreOutcome::UniqueViolation => Err(refusal::refuse(409, "Content already published")),
    }
}

/// What a publisher is told.
#[derive(Debug, PartialEq, Eq)]
pub struct PublishResponse {
    pub success: bool,
    pub activity_id: String,
    pub content_type: String,
    pub content_id: String,
    pub visibility: String,
    pub delivered_queued: u32,
    pub author_timeline: bool,
}

pub fn publish_response(plan: PublishPlan, activity_id: &str, delivered_queued: u32) -> (r:
    PublishResponse)
    ensures
        r.success,
        r.author_timeline,
        r.activity_id@ == activity_id@,
        r.content_type == plan.content_type,
        r.content_id == plan.content_id,
        r.visibility@ == plan.visibility.name(),
        r.delivered_queued == delivered_queued,
{
    PublishResponse {
        success: true,
        activity_id: activity_id.to_owned(),
        content_type: plan.content_type,
        content_id: plan.content_id,
        visibility: plan.visibility.as_str().to_owned(),
        delivered_queued,
        author_timeline: true,
    }
}

// ---------------------------------------------------------------------------
// Attachments
// ---------------------------------------------------------------------------
pub open spec fn urls_of(list: Seq<JsonView>) -> Seq<Seq<char>>
    decreases list.len(),
{
    if list.len() == 0 {
        Seq::empty()
    } else {
        let before = urls_of(list.drop_last());
        match list.last().text_at("url"@) {
            Some(url) => before.push(url),
            None => before,
        }
    }
}

/// The URLs of the attachments of an object, in order.
pub open spec fn attachment_urls_of(ap_object: JsonView) -> Seq<Seq<char>> {
    match ap_object.array_at("attachment"@) {
        Some(list) => urls_of(list),
        None => Seq::empty(),
    }
}

pub fn ap_attachment_urls(ap_object: &Json) -> (r: Vec<String>)
    ensures
        text::views(r@) == attachment_urls_of(ap_object@),
{
    let mut out: Vec<String> = Vec::new();
    assert(text::views(out@) =~= Seq::empty());
    if let Some(Json::Array(a)) = ap_object.get("attachment") {
        let ghost list = json::items(a@);
        let mut i: usize = 0;
        assert(list.take(0) =~= Seq::empty());
        while i < a.len()
            invariant
                i <= a@.len(),
                list == json::items(a@),
                text::views(out@) == urls_of(list.take(i as int)),
            decreases a@.len() - i,
        {
            assert(list.take(i + 1).drop_last() =~= list.take(i as int));
            assert(list.take(i + 1).last() == a@[i as int]@);
            if let Some(url) = a[i].str_at("url") {
                let url = url.to_owned();
                proof {
                    text::views_push(out@, url);
                }
                out.push(url);
            }
            i = i + 1;
        }
        assert(list.take(a@.len() as int) =~= list);
    }
    out
}

/// An attachment with its URL replaced by the public path, where it has a URL
/// and was given a path.
pub open spec fn with_public_url(
    attachment: JsonView,
    base: Seq<char>,
    path: Option<Seq<char>>,
) -> JsonView {
    match (attachment.text_at("url"@), path) {
        (Some(_), Some(p)) => JsonView::Object(
            json::with_entry(attachment->Object_0, "url"@, json::text_json(base + p)),
        ),
        _ => attachment,
    }
}

fn set_public_url(attachment: &Json, base: &str, path: &Option<String>) -> (r: Json)
    ensures
        r@ == with_public_url(attachment@, base@, text::opt_view(*path)),
{
    match (attachment, path) {
        (Json::Object(o), Some(p)) => {
            if attachment.str_at("url").is_some() {
                let mut url = base.to_owned();
                url.append(p.as_str());
                json::with_field(o, "url", json::string(url.as_str()))
            } else {
                attachment.copy()
            }
        },
        _ => attachment.copy(),
    }
}

/// The activity with the URLs of its object's attachments made public:
/// `paths[i]` is the public path of the attachment at position `i`.
pub open spec fn with_public_urls(
    activity: JsonView,
    base: Seq<char>,
    paths: Seq<Option<Seq<char>>>,
) -> JsonView {
    match (activity.get("object"@), attachments_in(activity)) {
        (Some(ap_object), Some(list)) => {
            let fresh = Seq::new(
                list.len(),
                |i: int|
                    with_public_url(
                        list[i],
                        base,
                        if i < paths.len() {
                            paths[i]
                        } else {
                            None
                        },
                    ),
            );
            JsonView::Object(
                json::with_entry(
                    activity->Object_0,
                    "object"@,
                    JsonView::Object(
                        json::with_entry(
                            ap_object->Object_0,
                            "attachment"@,
                            JsonView::Array(fresh),
                        ),
                    ),
                ),
            )
        },
        _ => activity,
    }
}

/// The attachments of the object of an activity.
pub open spec fn attachments_in(activity: JsonView) -> Option<Seq<JsonView>> {
    match activity.get("object"@) {
        Some(ap_object) => ap_object.array_at("attachment"@),
        None => None,
    }
}

pub open spec fn path_views(paths: Seq<Option<String>>) -> Seq<Option<Seq<char>>> {
    Seq::new(paths.len(), |i: int| text::opt_view(paths[i]))
}

/// Replaces the URLs of attachments by their public ones.
pub fn rewrite_activity_attachment_urls(
    activity: &Json,
    base: &str,
    paths: &Vec<Option<String>>,
) -> (r: Json)
    ensures
        r@ == with_public_urls(activity@, base@, path_views(paths@)),
{
    if let Json::Object(fields) = activity {
        if let Some(Json::Object(ap_object)) = activity.get("object") {
            if let Some(Json::Array(list)) = json::field(ap_object, "attachment") {
                let ghost views = path_views(paths@);
                let mut fresh: Vec<Json> = Vec::new();
                let mut i: usize = 0;
                while i < list.len()
                    invariant
                        i <= list@.len(),
                        views == path_views(paths@),
                        fresh@.len() == i,
                        forall|k: int|
                            0 <= k < i ==> #[trigger] fresh@[k]@ == with_public_url(
                                list@[k]@,
                                base@,
                                if k < views.len() {
                                    views[k]
                                } else {
                                    None
                                },
                            ),
                    decreases list@.len() - i,
                {
                    let none: Option<String> = None;
                    let path = if i < paths.len() {
                        &paths[i]
                    } else {
                        &none
                    };
                    fresh.push(set_public_url(&list[i], base, path));
                    i = i + 1;
                }
                let ghost expected = Seq::new(
                    json::items(list@).len(),
                    |k: int|
                        with_public_url(
                            json::items(list@)[k],
                            base@,
                            if k < views.len() {
                                views[k]
                            } else {
                                None
                            },
                        ),
                );
                assert(json::items(fresh@) =~= expected);
                let ap_object = json::with_field(ap_object, "attachment", json::array(fresh));
                return json::with_field(fields, "object", ap_object);
            }
        }
    }
    activity.copy()
}

// ---------------------------------------------------------------------------
// What has been published
// ---------------------------------------------------------------------------
/// What a stored activity is about: the object inside, where it wraps one, and
/// otherwise the activity itself.
pub open spec fn content_of(activity: JsonView) -> JsonView {
    match activity.get("object"@) {
        Some(object) => if object is Object {
            object
        } else {
            activity
        },
        None => activity,
    }
}

/// What a stored activity is about, for a client that shows it.
pub fn published_content(activity: &Json) -> (r: Json)
    ensures
        r@ == content_of(activity@),
{
    match activity.get("object") {
        Some(object) => if object.is_object() {
            object.copy()
        } else {
            activity.copy()
        },
        None => activity.copy(),
    }
}

/// What is published is what was asked for, for whom it was asked, and for everyone
/// only where that or nothing was asked. A note gets an identifier where it has none;
/// other content is never published without its own.
pub proof fn requests_are_published_as_asked(
    req: PublishRequest,
    fresh: Seq<char>,
    plan: PublishPlan,
)
    requires
        publish_answer(req, fresh, Ok(plan)),
    ensures
        plan.visibility == Visibility::Public <==> req.visibility is None || req.visibility->0@
            == "public"@,
        plan.content_type@ == text::trimmed(req.content_type@),
        plan.content_type@.len() > 0,
        req.content_id matches Some(id) ==> text::trimmed(id@).len() > 0 ==> plan.content_id@
            == text::trimmed(id@),
        plan.content_type@ != "note"@ ==> req.content_id is Some && text::trimmed(
            req.content_id->0@,
        ).len() > 0,
        plan.content_id@.len() > 0,
{
    reveal_strlit("note_");
    audience::visibility_is_never_widened(requested_visibility(req));
}

/// The activity says who did it, who it is for, and what it is about.
pub proof fn a_create_carries_its_object(
    p: object::Publisher,
    context: JsonView,
    activity_id: Seq<char>,
    v: Visibility,
    ap_object: JsonView,
)
    ensures
        ({
            let a = create_of(p, context, activity_id, v, ap_object);
            &&& a.get("object"@) == Some(ap_object)
            &&& a.text_at("id"@) == Some(activity_id)
            &&& a.text_at("type"@) == Some("Create"@)
            &&& a.text_at("actor"@) == Some(p.base_url@ + "/users/"@ + p.username@)
            &&& a.get("to"@) == Some(
                json::texts_json(audience::to_of(v, p.base_url@, p.username@)),
            )
            &&& a.get("cc"@) == Some(
                json::texts_json(audience::cc_of(v, p.base_url@, p.username@)),
            )
        }),
{
    reveal_strlit("@context");
    reveal_strlit("type");
    reveal_strlit("id");
    reveal_strlit("actor");
    reveal_strlit("published");
    reveal_strlit("to");
    reveal_strlit("cc");
    reveal_strlit("object");
    assert("@context"@.len() == 8 && "type"@.len() == 4 && "id"@.len() == 2 && "actor"@.len() == 5
        && "published"@.len() == 9 && "to"@.len() == 2 && "cc"@.len() == 2 && "object"@.len() == 6);
    assert("id"@[0] == 'i' && "to"@[0] == 't' && "cc"@[0] == 'c');
    reveal_with_fuel(json::key_from, 9);
}

/// The visibilities that a refusal names are exactly those that are taken.
pub proof fn the_supported_visibilities_are_taken(raw: Seq<char>)
    ensures
        audience::visibility_of(raw) is Some <==> supported_visibilities().contains(raw),
{
    let all = supported_visibilities();
    assert(all[0] == "public"@ && all[1] == "followers"@ && all[2] == "unlisted"@ && all[3]
        == "private"@ && all[4] == "direct"@ && all[5] == "mentioned"@);
}

/// Every attachment with an address is listed by it, in their order.
pub proof fn every_attachment_is_listed(before: Seq<JsonView>, one: JsonView, after: Seq<JsonView>)
    ensures
        urls_of(before.push(one) + after) == (match one.text_at("url"@) {
            Some(url) => urls_of(before).push(url),
            None => urls_of(before),
        }) + urls_of(after),
    decreases after.len(),
{
    let all = before.push(one) + after;
    if after.len() == 0 {
        assert(all =~= before.push(one));
        assert(all.drop_last() =~= before);
        assert(urls_of(after) =~= Seq::empty());
        assert(urls_of(all) + urls_of(after) =~= urls_of(all));
    } else {
        every_attachment_is_listed(before, one, after.drop_last());
        assert(all.drop_last() =~= before.push(one) + after.drop_last());
        assert(all.last() == after.last());
        assert(urls_of(all) =~= (match one.text_at("url"@) {
            Some(url) => urls_of(before).push(url),
            None => urls_of(before),
        }) + urls_of(after));
    }
}

/// An attachment that was stored is named by where it can be had, one that was
/// not by what it was named before; nothing else of the activity changes.
pub proof fn attachments_are_named_by_where_they_lie(
    activity: JsonView,
    base: Seq<char>,
    paths: Seq<Option<Seq<char>>>,
    list: Seq<JsonView>,
    i: int,
    key: Seq<char>,
)
    requires
        activity.get("object"@) matches Some(object) && object.get("attachment"@) == Some(
            JsonView::Array(list),
        ),
        0 <= i < list.len(),
        list[i].text_at("url"@) is Some,
        paths.len() == list.len(),
    ensures
        ({
            let told = with_public_urls(activity, base, paths);
            &&& key != "object"@ ==> told.get(key) == activity.get(key)
            &&& told.get("object"@) matches Some(object) && {
                &&& key != "attachment"@ ==> object.get(key) == activity.get("object"@)->0.get(key)
                &&& object.array_at("attachment"@) matches Some(fresh) && {
                    &&& fresh.len() == list.len()
                    &&& paths[i] matches Some(p) ==> fresh[i].text_at("url"@) == Some(base + p)
                    &&& paths[i] is None ==> fresh[i] == list[i]
                    &&& key != "url"@ ==> fresh[i].get(key) == list[i].get(key)
                }
            }
        }),
{
    let object = activity.get("object"@)->0;
    let fresh = Seq::new(
        list.len(),
        |i: int|
            with_public_url(
                list[i],
                base,
                if i < paths.len() {
                    paths[i]
                } else {
                    None
                },
            ),
    );
    let put = JsonView::Object(
        json::with_entry(object->Object_0, "attachment"@, JsonView::Array(fresh)),
    );
    json::lookup_after_set(activity->Object_0, "object"@, put, key);
    json::lookup_after_set(object->Object_0, "attachment"@, JsonView::Array(fresh), key);
    if let Some(p) = paths[i] {
        json::lookup_after_set(list[i]->Object_0, "url"@, json::text_json(base + p), key);
    }
}

/// What an activity carries is its object; one that carries none stands for
/// itself.
pub proof fn activities_carry_their_object(activity: JsonView, object: JsonView)
    ensures
        activity.get("object"@) == Some(object) && object is Object ==> content_of(activity) == object,
        activity.get("object"@) is None ==> content_of(activity) == activity,
        activity.get("object"@) == Some(object) && !(object is Object) ==> content_of(activity)
            == activity,
{
}

/// A request is refused for what is wrong with it: first for whom it is, then
/// what it is, then which.
pub proof fn requests_are_refused_for_what_is_wrong(
    req: PublishRequest,
    fresh: Seq<char>,
    r: Result<PublishPlan, PublishRefusal>,
)
    requires
        publish_answer(req, fresh, r),
    ensures
        req.visibility is Some && audience::visibility_of(req.visibility->0@) is None ==> (
        r matches Err(PublishRefusal::UnsupportedVisibility(bad)) && bad@ == req.visibility->0@),
        r matches Err(PublishRefusal::ContentTypeRequired) ==> text::trimmed(
            req.content_type@,
        ).len() == 0,
        text::trimmed(req.content_type@).len() == 0 ==> (r matches Err(e) && !(e
            is ContentIdRequired)),
        r matches Err(PublishRefusal::ContentIdRequired) ==> text::trimmed(req.content_type@)
            != "note"@,
{
}

} // verus!
