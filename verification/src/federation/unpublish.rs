//! Taking published content back.
use crate::federation::audience::Visibility;
use crate::federation::urls::ContentKind;
use crate::federation::{audience, object, urls};
use crate::json;
use crate::json::{Json, JsonView};
use crate::refusal;
use crate::refusal::Refusal;
use crate::text;
use vstd::prelude::*;

verus! {

broadcast use crate::json::group_json;

// ---------------------------------------------------------------------------
// Which content is meant
// ---------------------------------------------------------------------------
/// The segments of the path of an address, without the query.
pub open spec fn segments_of(address: Seq<char>) -> Seq<Seq<char>> {
    text::split_on(
        text::trim_end_char_of(text::before_char(address, '?'), '/'),
        '/',
    ).filter(|s: Seq<char>| s.len() > 0)
}

/// The kind of content whose objects live under such a path.
pub open spec fn inferred_type(segments: Seq<Seq<char>>) -> Option<Seq<char>> {
    let n = segments.len() as int;
    if n < 2 {
        None
    } else if segments[n - 2] == "notes"@ {
        Some(ContentKind::Note.name())
    } else if segments[n - 2] == "reports"@ {
        Some(ContentKind::Report.name())
    } else if segments[n - 2] == "library"@ {
        Some(ContentKind::Library.name())
    } else if segments[n - 2] == "tapps"@ {
        Some(ContentKind::Tapp.name())
    } else if segments[n - 2] == "articles"@ && n >= 3 && segments[n - 3] == "phantasi"@ {
        Some(ContentKind::PhantasiArticle.name())
    } else {
        None
    }
}

pub open spec fn is_bare_id(raw: Seq<char>) -> bool {
    !text::contains_text(raw, "://"@) && !text::has_char(raw, '/')
}

/// The content type, where it is given or can be inferred, and the bare
/// identifier that an identifier, object address or path stands for.
pub open spec fn normalized_target(content_type: Option<Seq<char>>, content_id: Seq<char>) -> (
    Option<Seq<char>>,
    Seq<char>,
) {
    let raw = text::trimmed(content_id);
    if raw.len() == 0 {
        (content_type, Seq::empty())
    } else if is_bare_id(raw) {
        (object::given(content_type), raw)
    } else {
        let segments = segments_of(raw);
        (
            match object::given(content_type) {
                Some(t) => Some(t),
                None => inferred_type(segments),
            },
            if segments.len() > 0 {
                segments.last()
            } else {
                raw
            },
        )
    }
}

fn nonempty_segments(address: &str) -> (r: Vec<String>)
    ensures
        text::views(r@) == segments_of(address@),
{
    let path = text::head_before(address, '?');
    let path = text::trim_end_char(path.as_str(), '/');
    let all = text::split(path.as_str(), '/');
    let ghost parts = text::views(all@);
    let ghost nonempty = |s: Seq<char>| s.len() > 0;
    let mut out: Vec<String> = Vec::new();
    let mut i: usize = 0;
    assert(parts.take(0).filter(nonempty) =~= Seq::empty()) by {
        reveal(Seq::filter);
    }
    assert(text::views(out@) =~= Seq::empty());
    while i < all.len()
        invariant
            i <= all@.len(),
            parts == text::views(all@),
            nonempty == (|s: Seq<char>| s.len() > 0),
            text::views(out@) == parts.take(i as int).filter(nonempty),
        decreases all@.len() - i,
    {
        proof {
            reveal(Seq::filter);
            assert(parts.take(i + 1).drop_last() =~= parts.take(i as int));
        }
        if !all[i].as_str().is_empty() {
            let part = all[i].clone();
            proof {
                text::views_push(out@, part);
            }
            out.push(part);
        }
        i = i + 1;
    }
    assert(parts.take(all@.len() as int) =~= parts);
    out
}

fn infer_type(segments: &Vec<String>) -> (r: Option<&'static str>)
    ensures
        match r {
            Some(t) => inferred_type(text::views(segments@)) == Some(t@),
            None => inferred_type(text::views(segments@)) is None,
        },
{
    let n = segments.len();
    if n < 2 {
        return None;
    }
    let prev = segments[n - 2].as_str();
    if text::eq(prev, "notes") {
        Some("note")
    } else if text::eq(prev, "reports") {
        Some("report")
    } else if text::eq(prev, "library") {
        Some("library")
    } else if text::eq(prev, "tapps") {
        Some("tapp")
    } else if text::eq(prev, "articles") && n >= 3 && text::eq(
        segments[n - 3].as_str(),
        "phantasi",
    ) {
        Some("phantasi-article")
    } else {
        None
    }
}

/// Normalizes an identifier that may be bare, an object address or a path.
pub fn normalize_unpublish_target(content_type: &Option<String>, content_id: &str) -> (r: (
    Option<String>,
    String,
))
    ensures
        (text::opt_view(r.0), r.1@) == normalized_target(text::opt_view(*content_type), content_id@),
{
    let raw = text::trim(content_id);
    if raw.as_str().is_empty() {
        let content_type = match content_type {
            Some(t) => Some(t.clone()),
            None => None,
        };
        return (content_type, String::new());
    }
    let given = object::trim_given(content_type);
    if !text::contains(raw.as_str(), "://") && !text::contains_char(raw.as_str(), '/') {
        return (given, raw);
    }
    let segments = nonempty_segments(raw.as_str());
    let content_type = match given {
        Some(t) => Some(t),
        None => match infer_type(&segments) {
            Some(t) => Some(t.to_owned()),
            None => None,
        },
    };
    let trailing = if segments.len() > 0 {
        segments[segments.len() - 1].clone()
    } else {
        raw
    };
    (content_type, trailing)
}

#[derive(Clone, Copy, Debug, PartialEq, Eq, Structural)]
pub enum UnpublishLookupError {
    Missing,
    Ambiguous,
}

/// The only row that matches.
pub fn unique_unpublish_row<T>(rows: Vec<T>) -> (r: Result<T, UnpublishLookupError>)
    ensures
        match r {
            Ok(row) => rows@.len() == 1 && row == rows@[0],
            Err(UnpublishLookupError::Missing) => rows@.len() == 0,
            Err(UnpublishLookupError::Ambiguous) => rows@.len() > 1,
        },
{
    let mut rows = rows;
    if rows.len() == 0 {
        Err(UnpublishLookupError::Missing)
    } else if rows.len() == 1 {
        Ok(rows.remove(0))
    } else {
        Err(UnpublishLookupError::Ambiguous)
    }
}

/// How to look for the published content.
#[derive(Debug, PartialEq, Eq)]
pub enum UnpublishLookup {
    ByActivity(String),
    /// The exact type and identifier; where nothing has them, the type with the
    /// identifier as it was given.
    ByTypeAndId { content_type: String, bare_id: String, raw_id: String },
    /// The identifier, bare or as it was given, of whatever type; the match must
    /// be the only one.
    ById { bare_id: String, raw_id: String },
}

pub open spec fn opt_nonempty(t: Option<Seq<char>>) -> Option<Seq<char>> {
    match t {
        Some(s) if s.len() > 0 => Some(s),
        _ => None,
    }
}

/// How to find the content that a request means.
pub fn unpublish_lookup(
    content_type: &Option<String>,
    content_id: &Option<String>,
    activity_id: &Option<String>,
) -> (r: Result<UnpublishLookup, Refusal>)
    ensures
        ({
            let activity = object::given(text::opt_view(*activity_id));
            let given_id = object::given(text::opt_view(*content_id));
            let target = normalized_target(text::opt_view(*content_type), given_id->0);
            match r {
                Ok(UnpublishLookup::ByActivity(id)) => activity == Some(id@),
                Ok(UnpublishLookup::ByTypeAndId { content_type: t, bare_id, raw_id }) => {
                    &&& activity is None && given_id == Some(raw_id@)
                    &&& target.1.len() > 0 && target.1 == bare_id@
                    &&& opt_nonempty(target.0) == Some(t@)
                },
                Ok(UnpublishLookup::ById { bare_id, raw_id }) => {
                    &&& activity is None && given_id == Some(raw_id@)
                    &&& target.1.len() > 0 && target.1 == bare_id@
                    &&& opt_nonempty(target.0) is None
                },
                Err(e) => {
                    &&& activity is None
                    &&& given_id is None ==> e@ == refusal::fault(
                        400,
                        "Provide activity_id, or content_type + content_id"@,
                    )
                    &&& given_id is Some ==> target.1.len() == 0 && e@ == refusal::fault(
                        400,
                        "content_id required"@,
                    )
                },
            }
        }),
{
    if let Some(id) = object::trim_given(activity_id) {
        return Ok(UnpublishLookup::ByActivity(id));
    }
    let raw_id = match object::trim_given(content_id) {
        Some(id) => id,
        None => return Err(
            refusal::refuse(400, "Provide activity_id, or content_type + content_id"),
        ),
    };
    let (content_type, bare_id) = normalize_unpublish_target(content_type, raw_id.as_str());
    if bare_id.as_str().is_empty() {
        return Err(refusal::refuse(400, "content_id required"));
    }
    match content_type {
        Some(t) if !t.as_str().is_empty() => Ok(
            UnpublishLookup::ByTypeAndId { content_type: t, bare_id, raw_id },
        ),
        _ => Ok(UnpublishLookup::ById { bare_id, raw_id }),
    }
}

/// What a lookup by identifier alone comes to.
pub fn resolve_rows<T>(rows: Vec<T>) -> (r: Result<T, Refusal>)
    ensures
        match r {
            Ok(row) => rows@.len() == 1 && row == rows@[0],
            Err(e) => rows@.len() != 1 && e@ == if rows@.len() == 0 {
                refusal::fault(404, "Content not published"@)
            } else {
                refusal::fault(400, "content_id is ambiguous; provide content_type"@)
            },
        },
{
    match unique_unpublish_row(rows) {
        Ok(row) => Ok(row),
        Err(UnpublishLookupError::Missing) => Err(refusal::refuse(404, "Content not published")),
        Err(UnpublishLookupError::Ambiguous) => Err(
            refusal::refuse(400, "content_id is ambiguous; provide content_type"),
        ),
    }
}

/// What a lookup that can match at most one row comes to.
pub fn resolve_row<T>(row: Option<T>) -> (r: Result<T, Refusal>)
    ensures
        match r {
            Ok(found) => row == Some(found),
            Err(e) => row is None && e@ == refusal::fault(404, "Content not published"@),
        },
{
    match row {
        Some(found) => Ok(found),
        None => Err(refusal::refuse(404, "Content not published")),
    }
}

// ---------------------------------------------------------------------------
// Who is told
// ---------------------------------------------------------------------------
/// The audience of a deletion: that of the activity it takes back.
#[derive(Clone, Copy, Debug, PartialEq, Eq, Structural)]
pub struct UnpublishAudience {
    /// The visibility by which it is addressed; `None` for a stored value that
    /// is not known, which stays addressed to everyone.
    pub addressing: Option<Visibility>,
    /// The visibility that decides whose inboxes it is carried to.
    pub fan_out: Visibility,
    /// Whether the original went to the neighbouring sites.
    pub room_peers: bool,
}

pub open spec fn stored_visibility(stored: Option<Seq<char>>) -> Option<Visibility> {
    match stored {
        Some(raw) => audience::visibility_of(raw),
        None => None,
    }
}

pub open spec fn audience_of(stored: Option<Seq<char>>, content_type: Seq<char>) -> UnpublishAudience {
    match stored_visibility(stored) {
        Some(v) => UnpublishAudience {
            addressing: Some(v),
            fan_out: v,
            room_peers: v is Public && content_type != "repost"@,
        },
        None => UnpublishAudience {
            addressing: None,
            fan_out: Visibility::Followers,
            room_peers: false,
        },
    }
}

pub fn unpublish_audience(stored: &Option<String>, content_type: &str) -> (r: UnpublishAudience)
    ensures
        r == audience_of(text::opt_view(*stored), content_type@),
{
    if let Some(raw) = stored {
        if let Ok(v) = audience::parse_visibility(raw.as_str()) {
            // A repost went to followers and the author only, never to neighbours.
            return UnpublishAudience {
                addressing: Some(v),
                fan_out: v,
                room_peers: v == Visibility::Public && !text::eq(content_type, "repost"),
            };
        }
    }
    UnpublishAudience { addressing: None, fan_out: Visibility::Followers, room_peers: false }
}

pub open spec fn delete_to(a: UnpublishAudience, p: object::Publisher) -> Seq<Seq<char>> {
    match a.addressing {
        Some(v) => audience::to_of(v, p.base_url@, p.username@),
        None => seq![urls::AP_PUBLIC@],
    }
}

pub open spec fn delete_cc(a: UnpublishAudience, p: object::Publisher) -> Seq<Seq<char>> {
    match a.addressing {
        Some(v) => audience::cc_of(v, p.base_url@, p.username@),
        None => Seq::empty(),
    }
}

pub open spec fn delete_of(
    p: object::Publisher,
    context: JsonView,
    delete_id: Seq<char>,
    a: UnpublishAudience,
    original_id: Seq<char>,
) -> JsonView {
    json::empty()
        .with("@context"@, context)
        .with("type"@, json::text_json("Delete"@))
        .with("id"@, json::text_json(delete_id))
        .with("actor"@, json::text_json(urls::actor_url_of(p.base_url@, p.username@)))
        .with("published"@, json::text_json(p.published@))
        .with("to"@, json::texts_json(delete_to(a, p)))
        .with("cc"@, json::texts_json(delete_cc(a, p)))
        .with("object"@, json::text_json(original_id))
}

/// The activity that takes content back.
pub fn delete_activity(
    p: &object::Publisher,
    context: &Json,
    delete_id: &str,
    a: UnpublishAudience,
    original_id: &str,
) -> (r: Json)
    ensures
        r@ == delete_of(*p, context@, delete_id@, a, original_id@),
{
    let (to, cc) = match a.addressing {
        Some(v) => audience::resolve_audience(v, p.base_url.as_str(), p.username.as_str()),
        None => {
            let mut to: Vec<String> = Vec::new();
            to.push(urls::AP_PUBLIC.to_owned());
            let cc: Vec<String> = Vec::new();
            assert(text::views(to@) =~= seq![urls::AP_PUBLIC@]);
            assert(text::views(cc@) =~= Seq::empty());
            (to, cc)
        },
    };
    let actor = urls::actor_url(p.base_url.as_str(), p.username.as_str());
    json::object()
        .with("@context", context.copy())
        .with("type", json::string("Delete"))
        .with("id", json::string(delete_id))
        .with("actor", json::string(actor.as_str()))
        .with("published", json::string(p.published.as_str()))
        .with("to", json::strings(&to))
        .with("cc", json::strings(&cc))
        .with("object", json::string(original_id))
}

/// A published row as it was read; a column that could not be decoded is
/// `None`.
pub struct PublishedRow {
    pub id: i32,
    pub activity_id: String,
    pub content_type: Option<String>,
    pub content_id: Option<String>,
    pub visibility: Option<String>,
}

/// What taking content back amounts to.
pub struct UnpublishPlan {
    pub published_id: i32,
    pub activity_id: String,
    pub content_type: String,
    pub content_id: String,
    pub audience: UnpublishAudience,
}

pub open spec fn first_text(a: Option<Seq<char>>, b: Option<Seq<char>>) -> Seq<char> {
    match a {
        Some(t) => t,
        None => object::text_or_empty(b),
    }
}

/// Plans taking the content of a row back; what the row does not say is taken
/// from the request.
pub fn plan_unpublish(
    row: PublishedRow,
    requested_type: &Option<String>,
    requested_id: &Option<String>,
) -> (r: UnpublishPlan)
    ensures
        r.published_id == row.id,
        r.activity_id == row.activity_id,
        r.content_type@ == first_text(
            text::opt_view(row.content_type),
            text::opt_view(*requested_type),
        ),
        r.content_id@ == first_text(
            text::opt_view(row.content_id),
            object::given(text::opt_view(*requested_id)),
        ),
        r.audience == audience_of(text::opt_view(row.visibility), r.content_type@),
{
    let content_type = match row.content_type {
        Some(t) => t,
        None => match requested_type {
            Some(t) => t.clone(),
            None => String::new(),
        },
    };
    let content_id = match row.content_id {
        Some(t) => t,
        None => match object::trim_given(requested_id) {
            Some(t) => t,
            None => String::new(),
        },
    };
    let audience = unpublish_audience(&row.visibility, content_type.as_str());
    UnpublishPlan {
        published_id: row.id,
        activity_id: row.activity_id,
        content_type,
        content_id,
        audience,
    }
}

/// What is answered once content has been taken back.
pub fn unpublish_response(plan: &UnpublishPlan, delete_id: &str) -> (r: Json)
    ensures
        r@ == json::empty().with("success"@, JsonView::Bool(true)).with(
            "delete_activity_id"@,
            json::text_json(delete_id@),
        ).with("content_type"@, json::text_json(plan.content_type@)).with(
            "content_id"@,
            json::text_json(plan.content_id@),
        ).with("activity_id"@, json::text_json(plan.activity_id@)),
{
    json::object()
        .with("success", Json::Bool(true))
        .with("delete_activity_id", json::string(delete_id))
        .with("content_type", json::string(plan.content_type.as_str()))
        .with("content_id", json::string(plan.content_id.as_str()))
        .with("activity_id", json::string(plan.activity_id.as_str()))
}

/// A deletion of content that was stored with its visibility is addressed to
/// those, and carried to those, whom the content was addressed and carried to.
pub proof fn deletion_reaches_the_original_audience(
    p: object::Publisher,
    v: Visibility,
    content_type: Seq<char>,
)
    ensures
        ({
            let a = audience_of(Some(v.name()), content_type);
            &&& delete_to(a, p) == audience::to_of(v, p.base_url@, p.username@)
            &&& delete_cc(a, p) == audience::cc_of(v, p.base_url@, p.username@)
            &&& a.fan_out == v
            &&& content_type != "repost"@ ==> a.room_peers == (v is Public)
        }),
{
    audience::visibility_name_reads_back(v);
}

proof fn one_segment_more(s: Seq<char>, t: Seq<char>)
    requires
        !text::has_char(t, '/'),
        t.len() > 0,
    ensures
        text::split_on(s.push('/') + t, '/').filter(|x: Seq<char>| x.len() > 0)
            == text::split_on(s, '/').filter(|x: Seq<char>| x.len() > 0).push(t),
{
    text::split_appends_piece(s, t, '/');
    reveal(Seq::filter);
    let all = text::split_on(s, '/').push(t);
    assert(all.drop_last() =~= text::split_on(s, '/'));
}

proof fn segments_behind(base: Seq<char>, head: Seq<char>, id: Seq<char>)
    requires
        !text::has_char(head, '/'),
        head.len() > 0,
        !text::has_char(id, '/'),
        id.len() > 0,
    ensures
        ({
            let all = text::split_on((base.push('/') + head).push('/') + id, '/').filter(
                |x: Seq<char>| x.len() > 0,
            );
            &&& all.len() >= 2
            &&& all.last() == id
            &&& all[all.len() - 2] == head
            &&& all == text::split_on(base, '/').filter(|x: Seq<char>| x.len() > 0).push(head).push(
                id,
            )
        }),
{
    one_segment_more(base, head);
    one_segment_more(base.push('/') + head, id);
}

proof fn path_leads_back(base: Seq<char>, kind: ContentKind, id: Seq<char>)
    requires
        id.len() > 0,
        !text::has_char(id, '/'),
    ensures
        ({
            let segments = text::split_on(kind.object_url_of(base, id), '/').filter(
                |x: Seq<char>| x.len() > 0,
            );
            &&& segments.len() >= 2
            &&& segments.last() == id
            &&& inferred_type(segments) == Some(kind.name())
        }),
{
    let url = kind.object_url_of(base, id);
    reveal_strlit("/notes/");
    reveal_strlit("/reports/");
    reveal_strlit("/phantasi/articles/");
    reveal_strlit("/tapps/");
    reveal_strlit("/library/");
    reveal_strlit("notes");
    reveal_strlit("reports");
    reveal_strlit("phantasi");
    reveal_strlit("articles");
    reveal_strlit("tapps");
    reveal_strlit("library");
    match kind {
        ContentKind::Note => {
            assert(url =~= (base.push('/') + "notes"@).push('/') + id);
            segments_behind(base, "notes"@, id);
        },
        ContentKind::Report => {
            assert(url =~= (base.push('/') + "reports"@).push('/') + id);
            segments_behind(base, "reports"@, id);
            assert("reports"@.len() != "notes"@.len());
        },
        ContentKind::Tapp => {
            assert(url =~= (base.push('/') + "tapps"@).push('/') + id);
            segments_behind(base, "tapps"@, id);
            assert("tapps"@[0] != "notes"@[0]);
            assert("tapps"@.len() != "reports"@.len() && "tapps"@.len() != "library"@.len());
        },
        ContentKind::Library => {
            assert(url =~= (base.push('/') + "library"@).push('/') + id);
            segments_behind(base, "library"@, id);
            assert("library"@.len() != "notes"@.len() && "library"@[0] != "reports"@[0]);
        },
        ContentKind::PhantasiArticle => {
            let outer = base.push('/') + "phantasi"@;
            assert(url =~= (outer.push('/') + "articles"@).push('/') + id);
            segments_behind(outer, "articles"@, id);
            one_segment_more(base, "phantasi"@);
            assert("articles"@.len() == 8 && "notes"@.len() == 5 && "reports"@.len() == 7
                && "library"@.len() == 7 && "tapps"@.len() == 5);
        },
    }
}

pub open spec fn slashes(n: nat) -> Seq<char> {
    Seq::new(n, |i: int| '/')
}

/// A query as it stands behind an address.
pub open spec fn query_part(query: Option<Seq<char>>) -> Seq<char> {
    match query {
        Some(q) => seq!['?'] + q,
        None => Seq::empty(),
    }
}

proof fn slashes_fall_away(url: Seq<char>, n: nat)
    requires
        url.len() > 0,
        url.last() != '/',
    ensures
        text::trim_end_char_of(url + slashes(n), '/') == url,
    decreases n,
{
    let all = url + slashes(n);
    if n == 0 {
        assert(all =~= url);
    } else {
        assert(all.last() == '/');
        assert(all.drop_last() =~= url + slashes((n - 1) as nat));
        slashes_fall_away(url, (n - 1) as nat);
    }
}

/// Trimming does not reach behind a character that is not white space.
proof fn trimming_stops(head: Seq<char>, rest: Seq<char>)
    requires
        head.len() > 0,
        !text::white(head.last()),
    ensures
        text::trim_end_of(head + rest).len() >= head.len(),
        text::trim_end_of(head + rest).take(head.len() as int) == head,
    decreases rest.len(),
{
    let all = head + rest;
    if rest.len() == 0 {
        assert(all =~= head);
        assert(head.take(head.len() as int) =~= head);
    } else if text::white(all.last()) {
        assert(all.drop_last() =~= head + rest.drop_last());
        trimming_stops(head, rest.drop_last());
    } else {
        assert(all.take(head.len() as int) =~= head);
    }
}

/// The address of a published object leads back to its type and identifier, so
/// that it can be taken back by its address alone, with slashes or a query behind
/// it or without.
pub proof fn object_url_leads_back(
    base: Seq<char>,
    kind: ContentKind,
    id: Seq<char>,
    trailing: nat,
    query: Option<Seq<char>>,
)
    requires
        base.len() > 0,
        !text::white(base[0]),
        !text::has_char(base, '?'),
        id.len() > 0,
        !text::white(id.last()),
        !text::has_char(id, '/'),
        !text::has_char(id, '?'),
    ensures
        normalized_target(
            None,
            kind.object_url_of(base, id) + slashes(trailing) + query_part(query),
        ) == (Some(kind.name()), id),
{
    let url = kind.object_url_of(base, id);
    reveal_strlit("/notes/");
    reveal_strlit("/reports/");
    reveal_strlit("/phantasi/articles/");
    reveal_strlit("/tapps/");
    reveal_strlit("/library/");
    let head = url + slashes(trailing);
    let address = head + query_part(query);
    assert(url.last() == id.last());
    assert(id[id.len() - 1] != '/');
    assert(url[base.len() as int] == kind.path()[0]);
    assert forall|i: int| 0 <= i < head.len() implies head[i] != '?' by {
        if i < base.len() {
            assert(head[i] == base[i]);
        } else if i < base.len() + kind.path().len() {
            assert(head[i] == kind.path()[i - base.len()]);
        } else if i < url.len() {
            assert(head[i] == id[i - base.len() - kind.path().len()]);
        }
    }
    assert(!text::white(head.last())) by {
        if trailing > 0 {
            assert(head.last() == '/');
        } else {
            assert(head =~= url);
        }
    }
    assert(address[0] == base[0]);
    assert(text::trim_start_of(address) == address);
    let raw = text::trimmed(address);
    match query {
        Some(q) => {
            let marked = head.push('?');
            assert(address =~= marked + q);
            trimming_stops(marked, q);
            assert forall|i: int| 0 <= i < marked.len() implies raw[i] == marked[i] by {
                assert(raw.take(marked.len() as int)[i] == raw[i]);
            }
            assert(raw[head.len() as int] == '?');
            text::char_from_is_first(raw, '?', 0);
            assert(text::char_from(raw, '?', 0) == Some(head.len() as int)) by {
                let k = text::char_from(raw, '?', 0)->0;
                if k < head.len() {
                    assert(raw[k] == head[k]);
                }
            }
            assert(raw.take(head.len() as int) =~= head);
        },
        None => {
            assert(address =~= head);
            text::char_from_is_first(raw, '?', 0);
        },
    }
    assert(text::before_char(raw, '?') == head);
    assert(raw[base.len() as int] == '/') by {
        assert(head[base.len() as int] == '/');
    }
    assert(text::has_char(raw, '/'));
    slashes_fall_away(url, trailing);
    path_leads_back(base, kind, id);
}

/// A deletion names what it deletes and who deletes it. It is addressed as what
/// it deletes was; where that is not known it is addressed to the public, and
/// carried to the followers alone.
pub proof fn a_deletion_names_what_it_deletes(
    p: object::Publisher,
    context: JsonView,
    delete_id: Seq<char>,
    stored: Option<Seq<char>>,
    content_type: Seq<char>,
    original_id: Seq<char>,
)
    ensures
        ({
            let who = audience_of(stored, content_type);
            let a = delete_of(p, context, delete_id, who, original_id);
            &&& a.text_at("object"@) == Some(original_id)
            &&& a.text_at("id"@) == Some(delete_id)
            &&& a.text_at("type"@) == Some("Delete"@)
            &&& a.text_at("actor"@) == Some(p.base_url@ + "/users/"@ + p.username@)
            &&& match stored {
                Some(raw) => match audience::visibility_of(raw) {
                    Some(v) => who.fan_out == v && a.get("to"@) == Some(
                        json::texts_json(audience::to_of(v, p.base_url@, p.username@)),
                    ) && a.get("cc"@) == Some(
                        json::texts_json(audience::cc_of(v, p.base_url@, p.username@)),
                    ) && (who.room_peers ==> v is Public) && (v is Public && content_type
                        != "repost"@ ==> who.room_peers),
                    None => who.fan_out is Followers && !who.room_peers && a.get("to"@) == Some(
                        json::texts_json(seq![urls::AP_PUBLIC@]),
                    ),
                },
                None => who.fan_out is Followers && !who.room_peers && a.get("to"@) == Some(
                    json::texts_json(seq![urls::AP_PUBLIC@]),
                ),
            }
            &&& content_type == "repost"@ ==> !who.room_peers
        }),
{
    reveal_strlit("@context");
    reveal_strlit("type");
    reveal_strlit("id");
    reveal_strlit("actor");
    reveal_strlit("published");
    reveal_strlit("to");
    reveal_strlit("cc");
    reveal_strlit("object");
    assert("@context"@.len() == 8 && "type"@.len() == 4 && "id"@.len() == 2 && "actor"@.len() == 5
        && "published"@.len() == 9 && "to"@.len() == 2 && "cc"@.len() == 2 && "object"@.len() == 6);
    assert("id"@[0] == 'i' && "to"@[0] == 't' && "cc"@[0] == 'c');
    reveal_with_fuel(json::key_from, 9);
}

/// A target that is named by no address is taken as it is named, and a type that
/// is given is never overruled by an address.
pub proof fn targets_are_taken_as_named(
    content_type: Option<Seq<char>>,
    id: Seq<char>,
    address: Seq<char>,
)
    requires
        id.len() > 0,
        !text::white(id[0]),
        !text::white(id.last()),
        !text::has_char(id, '/'),
        text::trimmed(address).len() > 0,
    ensures
        normalized_target(content_type, id) == (object::given(content_type), id),
        object::given(content_type) is Some ==> normalized_target(content_type, address).0
            == object::given(content_type),
{
    reveal_strlit("://");
    assert("://"@.len() == 3 && "://"@[1] == '/');
    assert(text::trim_start_of(id) == id);
    assert(text::trimmed(id) == id);
    assert forall|i: int| !#[trigger] text::occurs_at(id, "://"@, i) by {
        if text::occurs_at(id, "://"@, i) {
            assert(id.subrange(i, i + 3)[1] == id[i + 1]);
        }
    }
}

/// What was stored of the published content is gone by; what was asked only
/// where nothing was stored.
pub proof fn what_was_stored_is_gone_by(stored: Option<Seq<char>>, requested: Option<Seq<char>>)
    ensures
        stored matches Some(t) ==> first_text(stored, requested) == t,
        stored is None ==> (requested matches Some(t) ==> first_text(stored, requested) == t),
        stored is None && requested is None ==> first_text(stored, requested).len() == 0,
{
}

} // verus!
