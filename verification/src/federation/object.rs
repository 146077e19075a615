//! ActivityPub objects of local content.
use crate::federation::audience::Visibility;
use crate::federation::urls::ContentKind;
use crate::federation::{audience, library, media, urls};
use crate::json;
use crate::json::{Json, JsonView};
use crate::refusal;
use crate::refusal::{Fault, Refusal};
use crate::text;
use vstd::prelude::*;

verus! {

broadcast use crate::json::group_json;

pub const PREVIEW_CHARS: usize = 500;

/// An attachment as the author of a note gives it.
#[derive(Debug, PartialEq, Eq)]
pub struct NoteAttachmentInput {
    pub url: String,
    pub media_type: String,
    pub name: Option<String>,
}

pub struct NoteLimits {
    pub text_chars: usize,
    pub attachments: usize,
}

pub struct ReportRow {
    pub platform: Option<String>,
    pub report: Option<Json>,
    pub title: Option<String>,
}

pub struct ArticleRow {
    pub title: Option<String>,
    pub content: Option<String>,
    pub link: Option<String>,
    pub author: Option<String>,
    pub source_name: Option<String>,
}

pub struct TappRow {
    pub tapp_id: Option<String>,
    pub name: Option<String>,
    pub version: Option<String>,
    pub description: Option<String>,
    pub author: Option<Json>,
    pub icon: Option<String>,
    pub manifest: Option<Json>,
}

pub struct LibraryRow {
    pub id: i32,
    pub platform_name: Option<String>,
    pub raw_data: Option<Json>,
}

/// Local content as it was read. A row that was not found is `None`, and so is
/// a column that could not be decoded.
pub enum Content {
    Note {
        text: Option<String>,
        attachments: Vec<NoteAttachmentInput>,
        in_reply_to: Option<String>,
        limits: NoteLimits,
    },
    Report(Option<ReportRow>),
    PhantasiArticle(Option<ArticleRow>),
    Tapp(Option<TappRow>),
    Library(Option<LibraryRow>),
}

/// Who publishes, where and when.
pub struct Publisher {
    pub user_id: i32,
    pub username: String,
    pub base_url: String,
    pub published: String,
}

impl Content {
    pub open spec fn kind_of(self) -> ContentKind {
        match self {
            Content::Note { .. } => ContentKind::Note,
            Content::Report(_) => ContentKind::Report,
            Content::PhantasiArticle(_) => ContentKind::PhantasiArticle,
            Content::Tapp(_) => ContentKind::Tapp,
            Content::Library(_) => ContentKind::Library,
        }
    }
}

// ---------------------------------------------------------------------------
// HTML
// ---------------------------------------------------------------------------
pub open spec fn escaped_char(c: char) -> Seq<char> {
    if c == '&' {
        "&amp;"@
    } else if c == '<' {
        "&lt;"@
    } else if c == '>' {
        "&gt;"@
    } else if c == '"' {
        "&quot;"@
    } else if c == '\n' {
        "<br>"@
    } else {
        seq![c]
    }
}

/// Text as HTML: the characters with a meaning of their own are written out.
pub open spec fn escaped(s: Seq<char>) -> Seq<char>
    decreases s.len(),
{
    if s.len() == 0 {
        Seq::empty()
    } else {
        escaped(s.drop_last()) + escaped_char(s.last())
    }
}

pub fn escape_html(s: &str) -> (r: String)
    ensures
        r@ == escaped(s@),
{
    let v = text::chars_of(s);
    let mut out = String::new();
    let mut i: usize = 0;
    assert(v@.take(0) =~= Seq::empty());
    while i < v.len()
        invariant
            i <= v@.len(),
            out@ == escaped(v@.take(i as int)),
        decreases v@.len() - i,
    {
        let c = v[i];
        assert(v@.take(i + 1).drop_last() =~= v@.take(i as int));
        if c == '&' {
            out.append("&amp;");
        } else if c == '<' {
            out.append("&lt;");
        } else if c == '>' {
            out.append("&gt;");
        } else if c == '"' {
            out.append("&quot;");
        } else if c == '\n' {
            out.append("<br>");
        } else {
            assert(out@.push(c) =~= out@ + seq![c]);
            out.push(c);
        }
        i = i + 1;
    }
    assert(v@.take(v@.len() as int) =~= v@);
    out
}

/// Whether the line break at position `i` of the escaped text stands for a newline
/// of the text.
pub open spec fn is_newline_at(s: Seq<char>, i: int) -> bool {
    exists|k: int|
        0 <= k < s.len() && s[k] == '\n' && (#[trigger] escaped(s.take(k))).len() == i
}

/// Escaped text holds no markup but the line breaks that stand for its newlines,
/// and no quotation mark.
pub proof fn escaped_text_has_no_markup(s: Seq<char>)
    ensures
        !text::has_char(escaped(s), '"'),
        forall|i: int|
            0 <= i < escaped(s).len() && #[trigger] escaped(s)[i] == '<' ==> is_newline_at(s, i)
                && text::occurs_at(escaped(s), "<br>"@, i),
        forall|i: int|
            0 <= i < escaped(s).len() && #[trigger] escaped(s)[i] == '>' ==> is_newline_at(
                s,
                i - 3,
            ) && text::occurs_at(escaped(s), "<br>"@, i - 3),
    decreases s.len(),
{
    if s.len() > 0 {
        let short = s.drop_last();
        escaped_text_has_no_markup(short);
        let c = s.last();
        reveal_strlit("&amp;");
        reveal_strlit("&lt;");
        reveal_strlit("&gt;");
        reveal_strlit("&quot;");
        reveal_strlit("<br>");
        let e = escaped_char(c);
        let a = escaped(short);
        let all = escaped(s);
        assert(all == a + e);
        assert(!text::has_char(e, '"'));
        assert(c != '\n' ==> !text::has_char(e, '<') && !text::has_char(e, '>'));
        assert forall|i: int| 0 <= i < all.len() implies #[trigger] all[i] == if i < a.len() {
            a[i]
        } else {
            e[i - a.len()]
        } by {}
        assert forall|j: int|
            is_newline_at(short, j) && #[trigger] text::occurs_at(a, "<br>"@, j) implies
            is_newline_at(s, j) && text::occurs_at(all, "<br>"@, j) by {
            let k = choose|k: int|
                0 <= k < short.len() && short[k] == '\n' && (#[trigger] escaped(
                    short.take(k),
                )).len() == j;
            assert(s.take(k) =~= short.take(k));
            assert(s[k] == '\n');
            assert(all.subrange(j, j + 4) =~= a.subrange(j, j + 4));
        }
        if c == '\n' {
            assert(s.take(s.len() - 1) =~= short);
            assert(escaped(s.take(s.len() - 1)).len() == a.len());
            assert(is_newline_at(s, a.len() as int));
            assert(all.subrange(a.len() as int, a.len() + 4int) =~= "<br>"@);
            assert(text::occurs_at(all, "<br>"@, a.len() as int));
        }
        assert forall|i: int| 0 <= i < all.len() && #[trigger] all[i] == '<' implies is_newline_at(
            s,
            i,
        ) && text::occurs_at(all, "<br>"@, i) by {
            if i < a.len() {
                assert(a[i] == '<');
                assert(text::occurs_at(a, "<br>"@, i));
            } else {
                assert(e[i - a.len()] == '<');
                assert(i == a.len());
            }
        }
        assert forall|i: int| 0 <= i < all.len() && #[trigger] all[i] == '>' implies is_newline_at(
            s,
            i - 3,
        ) && text::occurs_at(all, "<br>"@, i - 3) by {
            if i < a.len() {
                assert(a[i] == '>');
                assert(text::occurs_at(a, "<br>"@, i - 3));
            } else {
                assert(e[i - a.len()] == '>');
                assert(i == a.len() + 3);
            }
        }
    }
}

/// Two texts are escaped as each of them is.
pub proof fn escaping_goes_part_by_part(a: Seq<char>, b: Seq<char>)
    ensures
        escaped(a + b) == escaped(a) + escaped(b),
    decreases b.len(),
{
    if b.len() == 0 {
        assert(a + b =~= a);
        assert(escaped(a) + escaped(b) =~= escaped(a));
    } else {
        escaping_goes_part_by_part(a, b.drop_last());
        assert((a + b).drop_last() =~= a + b.drop_last());
        assert(escaped(a) + (escaped(b.drop_last()) + escaped_char(b.last())) =~= (escaped(a)
            + escaped(b.drop_last())) + escaped_char(b.last()));
    }
}

pub open spec fn paragraph(inner: Seq<char>) -> Seq<char> {
    "<p>"@ + inner + "</p>"@
}

fn in_paragraph(inner: &str) -> (r: String)
    ensures
        r@ == paragraph(inner@),
{
    let mut out = "<p>".to_owned();
    out.append(inner);
    out.append("</p>");
    out
}

// ---------------------------------------------------------------------------
// Reports
// ---------------------------------------------------------------------------
/// The text that sums a report up: its summary, else its first insight.
pub open spec fn report_summary(report: JsonView) -> Seq<char> {
    match report.text_at("summary"@) {
        Some(s) => s,
        None => match report.array_at("insights"@) {
            Some(a) if a.len() > 0 => match a[0].as_text() {
                Some(s) => s,
                None => Seq::empty(),
            },
            _ => Seq::empty(),
        },
    }
}

pub fn extract_report_summary_plain(report: &Json) -> (r: String)
    ensures
        r@ == report_summary(report@),
{
    if let Some(summary) = report.str_at("summary") {
        return summary.to_owned();
    }
    match report.get("insights") {
        Some(Json::Array(a)) => {
            if a.len() > 0 {
                assert(json::items(a@)[0] == a@[0]@);
                match a[0].as_str() {
                    Some(s) => s.to_owned(),
                    None => String::new(),
                }
            } else {
                String::new()
            }
        },
        _ => String::new(),
    }
}

pub open spec fn report_html(report: JsonView) -> Seq<char> {
    if report_summary(report).len() == 0 {
        "<p>Data report</p>"@
    } else {
        paragraph(escaped(report_summary(report)))
    }
}

pub fn extract_report_summary(report: &Json) -> (r: String)
    ensures
        r@ == report_html(report@),
{
    let plain = extract_report_summary_plain(report);
    if plain.as_str().is_empty() {
        return "<p>Data report</p>".to_owned();
    }
    let html = escape_html(plain.as_str());
    in_paragraph(html.as_str())
}

// ---------------------------------------------------------------------------
// Notes
// ---------------------------------------------------------------------------
/// The MIME type without its parameters.
pub open spec fn bare_mime(media_type: Seq<char>) -> Seq<char> {
    text::trimmed(text::before_char(media_type, ';'))
}

pub open spec fn attachment_object(
    base_url: Seq<char>,
    user_id: int,
    att: NoteAttachmentInput,
) -> Result<JsonView, Fault> {
    let mime = bare_mime(att.media_type@);
    match media::kind_of_mime(text::ascii_lower(mime)) {
        None => Err(refusal::fault(400, "Unsupported attachment type"@)),
        Some(kind) => if !media::attachment_url_ok(base_url, user_id, text::trimmed(att.url@)) {
            Err(refusal::fault(400, "Invalid attachment URL"@))
        } else {
            Ok(
                json::empty().with("type"@, json::text_json(kind.type_text())).with(
                    "mediaType"@,
                    json::text_json(mime),
                ).with("url"@, json::text_json(text::trimmed(att.url@))).with(
                    "name"@,
                    json::opt_text_json(text::opt_view(att.name)),
                ),
            )
        },
    }
}

/// The attachments of a note, or what is wrong with the first bad one.
pub open spec fn attachment_objects(
    base_url: Seq<char>,
    user_id: int,
    atts: Seq<NoteAttachmentInput>,
) -> Result<Seq<JsonView>, Fault>
    decreases atts.len(),
{
    if atts.len() == 0 {
        Ok(Seq::empty())
    } else {
        match attachment_objects(base_url, user_id, atts.drop_last()) {
            Err(f) => Err(f),
            Ok(list) => match attachment_object(base_url, user_id, atts.last()) {
                Err(f) => Err(f),
                Ok(object) => Ok(list.push(object)),
            },
        }
    }
}

proof fn first_bad_attachment_decides(
    base_url: Seq<char>,
    user_id: int,
    atts: Seq<NoteAttachmentInput>,
    i: int,
)
    requires
        0 <= i <= atts.len(),
        attachment_objects(base_url, user_id, atts.take(i)) is Err,
    ensures
        attachment_objects(base_url, user_id, atts) == attachment_objects(
            base_url,
            user_id,
            atts.take(i),
        ),
    decreases atts.len() - i,
{
    if i < atts.len() {
        assert(atts.take(i + 1).drop_last() =~= atts.take(i));
        first_bad_attachment_decides(base_url, user_id, atts, i + 1);
    } else {
        assert(atts.take(i) =~= atts);
    }
}

fn build_attachment(base_url: &str, user_id: i32, att: &NoteAttachmentInput) -> (r: Result<
    Json,
    Refusal,
>)
    ensures
        match r {
            Ok(object) => attachment_object(base_url@, user_id as int, *att) == Ok::<JsonView, Fault>(
                object@,
            ),
            Err(e) => attachment_object(base_url@, user_id as int, *att) == Err::<JsonView, Fault>(
                e@,
            ),
        },
{
    let head = text::head_before(att.media_type.as_str(), ';');
    let mime = text::trim(head.as_str());
    let lower = text::to_ascii_lowercase(mime.as_str());
    let kind = match media::classify_media_mime(lower.as_str()) {
        Some(kind) => kind,
        None => return Err(refusal::refuse(400, "Unsupported attachment type")),
    };
    let url = text::trim(att.url.as_str());
    if let Some(reason) = media::attachment_url_rejection_reason(
        base_url,
        user_id,
        url.as_str(),
    ) {
        return Err(refusal::refuse(400, reason));
    }
    Ok(
        json::object()
            .with("type", json::string(kind))
            .with("mediaType", json::string(mime.as_str()))
            .with("url", json::string(url.as_str()))
            .with("name", json::opt_string(&att.name)),
    )
}

fn build_attachments(base_url: &str, user_id: i32, atts: &Vec<NoteAttachmentInput>) -> (r: Result<
    Vec<Json>,
    Refusal,
>)
    ensures
        match r {
            Ok(list) => attachment_objects(base_url@, user_id as int, atts@) == Ok::<
                Seq<JsonView>,
                Fault,
            >(json::items(list@)),
            Err(e) => attachment_objects(base_url@, user_id as int, atts@) == Err::<
                Seq<JsonView>,
                Fault,
            >(e@),
        },
{
    let mut out: Vec<Json> = Vec::new();
    let mut i: usize = 0;
    assert(atts@.take(0) =~= Seq::empty());
    assert(json::items(out@) =~= Seq::empty());
    while i < atts.len()
        invariant
            i <= atts@.len(),
            attachment_objects(base_url@, user_id as int, atts@.take(i as int)) == Ok::<
                Seq<JsonView>,
                Fault,
            >(json::items(out@)),
        decreases atts@.len() - i,
    {
        assert(atts@.take(i + 1).drop_last() =~= atts@.take(i as int));
        match build_attachment(base_url, user_id, &atts[i]) {
            Ok(object) => {
                proof {
                    json::items_push(out@, object);
                }
                out.push(object);
            },
            Err(e) => {
                proof {
                    first_bad_attachment_decides(base_url@, user_id as int, atts@, i + 1);
                }
                return Err(e);
            },
        }
        i = i + 1;
    }
    assert(atts@.take(atts@.len() as int) =~= atts@);
    Ok(out)
}

pub open spec fn text_or_empty(s: Option<Seq<char>>) -> Seq<char> {
    match s {
        Some(t) => t,
        None => Seq::empty(),
    }
}

/// A value that is given and not blank, trimmed.
pub open spec fn given(s: Option<Seq<char>>) -> Option<Seq<char>> {
    match s {
        Some(t) if text::trimmed(t).len() > 0 => Some(text::trimmed(t)),
        _ => None,
    }
}

pub fn trim_given(s: &Option<String>) -> (r: Option<String>)
    ensures
        text::opt_view(r) == given(text::opt_view(*s)),
{
    match s {
        Some(t) => {
            let t = text::trim(t.as_str());
            if t.as_str().is_empty() {
                None
            } else {
                Some(t)
            }
        },
        None => None,
    }
}

pub open spec fn note_html(body: Seq<char>) -> Seq<char> {
    if body.len() == 0 {
        Seq::empty()
    } else {
        paragraph(escaped(body))
    }
}

pub open spec fn note_object(
    p: Publisher,
    content_id: Seq<char>,
    v: Visibility,
    body: Seq<char>,
    attachments: Seq<JsonView>,
    parent: Option<Seq<char>>,
) -> JsonView {
    let source = json::empty().with("content"@, json::text_json(body)).with(
        "mediaType"@,
        json::text_json("text/plain"@),
    );
    let note = json::empty()
        .with("type"@, json::text_json("Note"@))
        .with("id"@, json::text_json(ContentKind::Note.object_url_of(p.base_url@, content_id)))
        .with("attributedTo"@, json::text_json(urls::actor_url_of(p.base_url@, p.username@)))
        .with("content"@, json::text_json(note_html(body)))
        .with("source"@, source)
        .with("mediaType"@, json::text_json("text/html"@))
        .with("published"@, json::text_json(p.published@))
        .with("to"@, json::texts_json(audience::to_of(v, p.base_url@, p.username@)))
        .with("cc"@, json::texts_json(audience::cc_of(v, p.base_url@, p.username@)))
        .with("attachment"@, JsonView::Array(attachments))
        .with("mfp:contentType"@, json::text_json(ContentKind::Note.name()))
        .with("mfp:contentId"@, json::text_json(content_id));
    match parent {
        Some(url) => note.with("inReplyTo"@, json::text_json(url)),
        None => note,
    }
}

/// What becomes of a note: the object, or the reason why it is refused.
pub open spec fn note_outcome(
    p: Publisher,
    content_id: Seq<char>,
    v: Visibility,
    note_text: Option<Seq<char>>,
    atts: Seq<NoteAttachmentInput>,
    in_reply_to: Option<Seq<char>>,
    limits: NoteLimits,
) -> Result<JsonView, Fault> {
    let body = text::trimmed(text_or_empty(note_text));
    if body.len() == 0 && atts.len() == 0 {
        Err(refusal::fault(400, "Note requires text and/or attachments"@))
    } else if body.len() > limits.text_chars {
        Err(
            refusal::fault(
                400,
                "Note text too long (max "@ + text::decimal(limits.text_chars as int)
                    + " chars)"@,
            ),
        )
    } else if atts.len() > limits.attachments {
        Err(
            refusal::fault(
                400,
                "Too many attachments (max "@ + text::decimal(limits.attachments as int) + ")"@,
            ),
        )
    } else {
        match attachment_objects(p.base_url@, p.user_id as int, atts) {
            Err(f) => Err(f),
            Ok(list) => Ok(note_object(p, content_id, v, body, list, given(in_reply_to))),
        }
    }
}

fn build_note(
    p: &Publisher,
    content_id: &str,
    v: Visibility,
    note_text: &Option<String>,
    atts: &Vec<NoteAttachmentInput>,
    in_reply_to: &Option<String>,
    limits: &NoteLimits,
) -> (r: Result<Json, Refusal>)
    ensures
        outcome_is(
            r,
            note_outcome(
                *p,
                content_id@,
                v,
                text::opt_view(*note_text),
                atts@,
                text::opt_view(*in_reply_to),
                *limits,
            ),
        ),
{
    let body = match note_text {
        Some(t) => text::trim(t.as_str()),
        None => text::trim(""),
    };
    proof {
        reveal_strlit("");
        assert(""@ =~= Seq::empty());
    }
    if body.as_str().is_empty() && atts.len() == 0 {
        return Err(refusal::refuse(400, "Note requires text and/or attachments"));
    }
    if text::char_count(body.as_str()) > limits.text_chars {
        let mut message = "Note text too long (max ".to_owned();
        message.append(text::usize_text(limits.text_chars).as_str());
        message.append(" chars)");
        return Err(Refusal { status: 400, error: message });
    }
    if atts.len() > limits.attachments {
        let mut message = "Too many attachments (max ".to_owned();
        message.append(text::usize_text(limits.attachments).as_str());
        message.append(")");
        return Err(Refusal { status: 400, error: message });
    }
    let attachments = match build_attachments(p.base_url.as_str(), p.user_id, atts) {
        Ok(list) => list,
        Err(e) => return Err(e),
    };
    let html = if body.as_str().is_empty() {
        String::new()
    } else {
        let inner = escape_html(body.as_str());
        in_paragraph(inner.as_str())
    };
    let (to, cc) = audience::resolve_audience(v, p.base_url.as_str(), p.username.as_str());
    let actor = urls::actor_url(p.base_url.as_str(), p.username.as_str());
    let id = ContentKind::Note.object_url(p.base_url.as_str(), content_id);
    let source = json::object()
        .with("content", json::string(body.as_str()))
        .with("mediaType", json::string("text/plain"));
    let note = json::object()
        .with("type", json::string("Note"))
        .with("id", json::string(id.as_str()))
        .with("attributedTo", json::string(actor.as_str()))
        .with("content", json::string(html.as_str()))
        .with("source", source)
        .with("mediaType", json::string("text/html"))
        .with("published", json::string(p.published.as_str()))
        .with("to", json::strings(&to))
        .with("cc", json::strings(&cc))
        .with("attachment", json::array(attachments))
        .with("mfp:contentType", json::string(ContentKind::Note.as_str()))
        .with("mfp:contentId", json::string(content_id));
    Ok(
        match trim_given(in_reply_to) {
            Some(parent) => note.with("inReplyTo", json::string(parent.as_str())),
            None => note,
        },
    )
}

/// Whether a result is the given outcome.
pub open spec fn outcome_is(r: Result<Json, Refusal>, expected: Result<JsonView, Fault>) -> bool {
    match r {
        Ok(j) => expected == Ok::<JsonView, Fault>(j@),
        Err(e) => expected == Err::<JsonView, Fault>(e@),
    }
}

// ---------------------------------------------------------------------------
// Stored content
// ---------------------------------------------------------------------------
/// Which row holds the content to publish.
#[derive(Debug, PartialEq, Eq)]
pub enum ContentLookup {
    /// A note is given with the request.
    Nothing,
    Report(i32),
    PhantasiArticle(i32),
    Tapp(String),
    LibraryById(i32),
    /// The latest library of the platform, whatever the case of its name.
    LibraryByPlatform(String),
}

pub open spec fn row_number(content_id: Seq<char>) -> int {
    match text::number_in(content_id, i32::MIN as int, i32::MAX as int) {
        Some(n) => n,
        None => 0,
    }
}

fn number_or_zero(content_id: &str) -> (r: i32)
    ensures
        r == row_number(content_id@),
{
    match text::parse_i32(content_id) {
        Some(n) => n,
        None => 0,
    }
}

/// The row to read for content with this identifier. A library is named by the
/// number of its row or by its platform.
pub fn content_lookup(kind: ContentKind, content_id: &str) -> (r: Result<ContentLookup, Refusal>)
    ensures
        match (kind, r) {
            (ContentKind::Note, Ok(l)) => l is Nothing,
            (ContentKind::Report, Ok(l)) => l matches ContentLookup::Report(n) && n == row_number(
                content_id@,
            ),
            (ContentKind::PhantasiArticle, Ok(l)) => l matches ContentLookup::PhantasiArticle(n)
                && n == row_number(content_id@),
            (ContentKind::Tapp, Ok(l)) => l matches ContentLookup::Tapp(id) && id@ == content_id@,
            (ContentKind::Library, Ok(l)) => match text::number_in(
                content_id@,
                i32::MIN as int,
                i32::MAX as int,
            ) {
                Some(n) => l matches ContentLookup::LibraryById(id) && id == n,
                None => {
                    &&& text::trimmed(content_id@).len() > 0
                    &&& l matches ContentLookup::LibraryByPlatform(name)
                    &&& name@ == text::trimmed(content_id@)
                },
            },
            (_, Err(e)) => {
                &&& kind is Library
                &&& text::number_in(content_id@, i32::MIN as int, i32::MAX as int) is None
                &&& text::trimmed(content_id@).len() == 0
                &&& e@ == refusal::fault(
                    400,
                    "library content_id must be platform_metadata id or platform name"@,
                )
            },
        },
{
    match kind {
        ContentKind::Note => Ok(ContentLookup::Nothing),
        ContentKind::Report => Ok(ContentLookup::Report(number_or_zero(content_id))),
        ContentKind::PhantasiArticle => Ok(
            ContentLookup::PhantasiArticle(number_or_zero(content_id)),
        ),
        ContentKind::Tapp => Ok(ContentLookup::Tapp(content_id.to_owned())),
        ContentKind::Library => match text::parse_i32(content_id) {
            Some(id) => Ok(ContentLookup::LibraryById(id)),
            None => {
                let platform = text::trim(content_id);
                if platform.as_str().is_empty() {
                    Err(
                        refusal::refuse(
                            400,
                            "library content_id must be platform_metadata id or platform name",
                        ),
                    )
                } else {
                    Ok(ContentLookup::LibraryByPlatform(platform))
                }
            },
        },
    }
}

pub open spec fn json_or_null(j: Option<Json>) -> JsonView {
    match j {
        Some(v) => v@,
        None => JsonView::Null,
    }
}

fn copy_or_null(j: &Option<Json>) -> (r: Json)
    ensures
        r@ == json_or_null(*j),
{
    match j {
        Some(v) => v.copy(),
        None => Json::Null,
    }
}

pub open spec fn json_or_empty(j: Option<Json>) -> JsonView {
    match j {
        Some(v) => v@,
        None => json::empty(),
    }
}

fn copy_or_empty(j: &Option<Json>) -> (r: Json)
    ensures
        r@ == json_or_empty(*j),
{
    match j {
        Some(v) => v.copy(),
        None => json::object(),
    }
}

fn text_or_default(s: &Option<String>) -> (r: String)
    ensures
        r@ == text_or_empty(text::opt_view(*s)),
{
    match s {
        Some(t) => t.clone(),
        None => String::new(),
    }
}

/// The display name of a report: its title, or the platform's name.
pub open spec fn report_name(row: ReportRow) -> Seq<char> {
    match row.title {
        Some(t) if t@.len() > 0 => t@,
        _ => text_or_empty(text::opt_view(row.platform)) + " report"@,
    }
}

/// The summary of a report, or its name where there is none.
pub open spec fn report_line(row: ReportRow) -> Seq<char> {
    let plain = report_summary(json_or_null(row.report));
    if plain.len() > 0 {
        plain
    } else {
        report_name(row)
    }
}

pub open spec fn report_object(
    p: Publisher,
    content_id: Seq<char>,
    v: Visibility,
    row: ReportRow,
) -> JsonView {
    let platform = text_or_empty(text::opt_view(row.platform));
    let preview = text::at_most(report_line(row), PREVIEW_CHARS as nat);
    let number = row_number(content_id);
    json::empty()
        .with("type"@, json::text_json("Article"@))
        .with(
            "id"@,
            json::text_json(
                ContentKind::Report.object_url_of(p.base_url@, text::decimal(number)),
            ),
        )
        .with("attributedTo"@, json::text_json(urls::actor_url_of(p.base_url@, p.username@)))
        .with("name"@, json::text_json(report_name(row)))
        .with("summary"@, json::text_json(report_line(row)))
        .with("content"@, json::text_json(report_html(json_or_null(row.report))))
        .with("mediaType"@, json::text_json("text/html"@))
        .with("published"@, json::text_json(p.published@))
        .with("to"@, json::texts_json(audience::to_of(v, p.base_url@, p.username@)))
        .with("cc"@, json::texts_json(audience::cc_of(v, p.base_url@, p.username@)))
        .with("mfp:contentType"@, json::text_json(ContentKind::Report.name()))
        .with("mfp:contentId"@, json::text_json(content_id))
        .with("mfp:reportId"@, json::int_json(number))
        .with("mfp:platform"@, json::text_json(platform))
        .with("mfp:summary"@, json::text_json(report_line(row)))
        .with("mfp:contentPreview"@, json::text_json(preview))
        .with("report_id"@, json::int_json(number))
        .with("platform"@, json::text_json(platform))
        .with("content_preview"@, json::text_json(preview))
}

/// A report as an article: the fields that other sites show of it, never the
/// report itself.
fn build_report(p: &Publisher, content_id: &str, v: Visibility, row: &ReportRow) -> (r: Json)
    ensures
        r@ == report_object(*p, content_id@, v, *row),
{
    let number = number_or_zero(content_id);
    let platform = text_or_default(&row.platform);
    let name = match &row.title {
        Some(t) if !t.as_str().is_empty() => t.clone(),
        _ => {
            let mut name = platform.clone();
            name.append(" report");
            name
        },
    };
    assert(name@ == report_name(*row));
    let report = copy_or_null(&row.report);
    let plain = extract_report_summary_plain(&report);
    let line = if plain.as_str().is_empty() {
        name.clone()
    } else {
        plain
    };
    assert(line@ == report_line(*row));
    let preview = text::take_chars(line.as_str(), PREVIEW_CHARS);
    let html = extract_report_summary(&report);
    let (to, cc) = audience::resolve_audience(v, p.base_url.as_str(), p.username.as_str());
    let actor = urls::actor_url(p.base_url.as_str(), p.username.as_str());
    let number_text = text::i64_text(number as i64);
    let id = ContentKind::Report.object_url(p.base_url.as_str(), number_text.as_str());
    json::object()
        .with("type", json::string("Article"))
        .with("id", json::string(id.as_str()))
        .with("attributedTo", json::string(actor.as_str()))
        .with("name", json::string(name.as_str()))
        .with("summary", json::string(line.as_str()))
        .with("content", json::string(html.as_str()))
        .with("mediaType", json::string("text/html"))
        .with("published", json::string(p.published.as_str()))
        .with("to", json::strings(&to))
        .with("cc", json::strings(&cc))
        .with("mfp:contentType", json::string(ContentKind::Report.as_str()))
        .with("mfp:contentId", json::string(content_id))
        .with("mfp:reportId", json::number(number as i64))
        .with("mfp:platform", json::string(platform.as_str()))
        .with("mfp:summary", json::string(line.as_str()))
        .with("mfp:contentPreview", json::string(preview.as_str()))
        .with("report_id", json::number(number as i64))
        .with("platform", json::string(platform.as_str()))
        .with("content_preview", json::string(preview.as_str()))
}

pub open spec fn article_object(
    p: Publisher,
    content_id: Seq<char>,
    v: Visibility,
    row: ArticleRow,
) -> JsonView {
    let excerpt = text::at_most(text_or_empty(text::opt_view(row.content)), PREVIEW_CHARS as nat);
    json::empty()
        .with("type"@, json::text_json("Article"@))
        .with(
            "id"@,
            json::text_json(
                ContentKind::PhantasiArticle.object_url_of(
                    p.base_url@,
                    text::decimal(row_number(content_id)),
                ),
            ),
        )
        .with("attributedTo"@, json::text_json(urls::actor_url_of(p.base_url@, p.username@)))
        .with("name"@, json::text_json(text_or_empty(text::opt_view(row.title))))
        .with("content"@, json::text_json(paragraph(excerpt)))
        .with("mediaType"@, json::text_json("text/html"@))
        .with("url"@, json::opt_text_json(text::opt_view(row.link)))
        .with("published"@, json::text_json(p.published@))
        .with("to"@, json::texts_json(audience::to_of(v, p.base_url@, p.username@)))
        .with("cc"@, json::texts_json(audience::cc_of(v, p.base_url@, p.username@)))
        .with("mfp:contentType"@, json::text_json(ContentKind::PhantasiArticle.name()))
        .with("mfp:contentId"@, json::text_json(content_id))
        .with("mfp:source"@, json::opt_text_json(text::opt_view(row.source_name)))
        .with("mfp:author"@, json::opt_text_json(text::opt_view(row.author)))
}

fn build_article(p: &Publisher, content_id: &str, v: Visibility, row: &ArticleRow) -> (r: Json)
    ensures
        r@ == article_object(*p, content_id@, v, *row),
{
    let content = text_or_default(&row.content);
    let excerpt = text::take_chars(content.as_str(), PREVIEW_CHARS);
    let html = in_paragraph(excerpt.as_str());
    let title = text_or_default(&row.title);
    let (to, cc) = audience::resolve_audience(v, p.base_url.as_str(), p.username.as_str());
    let actor = urls::actor_url(p.base_url.as_str(), p.username.as_str());
    let number_text = text::i64_text(number_or_zero(content_id) as i64);
    let id = ContentKind::PhantasiArticle.object_url(p.base_url.as_str(), number_text.as_str());
    json::object()
        .with("type", json::string("Article"))
        .with("id", json::string(id.as_str()))
        .with("attributedTo", json::string(actor.as_str()))
        .with("name", json::string(title.as_str()))
        .with("content", json::string(html.as_str()))
        .with("mediaType", json::string("text/html"))
        .with("url", json::opt_string(&row.link))
        .with("published", json::string(p.published.as_str()))
        .with("to", json::strings(&to))
        .with("cc", json::strings(&cc))
        .with("mfp:contentType", json::string(ContentKind::PhantasiArticle.as_str()))
        .with("mfp:contentId", json::string(content_id))
        .with("mfp:source", json::opt_string(&row.source_name))
        .with("mfp:author", json::opt_string(&row.author))
}

pub open spec fn icon_object(icon: Option<Seq<char>>) -> JsonView {
    match icon {
        Some(url) => json::empty().with("type"@, json::text_json("Image"@)).with(
            "url"@,
            json::text_json(url),
        ),
        None => JsonView::Null,
    }
}

pub open spec fn tapp_object(p: Publisher, v: Visibility, row: TappRow) -> JsonView {
    let tapp_id = text_or_empty(text::opt_view(row.tapp_id));
    json::empty()
        .with("type"@, json::text_json("Application"@))
        .with("id"@, json::text_json(ContentKind::Tapp.object_url_of(p.base_url@, tapp_id)))
        .with("attributedTo"@, json::text_json(urls::actor_url_of(p.base_url@, p.username@)))
        .with("name"@, json::text_json(text_or_empty(text::opt_view(row.name))))
        .with("summary"@, json::opt_text_json(text::opt_view(row.description)))
        .with("icon"@, icon_object(text::opt_view(row.icon)))
        .with("published"@, json::text_json(p.published@))
        .with("to"@, json::texts_json(audience::to_of(v, p.base_url@, p.username@)))
        .with("cc"@, json::texts_json(audience::cc_of(v, p.base_url@, p.username@)))
        .with("mfp:contentType"@, json::text_json(ContentKind::Tapp.name()))
        .with("mfp:contentId"@, json::text_json(tapp_id))
        .with("mfp:version"@, json::text_json(text_or_empty(text::opt_view(row.version))))
        .with("mfp:author"@, json_or_null(row.author))
        .with("mfp:manifest"@, json_or_empty(row.manifest))
}

/// An app: its manifest, never its code.
fn build_tapp(p: &Publisher, v: Visibility, row: &TappRow) -> (r: Json)
    ensures
        r@ == tapp_object(*p, v, *row),
{
    let tapp_id = text_or_default(&row.tapp_id);
    let name = text_or_default(&row.name);
    let version = text_or_default(&row.version);
    let icon = match &row.icon {
        Some(url) => json::object().with("type", json::string("Image")).with(
            "url",
            json::string(url.as_str()),
        ),
        None => Json::Null,
    };
    let (to, cc) = audience::resolve_audience(v, p.base_url.as_str(), p.username.as_str());
    let actor = urls::actor_url(p.base_url.as_str(), p.username.as_str());
    let id = ContentKind::Tapp.object_url(p.base_url.as_str(), tapp_id.as_str());
    json::object()
        .with("type", json::string("Application"))
        .with("id", json::string(id.as_str()))
        .with("attributedTo", json::string(actor.as_str()))
        .with("name", json::string(name.as_str()))
        .with("summary", json::opt_string(&row.description))
        .with("icon", icon)
        .with("published", json::string(p.published.as_str()))
        .with("to", json::strings(&to))
        .with("cc", json::strings(&cc))
        .with("mfp:contentType", json::string(ContentKind::Tapp.as_str()))
        .with("mfp:contentId", json::string(tapp_id.as_str()))
        .with("mfp:version", json::string(version.as_str()))
        .with("mfp:author", copy_or_null(&row.author))
        .with("mfp:manifest", copy_or_empty(&row.manifest))
}

/// The platform a library belongs to; a library that was looked up by its
/// platform has that name where its own cannot be read.
pub open spec fn platform_of(content_id: Seq<char>, row: LibraryRow) -> Seq<char> {
    match text::opt_view(row.platform_name) {
        Some(name) => name,
        None => if text::number_in(content_id, i32::MIN as int, i32::MAX as int) is Some {
            Seq::empty()
        } else {
            text::trimmed(content_id)
        },
    }
}

pub open spec fn library_line(platform: Seq<char>, t: library::TallyView) -> Seq<char> {
    if t.count > 0 {
        text::decimal(t.count) + " items on "@ + platform + if t.titles.len() == 0 {
            Seq::empty()
        } else {
            " — e.g. "@ + text::joined(t.titles, ", "@)
        }
    } else {
        "Library snapshot from "@ + platform
    }
}

pub open spec fn library_object(
    p: Publisher,
    content_id: Seq<char>,
    v: Visibility,
    row: LibraryRow,
) -> JsonView {
    let platform = platform_of(content_id, row);
    let t = library::summary_of(json_or_empty(row.raw_data));
    json::empty()
        .with("type"@, json::text_json("Collection"@))
        .with(
            "id"@,
            json::text_json(
                ContentKind::Library.object_url_of(p.base_url@, text::decimal(row.id as int)),
            ),
        )
        .with("attributedTo"@, json::text_json(urls::actor_url_of(p.base_url@, p.username@)))
        .with("name"@, json::text_json(platform + " library"@))
        .with("summary"@, json::text_json(library_line(platform, t)))
        .with("totalItems"@, json::int_json(t.count))
        .with("published"@, json::text_json(p.published@))
        .with("to"@, json::texts_json(audience::to_of(v, p.base_url@, p.username@)))
        .with("cc"@, json::texts_json(audience::cc_of(v, p.base_url@, p.username@)))
        .with("mfp:contentType"@, json::text_json(ContentKind::Library.name()))
        .with("mfp:contentId"@, json::text_json(content_id))
        .with("mfp:platform"@, json::text_json(platform))
        .with("mfp:metadataId"@, json::int_json(row.id as int))
        .with("mfp:sampleTitles"@, json::texts_json(t.titles))
        .with("platform"@, json::text_json(platform))
        .with("item_count"@, json::int_json(t.count))
}

fn build_library(p: &Publisher, content_id: &str, v: Visibility, row: &LibraryRow) -> (r: Json)
    ensures
        r@ == library_object(*p, content_id@, v, *row),
{
    let platform = match &row.platform_name {
        Some(name) => name.clone(),
        None => match text::parse_i32(content_id) {
            Some(_) => String::new(),
            None => text::trim(content_id),
        },
    };
    assert(platform@ == platform_of(content_id@, *row));
    let raw = copy_or_empty(&row.raw_data);
    let (count, titles) = library::summarize_library_raw(&raw);
    let line = if count > 0 {
        let mut line = text::usize_text(count);
        line.append(" items on ");
        line.append(platform.as_str());
        if titles.len() > 0 {
            let mut tail = " — e.g. ".to_owned();
            tail.append(text::join(&titles, ", ").as_str());
            line.append(tail.as_str());
        } else {
            assert(line@ + Seq::<char>::empty() =~= line@);
        }
        line
    } else {
        let mut line = "Library snapshot from ".to_owned();
        line.append(platform.as_str());
        line
    };
    let mut name = platform.clone();
    name.append(" library");
    let (to, cc) = audience::resolve_audience(v, p.base_url.as_str(), p.username.as_str());
    let actor = urls::actor_url(p.base_url.as_str(), p.username.as_str());
    let number_text = text::i64_text(row.id as i64);
    let id = ContentKind::Library.object_url(p.base_url.as_str(), number_text.as_str());
    json::object()
        .with("type", json::string("Collection"))
        .with("id", json::string(id.as_str()))
        .with("attributedTo", json::string(actor.as_str()))
        .with("name", json::string(name.as_str()))
        .with("summary", json::string(line.as_str()))
        .with("totalItems", json::unsigned(count as u64))
        .with("published", json::string(p.published.as_str()))
        .with("to", json::strings(&to))
        .with("cc", json::strings(&cc))
        .with("mfp:contentType", json::string(ContentKind::Library.as_str()))
        .with("mfp:contentId", json::string(content_id))
        .with("mfp:platform", json::string(platform.as_str()))
        .with("mfp:metadataId", json::number(row.id as i64))
        .with("mfp:sampleTitles", json::strings(&titles))
        .with("platform", json::string(platform.as_str()))
        .with("item_count", json::unsigned(count as u64))
}

/// What is answered where no library was found.
pub open spec fn library_missing(content_id: Seq<char>) -> Fault {
    if text::number_in(content_id, i32::MIN as int, i32::MAX as int) is Some {
        refusal::fault(404, "Library metadata not found"@)
    } else {
        refusal::fault(
            404,
            "No library metadata for platform '"@ + text::trimmed(content_id) + "'"@,
        )
    }
}

/// The object of local content, or the reason why there is none.
pub open spec fn object_outcome(
    p: Publisher,
    content_id: Seq<char>,
    v: Visibility,
    content: Content,
) -> Result<JsonView, Fault> {
    match content {
        Content::Note { text: t, attachments, in_reply_to, limits } => note_outcome(
            p,
            content_id,
            v,
            text::opt_view(t),
            attachments@,
            text::opt_view(in_reply_to),
            limits,
        ),
        Content::Report(Some(row)) => Ok(report_object(p, content_id, v, row)),
        Content::Report(None) => Err(refusal::fault(404, "Report not found"@)),
        Content::PhantasiArticle(Some(row)) => Ok(article_object(p, content_id, v, row)),
        Content::PhantasiArticle(None) => Err(
            refusal::fault(404, "Phantasi article not found"@),
        ),
        Content::Tapp(Some(row)) => Ok(tapp_object(p, v, row)),
        Content::Tapp(None) => Err(refusal::fault(404, "Tapp not found"@)),
        Content::Library(Some(row)) => Ok(library_object(p, content_id, v, row)),
        Content::Library(None) => Err(library_missing(content_id)),
    }
}

/// Builds the ActivityPub object of local content.
pub fn build_ap_object(p: &Publisher, content_id: &str, v: Visibility, content: &Content) -> (r:
    Result<Json, Refusal>)
    ensures
        outcome_is(r, object_outcome(*p, content_id@, v, *content)),
{
    match content {
        Content::Note { text: t, attachments, in_reply_to, limits } => build_note(
            p,
            content_id,
            v,
            t,
            attachments,
            in_reply_to,
            limits,
        ),
        Content::Report(Some(row)) => Ok(build_report(p, content_id, v, row)),
        Content::Report(None) => Err(refusal::refuse(404, "Report not found")),
        Content::PhantasiArticle(Some(row)) => Ok(build_article(p, content_id, v, row)),
        Content::PhantasiArticle(None) => Err(refusal::refuse(404, "Phantasi article not found")),
        Content::Tapp(Some(row)) => Ok(build_tapp(p, v, row)),
        Content::Tapp(None) => Err(refusal::refuse(404, "Tapp not found")),
        Content::Library(Some(row)) => Ok(build_library(p, content_id, v, row)),
        Content::Library(None) => {
            match text::parse_i32(content_id) {
                Some(_) => Err(refusal::refuse(404, "Library metadata not found")),
                None => {
                    let mut message = "No library metadata for platform '".to_owned();
                    message.append(text::trim(content_id).as_str());
                    message.append("'");
                    Err(Refusal { status: 404, error: message })
                },
            }
        },
    }
}

/// Where every attachment may be attached, each becomes an object, in their
/// order; where one may not, none does.
pub proof fn attachments_are_attached_in_order(
    base_url: Seq<char>,
    user_id: int,
    atts: Seq<NoteAttachmentInput>,
)
    ensures
        match attachment_objects(base_url, user_id, atts) {
            Ok(list) => list.len() == atts.len() && (forall|i: int|
                0 <= i < atts.len() ==> attachment_object(base_url, user_id, #[trigger] atts[i])
                    == Ok::<JsonView, Fault>(list[i])),
            Err(f) => exists|i: int|
                0 <= i < atts.len() && attachment_object(base_url, user_id, #[trigger] atts[i])
                    == Err::<JsonView, Fault>(f),
        },
    decreases atts.len(),
{
    if atts.len() > 0 {
        let rest = atts.drop_last();
        attachments_are_attached_in_order(base_url, user_id, rest);
        match attachment_objects(base_url, user_id, rest) {
            Ok(before) => {
                if let Ok(last) = attachment_object(base_url, user_id, atts.last()) {
                    let list = before.push(last);
                    assert forall|i: int| 0 <= i < atts.len() implies attachment_object(
                        base_url,
                        user_id,
                        #[trigger] atts[i],
                    ) == Ok::<JsonView, Fault>(list[i]) by {
                        if i < rest.len() {
                            assert(rest[i] == atts[i]);
                        }
                    }
                } else {
                    assert(atts[atts.len() - 1] == atts.last());
                }
            },
            Err(f) => {
                let i = choose|i: int|
                    0 <= i < rest.len() && attachment_object(base_url, user_id, #[trigger] rest[i])
                        == Err::<JsonView, Fault>(f);
                assert(atts[i] == rest[i]);
            },
        }
    }
}

/// An attachment is what its type says, under the address that was given, and is
/// refused exactly where its type is unknown or the address is not its author's.
pub proof fn attachments_are_what_they_are_said_to_be(
    base_url: Seq<char>,
    user_id: int,
    att: NoteAttachmentInput,
)
    ensures
        ({
            let kind = media::kind_of_mime(
                text::ascii_lower(text::trimmed(text::before_char(att.media_type@, ';'))),
            );
            let known = kind is Some && media::attachment_url_ok(
                base_url,
                user_id,
                text::trimmed(att.url@),
            );
            &&& attachment_object(base_url, user_id, att) is Ok <==> known
            &&& attachment_object(base_url, user_id, att) matches Ok(o) ==> o.text_at("url"@)
                == Some(text::trimmed(att.url@)) && o.text_at("type"@) == Some(kind->0.type_text())
                && o.text_at("mediaType"@) == Some(
                text::trimmed(text::before_char(att.media_type@, ';')),
            )
            &&& attachment_object(base_url, user_id, att) matches Err(f) ==> f.status == 400
        }),
{
    reveal_strlit("type");
    reveal_strlit("mediaType");
    reveal_strlit("url");
    assert("type"@.len() == 4 && "mediaType"@.len() == 9 && "url"@.len() == 3);
    reveal_with_fuel(json::key_from, 4);
}

/// A note is published exactly where it says something or attaches something, is
/// within the limits, and may attach all that it attaches.
pub proof fn notes_within_the_limits_are_published(
    p: Publisher,
    content_id: Seq<char>,
    v: Visibility,
    note_text: Option<Seq<char>>,
    atts: Seq<NoteAttachmentInput>,
    in_reply_to: Option<Seq<char>>,
    limits: NoteLimits,
)
    ensures
        ({
            let body = match note_text {
                Some(t) => text::trimmed(t),
                None => Seq::empty(),
            };
            note_outcome(p, content_id, v, note_text, atts, in_reply_to, limits) is Ok <==> (
            body.len() > 0 || atts.len() > 0) && body.len() <= limits.text_chars && atts.len()
                <= limits.attachments && (forall|i: int|
                0 <= i < atts.len() ==> attachment_object(
                    p.base_url@,
                    p.user_id as int,
                    #[trigger] atts[i],
                ) is Ok)
        }),
{
    attachments_are_attached_in_order(p.base_url@, p.user_id as int, atts);
    assert(text::trimmed(Seq::empty()) =~= Seq::empty());
}

/// Every object is addressed as its visibility says, is attributed to who
/// published it, and says of what kind it is.
pub proof fn objects_are_addressed_and_attributed(
    p: Publisher,
    content_id: Seq<char>,
    v: Visibility,
    content: Content,
)
    ensures
        object_outcome(p, content_id, v, content) matches Ok(o) ==> is_addressed(o, p, v)
            && o.text_at("type"@) == Some(
            match content {
                Content::Note { .. } => "Note"@,
                Content::Report(_) | Content::PhantasiArticle(_) => "Article"@,
                Content::Tapp(_) => "Application"@,
                Content::Library(_) => "Collection"@,
            },
        ),
{
    match content {
        Content::Note { text: t, attachments, in_reply_to, limits } => {
            let body = text::trimmed(text_or_empty(text::opt_view(t)));
            if let Ok(list) = attachment_objects(p.base_url@, p.user_id as int, attachments@) {
                notes_are_addressed(p, content_id, v, body, list, given(text::opt_view(in_reply_to)));
            }
        },
        Content::Report(Some(row)) => reports_are_addressed(p, content_id, v, row),
        Content::PhantasiArticle(Some(row)) => articles_are_addressed(p, content_id, v, row),
        Content::Tapp(Some(row)) => tapps_are_addressed(p, v, row),
        Content::Library(Some(row)) => libraries_are_addressed(p, content_id, v, row),
        _ => {},
    }
}

/// The object goes to whom the visibility says and names who published it.
pub open spec fn is_addressed(o: JsonView, p: Publisher, v: Visibility) -> bool {
    &&& o.get("to"@) == Some(json::texts_json(audience::to_of(v, p.base_url@, p.username@)))
    &&& o.get("cc"@) == Some(json::texts_json(audience::cc_of(v, p.base_url@, p.username@)))
    &&& o.text_at("attributedTo"@) == Some(p.base_url@ + "/users/"@ + p.username@)
}

proof fn keys_differ()
    ensures
        "type"@.len() == 4,
        "id"@.len() == 2,
        "attributedTo"@.len() == 12,
        "name"@.len() == 4,
        "summary"@.len() == 7,
        "content"@.len() == 7,
        "source"@.len() == 6,
        "mediaType"@.len() == 9,
        "published"@.len() == 9,
        "icon"@.len() == 4,
        "url"@.len() == 3,
        "totalItems"@.len() == 10,
        "to"@.len() == 2,
        "cc"@.len() == 2,
        "id"@[0] == 'i',
        "to"@[0] == 't',
        "cc"@[0] == 'c',
{
    reveal_strlit("type");
    reveal_strlit("id");
    reveal_strlit("attributedTo");
    reveal_strlit("name");
    reveal_strlit("summary");
    reveal_strlit("content");
    reveal_strlit("source");
    reveal_strlit("mediaType");
    reveal_strlit("published");
    reveal_strlit("icon");
    reveal_strlit("url");
    reveal_strlit("totalItems");
    reveal_strlit("to");
    reveal_strlit("cc");
}

proof fn notes_are_addressed(
    p: Publisher,
    content_id: Seq<char>,
    v: Visibility,
    body: Seq<char>,
    attachments: Seq<JsonView>,
    parent: Option<Seq<char>>,
)
    ensures
        is_addressed(note_object(p, content_id, v, body, attachments, parent), p, v),
        note_object(p, content_id, v, body, attachments, parent).text_at("type"@) == Some("Note"@),
{
    keys_differ();
    reveal_with_fuel(json::key_from, 10);
}

proof fn reports_are_addressed(p: Publisher, content_id: Seq<char>, v: Visibility, row: ReportRow)
    ensures
        is_addressed(report_object(p, content_id, v, row), p, v),
        report_object(p, content_id, v, row).text_at("type"@) == Some("Article"@),
{
    keys_differ();
    reveal_with_fuel(json::key_from, 11);
}

proof fn articles_are_addressed(p: Publisher, content_id: Seq<char>, v: Visibility, row: ArticleRow)
    ensures
        is_addressed(article_object(p, content_id, v, row), p, v),
        article_object(p, content_id, v, row).text_at("type"@) == Some("Article"@),
{
    keys_differ();
    reveal_with_fuel(json::key_from, 11);
}

proof fn tapps_are_addressed(p: Publisher, v: Visibility, row: TappRow)
    ensures
        is_addressed(tapp_object(p, v, row), p, v),
        tapp_object(p, v, row).text_at("type"@) == Some("Application"@),
{
    keys_differ();
    reveal_with_fuel(json::key_from, 10);
}

proof fn libraries_are_addressed(
    p: Publisher,
    content_id: Seq<char>,
    v: Visibility,
    row: LibraryRow,
)
    ensures
        is_addressed(library_object(p, content_id, v, row), p, v),
        library_object(p, content_id, v, row).text_at("type"@) == Some("Collection"@),
{
    keys_differ();
    reveal_with_fuel(json::key_from, 10);
}

/// A note says what its author wrote: as it was written, and escaped where it is
/// shown. It names what it answers, and lies under its own address.
pub proof fn notes_say_what_was_written(
    p: Publisher,
    content_id: Seq<char>,
    v: Visibility,
    body: Seq<char>,
    attachments: Seq<JsonView>,
    parent: Option<Seq<char>>,
)
    requires
        body.len() > 0,
    ensures
        ({
            let note = note_object(p, content_id, v, body, attachments, parent);
            &&& note.text_at("id"@) == Some(p.base_url@ + "/notes/"@ + content_id)
            &&& note.text_at("content"@) == Some("<p>"@ + escaped(body) + "</p>"@)
            &&& (note.get("source"@) matches Some(source) && source.text_at("content"@) == Some(
                body,
            ))
            &&& note.get("attachment"@) == Some(JsonView::Array(attachments))
            &&& note.text_at("inReplyTo"@) == parent
        }),
{
    keys_differ();
    reveal_strlit("attachment");
    reveal_strlit("inReplyTo");
    reveal_strlit("mfp:contentType");
    reveal_strlit("mfp:contentId");
    assert("attachment"@.len() == 10 && "inReplyTo"@.len() == 9 && "mfp:contentType"@.len() == 15
        && "mfp:contentId"@.len() == 13 && "inReplyTo"@[0] == 'i' && "mediaType"@[0] == 'm'
        && "published"@[0] == 'p') by {
        reveal_strlit("mediaType");
        reveal_strlit("published");
    }
    reveal_with_fuel(json::key_from, 14);
}

/// A character that means nothing in markup is shown as it is; one that does is
/// shown by its name, and the end of a line as one.
pub proof fn characters_are_escaped_one_by_one(c: char)
    ensures
        c != '&' && c != '<' && c != '>' && c != '"' && c != '\n' ==> escaped(seq![c]) == seq![c],
        escaped(seq!['&']) == "&amp;"@,
        escaped(seq!['<']) == "&lt;"@,
        escaped(seq!['>']) == "&gt;"@,
        escaped(seq!['"']) == "&quot;"@,
        escaped(seq!['\n']) == "<br>"@,
{
    one_is_escaped(c);
    one_is_escaped('&');
    one_is_escaped('<');
    one_is_escaped('>');
    one_is_escaped('"');
    one_is_escaped('\n');
}

proof fn one_is_escaped(c: char)
    ensures
        escaped(seq![c]) == escaped_char(c),
{
    assert(seq![c].drop_last() =~= Seq::empty());
    assert(escaped(seq![c].drop_last()) =~= Seq::empty());
    assert(escaped(seq![c]) =~= escaped_char(c));
}

/// A report is summed up by its summary, or by its first insight where it has
/// none. A row goes by its number.
pub proof fn reports_are_summed_up(report: JsonView, said: Seq<char>, insights: Seq<JsonView>, n: int)
    requires
        insights.len() > 0,
        insights[0] == JsonView::Str(said),
        i32::MIN <= n <= i32::MAX,
    ensures
        report.text_at("summary"@) == Some(said) ==> report_summary(report) == said,
        report.get("summary"@) is None && report.get("insights"@) == Some(JsonView::Array(insights))
            ==> report_summary(report) == said,
        report.get("summary"@) is None && report.get("insights"@) is None ==> report_summary(
            report,
        ).len() == 0,
        row_number(text::decimal(n)) == n,
        report_summary(report).len() > 0 ==> report_html(report) == "<p>"@ + escaped(
            report_summary(report),
        ) + "</p>"@,
{
    text::decimal_reads_back(n);
}

/// A report goes by its title, or by its platform where it has none; what is
/// shown of it is its summary, or that name where it has none.
pub proof fn reports_go_by_their_title(row: ReportRow)
    ensures
        row.title matches Some(t) ==> t@.len() > 0 ==> report_name(row) == t@,
        row.title is None && row.platform is Some ==> report_name(row) == row.platform->0@
            + " report"@,
        report_summary(json_or_null(row.report)).len() > 0 ==> report_line(row) == report_summary(
            json_or_null(row.report),
        ),
        report_summary(json_or_null(row.report)).len() == 0 ==> report_line(row) == report_name(row),
{
}

/// A library goes by its platform and says how many items it holds, with a few of
/// their titles.
pub proof fn libraries_say_what_they_hold(
    content_id: Seq<char>,
    row: LibraryRow,
    platform: Seq<char>,
    t: library::TallyView,
)
    ensures
        row.platform_name matches Some(name) ==> platform_of(content_id, row) == name@,
        t.count > 0 && t.titles.len() > 0 ==> library_line(platform, t) == text::decimal(t.count)
            + " items on "@ + platform + (" — e.g. "@ + text::joined(t.titles, ", "@)),
        t.count > 0 && t.titles.len() == 0 ==> library_line(platform, t) == text::decimal(t.count)
            + " items on "@ + platform,
        t.count == 0 ==> library_line(platform, t) == "Library snapshot from "@ + platform,
{
    assert(text::decimal(t.count) + " items on "@ + platform + Seq::<char>::empty() =~= text::decimal(
        t.count,
    ) + " items on "@ + platform);
}

/// Content that is not there cannot be published, of whatever kind it is.
pub proof fn missing_content_is_not_found(p: Publisher, content_id: Seq<char>, v: Visibility, content: Content)
    requires
        content == Content::Report(None) || content == Content::PhantasiArticle(None) || content
            == Content::Tapp(None) || content == Content::Library(None),
    ensures
        object_outcome(p, content_id, v, content) matches Err(f) && f.status == 404,
{
}

/// A library whose platform is not named goes by what was asked for, unless that
/// is a number.
pub proof fn unnamed_libraries_go_by_what_was_asked(content_id: Seq<char>, row: LibraryRow, n: int)
    requires
        row.platform_name is None,
        i32::MIN <= n <= i32::MAX,
    ensures
        text::number_of(content_id) is None ==> platform_of(content_id, row) == text::trimmed(
            content_id,
        ),
        platform_of(text::decimal(n), row).len() == 0,
{
    text::decimal_reads_back(n);
}

/// A note that is refused is refused as a bad request.
pub proof fn refused_notes_are_bad_requests(
    p: Publisher,
    content_id: Seq<char>,
    v: Visibility,
    note_text: Option<Seq<char>>,
    atts: Seq<NoteAttachmentInput>,
    in_reply_to: Option<Seq<char>>,
    limits: NoteLimits,
)
    ensures
        note_outcome(p, content_id, v, note_text, atts, in_reply_to, limits) matches Err(f)
            ==> f.status == 400,
{
    attachments_are_attached_in_order(p.base_url@, p.user_id as int, atts);
}

} // verus!
