//! Federation media: which MIME types may be attached, and which URLs name an
//! attachment of the author.
use crate::ids;
use crate::text;
use vstd::prelude::*;

verus! {

/// How media of one MIME type is attached and stored.
#[derive(Clone, Copy, Debug, PartialEq, Eq, Structural)]
pub enum MediaKind {
    Jpeg,
    Png,
    Gif,
    Webp,
    Mp4,
    Webm,
    Quicktime,
}

impl MediaKind {
    pub open spec fn mime(self) -> Seq<char> {
        match self {
            MediaKind::Jpeg => "image/jpeg"@,
            MediaKind::Png => "image/png"@,
            MediaKind::Gif => "image/gif"@,
            MediaKind::Webp => "image/webp"@,
            MediaKind::Mp4 => "video/mp4"@,
            MediaKind::Webm => "video/webm"@,
            MediaKind::Quicktime => "video/quicktime"@,
        }
    }

    pub open spec fn is_image(self) -> bool {
        self is Jpeg || self is Png || self is Gif || self is Webp
    }

    pub open spec fn type_text(self) -> Seq<char> {
        if self.is_image() {
            "Image"@
        } else {
            "Video"@
        }
    }

    pub open spec fn extension_text(self) -> Seq<char> {
        match self {
            MediaKind::Jpeg => "jpg"@,
            MediaKind::Png => "png"@,
            MediaKind::Gif => "gif"@,
            MediaKind::Webp => "webp"@,
            MediaKind::Mp4 => "mp4"@,
            MediaKind::Webm => "webm"@,
            MediaKind::Quicktime => "mov"@,
        }
    }

    /// The ActivityStreams type of an attachment of this kind.
    pub fn attachment_type(self) -> (r: &'static str)
        ensures
            r@ == self.type_text(),
    {
        match self {
            MediaKind::Jpeg | MediaKind::Png | MediaKind::Gif | MediaKind::Webp => "Image",
            MediaKind::Mp4 | MediaKind::Webm | MediaKind::Quicktime => "Video",
        }
    }

    pub fn extension(self) -> (r: &'static str)
        ensures
            r@ == self.extension_text(),
    {
        match self {
            MediaKind::Jpeg => "jpg",
            MediaKind::Png => "png",
            MediaKind::Gif => "gif",
            MediaKind::Webp => "webp",
            MediaKind::Mp4 => "mp4",
            MediaKind::Webm => "webm",
            MediaKind::Quicktime => "mov",
        }
    }
}

/// The kind that a MIME type names.
pub open spec fn kind_of_mime(mime: Seq<char>) -> Option<MediaKind> {
    if mime == MediaKind::Jpeg.mime() {
        Some(MediaKind::Jpeg)
    } else if mime == MediaKind::Png.mime() {
        Some(MediaKind::Png)
    } else if mime == MediaKind::Gif.mime() {
        Some(MediaKind::Gif)
    } else if mime == MediaKind::Webp.mime() {
        Some(MediaKind::Webp)
    } else if mime == MediaKind::Mp4.mime() {
        Some(MediaKind::Mp4)
    } else if mime == MediaKind::Webm.mime() {
        Some(MediaKind::Webm)
    } else if mime == MediaKind::Quicktime.mime() {
        Some(MediaKind::Quicktime)
    } else {
        None
    }
}

pub fn stored_media_kind(mime: &str) -> (r: Option<MediaKind>)
    ensures
        r == kind_of_mime(mime@),
{
    if text::eq(mime, "image/jpeg") {
        Some(MediaKind::Jpeg)
    } else if text::eq(mime, "image/png") {
        Some(MediaKind::Png)
    } else if text::eq(mime, "image/gif") {
        Some(MediaKind::Gif)
    } else if text::eq(mime, "image/webp") {
        Some(MediaKind::Webp)
    } else if text::eq(mime, "video/mp4") {
        Some(MediaKind::Mp4)
    } else if text::eq(mime, "video/webm") {
        Some(MediaKind::Webm)
    } else if text::eq(mime, "video/quicktime") {
        Some(MediaKind::Quicktime)
    } else {
        None
    }
}

/// The ActivityStreams type under which media of this MIME type is attached;
/// `None` for a type that is not accepted.
pub fn classify_media_mime(mime: &str) -> (r: Option<&'static str>)
    ensures
        match r {
            Some(t) => kind_of_mime(mime@) is Some && t@ == kind_of_mime(mime@)->0.type_text(),
            None => kind_of_mime(mime@) is None,
        },
{
    match stored_media_kind(mime) {
        Some(kind) => Some(kind.attachment_type()),
        None => None,
    }
}

/// The file extension under which media of this MIME type is stored.
pub fn extension_for_mime(mime: &str) -> (r: Option<&'static str>)
    ensures
        match r {
            Some(t) => kind_of_mime(mime@) is Some && t@ == kind_of_mime(mime@)->0.extension_text(),
            None => kind_of_mime(mime@) is None,
        },
{
    match stored_media_kind(mime) {
        Some(kind) => Some(kind.extension()),
        None => None,
    }
}

/// Every accepted MIME type is accepted as the kind it names.
pub proof fn mime_names_its_kind(kind: MediaKind)
    ensures
        kind_of_mime(kind.mime()) == Some(kind),
{
    reveal_strlit("image/jpeg");
    reveal_strlit("image/png");
    reveal_strlit("image/gif");
    reveal_strlit("image/webp");
    reveal_strlit("video/mp4");
    reveal_strlit("video/webm");
    reveal_strlit("video/quicktime");
    assert("image/jpeg"@.len() == 10 && "image/png"@.len() == 9 && "image/gif"@.len() == 9
        && "image/webp"@.len() == 10 && "video/mp4"@.len() == 9 && "video/webm"@.len() == 10
        && "video/quicktime"@.len() == 15);
    assert("image/jpeg"@[6] == 'j' && "image/webp"@[6] == 'w' && "video/webm"@[0] == 'v'
        && "image/jpeg"@[0] == 'i' && "image/webp"@[0] == 'i');
    assert("image/png"@[6] == 'p' && "image/gif"@[6] == 'g' && "video/mp4"@[0] == 'v'
        && "image/png"@[0] == 'i' && "image/gif"@[0] == 'i');
}

pub open spec fn file_char(c: char) -> bool {
    text::ascii_alphanumeric(c) || c == '.' || c == '-' || c == '_'
}

/// A file name that cannot leave its directory.
pub open spec fn safe_file_name(name: Seq<char>) -> bool {
    &&& name.len() > 0
    &&& !text::contains_text(name, ".."@)
    &&& forall|i: int| 0 <= i < name.len() ==> file_char(#[trigger] name[i])
}

fn is_safe_file_name(name: &str) -> (r: bool)
    ensures
        r == safe_file_name(name@),
{
    if name.is_empty() || text::contains(name, "..") {
        return false;
    }
    let v = text::chars_of(name);
    let mut i: usize = 0;
    while i < v.len()
        invariant
            i <= v@.len(),
            v@ == name@,
            forall|j: int| 0 <= j < i ==> file_char(#[trigger] name@[j]),
        decreases v@.len() - i,
    {
        let c = v[i];
        if !(text::is_ascii_alphanumeric(c) || c == '.' || c == '-' || c == '_') {
            assert(!file_char(name@[i as int]));
            return false;
        }
        i = i + 1;
    }
    true
}

/// The path under which the media of one user was uploaded for federation.
pub open spec fn own_media_prefix(base_url: Seq<char>, user_id: int) -> Seq<char> {
    text::trim_end_char_of(base_url, '/') + "/media/federation/"@ + text::decimal(user_id) + "/"@
}

/// A path on this site that names stored media: by its number, or by its
/// asset identifier and file name.
pub open spec fn local_media_path(path: Seq<char>) -> bool {
    match text::after_prefix(path, "/api/media/"@) {
        Some(rest) => {
            let id = match text::before_suffix(rest, "/content"@) {
                Some(bare) => bare,
                None => rest,
            };
            text::number_in(id, 1, i32::MAX as int) is Some
        },
        None => match text::after_prefix(path, "/media/assets/"@) {
            Some(rest) => match text::split_once_of(rest, '/') {
                Some(parts) => ids::uuid_text(parts.0) && safe_file_name(parts.1),
                None => false,
            },
            None => false,
        },
    }
}

/// Whether a URL may stand as an attachment of a note by this user.
pub open spec fn attachment_url_ok(base_url: Seq<char>, user_id: int, url: Seq<char>) -> bool {
    let u = text::trimmed(url);
    let base = text::trim_end_char_of(base_url, '/');
    match text::after_prefix(u, own_media_prefix(base_url, user_id)) {
        Some(rest) => safe_file_name(rest),
        None => local_media_path(
            match text::after_prefix(u, base) {
                Some(path) => path,
                None => u,
            },
        ),
    }
}

/// Why `url` is not a valid media URL of this site for this user; `None` when
/// the URL is acceptable.
pub fn attachment_url_rejection_reason(base_url: &str, user_id: i32, url: &str) -> (r: Option<
    &'static str,
>)
    ensures
        match r {
            None => attachment_url_ok(base_url@, user_id as int, url@),
            Some(reason) => !attachment_url_ok(base_url@, user_id as int, url@) && reason@
                == "Invalid attachment URL"@,
        },
{
    let url = text::trim(url);
    let base = text::trim_end_char(base_url, '/');
    let id = text::i64_text(user_id as i64);
    let mut prefix = base.clone();
    prefix.append("/media/federation/");
    prefix.append(id.as_str());
    prefix.append("/");
    if let Some(rest) = text::strip_prefix(url.as_str(), prefix.as_str()) {
        if is_safe_file_name(rest.as_str()) {
            return None;
        }
        return Some("Invalid attachment URL");
    }
    let relative = match text::strip_prefix(url.as_str(), base.as_str()) {
        Some(path) => path,
        None => url,
    };
    if is_local_media_path(relative.as_str()) {
        None
    } else {
        Some("Invalid attachment URL")
    }
}

fn is_local_media_path(path: &str) -> (r: bool)
    ensures
        r == local_media_path(path@),
{
    if let Some(rest) = text::strip_prefix(path, "/api/media/") {
        let id = match text::strip_suffix(rest.as_str(), "/content") {
            Some(bare) => bare,
            None => rest,
        };
        return match text::parse_i32(id.as_str()) {
            Some(value) => value > 0,
            None => false,
        };
    }
    let rest = match text::strip_prefix(path, "/media/assets/") {
        Some(rest) => rest,
        None => return false,
    };
    match text::split_once(rest.as_str(), '/') {
        Some(parts) => ids::is_uuid(parts.0.as_str()) && is_safe_file_name(parts.1.as_str()),
        None => false,
    }
}

proof fn uuids_hold_no_dot(s: Seq<char>)
    requires
        ids::uuid_text(s),
    ensures
        !text::has_char(s, '.'),
{
    assert forall|i: int| 0 <= i < s.len() implies #[trigger] s[i] != '.' by {
        if s.len() == 32 {
            assert(text::ascii_hexdigit(s[i]));
        } else if s.len() == 38 {
            let inner = s.subrange(1, 37);
            if 0 < i < 37 {
                assert(inner[i - 1] == s[i]);
            }
        } else if s.len() == 45 {
            let rest = s.skip(9);
            if i >= 9 {
                assert(rest[i - 9] == s[i]);
            } else {
                let head = text::ascii_lower(s.take(9));
                reveal_strlit("urn:uuid:");
                assert(head[i] == text::ascii_lower_char(s[i]));
                assert("urn:uuid:"@[i] != '.');
            }
        }
    }
}

proof fn numbers_hold_no_dot(s: Seq<char>)
    requires
        text::number_of(s) is Some,
    ensures
        !text::has_char(s, '.'),
        !text::has_char(s, '/'),
{
    assert forall|i: int| 0 <= i < s.len() implies #[trigger] s[i] != '.' && s[i] != '/' by {
        if i > 0 {
            assert(s.skip(1)[i - 1] == s[i]);
        }
    }
}

/// No path that names stored media climbs out of where the media lies.
pub proof fn media_paths_do_not_climb(path: Seq<char>)
    requires
        local_media_path(path),
    ensures
        !text::contains_text(path, ".."@),
{
    reveal_strlit("..");
    reveal_strlit("/api/media/");
    reveal_strlit("/media/assets/");
    reveal_strlit("/content");
    let climb = ".."@;
    assert(climb.len() == 2 && climb[0] == '.' && climb[1] == '.');
    assert forall|i: int| !#[trigger] text::occurs_at(path, climb, i) by {
        if text::occurs_at(path, climb, i) {
            assert(path.subrange(i, i + 2)[0] == path[i] && path.subrange(i, i + 2)[1]
                == path[i + 1]);
            match text::after_prefix(path, "/api/media/"@) {
                Some(rest) => {
                    let id = match text::before_suffix(rest, "/content"@) {
                        Some(bare) => bare,
                        None => rest,
                    };
                    numbers_hold_no_dot(id);
                    if i < 11 {
                        assert(path.take(11)[i] == path[i]);
                        assert("/api/media/"@[i] != '.');
                    } else if i - 11 < id.len() {
                        assert(id[i - 11] == path[i]);
                    } else {
                        let tail = rest.skip(rest.len() - 8);
                        assert(tail[i - 11 - id.len()] == path[i]);
                        assert("/content"@[i - 11 - id.len()] != '.');
                    }
                },
                None => {
                    let rest = path.skip(14);
                    text::char_from_is_first(rest, '/', 0);
                    let k = text::char_from(rest, '/', 0)->0;
                    let name = rest.skip(k + 1);
                    uuids_hold_no_dot(rest.take(k));
                    if i < 14 {
                        assert(path.take(14)[i] == path[i]);
                        assert("/media/assets/"@[i] != '.');
                    } else if i - 14 < k {
                        assert(rest.take(k)[i - 14] == path[i]);
                    } else if i - 14 == k {
                        assert(rest[k] == path[i]);
                    } else {
                        assert(name.subrange(i - 14 - k - 1, i - 14 - k + 1) =~= path.subrange(
                            i,
                            i + 2,
                        ));
                        assert(text::occurs_at(name, climb, i - 14 - k - 1));
                    }
                },
            }
        }
    }
}

/// Media is attached as an image where its type says that it is one, and as a
/// video otherwise. It is stored under a suffix of its own.
pub proof fn media_is_attached_as_its_type_says(a: MediaKind, b: MediaKind)
    ensures
        a.type_text() == "Image"@ <==> text::starts(a.mime(), "image/"@),
        a.type_text() == "Video"@ <==> text::starts(a.mime(), "video/"@),
        a.extension_text() == b.extension_text() ==> a == b,
{
    reveal_strlit("image/jpeg");
    reveal_strlit("image/png");
    reveal_strlit("image/gif");
    reveal_strlit("image/webp");
    reveal_strlit("video/mp4");
    reveal_strlit("video/webm");
    reveal_strlit("video/quicktime");
    reveal_strlit("image/");
    reveal_strlit("video/");
    reveal_strlit("Image");
    reveal_strlit("Video");
    reveal_strlit("jpg");
    reveal_strlit("png");
    reveal_strlit("gif");
    reveal_strlit("webp");
    reveal_strlit("mp4");
    reveal_strlit("webm");
    reveal_strlit("mov");
    assert("Image"@[0] == 'I' && "Video"@[0] == 'V');
    assert("jpg"@.len() == 3 && "png"@.len() == 3 && "gif"@.len() == 3 && "mp4"@.len() == 3
        && "mov"@.len() == 3 && "webp"@.len() == 4 && "webm"@.len() == 4);
    assert("jpg"@[0] == 'j' && "png"@[0] == 'p' && "gif"@[0] == 'g' && "mp4"@[0] == 'm' && "mov"@[0]
        == 'm' && "mp4"@[1] == 'p' && "mov"@[1] == 'o' && "webp"@[3] == 'p' && "webm"@[3] == 'm');
    if a.is_image() {
        assert(a.mime().take(6) =~= "image/"@);
        assert(a.mime().take(6)[0] == 'i' && "video/"@[0] == 'v');
    } else {
        assert(a.mime().take(6) =~= "video/"@);
        assert(a.mime().take(6)[0] == 'v' && "image/"@[0] == 'i');
    }
}

/// What an author stored may be attached under its own address, and media of the
/// site under its number. Nothing that lies elsewhere may be.
pub proof fn only_stored_media_is_attached(
    base_url: Seq<char>,
    user_id: int,
    name: Seq<char>,
    number: int,
    url: Seq<char>,
)
    requires
        base_url.len() > 0,
        !text::white(base_url[0]),
        base_url.last() != '/',
        0 <= user_id,
        safe_file_name(name),
        1 <= number <= i32::MAX,
    ensures
        attachment_url_ok(
            base_url,
            user_id,
            base_url + "/media/federation/"@ + text::decimal(user_id) + "/"@ + name,
        ),
        local_media_path("/api/media/"@ + text::decimal(number)),
        attachment_url_ok(base_url, user_id, url) ==> text::starts(text::trimmed(url), base_url)
            || text::starts(text::trimmed(url), "/api/media/"@) || text::starts(
            text::trimmed(url),
            "/media/assets/"@,
        ),
{
    reveal_strlit("/media/federation/");
    reveal_strlit("/");
    reveal_strlit("/api/media/");
    reveal_strlit("/content");
    assert(text::trim_end_char_of(base_url, '/') == base_url);
    let own = base_url + "/media/federation/"@ + text::decimal(user_id) + "/"@;
    let u = own + name;
    assert(own_media_prefix(base_url, user_id) == own);
    assert(u[0] == base_url[0]);
    assert(u.last() == name.last());
    assert(file_char(name[name.len() - 1]));
    assert(!text::white(name.last()));
    assert(text::trim_start_of(u) == u);
    assert(text::trimmed(u) == u);
    assert(u.take(own.len() as int) =~= own);
    assert(u.skip(own.len() as int) =~= name);
    let path = "/api/media/"@ + text::decimal(number);
    assert(path.take(11) =~= "/api/media/"@);
    let rest = path.skip(11);
    assert(rest =~= text::decimal(number));
    text::decimal_reads_back(number);
    numbers_hold_no_dot(rest);
    assert(text::before_suffix(rest, "/content"@) is None) by {
        if text::before_suffix(rest, "/content"@) is Some {
            let tail = rest.skip(rest.len() - 8);
            assert("/content"@.len() == 8 && "/content"@[0] == '/');
            assert(tail[0] == rest[rest.len() - 8]);
        }
    }
    if attachment_url_ok(base_url, user_id, url) {
        let t = text::trimmed(url);
        if text::after_prefix(t, own) is Some {
            assert(t.take(base_url.len() as int) =~= own.take(base_url.len() as int));
            assert(own.take(base_url.len() as int) =~= base_url);
        }
    }
}

} // verus!
