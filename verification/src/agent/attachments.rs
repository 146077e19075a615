//! What someone attaches to a message: images to look at and small text files to
//! read. Images are taken out of the request, so that they are kept nowhere.
use crate::json;
use crate::json::{Json, JsonView};
use crate::text;
use base64::engine::general_purpose::STANDARD;
use base64::Engine;
use vstd::prelude::*;

verus! {

pub const MAX_IMAGES: usize = 4;

/// How many bytes an image may have.
pub const MAX_IMAGE_BYTES: usize = 2_097_152;

pub const MAX_FILE_CHARS: usize = 8_000;

pub const MAX_NAME_CHARS: usize = 120;

/// An image for a model, with its bytes in base64.
pub struct ImageInput {
    pub mime: String,
    pub base64: String,
}

pub struct ImageView {
    pub mime: Seq<char>,
    pub base64: Seq<char>,
}

impl View for ImageInput {
    type V = ImageView;

    open spec fn view(&self) -> ImageView {
        ImageView { mime: self.mime@, base64: self.base64@ }
    }
}

pub open spec fn image_views(images: Seq<ImageInput>) -> Seq<ImageView> {
    images.map_values(|i: ImageInput| i@)
}

// ---------------------------------------------------------------------------
// Images
// ---------------------------------------------------------------------------
/// What the standard base64 engine decodes the text to.
pub uninterp spec fn base64_bytes(data: Seq<char>) -> Option<Seq<u8>>;

/// Calls `decode` of base64's `STANDARD` engine on the text. What it makes of it
/// is named, not stated: the bytes, or `None` where the text is no base64 with
/// padding in the standard alphabet.
#[verifier::external_body]
fn decode_base64(data: &str) -> (r: Option<Vec<u8>>)
    ensures
        (match r {
            Some(bytes) => Some(bytes@),
            None => None,
        }) == base64_bytes(data@),
{
    STANDARD.decode(data).ok()
}

/// Whether the bytes begin with `head`, at position `at`.
pub open spec fn has_at(bytes: Seq<u8>, at: int, head: Seq<u8>) -> bool {
    at + head.len() <= bytes.len() && bytes.subrange(at, at + head.len()) == head
}

/// The type of an image by its first bytes.
pub open spec fn sniffed(bytes: Seq<u8>) -> Option<Seq<char>> {
    if has_at(bytes, 0, seq![0x89u8, 0x50u8, 0x4Eu8, 0x47u8]) {
        Some("image/png"@)
    } else if has_at(bytes, 0, seq![0xFFu8, 0xD8u8, 0xFFu8]) {
        Some("image/jpeg"@)
    } else if has_at(bytes, 0, seq![0x47u8, 0x49u8, 0x46u8, 0x38u8]) {
        Some("image/gif"@)
    } else if has_at(bytes, 0, seq![0x52u8, 0x49u8, 0x46u8, 0x46u8]) && has_at(
        bytes,
        8,
        seq![0x57u8, 0x45u8, 0x42u8, 0x50u8],
    ) {
        Some("image/webp"@)
    } else {
        None
    }
}

fn holds_at(bytes: &Vec<u8>, at: usize, head: &Vec<u8>) -> (r: bool)
    requires
        at + head@.len() <= usize::MAX,
    ensures
        r == has_at(bytes@, at as int, head@),
{
    if bytes.len() < at + head.len() {
        return false;
    }
    let mut i: usize = 0;
    let ghost part = bytes@.subrange(at as int, at + head@.len());
    while i < head.len()
        invariant
            i <= head@.len(),
            at + head@.len() <= bytes@.len(),
            at + head@.len() <= usize::MAX,
            part == bytes@.subrange(at as int, at + head@.len()),
            forall|k: int| 0 <= k < i ==> part[k] == head@[k],
        decreases head@.len() - i,
    {
        if bytes[at + i] != head[i] {
            assert(part[i as int] != head@[i as int]);
            return false;
        }
        i = i + 1;
    }
    assert(part =~= head@);
    true
}

fn sniff(bytes: &Vec<u8>) -> (r: Option<&'static str>)
    ensures
        match r {
            Some(m) => sniffed(bytes@) == Some(m@),
            None => sniffed(bytes@) is None,
        },
{
    let png: Vec<u8> = vec![0x89, 0x50, 0x4E, 0x47];
    let jpeg: Vec<u8> = vec![0xFF, 0xD8, 0xFF];
    let gif: Vec<u8> = vec![0x47, 0x49, 0x46, 0x38];
    let riff: Vec<u8> = vec![0x52, 0x49, 0x46, 0x46];
    let webp: Vec<u8> = vec![0x57, 0x45, 0x42, 0x50];
    proof {
        assert(png@ =~= seq![0x89u8, 0x50u8, 0x4Eu8, 0x47u8]);
        assert(jpeg@ =~= seq![0xFFu8, 0xD8u8, 0xFFu8]);
        assert(gif@ =~= seq![0x47u8, 0x49u8, 0x46u8, 0x38u8]);
        assert(riff@ =~= seq![0x52u8, 0x49u8, 0x46u8, 0x46u8]);
        assert(webp@ =~= seq![0x57u8, 0x45u8, 0x42u8, 0x50u8]);
    }
    if holds_at(bytes, 0, &png) {
        Some("image/png")
    } else if holds_at(bytes, 0, &jpeg) {
        Some("image/jpeg")
    } else if holds_at(bytes, 0, &gif) {
        Some("image/gif")
    } else if holds_at(bytes, 0, &riff) && holds_at(bytes, 8, &webp) {
        Some("image/webp")
    } else {
        None
    }
}

/// The image that decoded bytes are. Its type is read off the bytes, not taken
/// from what was declared.
pub open spec fn image_of_bytes(data: Seq<char>, bytes: Seq<u8>) -> Option<ImageView> {
    if bytes.len() > MAX_IMAGE_BYTES {
        None
    } else {
        match sniffed(bytes) {
            Some(mime) => Some(ImageView { mime, base64: data }),
            None => None,
        }
    }
}

pub open spec fn opt_image(image: Option<ImageInput>) -> Option<ImageView> {
    match image {
        Some(i) => Some(i@),
        None => None,
    }
}

pub fn image_from_bytes(data: &str, bytes: &Vec<u8>) -> (r: Option<ImageInput>)
    ensures
        opt_image(r) == image_of_bytes(data@, bytes@),
{
    if bytes.len() > MAX_IMAGE_BYTES {
        return None;
    }
    match sniff(bytes) {
        Some(mime) => Some(ImageInput { mime: mime.to_owned(), base64: data.to_owned() }),
        None => None,
    }
}

/// The base64 text of a data URL, unless it is too long for an image.
pub open spec fn data_of_url(url: Seq<char>) -> Option<Seq<char>> {
    match text::after_prefix(url, "data:"@) {
        Some(rest) => match text::parted_by(rest, ";base64,"@) {
            Some(parts) => if vstd::utf8::encode_utf8(parts.1).len() / 4 * 3 > MAX_IMAGE_BYTES + 3 {
                None
            } else {
                Some(parts.1)
            },
            None => None,
        },
        None => None,
    }
}

pub fn image_data(url: &str) -> (r: Option<String>)
    ensures
        text::opt_view(r) == data_of_url(url@),
{
    match text::after(url, "data:") {
        Some(rest) => match text::part_by(rest, ";base64,") {
            Some(parts) => {
                if text::byte_len(parts.1.as_str()) / 4 > 699_051 {
                    None
                } else {
                    Some(parts.1)
                }
            },
            None => None,
        },
        None => None,
    }
}

/// The image in a data URL.
pub open spec fn image_of_url(url: Seq<char>) -> Option<ImageView> {
    match data_of_url(url) {
        Some(data) => match base64_bytes(data) {
            Some(bytes) => image_of_bytes(data, bytes),
            None => None,
        },
        None => None,
    }
}

fn image_from_data_url(url: &str) -> (r: Option<ImageInput>)
    ensures
        opt_image(r) == image_of_url(url@),
{
    match image_data(url) {
        Some(data) => match decode_base64(data.as_str()) {
            Some(bytes) => image_from_bytes(data.as_str(), &bytes),
            None => None,
        },
        None => None,
    }
}

/// An attachment without its image.
pub open spec fn stripped(attachment: JsonView) -> JsonView {
    match attachment {
        JsonView::Object(o) => JsonView::Object(json::without_key(o, "image"@)),
        _ => attachment,
    }
}

pub open spec fn all_stripped(attachments: Seq<JsonView>) -> Seq<JsonView> {
    attachments.map_values(|a: JsonView| stripped(a))
}

/// The image of an attachment.
pub open spec fn image_in(attachment: JsonView) -> Option<ImageView> {
    match attachment.get("image"@) {
        Some(JsonView::Str(url)) => image_of_url(url),
        _ => None,
    }
}

/// The first images of the attachments.
pub open spec fn images_in(attachments: Seq<JsonView>) -> Seq<ImageView>
    decreases attachments.len(),
{
    if attachments.len() == 0 {
        Seq::empty()
    } else {
        let before = images_in(attachments.drop_last());
        match image_in(attachments.last()) {
            Some(image) if before.len() < MAX_IMAGES => before.push(image),
            _ => before,
        }
    }
}

fn strip(attachment: Json) -> (r: (Json, Option<Json>))
    ensures
        r.0@ == stripped(attachment@),
        json::opt_json_view(r.1) == attachment@.get("image"@),
{
    broadcast use json::group_json;

    match attachment {
        Json::Object(o) => {
            let mut o = o;
            assert(attachment@ == JsonView::Object(json::entries(o@)));
            let image = json::take(&mut o, "image");
            let rest = Json::Object(o);
            assert(rest@ == JsonView::Object(json::entries(o@)));
            (rest, image)
        },
        other => (other, None),
    }
}

fn strip_all(attachments: Vec<Json>) -> (r: (Vec<Json>, Vec<ImageInput>))
    ensures
        json::items(r.0@) == all_stripped(json::items(attachments@)),
        image_views(r.1@) == images_in(json::items(attachments@)),
{
    let ghost all = json::items(attachments@);
    let mut rest: Vec<Json> = attachments;
    let mut kept: Vec<Json> = Vec::new();
    let mut images: Vec<ImageInput> = Vec::new();
    let ghost mut done: int = 0;
    assert(rest@ =~= attachments@.skip(0));
    assert(all.take(0) =~= Seq::empty());
    assert(image_views(images@) =~= Seq::empty());
    assert(json::items(kept@) =~= all_stripped(all.take(0)));
    while rest.len() > 0
        invariant
            0 <= done <= attachments@.len(),
            all == json::items(attachments@),
            rest@ == attachments@.skip(done),
            json::items(kept@) == all_stripped(all.take(done)),
            image_views(images@) == images_in(all.take(done)),
        decreases rest@.len(),
    {
        let attachment = rest.remove(0);
        let ghost given = attachment@;
        proof {
            assert(attachment == attachments@[done]);
            assert(rest@ =~= attachments@.skip(done + 1));
            assert(all.take(done + 1).drop_last() =~= all.take(done));
            assert(all.take(done + 1).last() == given);
            assert(all_stripped(all.take(done + 1)) =~= all_stripped(all.take(done)).push(
                stripped(given),
            ));
            assert(image_views(images@).len() == images@.len());
        }
        let (left, image) = strip(attachment);
        proof {
            json::items_push(kept@, left);
        }
        kept.push(left);
        if images.len() < MAX_IMAGES {
            if let Some(Json::Str(url)) = image {
                if let Some(found) = image_from_data_url(url.as_str()) {
                    let ghost before = images@;
                    images.push(found);
                    assert(image_views(images@) =~= image_views(before).push(found@));
                }
            }
        }
        proof {
            done = done + 1;
        }
    }
    assert(all.take(all.len() as int) =~= all);
    (kept, images)
}

/// The attachments of a request.
pub open spec fn attachments_of(data: JsonView) -> Option<Seq<JsonView>> {
    data.array_at("attachments"@)
}

/// The request once its images are taken out.
pub open spec fn without_images(data: JsonView) -> JsonView {
    match (data, attachments_of(data)) {
        (JsonView::Object(o), Some(list)) => JsonView::Object(
            json::with_entry(o, "attachments"@, JsonView::Array(all_stripped(list))),
        ),
        _ => data,
    }
}

/// Takes the images out of a request and keeps those that are images. Every
/// `image` is taken out, whether it is kept or not.
pub fn take_images(custom_data: Json) -> (r: (Json, Vec<ImageInput>))
    ensures
        r.0@ == without_images(custom_data@),
        image_views(r.1@) == (match attachments_of(custom_data@) {
            Some(list) => images_in(list),
            None => Seq::empty(),
        }),
{
    broadcast use json::group_json;

    let none: Vec<ImageInput> = Vec::new();
    assert(image_views(none@) =~= Seq::empty());
    match custom_data {
        Json::Object(o) => {
            let ghost given = json::entries(o@);
            assert(custom_data@ == JsonView::Object(given));
            let list: Option<Vec<Json>> = match json::field(&o, "attachments") {
                Some(Json::Array(list)) => Some(json::copy_items(list)),
                _ => None,
            };
            match list {
                Some(list) => {
                    let (kept, images) = strip_all(list);
                    (json::with_field(&o, "attachments", json::array(kept)), images)
                },
                None => {
                    let same = Json::Object(o);
                    assert(same@ == JsonView::Object(given));
                    (same, none)
                },
            }
        },
        other => (other, none),
    }
}

// ---------------------------------------------------------------------------
// Telling
// ---------------------------------------------------------------------------
pub open spec fn images_line(images: int) -> Seq<char> {
    "They attached "@ + text::decimal(images) + " image"@ + (if images == 1 {
        ""@
    } else {
        "s"@
    }) + " to this message; you can see "@ + (if images == 1 {
        "it"@
    } else {
        "them"@
    }) + "."@
}

pub open spec fn file_name(attachment: JsonView) -> Seq<char> {
    text::at_most(
        match attachment.text_at("name"@) {
            Some(n) => n,
            None => "file"@,
        },
        MAX_NAME_CHARS as nat,
    )
}

/// What is told of an attached file; `None` if there is no text in it.
pub open spec fn file_told(attachment: JsonView) -> Option<Seq<char>> {
    match attachment.text_at("text"@) {
        Some(t) if text::trimmed(t).len() > 0 => Some(
            "Attached file \""@ + file_name(attachment) + "\":\n"@ + text::at_most(
                text::trimmed(t),
                MAX_FILE_CHARS as nat,
            ),
        ),
        _ => None,
    }
}

/// What is told of the first files.
pub open spec fn files_told(attachments: Seq<JsonView>) -> Seq<Seq<char>>
    decreases attachments.len(),
{
    if attachments.len() == 0 {
        Seq::empty()
    } else {
        let before = files_told(attachments.drop_last());
        match file_told(attachments.last()) {
            Some(t) if before.len() < MAX_IMAGES => before.push(t),
            _ => before,
        }
    }
}

pub open spec fn told(data: JsonView, images: int) -> Seq<Seq<char>> {
    let first = if images > 0 {
        seq![images_line(images)]
    } else {
        Seq::empty()
    };
    first + (match attachments_of(data) {
        Some(list) => files_told(list),
        None => Seq::empty(),
    })
}

fn tell_images(images: usize) -> (r: String)
    ensures
        r@ == images_line(images as int),
{
    let mut out = "They attached ".to_owned();
    let n = text::usize_text(images);
    out.append(n.as_str());
    out.append(" image");
    if images == 1 {
        out.append("");
    } else {
        out.append("s");
    }
    out.append(" to this message; you can see ");
    if images == 1 {
        out.append("it");
    } else {
        out.append("them");
    }
    out.append(".");
    out
}

fn tell_file(attachment: &Json) -> (r: Option<String>)
    ensures
        text::opt_view(r) == file_told(attachment@),
{
    let given = match attachment.str_at("text") {
        Some(t) => text::trim(t),
        None => return None,
    };
    if given.as_str().is_empty() {
        return None;
    }
    let name = match attachment.str_at("name") {
        Some(n) => text::take_chars(n, MAX_NAME_CHARS),
        None => text::take_chars("file", MAX_NAME_CHARS),
    };
    let mut out = "Attached file \"".to_owned();
    out.append(name.as_str());
    out.append("\":\n");
    let head = text::take_chars(given.as_str(), MAX_FILE_CHARS);
    out.append(head.as_str());
    Some(out)
}

/// Tells what came with a message: how many images there are to see, and the
/// text of the attached files.
pub fn format_attached(custom_data: &Json, images: usize) -> (r: String)
    ensures
        r@ == text::joined(told(custom_data@, images as int), "\n\n"@),
{
    broadcast use json::group_json;

    let mut lines: Vec<String> = Vec::new();
    if images > 0 {
        lines.push(tell_images(images));
    }
    let ghost first = text::views(lines@);
    assert(first =~= if images > 0 {
        seq![images_line(images as int)]
    } else {
        Seq::empty()
    });
    if let Some(Json::Array(list)) = custom_data.get("attachments") {
        let ghost all = json::items(list@);
        assert(attachments_of(custom_data@) == Some(all));
        assert(all.take(0) =~= Seq::empty());
        assert(text::views(lines@) =~= first + files_told(all.take(0)));
        let mut told: usize = 0;
        let mut i: usize = 0;
        while i < list.len()
            invariant
                i <= list@.len(),
                all == json::items(list@),
                text::views(lines@) == first + files_told(all.take(i as int)),
                told == files_told(all.take(i as int)).len(),
                told <= MAX_IMAGES,
            decreases list@.len() - i,
        {
            assert(all.take(i + 1).drop_last() =~= all.take(i as int));
            assert(all.take(i + 1).last() == list@[i as int]@);
            if let Some(t) = tell_file(&list[i]) {
                if told < MAX_IMAGES {
                    proof {
                        text::views_push(lines@, t);
                    }
                    lines.push(t);
                    told = told + 1;
                    assert(text::views(lines@) =~= first + files_told(all.take(i + 1)));
                }
            }
            i = i + 1;
        }
        assert(all.take(all.len() as int) =~= all);
    } else {
        assert(text::views(lines@) =~= told(custom_data@, images as int));
    }
    assert(text::views(lines@) =~= told(custom_data@, images as int));
    text::join(&lines, "\n\n")
}

// ---------------------------------------------------------------------------
// Laws
// ---------------------------------------------------------------------------
/// No more images are kept than may be, and each is of a type that was read off
/// its bytes.
pub proof fn few_images_are_kept(attachments: Seq<JsonView>)
    ensures
        images_in(attachments).len() <= MAX_IMAGES,
        forall|i: int|
            0 <= i < images_in(attachments).len() ==> (base64_bytes(
                (#[trigger] images_in(attachments)[i]).base64,
            ) matches Some(bytes) && bytes.len() <= MAX_IMAGE_BYTES && sniffed(bytes) == Some(
                images_in(attachments)[i].mime,
            )),
    decreases attachments.len(),
{
    if attachments.len() > 0 {
        few_images_are_kept(attachments.drop_last());
        let before = images_in(attachments.drop_last());
        let all = images_in(attachments);
        assert forall|i: int| 0 <= i < all.len() implies (base64_bytes(
            (#[trigger] all[i]).base64,
        ) matches Some(bytes) && bytes.len() <= MAX_IMAGE_BYTES && sniffed(bytes) == Some(
            all[i].mime,
        )) by {
            if i < before.len() {
                assert(all[i] == before[i]);
            }
        }
    }
}

/// No image stays in a request: its attachments have none left.
pub proof fn images_leave_the_request(attachments: Seq<JsonView>, i: int)
    requires
        0 <= i < attachments.len(),
    ensures
        all_stripped(attachments)[i].get("image"@) is None,
{
    if let JsonView::Object(o) = attachments[i] {
        json::nothing_is_left_of_a_key(o, "image"@);
    }
}

proof fn images_grow(before: Seq<JsonView>, after: Seq<JsonView>)
    ensures
        images_in(before).len() <= images_in(before + after).len(),
        images_in(before + after).take(images_in(before).len() as int) == images_in(before),
    decreases after.len(),
{
    let all = before + after;
    if after.len() == 0 {
        assert(all =~= before);
        assert(images_in(before).take(images_in(before).len() as int) =~= images_in(before));
    } else {
        images_grow(before, after.drop_last());
        assert(all.drop_last() =~= before + after.drop_last());
        let n = images_in(before).len() as int;
        assert(images_in(all).take(n) =~= images_in(all.drop_last()).take(n));
    }
}

/// The first four images that are attached are seen, in the order in which they
/// are attached.
pub proof fn the_first_images_are_seen(
    before: Seq<JsonView>,
    attachment: JsonView,
    after: Seq<JsonView>,
    image: ImageView,
)
    requires
        image_in(attachment) == Some(image),
    ensures
        ({
            let seen = images_in(before.push(attachment) + after);
            let n = images_in(before).len() as int;
            &&& n <= 4 && seen.len() <= 4
            &&& n < 4 ==> seen.len() > n && seen[n] == image
            &&& seen.len() >= n && seen.take(n) == images_in(before)
        }),
{
    few_images_are_kept(before);
    few_images_are_kept(before.push(attachment) + after);
    images_grow(before, seq![attachment]);
    let b = before.push(attachment);
    assert(b =~= before + seq![attachment]);
    assert(b.drop_last() =~= before);
    images_grow(b, after);
    let seen = images_in(b + after);
    let n = images_in(before).len() as int;
    assert(seen.take(n) =~= images_in(b).take(n));
    if n < 4 {
        assert(images_in(b)[n] == image);
        assert(seen.take(n + 1)[n] == seen[n]);
    }
}

/// An image is what its first bytes say, whatever it is called, and is seen only
/// where it is no larger than two mebibytes.
pub proof fn images_are_known_by_their_bytes(data: Seq<char>, bytes: Seq<u8>)
    ensures
        bytes.len() > 2_097_152 ==> image_of_bytes(data, bytes) is None,
        4 <= bytes.len() <= 2_097_152 && bytes[0] == 0x89 && bytes[1] == 0x50 && bytes[2] == 0x4E
            && bytes[3] == 0x47 ==> image_of_bytes(data, bytes) == Some(
            (ImageView { mime: "image/png"@, base64: data }),
        ),
        3 <= bytes.len() <= 2_097_152 && bytes[0] == 0xFF && bytes[1] == 0xD8 && bytes[2] == 0xFF
            ==> image_of_bytes(data, bytes) == Some(
            (ImageView { mime: "image/jpeg"@, base64: data }),
        ),
        4 <= bytes.len() <= 2_097_152 && bytes[0] == 0x47 && bytes[1] == 0x49 && bytes[2] == 0x46
            && bytes[3] == 0x38 ==> image_of_bytes(data, bytes) == Some(
            (ImageView { mime: "image/gif"@, base64: data }),
        ),
        12 <= bytes.len() <= 2_097_152 && bytes[0] == 0x52 && bytes[1] == 0x49 && bytes[2] == 0x46
            && bytes[3] == 0x46 && bytes[8] == 0x57 && bytes[9] == 0x45 && bytes[10] == 0x42
            && bytes[11] == 0x50 ==> image_of_bytes(data, bytes) == Some(
            (ImageView { mime: "image/webp"@, base64: data }),
        ),
        bytes.len() == 0 || (bytes[0] != 0x89 && bytes[0] != 0xFF && bytes[0] != 0x47 && bytes[0]
            != 0x52) ==> image_of_bytes(data, bytes) is None,
{
    let png = seq![0x89u8, 0x50u8, 0x4Eu8, 0x47u8];
    let jpeg = seq![0xFFu8, 0xD8u8, 0xFFu8];
    let gif = seq![0x47u8, 0x49u8, 0x46u8, 0x38u8];
    let riff = seq![0x52u8, 0x49u8, 0x46u8, 0x46u8];
    let webp = seq![0x57u8, 0x45u8, 0x42u8, 0x50u8];
    if bytes.len() >= 4 {
        assert(bytes.subrange(0, 4)[0] == bytes[0]);
        if bytes[0] == 0x89 && bytes[1] == 0x50 && bytes[2] == 0x4E && bytes[3] == 0x47 {
            assert(bytes.subrange(0, 4) =~= png);
        }
        if bytes[0] == 0x47 && bytes[1] == 0x49 && bytes[2] == 0x46 && bytes[3] == 0x38 {
            assert(bytes.subrange(0, 4) =~= gif);
        }
        if bytes[0] == 0x52 && bytes[1] == 0x49 && bytes[2] == 0x46 && bytes[3] == 0x46 {
            assert(bytes.subrange(0, 4) =~= riff);
        }
    }
    if bytes.len() >= 3 {
        assert(bytes.subrange(0, 3)[0] == bytes[0]);
        if bytes[0] == 0xFF && bytes[1] == 0xD8 && bytes[2] == 0xFF {
            assert(bytes.subrange(0, 3) =~= jpeg);
        }
    }
    if bytes.len() >= 12 && bytes[8] == 0x57 && bytes[9] == 0x45 && bytes[10] == 0x42 && bytes[11]
        == 0x50 {
        assert(bytes.subrange(8, 12) =~= webp);
    }
    assert(png[0] == 0x89 && jpeg[0] == 0xFF && gif[0] == 0x47 && riff[0] == 0x52);
}

/// The data of an image is what stands behind the mark in its address.
pub proof fn data_is_read_off_the_address(kind: Seq<char>, data: Seq<char>)
    requires
        !text::has_char(kind, ';'),
        vstd::utf8::encode_utf8(data).len() <= 2_796_204,
    ensures
        data_of_url("data:"@ + kind + ";base64,"@ + data) == Some(data),
{
    reveal_strlit("data:");
    reveal_strlit(";base64,");
    let mark = ";base64,"@;
    let url = "data:"@ + kind + mark + data;
    assert(url.take(5) =~= "data:"@);
    let rest = url.skip(5);
    assert(rest =~= kind + mark + data);
    let n = kind.len() as int;
    assert(rest.subrange(n, n + 8) =~= mark);
    assert(text::occurs_at(rest, mark, n));
    text::find_from_is_first(rest, mark, 0);
    let k = text::find_from(rest, mark, 0)->0;
    if k < n {
        assert(rest.subrange(k, k + 8)[0] == rest[k]);
        assert(rest[k] == kind[k]);
    }
    assert(rest.skip(n + 8) =~= data);
}

/// Taking an image out of an attachment takes out nothing else, and the rest of
/// the request stays.
pub proof fn only_images_are_taken_out(data: JsonView, attachment: JsonView, key: Seq<char>)
    ensures
        key != "image"@ ==> stripped(attachment).get(key) == attachment.get(key),
        key != "attachments"@ ==> without_images(data).get(key) == data.get(key),
        attachments_of(data) matches Some(list) ==> attachments_of(without_images(data)) == Some(
            all_stripped(list),
        ),
{
    if let JsonView::Object(o) = attachment {
        if key != "image"@ {
            json::the_rest_is_left(o, "image"@, key);
        }
    }
    if let JsonView::Object(o) = data {
        if let Some(list) = attachments_of(data) {
            let v = JsonView::Array(all_stripped(list));
            json::lookup_after_set(o, "attachments"@, v, key);
        }
    }
}

proof fn files_grow(before: Seq<JsonView>, after: Seq<JsonView>)
    ensures
        files_told(before).len() <= files_told(before + after).len(),
        files_told(before + after).take(files_told(before).len() as int) == files_told(before),
    decreases after.len(),
{
    let all = before + after;
    if after.len() == 0 {
        assert(all =~= before);
        assert(files_told(before).take(files_told(before).len() as int) =~= files_told(before));
    } else {
        files_grow(before, after.drop_last());
        assert(all.drop_last() =~= before + after.drop_last());
        let n = files_told(before).len() as int;
        assert(files_told(all).take(n) =~= files_told(all.drop_last()).take(n));
    }
}

/// The first files with text in them are told, in the order in which they are
/// attached: the name of each, and the first eight thousand characters of its
/// text.
pub proof fn the_first_files_are_told(
    before: Seq<JsonView>,
    attachment: JsonView,
    after: Seq<JsonView>,
    name: Seq<char>,
    content: Seq<char>,
)
    requires
        attachment.text_at("name"@) == Some(name),
        name.len() <= 120,
        attachment.text_at("text"@) == Some(content),
        text::trimmed(content).len() > 0,
    ensures
        ({
            let told = files_told(before.push(attachment) + after);
            let n = files_told(before).len() as int;
            let kept = text::trimmed(content);
            &&& n < 4 ==> told.len() > n && told[n] == "Attached file \""@ + name + "\":\n"@ + (
            if kept.len() > 8000 {
                kept.take(8000)
            } else {
                kept
            })
            &&& told.len() >= n && told.take(n) == files_told(before)
        }),
{
    files_grow(before, seq![attachment]);
    let b = before.push(attachment);
    assert(b =~= before + seq![attachment]);
    assert(b.drop_last() =~= before);
    files_grow(b, after);
    let told = files_told(b + after);
    let n = files_told(before).len() as int;
    assert(told.take(n) =~= files_told(b).take(n));
    if n < 4 {
        assert(told.take(n + 1)[n] == told[n]);
        assert(text::at_most(name, 120) =~= name);
    }
}

} // verus!
