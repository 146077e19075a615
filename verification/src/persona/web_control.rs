//! Authenticated first-party calls to state owned by the web process.
//!
//! A call carries a header with the time it was issued, a nonce and a signature
//! over both and over the whole body. A call is accepted once, and only close to
//! the time it was issued at.
use crate::agent::permissions;
use crate::agent::permissions::Standing;
use crate::ids;
use crate::text;
use vstd::prelude::*;

verus! {

pub const PATH: &'static str = "/internal/persona/web-capability";

pub const HEADER: &'static str = "x-myriad-persona-auth";

pub const MAX_REQUEST: usize = 262_144;

pub const MAX_RESPONSE: usize = 4_194_304;

pub const MAX_NONCES: usize = 1024;

/// How many seconds a call may be away from the time it was issued at.
pub const WINDOW: i64 = 30;

/// The only upstream of a production process.
pub const UPSTREAM: &'static str = "http://backend:1103";

pub const CONTEXT: &'static str =
    "myriad.persona.web-capability.v1\0POST\0/internal/persona/web-capability\0";

pub const MAX_HEADER: usize = 180;

pub const NONCE_LEN: usize = 32;

pub const MIN_SECRET: usize = 32;

/// The capabilities whose state the web process owns.
pub open spec fn web_owned(capability: Seq<char>) -> bool {
    ||| capability == "scheduler.create"@
    ||| capability == "scheduler.trigger"@
    ||| capability == "scheduler.list"@
    ||| capability == "phantasi.schedule"@
    ||| capability == "task.submit"@
    ||| capability == "platform.refresh"@
    ||| capability == "system.metrics"@
}

pub fn is_web_owned(capability: &str) -> (r: bool)
    ensures
        r == web_owned(capability@),
{
    text::eq(capability, "scheduler.create") || text::eq(capability, "scheduler.trigger")
        || text::eq(capability, "scheduler.list") || text::eq(capability, "phantasi.schedule")
        || text::eq(capability, "task.submit") || text::eq(capability, "platform.refresh")
        || text::eq(capability, "system.metrics")
}

// ---------------------------------------------------------------------------
// Bytes as hexadecimal text
// ---------------------------------------------------------------------------
/// The lower case hexadecimal digit of `d`.
pub open spec fn hex_digit(d: int) -> char {
    if d < 10 {
        ('0' as int + d) as char
    } else {
        ('a' as int + (d - 10)) as char
    }
}

/// What a hexadecimal digit of either case stands for.
pub open spec fn hex_value(c: char) -> int {
    if '0' <= c <= '9' {
        c as int - '0' as int
    } else if 'a' <= c <= 'f' {
        c as int - 'a' as int + 10
    } else {
        c as int - 'A' as int + 10
    }
}

/// Two digits for each byte, the high one first.
pub open spec fn hex_text(bytes: Seq<u8>) -> Seq<char> {
    Seq::new(
        2 * bytes.len(),
        |i: int|
            if i % 2 == 0 {
                hex_digit(bytes[i / 2] as int / 16)
            } else {
                hex_digit(bytes[i / 2] as int % 16)
            },
    )
}

/// The bytes that hexadecimal text stands for.
pub open spec fn hex_bytes(s: Seq<char>) -> Option<Seq<u8>> {
    if s.len() % 2 == 0 && ids::all_hex(s) {
        Some(
            Seq::new(
                s.len() / 2,
                |i: int| (16 * hex_value(s[2 * i]) + hex_value(s[2 * i + 1])) as u8,
            ),
        )
    } else {
        None
    }
}

pub open spec fn opt_bytes(b: Option<Vec<u8>>) -> Option<Seq<u8>> {
    match b {
        Some(b) => Some(b@),
        None => None,
    }
}

/// `hex::encode`: two lower case digits for each byte, the high one first.
#[verifier::external_body]
fn to_hex(bytes: &Vec<u8>) -> (r: String)
    ensures
        r@ == hex_text(bytes@),
{
    hex::encode(bytes)
}

/// `hex::decode`: the bytes that pairs of digits of either case stand for, and
/// an error on text of odd length or with anything but digits in it.
#[verifier::external_body]
fn from_hex(s: &str) -> (r: Option<Vec<u8>>)
    ensures
        opt_bytes(r) == hex_bytes(s@),
{
    hex::decode(s).ok()
}

/// What was written as hexadecimal text is read back.
pub proof fn hex_reads_back(bytes: Seq<u8>)
    ensures
        hex_bytes(hex_text(bytes)) == Some(bytes),
{
    let s = hex_text(bytes);
    assert forall|i: int| 0 <= i < s.len() implies text::ascii_hexdigit(#[trigger] s[i]) by {
        let b = bytes[i / 2] as int;
        assert(0 <= b / 16 < 16 && 0 <= b % 16 < 16);
    }
    let back = Seq::new(
        s.len() / 2,
        |i: int| (16 * hex_value(s[2 * i]) + hex_value(s[2 * i + 1])) as u8,
    );
    assert forall|i: int| 0 <= i < back.len() implies #[trigger] back[i] == bytes[i] by {
        let b = bytes[i] as int;
        assert((2 * i) / 2 == i && (2 * i + 1) / 2 == i);
        assert(s[2 * i] == hex_digit(b / 16));
        assert(s[2 * i + 1] == hex_digit(b % 16));
        assert(0 <= b / 16 < 16 && 0 <= b % 16 < 16);
        assert(hex_value(hex_digit(b / 16)) == b / 16);
        assert(hex_value(hex_digit(b % 16)) == b % 16);
        assert(16 * (b / 16) + b % 16 == b);
    }
    assert(back =~= bytes);
}

// ---------------------------------------------------------------------------
// Signing
// ---------------------------------------------------------------------------
/// The HMAC with SHA-256 of a message under a key.
pub uninterp spec fn hmac_sha256(key: Seq<u8>, message: Seq<u8>) -> Seq<u8>;

/// `Hmac::<Sha256>` of the `hmac` and `sha2` crates, keyed by `new_from_slice`,
/// which takes a key of any length, fed with one `update` and closed by
/// `finalize`. The result is named `hmac_sha256`, and is 32 bytes long.
#[verifier::external_body]
fn hmac_of(key: &[u8], message: &Vec<u8>) -> (r: Option<Vec<u8>>)
    ensures
        r is Some,
        r->0@ == hmac_sha256(key@, message@),
        r->0@.len() == 32,
{
    let mut mac = <hmac::Hmac<sha2::Sha256> as hmac::KeyInit>::new_from_slice(key).ok()?;
    hmac::Mac::update(&mut mac, message.as_slice());
    Some(hmac::Mac::finalize(mac).into_bytes().to_vec())
}

/// `ct_eq` of the `subtle` crate on two byte slices: whether they are equal, in
/// a time that does not depend on what they hold.
#[verifier::external_body]
fn same_bytes(a: &Vec<u8>, b: &Vec<u8>) -> (r: bool)
    ensures
        r == (a@ == b@),
{
    bool::from(subtle::ConstantTimeEq::ct_eq(a.as_slice(), b.as_slice()))
}

/// What a signature is taken over: where the call goes, when it was issued, its
/// nonce and its whole body.
pub open spec fn signed_message(time: Seq<char>, nonce: Seq<char>, body: Seq<u8>) -> Seq<u8> {
    vstd::utf8::encode_utf8(CONTEXT@) + vstd::utf8::encode_utf8(time) + seq![0u8]
        + vstd::utf8::encode_utf8(nonce) + seq![0u8] + body
}

/// The signature of a call. A short secret signs nothing.
pub open spec fn signature_of(
    secret: Seq<char>,
    time: Seq<char>,
    nonce: Seq<char>,
    body: Seq<u8>,
) -> Option<Seq<u8>> {
    if vstd::utf8::encode_utf8(secret).len() < MIN_SECRET {
        None
    } else {
        Some(
            hmac_sha256(vstd::utf8::encode_utf8(secret), signed_message(time, nonce, body)),
        )
    }
}

fn append(out: &mut Vec<u8>, bytes: &[u8])
    ensures
        final(out)@ == old(out)@ + bytes@,
{
    let ghost before = out@;
    let mut i: usize = 0;
    assert(before + bytes@.take(0) =~= before);
    while i < bytes.len()
        invariant
            i <= bytes@.len(),
            out@ == before + bytes@.take(i as int),
        decreases bytes@.len() - i,
    {
        out.push(bytes[i]);
        i = i + 1;
        assert(out@ =~= before + bytes@.take(i as int));
    }
    assert(bytes@.take(i as int) =~= bytes@);
}

fn message_of(time: &str, nonce: &str, body: &[u8]) -> (r: Vec<u8>)
    ensures
        r@ == signed_message(time@, nonce@, body@),
{
    let mut out: Vec<u8> = Vec::new();
    append(&mut out, CONTEXT.as_bytes());
    append(&mut out, time.as_bytes());
    out.push(0u8);
    append(&mut out, nonce.as_bytes());
    out.push(0u8);
    append(&mut out, body);
    assert(out@ =~= signed_message(time@, nonce@, body@));
    out
}

pub fn signature(secret: &str, time: &str, nonce: &str, body: &[u8]) -> (r: Option<Vec<u8>>)
    ensures
        opt_bytes(r) == signature_of(secret@, time@, nonce@, body@),
        r matches Some(mac) ==> mac@.len() == 32,
{
    if text::byte_len(secret) < MIN_SECRET {
        return None;
    }
    hmac_of(secret.as_bytes(), &message_of(time, nonce, body))
}

/// A signature is over the whole body: the bodies of two calls that differ are
/// signed as two messages.
pub proof fn every_body_is_another_message(
    time: Seq<char>,
    nonce: Seq<char>,
    body: Seq<u8>,
    other: Seq<u8>,
)
    requires
        body != other,
    ensures
        signed_message(time, nonce, body) != signed_message(time, nonce, other),
{
    let head = signed_message(time, nonce, Seq::empty());
    assert(signed_message(time, nonce, body) =~= head + body);
    assert(signed_message(time, nonce, other) =~= head + other);
    if head + body == head + other {
        assert((head + body).skip(head.len() as int) =~= body);
        assert((head + other).skip(head.len() as int) =~= other);
    }
}

// ---------------------------------------------------------------------------
// Checking
// ---------------------------------------------------------------------------
/// What a header claims: when the call was issued, its nonce and, where the last
/// field is hexadecimal text, its signature.
pub struct Claim {
    pub time: String,
    pub nonce: String,
    pub supplied: Option<Vec<u8>>,
}

/// The three fields behind the version, of a header that has them and whose
/// nonce is one.
pub open spec fn fields_of(header: Seq<char>) -> Option<(Seq<char>, Seq<char>, Seq<char>)> {
    let fields = text::split_on(header, ':');
    if fields.len() == 4 && fields[0] == "v1"@ && fields[2].len() == NONCE_LEN && ids::all_hex(
        fields[2],
    ) {
        Some((fields[1], fields[2], fields[3]))
    } else {
        None
    }
}

/// Whether a call was issued close to `now`.
pub open spec fn is_fresh(time: Seq<char>, now: i64) -> bool {
    match text::number_in(time, i64::MIN as int, i64::MAX as int) {
        Some(issued) => -WINDOW <= issued - now <= WINDOW,
        None => false,
    }
}

/// What a header claims of a call that may be checked further.
pub open spec fn claimed(header: Seq<char>, body_len: nat, now: i64) -> Option<
    (Seq<char>, Seq<char>, Option<Seq<u8>>),
> {
    if body_len > MAX_REQUEST || vstd::utf8::encode_utf8(header).len() > MAX_HEADER {
        None
    } else {
        match fields_of(header) {
            Some((time, nonce, signed)) => if is_fresh(time, now) {
                Some((time, nonce, hex_bytes(signed)))
            } else {
                None
            },
            None => None,
        }
    }
}

fn is_all_hex(s: &str) -> (r: bool)
    ensures
        r == ids::all_hex(s@),
{
    let v = text::chars_of(s);
    let mut i: usize = 0;
    while i < v.len()
        invariant
            i <= v@.len(),
            v@ == s@,
            forall|k: int| 0 <= k < i ==> text::ascii_hexdigit(#[trigger] v@[k]),
        decreases v@.len() - i,
    {
        if !text::is_ascii_hexdigit(v[i]) {
            assert(!text::ascii_hexdigit(s@[i as int]));
            return false;
        }
        i = i + 1;
    }
    true
}

/// What a header claims, where the call may be checked further.
pub fn read_claim(header: &str, body_len: usize, now: i64) -> (r: Option<Claim>)
    ensures
        match r {
            Some(c) => claimed(header@, body_len as nat, now) == Some(
                (c.time@, c.nonce@, opt_bytes(c.supplied)),
            ),
            None => claimed(header@, body_len as nat, now) is None,
        },
{
    if body_len > MAX_REQUEST || text::byte_len(header) > MAX_HEADER {
        return None;
    }
    let fields = text::split(header, ':');
    let ghost parts = text::split_on(header@, ':');
    assert(fields@.len() == parts.len());
    if fields.len() != 4 {
        return None;
    }
    assert(fields@[0]@ == parts[0] && fields@[1]@ == parts[1] && fields@[2]@ == parts[2]
        && fields@[3]@ == parts[3]);
    if !text::eq(&fields[0], "v1") || text::char_count(&fields[2]) != NONCE_LEN || !is_all_hex(
        &fields[2],
    ) {
        return None;
    }
    match text::parse_i64(&fields[1]) {
        Some(issued) => {
            let apart: i128 = issued as i128 - now as i128;
            if apart > WINDOW as i128 || apart < -(WINDOW as i128) {
                return None;
            }
            let supplied = from_hex(&fields[3]);
            Some(Claim { time: fields[1].clone(), nonce: fields[2].clone(), supplied })
        },
        None => None,
    }
}

/// The nonce of a claim whose signature is the expected one.
pub open spec fn granted(
    nonce: Seq<char>,
    supplied: Option<Seq<u8>>,
    expected: Option<Seq<u8>>,
) -> Option<Seq<char>> {
    if expected is Some && supplied == expected {
        Some(nonce)
    } else {
        None
    }
}

/// The nonce of a claim whose signature is the expected one.
pub fn check_claim(claim: Claim, expected: &Option<Vec<u8>>) -> (r: Option<String>)
    ensures
        text::opt_view(r) == granted(claim.nonce@, opt_bytes(claim.supplied), opt_bytes(*expected)),
{
    match (expected, &claim.supplied) {
        (Some(expected), Some(supplied)) => {
            if same_bytes(expected, supplied) {
                Some(claim.nonce)
            } else {
                None
            }
        },
        _ => None,
    }
}

/// The nonce of an authentic call: well formed, fresh, and signed with the
/// secret over its own time, nonce and body.
pub open spec fn verified(secret: Seq<char>, header: Seq<char>, body: Seq<u8>, now: i64) -> Option<
    Seq<char>,
> {
    match claimed(header, body.len(), now) {
        Some((time, nonce, supplied)) => granted(
            nonce,
            supplied,
            signature_of(secret, time, nonce, body),
        ),
        None => None,
    }
}

pub fn verify(secret: &str, header: &str, body: &[u8], now: i64) -> (r: Option<String>)
    ensures
        text::opt_view(r) == verified(secret@, header@, body@, now),
{
    match read_claim(header, body.len(), now) {
        Some(claim) => {
            let expected = signature(secret, &claim.time, &claim.nonce, body);
            check_claim(claim, &expected)
        },
        None => None,
    }
}

/// An accepted call is no larger than a call may be, is fresh, and carries the
/// signature of its own time, nonce and body under a secret that is long enough.
pub proof fn accepted_calls_are_signed(
    secret: Seq<char>,
    header: Seq<char>,
    body: Seq<u8>,
    now: i64,
)
    requires
        verified(secret, header, body, now) is Some,
    ensures
        body.len() <= MAX_REQUEST,
        vstd::utf8::encode_utf8(secret).len() >= MIN_SECRET,
        fields_of(header) matches Some((time, nonce, signed)) && is_fresh(time, now) && verified(
            secret,
            header,
            body,
            now,
        ) == Some(nonce) && hex_bytes(signed) == Some(
            hmac_sha256(vstd::utf8::encode_utf8(secret), signed_message(time, nonce, body)),
        ),
{
}

/// The header of a call.
pub open spec fn header_of(time: Seq<char>, nonce: Seq<char>, mac: Seq<u8>) -> Seq<char> {
    (("v1"@.push(':') + time).push(':') + nonce).push(':') + hex_text(mac)
}

pub fn auth_header(time: &str, nonce: &str, mac: &Vec<u8>) -> (r: String)
    ensures
        r@ == header_of(time@, nonce@, mac@),
{
    let mut out = "v1".to_owned();
    out.push(':');
    out.append(time);
    out.push(':');
    out.append(nonce);
    out.push(':');
    out.append(to_hex(mac).as_str());
    out
}

proof fn one_byte(c: char)
    requires
        c <= '\u{7f}',
    ensures
        vstd::utf8::encode_scalar(c as u32).len() == 1,
{
}

proof fn ascii_takes_one_byte_each(s: Seq<char>)
    requires
        forall|i: int| 0 <= i < s.len() ==> #[trigger] s[i] <= '\u{7f}',
    ensures
        vstd::utf8::encode_utf8(s).len() == s.len(),
    decreases s.len(),
{
    if s.len() > 0 {
        let rest = s.drop_first();
        assert forall|i: int| 0 <= i < rest.len() implies #[trigger] rest[i] <= '\u{7f}' by {
            assert(rest[i] == s[i + 1]);
        }
        ascii_takes_one_byte_each(rest);
        assert(s[0] <= '\u{7f}');
        one_byte(s[0]);
        assert(vstd::utf8::encode_utf8(s) == vstd::utf8::encode_scalar(s[0] as u32)
            + vstd::utf8::encode_utf8(rest));
    }
}

proof fn digits_are_few(n: nat, places: nat)
    requires
        n < vstd::arithmetic::power::pow(10, places) && places > 0,
    ensures
        text::decimal_nat(n).len() <= places,
        forall|i: int|
            0 <= i < text::decimal_nat(n).len() ==> text::ascii_digit(
                #[trigger] text::decimal_nat(n)[i],
            ),
    decreases places,
{
    if n >= 10 {
        reveal(vstd::arithmetic::power::pow);
        assert(vstd::arithmetic::power::pow(10, places) == 10 * vstd::arithmetic::power::pow(
            10,
            (places - 1) as nat,
        ));
        if places == 1 {
            assert(vstd::arithmetic::power::pow(10, 0) == 1);
        }
        digits_are_few(n / 10, (places - 1) as nat);
    }
}

proof fn times_are_short(time: i64)
    ensures
        text::decimal(time as int).len() <= 20,
        forall|i: int|
            0 <= i < text::decimal(time as int).len() ==> {
                let c = #[trigger] text::decimal(time as int)[i];
                c <= '\u{7f}' && c != ':'
            },
{
    let n: nat = if time < 0 {
        (-time) as nat
    } else {
        time as nat
    };
    assert(vstd::arithmetic::power::pow(10, 19) == 10_000_000_000_000_000_000) by {
        reveal_with_fuel(vstd::arithmetic::power::pow, 20);
    }
    digits_are_few(n, 19);
    assert forall|i: int| 0 <= i < text::decimal(time as int).len() implies {
        let c = #[trigger] text::decimal(time as int)[i];
        c <= '\u{7f}' && c != ':'
    } by {
        if time < 0 {
            if i > 0 {
                assert(text::decimal(time as int)[i] == text::decimal_nat(n)[i - 1]);
            }
        } else {
            assert(text::decimal(time as int)[i] == text::decimal_nat(n)[i]);
        }
    }
}

spec fn plain(s: Seq<char>) -> bool {
    forall|i: int| 0 <= i < s.len() ==> #[trigger] s[i] <= '\u{7f}'
}

proof fn plain_pieces(s: Seq<char>, t: Seq<char>)
    requires
        plain(s),
        plain(t),
    ensures
        plain(s.push(':') + t),
{
    let all = s.push(':') + t;
    assert forall|i: int| 0 <= i < all.len() implies #[trigger] all[i] <= '\u{7f}' by {
        if i < s.len() {
            assert(all[i] == s[i]);
        } else if i > s.len() {
            assert(all[i] == t[i - s.len() - 1]);
        }
    }
}

proof fn version_is_one_piece()
    ensures
        text::split_on("v1"@, ':') == seq!["v1"@],
        plain("v1"@),
        "v1"@.len() == 2,
{
    let version = "v1"@;
    reveal_strlit("v1");
    reveal_with_fuel(text::split_state, 3);
    assert(version.drop_last().drop_last() =~= Seq::empty());
    assert(Seq::<char>::empty().push('v').push('1') =~= version);
    assert(text::split_on(version, ':') =~= seq![version]);
}

/// A header that was written is read back.
proof fn headers_read_back(time: i64, nonce: Seq<char>, mac: Seq<u8>)
    requires
        nonce.len() == NONCE_LEN,
        ids::all_hex(nonce),
        mac.len() == 32,
    ensures
        fields_of(header_of(text::decimal(time as int), nonce, mac)) == Some(
            (text::decimal(time as int), nonce, hex_text(mac)),
        ),
        vstd::utf8::encode_utf8(header_of(text::decimal(time as int), nonce, mac)).len()
            <= MAX_HEADER,
{
    let t = text::decimal(time as int);
    let h = hex_text(mac);
    let version = "v1"@;
    let one = version.push(':') + t;
    let two = one.push(':') + nonce;
    let all = two.push(':') + h;
    version_is_one_piece();
    times_are_short(time);
    assert(ids::all_hex(h)) by {
        hex_reads_back(mac);
    }
    assert(plain(t));
    assert(plain(nonce)) by {
        assert forall|i: int| 0 <= i < nonce.len() implies #[trigger] nonce[i] <= '\u{7f}' by {
            assert(text::ascii_hexdigit(nonce[i]));
        }
    }
    assert(plain(h)) by {
        assert forall|i: int| 0 <= i < h.len() implies #[trigger] h[i] <= '\u{7f}' by {
            assert(text::ascii_hexdigit(h[i]));
        }
    }
    plain_pieces(version, t);
    plain_pieces(one, nonce);
    plain_pieces(two, h);
    ascii_takes_one_byte_each(all);
    assert(!text::has_char(t, ':'));
    assert(!text::has_char(nonce, ':')) by {
        assert forall|i: int| 0 <= i < nonce.len() implies #[trigger] nonce[i] != ':' by {
            assert(text::ascii_hexdigit(nonce[i]));
        }
    }
    assert(!text::has_char(h, ':')) by {
        assert forall|i: int| 0 <= i < h.len() implies #[trigger] h[i] != ':' by {
            assert(text::ascii_hexdigit(h[i]));
        }
    }
    text::split_appends_piece(version, t, ':');
    text::split_appends_piece(one, nonce, ':');
    text::split_appends_piece(two, h, ':');
}

/// The header of a call that is issued at `time`, where the secret can sign.
///
/// Whoever holds the same secret accepts the call, for as long as it is fresh.
pub fn sign_call(secret: &str, time: i64, nonce: &str, body: &[u8]) -> (r: Option<String>)
    ensures
        text::opt_view(r) == match signature_of(
            secret@,
            text::decimal(time as int),
            nonce@,
            body@,
        ) {
            Some(mac) => Some(header_of(text::decimal(time as int), nonce@, mac)),
            None => None,
        },
        r is Some && body@.len() <= MAX_REQUEST && nonce@.len() == NONCE_LEN && ids::all_hex(
            nonce@,
        ) ==> forall|now: i64|
            -WINDOW <= time - now <= WINDOW ==> #[trigger] verified(
                secret@,
                r->0@,
                body@,
                now,
            ) == Some(nonce@),
{
    let issued = text::i64_text(time);
    match signature(secret, &issued, nonce, body) {
        Some(mac) => {
            let header = auth_header(&issued, nonce, &mac);
            proof {
                if nonce@.len() == NONCE_LEN && ids::all_hex(nonce@) {
                    headers_read_back(time, nonce@, mac@);
                    hex_reads_back(mac@);
                    text::decimal_reads_back(time as int);
                }
            }
            Some(header)
        },
        None => None,
    }
}

// ---------------------------------------------------------------------------
// Nonces
// ---------------------------------------------------------------------------
/// Whether a nonce that was accepted at `at` is still held. It is held through
/// the whole window, skew into the future included.
pub open spec fn is_held(now: i64, at: i64) -> bool {
    now - at <= 2 * WINDOW
}

/// The nonces that are still held.
pub open spec fn still_held(cache: Seq<(String, i64)>, now: i64) -> Seq<(String, i64)> {
    cache.filter(|e: (String, i64)| is_held(now, e.1))
}

pub open spec fn holds_nonce(cache: Seq<(String, i64)>, nonce: Seq<char>) -> bool {
    exists|i: int| 0 <= i < cache.len() && (#[trigger] cache[i]).0@ == nonce
}

/// Whether a nonce is new and there is room for it. No nonce that is still held
/// makes room for another.
pub open spec fn takes_nonce(cache: Seq<(String, i64)>, nonce: Seq<char>, now: i64) -> bool {
    !holds_nonce(still_held(cache, now), nonce) && still_held(cache, now).len() < MAX_NONCES
}

/// The nonces once one has been offered.
pub open spec fn after_offer(cache: Seq<(String, i64)>, nonce: String, now: i64) -> Seq<
    (String, i64),
> {
    if takes_nonce(cache, nonce@, now) {
        still_held(cache, now).push((nonce, now))
    } else {
        still_held(cache, now)
    }
}

fn drop_old(cache: &mut Vec<(String, i64)>, now: i64)
    ensures
        final(cache)@ == still_held(old(cache)@, now),
{
    let ghost all = cache@;
    let ghost mut seen: int = 0;
    let mut i: usize = 0;
    proof {
        reveal(Seq::filter);
        assert(all.take(0) =~= Seq::empty());
        assert(still_held(all.take(0), now) + all.skip(0) =~= all);
    }
    while i < cache.len()
        invariant
            0 <= seen <= all.len(),
            i == still_held(all.take(seen), now).len(),
            cache@ == still_held(all.take(seen), now) + all.skip(seen),
        decreases all.len() - seen,
    {
        proof {
            reveal(Seq::filter);
            assert(all.take(seen + 1).drop_last() =~= all.take(seen));
            assert(cache@[i as int] == all[seen]);
        }
        if now as i128 - cache[i].1 as i128 <= 2 * WINDOW as i128 {
            i = i + 1;
        } else {
            let _ = cache.remove(i);
        }
        proof {
            seen = seen + 1;
            assert(cache@ =~= still_held(all.take(seen), now) + all.skip(seen));
        }
    }
    assert(all.take(seen) =~= all);
    assert(cache@ =~= still_held(all, now));
}

fn find_nonce(cache: &Vec<(String, i64)>, nonce: &str) -> (r: bool)
    ensures
        r == holds_nonce(cache@, nonce@),
{
    let mut i: usize = 0;
    while i < cache.len()
        invariant
            i <= cache@.len(),
            forall|k: int| 0 <= k < i ==> (#[trigger] cache@[k]).0@ != nonce@,
        decreases cache@.len() - i,
    {
        if text::eq(&cache[i].0, nonce) {
            assert(cache@[i as int].0@ == nonce@);
            return true;
        }
        i = i + 1;
    }
    false
}

/// Takes a nonce, where it is new and there is room for it.
pub fn consume_nonce(cache: &mut Vec<(String, i64)>, nonce: String, now: i64) -> (r: bool)
    ensures
        r == takes_nonce(old(cache)@, nonce@, now),
        final(cache)@ == after_offer(old(cache)@, nonce, now),
{
    drop_old(cache, now);
    if find_nonce(cache, &nonce) || cache.len() >= MAX_NONCES {
        return false;
    }
    cache.push((nonce, now));
    true
}

/// Whether a nonce was taken at `at` and is in the cache.
pub open spec fn remembers(cache: Seq<(String, i64)>, nonce: Seq<char>, at: i64) -> bool {
    exists|i: int| 0 <= i < cache.len() && (#[trigger] cache[i]).0@ == nonce && cache[i].1 == at
}

proof fn held_entries_stay(cache: Seq<(String, i64)>, i: int, now: i64)
    requires
        0 <= i < cache.len(),
        is_held(now, cache[i].1),
    ensures
        exists|k: int|
            0 <= k < still_held(cache, now).len() && #[trigger] still_held(cache, now)[k]
                == cache[i],
    decreases cache.len(),
{
    reveal(Seq::filter);
    let rest = cache.drop_last();
    if i == cache.len() - 1 {
        let n = still_held(cache, now).len() - 1;
        assert(still_held(cache, now)[n] == cache[i]);
    } else {
        held_entries_stay(rest, i, now);
        let k = choose|k: int|
            0 <= k < still_held(rest, now).len() && #[trigger] still_held(rest, now)[k] == rest[i];
        assert(still_held(cache, now)[k] == cache[i]);
    }
}

/// A nonce that was taken is remembered. For as long as a call that carries it
/// can be fresh, it stays remembered whatever is offered, and is not taken again.
pub proof fn a_nonce_is_taken_once(
    cache: Seq<(String, i64)>,
    nonce: String,
    at: i64,
    offered: String,
    now: i64,
)
    ensures
        takes_nonce(cache, nonce@, now) ==> remembers(after_offer(cache, nonce, now), nonce@, now),
        remembers(cache, nonce@, at) && is_held(now, at) ==> !takes_nonce(cache, nonce@, now)
            && remembers(after_offer(cache, offered, now), nonce@, at),
{
    if takes_nonce(cache, nonce@, now) {
        let after = after_offer(cache, nonce, now);
        assert(after[after.len() - 1].0@ == nonce@);
    }
    if remembers(cache, nonce@, at) && is_held(now, at) {
        let i = choose|i: int|
            0 <= i < cache.len() && (#[trigger] cache[i]).0@ == nonce@ && cache[i].1 == at;
        held_entries_stay(cache, i, now);
        let kept = still_held(cache, now);
        let k = choose|k: int| 0 <= k < kept.len() && #[trigger] kept[k] == cache[i];
        assert(kept[k].0@ == nonce@);
        assert(after_offer(cache, offered, now)[k] == kept[k]);
    }
}

/// Whenever one call is accepted at two times, its nonce from the first is still
/// held at the second.
pub proof fn replays_are_held(
    secret: Seq<char>,
    header: Seq<char>,
    body: Seq<u8>,
    first: i64,
    second: i64,
)
    requires
        verified(secret, header, body, first) is Some,
        verified(secret, header, body, second) is Some,
    ensures
        is_held(second, first),
        verified(secret, header, body, first) == verified(secret, header, body, second),
{
}

// ---------------------------------------------------------------------------
// Receiving a call
// ---------------------------------------------------------------------------
/// The status that refuses a call before its body is read, if one does.
pub open spec fn admission_status(
    secret: Option<Seq<char>>,
    header: Option<Seq<char>>,
    body: Seq<u8>,
    now: i64,
    cache: Seq<(String, i64)>,
) -> Option<u16> {
    match (secret, header) {
        (None, _) => Some(503u16),
        (Some(_), None) => Some(401u16),
        (Some(secret), Some(header)) => match verified(secret, header, body, now) {
            None => Some(401u16),
            Some(nonce) => if takes_nonce(cache, nonce, now) {
                None
            } else {
                Some(409u16)
            },
        },
    }
}

pub open spec fn opt_str(s: Option<&str>) -> Option<Seq<char>> {
    match s {
        Some(s) => Some(s@),
        None => None,
    }
}

/// Lets a call in once, where it is authentic. A call that is not authentic
/// leaves the nonces as they are.
pub fn admit_call(
    secret: Option<&str>,
    header: Option<&str>,
    body: &[u8],
    now: i64,
    cache: &mut Vec<(String, i64)>,
) -> (r: Result<(), u16>)
    ensures
        match r {
            Ok(_) => admission_status(opt_str(secret), opt_str(header), body@, now, old(cache)@)
                is None,
            Err(status) => admission_status(
                opt_str(secret),
                opt_str(header),
                body@,
                now,
                old(cache)@,
            ) == Some(status),
        },
        r matches Err(status) && status != 409 ==> final(cache)@ == old(cache)@,
        r == Err::<(), u16>(409) ==> final(cache)@ == still_held(old(cache)@, now),
        r is Ok ==> exists|nonce: String|
            Some(nonce@) == verified(secret->0@, header->0@, body@, now) && final(cache)@
                == #[trigger] after_offer(old(cache)@, nonce, now),
{
    match (secret, header) {
        (None, _) => Err(503),
        (Some(_), None) => Err(401),
        (Some(secret), Some(header)) => match verify(secret, header, body, now) {
            None => Err(401),
            Some(nonce) => if consume_nonce(cache, nonce, now) {
                Ok(())
            } else {
                Err(409)
            },
        },
    }
}

/// Only capabilities that the web process owns may be called, and only for an
/// account or for the system itself.
pub fn check_target(capability: &str, user_id: i32) -> (r: Result<(), u16>)
    ensures
        r == if web_owned(capability@) && user_id >= 0 {
            Ok::<(), u16>(())
        } else {
            Err::<(), u16>(403)
        },
{
    if !is_web_owned(capability) || user_id < 0 {
        Err(403)
    } else {
        Ok(())
    }
}

/// The status of an answer, by how many bytes it takes, or by that it could not
/// be written.
pub fn answer_status(encoded: Option<usize>) -> (r: u16)
    ensures
        r == match encoded {
            None => 500u16,
            Some(n) => if n > MAX_RESPONSE {
                502u16
            } else {
                200u16
            },
        },
{
    match encoded {
        None => 500,
        Some(n) => if n > MAX_RESPONSE {
            502
        } else {
            200
        },
    }
}

/// What looking an account up gave.
#[derive(Clone, Copy, Debug, PartialEq, Eq, Structural)]
pub enum AccountLookup {
    Failed,
    Missing,
    Found,
}

/// Why a call is not carried out for an account. The system has none.
pub open spec fn account_refusal(user_id: i32, lookup: AccountLookup) -> Option<Seq<char>> {
    if user_id <= 0 {
        None
    } else {
        match lookup {
            AccountLookup::Failed => Some("Could not verify current account"@),
            AccountLookup::Missing => Some("Account no longer exists"@),
            AccountLookup::Found => None,
        }
    }
}

pub fn check_account(user_id: i32, lookup: AccountLookup) -> (r: Result<(), String>)
    ensures
        match r {
            Ok(_) => account_refusal(user_id, lookup) is None,
            Err(e) => account_refusal(user_id, lookup) == Some(e@),
        },
{
    if user_id <= 0 {
        return Ok(());
    }
    match lookup {
        AccountLookup::Failed => Err("Could not verify current account".to_owned()),
        AccountLookup::Missing => Err("Account no longer exists".to_owned()),
        AccountLookup::Found => Ok(()),
    }
}

/// Whether a call may be carried out now, and with which permissions. A signed call
/// comes from a trusted process, but it is no lasting grant: what its user may do is
/// worked out again. `needed` are the permissions that capabilities need, `required`
/// those of this one; it is `None` for a capability that there is not.
pub fn authorize_call(
    capability: &str,
    user_id: i32,
    standing: &Standing,
    needed: &Vec<String>,
    required: &Option<Vec<String>>,
    cap: &Option<Vec<String>>,
    grant: Option<bool>,
) -> (r: Result<Vec<String>, String>)
    ensures
        match (permissions::usage_refusal(user_id, *standing), *required) {
            (Some(refusal), _) => r matches Err(m) && m@ == refusal,
            (None, None) => r matches Err(m) && m@ == "Unknown web capability"@,
            (None, Some(required)) => {
                let current = permissions::permissions_of(*standing, text::views(needed@));
                let cap = permissions::opt_views(*cap);
                if permissions::authorized(current, cap, grant, text::views(required@)) {
                    r matches Ok(v) && text::views(v@) == permissions::capped(current, cap)
                } else {
                    r matches Err(m) && m@ == "Current permission denied"@
                }
            },
        },
{
    if let Err(refusal) = permissions::ensure_agent_usage_allowed(user_id, standing) {
        return Err(refusal.message());
    }
    let required = match required {
        Some(required) => required,
        None => return Err("Unknown web capability".to_owned()),
    };
    let current = permissions::get_user_permissions(standing, needed);
    match permissions::authorize_capability(&current, cap, grant, capability, required) {
        Ok(granted) => Ok(granted),
        Err(_) => Err("Current permission denied".to_owned()),
    }
}

// ---------------------------------------------------------------------------
// Making a call
// ---------------------------------------------------------------------------
/// Why a call is not made, by the capability and the bytes of its body, if those
/// could be written.
pub open spec fn call_refusal(capability: Seq<char>, encoded: Option<usize>) -> Option<Seq<char>> {
    if !web_owned(capability) {
        Some("Capability is not owned by web"@)
    } else {
        match encoded {
            None => Some("Could not encode web capability"@),
            Some(n) => if n > MAX_REQUEST {
                Some("Web capability request is too large"@)
            } else {
                None
            },
        }
    }
}

pub fn check_call(capability: &str, encoded: Option<usize>) -> (r: Result<(), String>)
    ensures
        match r {
            Ok(_) => call_refusal(capability@, encoded) is None,
            Err(e) => call_refusal(capability@, encoded) == Some(e@),
        },
{
    if !is_web_owned(capability) {
        return Err("Capability is not owned by web".to_owned());
    }
    match encoded {
        None => Err("Could not encode web capability".to_owned()),
        Some(n) => if n > MAX_REQUEST {
            Err("Web capability request is too large".to_owned())
        } else {
            Ok(())
        },
    }
}

/// The header of a new call with a nonce of its own.
pub fn authenticate(secret: Option<&str>, time: i64, body: &[u8]) -> (r: Result<String, String>)
    ensures
        match r {
            Ok(header) => secret is Some && vstd::utf8::encode_utf8(secret->0@).len() >= MIN_SECRET
                && exists|nonce: Seq<char>|
                nonce.len() == NONCE_LEN && ids::all_hex(nonce) && header@ == header_of(
                    text::decimal(time as int),
                    nonce,
                    hmac_sha256(
                        vstd::utf8::encode_utf8(secret->0@),
                        #[trigger] signed_message(text::decimal(time as int), nonce, body@),
                    ),
                ),
            Err(e) => e@ == "Web capability authentication unavailable"@ && (secret is None
                || vstd::utf8::encode_utf8(secret->0@).len() < MIN_SECRET),
        },
        r is Ok && body@.len() <= MAX_REQUEST ==> forall|now: i64|
            -WINDOW <= time - now <= WINDOW ==> #[trigger] verified(
                secret->0@,
                r->Ok_0@,
                body@,
                now,
            ) is Some,
{
    match secret {
        Some(secret) => {
            let nonce = ids::random_simple();
            match sign_call(secret, time, &nonce, body) {
                Some(header) => Ok(header),
                None => Err("Web capability authentication unavailable".to_owned()),
            }
        },
        None => Err("Web capability authentication unavailable".to_owned()),
    }
}

/// Where calls go: to the configured upstream, which in production can only be
/// the one upstream there is.
pub open spec fn upstream_of(configured: Option<Seq<char>>, production: bool) -> Option<Seq<char>> {
    match configured {
        Some(base) => if production && base != UPSTREAM@ {
            None
        } else {
            Some(base)
        },
        None => Some(UPSTREAM@),
    }
}

pub fn check_upstream(configured: Option<String>, production: bool) -> (r: Result<String, String>)
    ensures
        match r {
            Ok(base) => upstream_of(text::opt_view(configured), production) == Some(base@),
            Err(e) => upstream_of(text::opt_view(configured), production) is None && e@
                == "Production persona web upstream must be http://backend:1103"@,
        },
{
    match configured {
        Some(base) => if production && !text::eq(&base, UPSTREAM) {
            Err("Production persona web upstream must be http://backend:1103".to_owned())
        } else {
            Ok(base)
        },
        None => Ok(UPSTREAM.to_owned()),
    }
}

/// Why a status carries no result. After a server error or a conflict nobody
/// knows whether the call was carried out.
pub open spec fn reply_refusal(status: u16) -> Option<Seq<char>> {
    if 500 <= status < 600 || status == 409 {
        Some("Execution outcome is unknown: web capability did not return a result"@)
    } else if 200 <= status < 300 {
        None
    } else {
        Some("Web capability returned HTTP "@ + text::decimal(status as int))
    }
}

pub fn check_reply(status: u16) -> (r: Result<(), String>)
    ensures
        match r {
            Ok(_) => reply_refusal(status) is None,
            Err(e) => reply_refusal(status) == Some(e@),
        },
{
    if (500 <= status && status < 600) || status == 409 {
        return Err(
            "Execution outcome is unknown: web capability did not return a result".to_owned(),
        );
    }
    if 200 <= status && status < 300 {
        return Ok(());
    }
    let mut out = "Web capability returned HTTP ".to_owned();
    out.append(text::u64_text(status as u64).as_str());
    Err(out)
}

/// Whether a piece of an answer still fits behind what has arrived.
pub fn check_room(arrived: usize, piece: usize) -> (r: Result<(), String>)
    ensures
        match r {
            Ok(_) => arrived + piece <= MAX_RESPONSE,
            Err(e) => arrived + piece > MAX_RESPONSE && e@
                == "Execution outcome is unknown: web capability response is too large"@,
        },
{
    if arrived.saturating_add(piece) > MAX_RESPONSE {
        Err("Execution outcome is unknown: web capability response is too large".to_owned())
    } else {
        Ok(())
    }
}

// ---------------------------------------------------------------------------
// Laws
// ---------------------------------------------------------------------------
/// A time is fresh exactly where it lies within thirty seconds of now, on either
/// side.
pub proof fn times_are_fresh_for_half_a_minute(time: i64, now: i64)
    ensures
        is_fresh(text::decimal(time as int), now) <==> -30 <= time - now <= 30,
{
    text::decimal_reads_back(time as int);
}

/// A nonce that was not offered before is taken while there is room for it.
pub proof fn a_new_nonce_is_taken(cache: Seq<(String, i64)>, nonce: Seq<char>, now: i64)
    requires
        cache.len() < 1024,
        forall|i: int| 0 <= i < cache.len() ==> (#[trigger] cache[i]).0@ != nonce,
    ensures
        takes_nonce(cache, nonce, now),
{
    kept_entries_were_there(cache, now);
}

proof fn kept_entries_were_there(cache: Seq<(String, i64)>, now: i64)
    ensures
        still_held(cache, now).len() <= cache.len(),
        forall|i: int|
            0 <= i < still_held(cache, now).len() ==> cache.contains(
                #[trigger] still_held(cache, now)[i],
            ),
    decreases cache.len(),
{
    reveal(Seq::filter);
    if cache.len() > 0 {
        kept_entries_were_there(cache.drop_last(), now);
        let before = still_held(cache.drop_last(), now);
        let all = still_held(cache, now);
        assert forall|i: int| 0 <= i < all.len() implies cache.contains(#[trigger] all[i]) by {
            if i < before.len() {
                assert(all[i] == before[i]);
                let k = choose|k: int|
                    0 <= k < cache.drop_last().len() && cache.drop_last()[k] == before[i];
                assert(cache[k] == before[i]);
            } else {
                assert(all[i] == cache[cache.len() - 1]);
            }
        }
    }
}

/// A call that was let in is not let in again: however often the same call comes,
/// whatever came between, it is refused as one that came before.
pub proof fn a_call_is_let_in_once(
    secret: Seq<char>,
    header: Seq<char>,
    body: Seq<u8>,
    first: i64,
    second: i64,
    nonce: String,
    cache: Seq<(String, i64)>,
    offered: String,
    now: i64,
)
    requires
        verified(secret, header, body, first) == Some(nonce@),
        takes_nonce(cache, nonce@, first),
        verified(secret, header, body, second) is Some,
        first <= now <= second,
    ensures
        ({
            let taken = after_offer(cache, nonce, first);
            &&& admission_status(Some(secret), Some(header), body, first, cache) is None
            &&& admission_status(Some(secret), Some(header), body, second, taken) == Some(409u16)
            &&& admission_status(
                Some(secret),
                Some(header),
                body,
                second,
                after_offer(taken, offered, now),
            ) == Some(409u16)
        }),
{
    let taken = after_offer(cache, nonce, first);
    replays_are_held(secret, header, body, first, second);
    a_nonce_is_taken_once(cache, nonce, first, nonce, first);
    a_nonce_is_taken_once(taken, nonce, first, offered, now);
    a_nonce_is_taken_once(taken, nonce, first, offered, second);
    a_nonce_is_taken_once(after_offer(taken, offered, now), nonce, first, offered, second);
}

/// Nothing is let in that is not signed with the secret, and nothing at all
/// where there is no secret.
pub proof fn nothing_unsigned_is_let_in(
    secret: Option<Seq<char>>,
    header: Option<Seq<char>>,
    body: Seq<u8>,
    now: i64,
    cache: Seq<(String, i64)>,
)
    ensures
        admission_status(secret, header, body, now, cache) is None ==> (secret matches Some(s) && (
        header matches Some(h) && verified(s, h, body, now) is Some && body.len() <= 262_144)),
        secret is None ==> admission_status(secret, header, body, now, cache) == Some(503u16),
        secret is Some && header is None ==> admission_status(secret, header, body, now, cache)
            == Some(401u16),
        secret matches Some(s) ==> header matches Some(h) ==> verified(s, h, body, now) is None
            ==> admission_status(secret, header, body, now, cache) == Some(401u16),
{
}

/// Bytes are written two small hexadecimal digits each, the higher one first.
pub proof fn bytes_are_written_in_hexadecimal(bytes: Seq<u8>, i: int)
    requires
        0 <= i < bytes.len(),
    ensures
        hex_text(bytes).len() == 2 * bytes.len(),
        hex_value(hex_text(bytes)[2 * i]) * 16 + hex_value(hex_text(bytes)[2 * i + 1]) == bytes[i],
        '0' <= hex_text(bytes)[2 * i] <= '9' || 'a' <= hex_text(bytes)[2 * i] <= 'f',
        '0' <= hex_text(bytes)[2 * i + 1] <= '9' || 'a' <= hex_text(bytes)[2 * i + 1] <= 'f',
{
}

/// An answer stands only where its status says so. Where the site failed, or had
/// seen the call before, nobody knows whether the work was done.
pub proof fn unclear_outcomes_are_called_unclear(status: u16)
    ensures
        reply_refusal(status) is None <==> status / 100 == 2,
        status / 100 == 5 || status == 409 ==> reply_refusal(status) == Some(
            "Execution outcome is unknown: web capability did not return a result"@,
        ),
        status / 100 != 2 && status / 100 != 5 && status != 409 ==> reply_refusal(status) == Some(
            "Web capability returned HTTP "@ + text::decimal(status as int),
        ),
{
}

/// The work that the site itself does is this, and only this is handed to it, in
/// requests of up to a quarter of a mebibyte.
pub proof fn only_the_work_of_the_site_is_handed_to_it(capability: Seq<char>, size: usize)
    ensures
        call_refusal(capability, Some(size)) is None <==> seq![
            "scheduler.create"@,
            "scheduler.trigger"@,
            "scheduler.list"@,
            "phantasi.schedule"@,
            "task.submit"@,
            "platform.refresh"@,
            "system.metrics"@,
        ].contains(capability) && size <= 262_144,
        call_refusal(capability, None) is Some,
{
    let owned = seq![
        "scheduler.create"@,
        "scheduler.trigger"@,
        "scheduler.list"@,
        "phantasi.schedule"@,
        "task.submit"@,
        "platform.refresh"@,
        "system.metrics"@,
    ];
    assert(owned[0] == "scheduler.create"@ && owned[1] == "scheduler.trigger"@ && owned[2]
        == "scheduler.list"@ && owned[3] == "phantasi.schedule"@ && owned[4] == "task.submit"@
        && owned[5] == "platform.refresh"@ && owned[6] == "system.metrics"@);
}

/// In production the site is where it always is; elsewhere it is where it was
/// said to be.
pub proof fn the_site_is_not_moved_in_production(configured: Option<Seq<char>>, production: bool)
    ensures
        production ==> (upstream_of(configured, production) matches Some(base) ==> base
            == "http://backend:1103"@),
        !production && configured is Some ==> upstream_of(configured, production) == configured,
        configured is None ==> upstream_of(configured, production) == Some("http://backend:1103"@),
        production && configured is Some && configured->0 != "http://backend:1103"@ ==> upstream_of(
            configured,
            production,
        ) is None,
{
}

/// A call in the name of a person needs their account to be there; one in the
/// name of the site does not.
pub proof fn calls_need_a_standing_account(user_id: i32, lookup: AccountLookup)
    ensures
        account_refusal(user_id, lookup) is None <==> user_id <= 0 || lookup is Found,
{
}

} // verus!
