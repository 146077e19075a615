//! Text, seen as a sequence of characters.
//!
//! Every executable function here is the counterpart of a specification
//! function on `Seq<char>`, so that the rules of the other modules can speak of
//! trimming, splitting, joining and searching without mentioning bytes.
use vstd::prelude::*;
use vstd::utf8::encode_utf8;

verus! {

/// `String::push` of the standard library: appends one character.
pub assume_specification[ String::push ](s: &mut String, c: char)
    ensures
        final(s)@ == old(s)@.push(c),
;

/// `==` on `str` of the standard library: true exactly when both hold the same
/// characters.
pub assume_specification[ <str as PartialEq>::eq ](a: &str, b: &str) -> (r: bool)
    ensures
        r == (a@ == b@),
;

// ---------------------------------------------------------------------------
// Characters
// ---------------------------------------------------------------------------
/// The Unicode `White_Space` property.
pub open spec fn white(c: char) -> bool {
    ||| 0x9 <= c as int <= 0xd
    ||| c as int == 0x20
    ||| c as int == 0x85
    ||| c as int == 0xa0
    ||| c as int == 0x1680
    ||| 0x2000 <= c as int <= 0x200a
    ||| c as int == 0x2028
    ||| c as int == 0x2029
    ||| c as int == 0x202f
    ||| c as int == 0x205f
    ||| c as int == 0x3000
}

pub fn is_white(c: char) -> (r: bool)
    ensures
        r == white(c),
{
    let u: u32 = c as u32;
    (0x9 <= u && u <= 0xd) || u == 0x20 || u == 0x85 || u == 0xa0 || u == 0x1680 || (0x2000 <= u
        && u <= 0x200a) || u == 0x2028 || u == 0x2029 || u == 0x202f || u == 0x205f || u == 0x3000
}

/// The Unicode general category `Cc`.
pub open spec fn control(c: char) -> bool {
    c as int <= 0x1f || 0x7f <= c as int <= 0x9f
}

pub fn is_control(c: char) -> (r: bool)
    ensures
        r == control(c),
{
    let u: u32 = c as u32;
    u <= 0x1f || (0x7f <= u && u <= 0x9f)
}

pub open spec fn ascii_digit(c: char) -> bool {
    '0' <= c <= '9'
}

pub open spec fn ascii_alphabetic(c: char) -> bool {
    'a' <= c <= 'z' || 'A' <= c <= 'Z'
}

pub open spec fn ascii_alphanumeric(c: char) -> bool {
    ascii_digit(c) || ascii_alphabetic(c)
}

pub open spec fn ascii_hexdigit(c: char) -> bool {
    ascii_digit(c) || 'a' <= c <= 'f' || 'A' <= c <= 'F'
}

pub fn is_ascii_digit(c: char) -> (r: bool)
    ensures
        r == ascii_digit(c),
{
    '0' <= c && c <= '9'
}

pub fn is_ascii_alphanumeric(c: char) -> (r: bool)
    ensures
        r == ascii_alphanumeric(c),
{
    is_ascii_digit(c) || ('a' <= c && c <= 'z') || ('A' <= c && c <= 'Z')
}

pub fn is_ascii_hexdigit(c: char) -> (r: bool)
    ensures
        r == ascii_hexdigit(c),
{
    is_ascii_digit(c) || ('a' <= c && c <= 'f') || ('A' <= c && c <= 'F')
}

// ---------------------------------------------------------------------------
// Between strings and vectors of characters
// ---------------------------------------------------------------------------
pub fn eq(a: &str, b: &str) -> (r: bool)
    ensures
        r == (a@ == b@),
{
    a.eq(b)
}

/// The characters of `s`, in order.
pub fn chars_of(s: &str) -> (r: Vec<char>)
    ensures
        r@ == s@,
{
    let mut out: Vec<char> = Vec::new();
    for c in it: s.chars()
        invariant
            out@ == it.seq().take(it.index()),
    {
        out.push(c);
        assert(it.seq().take(it.index() + 1) =~= it.seq().take(it.index()).push(c));
    }
    assert(out@ =~= s@);
    out
}

/// The string that holds the characters `v[from..to]`.
pub fn string_of(v: &Vec<char>, from: usize, to: usize) -> (r: String)
    requires
        from <= to <= v@.len(),
    ensures
        r@ == v@.subrange(from as int, to as int),
{
    let mut out = String::new();
    let mut i: usize = from;
    while i < to
        invariant
            from <= i <= to <= v@.len(),
            out@ == v@.subrange(from as int, i as int),
        decreases to - i,
    {
        out.push(v[i]);
        assert(v@.subrange(from as int, i + 1) =~= v@.subrange(from as int, i as int).push(v@[i as int]));
        i = i + 1;
    }
    out
}

pub open spec fn at_most(s: Seq<char>, n: nat) -> Seq<char> {
    if s.len() <= n {
        s
    } else {
        s.take(n as int)
    }
}

/// The first `n` characters of `s`, or all of it.
pub fn take_chars(s: &str, n: usize) -> (r: String)
    ensures
        r@ == at_most(s@, n as nat),
{
    let v = chars_of(s);
    if v.len() <= n {
        s.to_owned()
    } else {
        string_of(&v, 0, n)
    }
}

pub fn char_count(s: &str) -> (r: usize)
    ensures
        r == s@.len(),
{
    s.unicode_len()
}

/// How many bytes the UTF-8 encoding of `s` takes.
pub fn byte_len(s: &str) -> (r: usize)
    ensures
        r == encode_utf8(s@).len(),
{
    s.as_bytes().len()
}

/// How many bytes a character takes in UTF-8.
pub open spec fn utf8_width(c: char) -> nat {
    if c <= '\u{7f}' {
        1
    } else if c <= '\u{7ff}' {
        2
    } else if c <= '\u{ffff}' {
        3
    } else {
        4
    }
}

/// How many bytes the characters take in UTF-8.
pub open spec fn width(s: Seq<char>) -> nat
    decreases s.len(),
{
    if s.len() == 0 {
        0
    } else {
        width(s.drop_last()) + utf8_width(s.last())
    }
}

/// How many of the characters of `s`, from `i` on, fit in `room` bytes.
pub open spec fn fitting(s: Seq<char>, i: int, room: int) -> nat
    decreases s.len() - i,
{
    if i < 0 || i >= s.len() || utf8_width(s[i]) > room {
        0
    } else {
        1 + fitting(s, i + 1, room - utf8_width(s[i]))
    }
}

/// The longest beginning of `s` that takes at most `max` bytes.
pub open spec fn byte_head(s: Seq<char>, max: nat) -> Seq<char> {
    s.take(fitting(s, 0, max as int) as int)
}

fn char_width(c: char) -> (r: usize)
    ensures
        r == utf8_width(c),
{
    if c <= '\u{7f}' {
        1
    } else if c <= '\u{7ff}' {
        2
    } else if c <= '\u{ffff}' {
        3
    } else {
        4
    }
}

pub fn truncate_str(s: &str, max: usize) -> (r: String)
    ensures
        r@ == byte_head(s@, max as nat),
{
    let v = chars_of(s);
    let mut room: usize = max;
    let mut i: usize = 0;
    while i < v.len() && char_width(v[i]) <= room
        invariant
            i <= v@.len(),
            fitting(v@, 0, max as int) == i + fitting(v@, i as int, room as int),
        decreases v@.len() - i,
    {
        room = room - char_width(v[i]);
        i = i + 1;
    }
    let r = string_of(&v, 0, i);
    assert(r@ =~= v@.take(i as int));
    r
}

/// What is kept fits, and with one more character it would not.
pub proof fn byte_head_fits(s: Seq<char>, max: nat)
    ensures
        width(byte_head(s, max)) <= max,
        byte_head(s, max).len() <= s.len(),
        byte_head(s, max) == s.take(byte_head(s, max).len() as int),
        byte_head(s, max).len() < s.len() ==> width(s.take(1int + byte_head(s, max).len())) > max,
{
    fitting_fits(s, 0, max as int, max);
    let n = fitting(s, 0, max as int) as int;
    assert(s.take(n).len() == n);
}

proof fn fitting_fits(s: Seq<char>, i: int, room: int, max: nat)
    requires
        0 <= i <= s.len(),
        0 <= room,
        width(s.take(i)) + room == max,
    ensures
        i + fitting(s, i, room) <= s.len(),
        width(s.take((i + fitting(s, i, room)) as int)) <= max,
        i + fitting(s, i, room) < s.len() ==> width(s.take((i + fitting(s, i, room) + 1) as int))
            > max,
    decreases s.len() - i,
{
    if i < s.len() {
        assert(s.take(i + 1).drop_last() =~= s.take(i));
        if utf8_width(s[i]) <= room {
            fitting_fits(s, i + 1, room - utf8_width(s[i]), max);
        }
    }
}

// ---------------------------------------------------------------------------
// Trimming
// ---------------------------------------------------------------------------
pub open spec fn trim_start_of(s: Seq<char>) -> Seq<char>
    decreases s.len(),
{
    if s.len() > 0 && white(s[0]) {
        trim_start_of(s.drop_first())
    } else {
        s
    }
}

pub open spec fn trim_end_of(s: Seq<char>) -> Seq<char>
    decreases s.len(),
{
    if s.len() > 0 && white(s.last()) {
        trim_end_of(s.drop_last())
    } else {
        s
    }
}

/// `s` without the white space at both ends.
pub open spec fn trimmed(s: Seq<char>) -> Seq<char> {
    trim_end_of(trim_start_of(s))
}

/// Trimming only leaves characters out.
pub proof fn trimmed_is_inside(s: Seq<char>)
    ensures
        forall|i: int| 0 <= i < trimmed(s).len() ==> s.contains(#[trigger] trimmed(s)[i]),
{
    let t = trim_start_of(s);
    start_is_inside(s);
    end_is_inside(t);
    assert forall|i: int| 0 <= i < trimmed(s).len() implies s.contains(#[trigger] trimmed(s)[i]) by {
        assert(t.contains(trim_end_of(t)[i]));
        let k = choose|k: int| 0 <= k < t.len() && t[k] == trim_end_of(t)[i];
        assert(s.contains(t[k]));
    }
}

proof fn start_is_inside(s: Seq<char>)
    ensures
        forall|i: int|
            0 <= i < trim_start_of(s).len() ==> s.contains(#[trigger] trim_start_of(s)[i]),
    decreases s.len(),
{
    if s.len() > 0 && white(s[0]) {
        start_is_inside(s.drop_first());
        assert forall|i: int| 0 <= i < trim_start_of(s).len() implies s.contains(
            #[trigger] trim_start_of(s)[i],
        ) by {
            let rest = s.drop_first();
            assert(rest.contains(trim_start_of(rest)[i]));
            let k = choose|k: int| 0 <= k < rest.len() && rest[k] == trim_start_of(rest)[i];
            assert(s[k + 1] == rest[k]);
        }
    }
}

proof fn end_is_inside(s: Seq<char>)
    ensures
        forall|i: int| 0 <= i < trim_end_of(s).len() ==> s.contains(#[trigger] trim_end_of(s)[i]),
    decreases s.len(),
{
    if s.len() > 0 && white(s.last()) {
        end_is_inside(s.drop_last());
        assert forall|i: int| 0 <= i < trim_end_of(s).len() implies s.contains(
            #[trigger] trim_end_of(s)[i],
        ) by {
            let rest = s.drop_last();
            assert(rest.contains(trim_end_of(rest)[i]));
            let k = choose|k: int| 0 <= k < rest.len() && rest[k] == trim_end_of(rest)[i];
            assert(s[k] == rest[k]);
        }
    }
}

pub fn trim(s: &str) -> (r: String)
    ensures
        r@ == trimmed(s@),
{
    let v = chars_of(s);
    let mut from: usize = 0;
    assert(v@.skip(0) =~= v@);
    while from < v.len() && is_white(v[from])
        invariant
            from <= v@.len(),
            trim_start_of(v@) == trim_start_of(v@.skip(from as int)),
        decreases v@.len() - from,
    {
        assert(v@.skip(from as int).drop_first() =~= v@.skip(from + 1));
        from = from + 1;
    }
    assert(trim_start_of(v@) == v@.skip(from as int));
    let mut to: usize = v.len();
    assert(v@.skip(from as int) =~= v@.subrange(from as int, to as int));
    while from < to && is_white(v[to - 1])
        invariant
            from <= to <= v@.len(),
            trim_end_of(v@.skip(from as int)) == trim_end_of(v@.subrange(from as int, to as int)),
        decreases to,
    {
        assert(v@.subrange(from as int, to as int).drop_last() =~= v@.subrange(
            from as int,
            to - 1,
        ));
        to = to - 1;
    }
    string_of(&v, from, to)
}

/// `s` without the white space at its end.
pub fn trim_end(s: &str) -> (r: String)
    ensures
        r@ == trim_end_of(s@),
{
    let v = chars_of(s);
    let mut to: usize = v.len();
    assert(v@.take(v@.len() as int) =~= v@);
    while 0 < to && is_white(v[to - 1])
        invariant
            to <= v@.len(),
            trim_end_of(v@) == trim_end_of(v@.take(to as int)),
        decreases to,
    {
        assert(v@.take(to as int).drop_last() =~= v@.take(to - 1));
        to = to - 1;
    }
    let r = string_of(&v, 0, to);
    assert(r@ =~= v@.take(to as int));
    r
}

/// Whether nothing but white space is in `s`.
pub open spec fn blank(s: Seq<char>) -> bool {
    trimmed(s).len() == 0
}

pub fn is_blank(s: &str) -> (r: bool)
    ensures
        r == blank(s@),
{
    trim(s).as_str().is_empty()
}

/// Blank text is text whose characters are all white space.
pub proof fn blank_is_all_white(s: Seq<char>)
    ensures
        blank(s) <==> (forall|i: int| 0 <= i < s.len() ==> white(#[trigger] s[i])),
    decreases s.len(),
{
    if s.len() > 0 {
        if white(s[0]) {
            blank_is_all_white(s.drop_first());
            assert(forall|i: int| 0 < i < s.len() ==> s[i] == s.drop_first()[i - 1]);
            assert(forall|i: int|
                0 <= i < s.len() - 1 ==> #[trigger] s.drop_first()[i] == s[i + 1]);
        } else {
            not_white_start_is_kept(s);
        }
    }
}

proof fn not_white_start_is_kept(s: Seq<char>)
    requires
        s.len() > 0,
        !white(s[0]),
    ensures
        trim_end_of(s).len() > 0,
        trim_end_of(s)[0] == s[0],
    decreases s.len(),
{
    if white(s.last()) {
        not_white_start_is_kept(s.drop_last());
    }
}

/// Trimmed text neither begins nor ends with white space, so that trimming it
/// again changes nothing.
pub proof fn trimmed_has_no_white_ends(s: Seq<char>)
    ensures
        trimmed(s).len() > 0 ==> !white(trimmed(s)[0]) && !white(trimmed(s).last()),
        trimmed(trimmed(s)) == trimmed(s),
{
    let t = trim_start_of(s);
    trim_start_leaves_no_white(s);
    trim_end_leaves_no_white(t);
    if t.len() > 0 {
        not_white_start_is_kept(t);
    }
}

proof fn trim_start_leaves_no_white(s: Seq<char>)
    ensures
        trim_start_of(s).len() > 0 ==> !white(trim_start_of(s)[0]),
    decreases s.len(),
{
    if s.len() > 0 && white(s[0]) {
        trim_start_leaves_no_white(s.drop_first());
    }
}

proof fn trim_end_leaves_no_white(s: Seq<char>)
    ensures
        trim_end_of(s).len() > 0 ==> !white(trim_end_of(s).last()),
    decreases s.len(),
{
    if s.len() > 0 && white(s.last()) {
        trim_end_leaves_no_white(s.drop_last());
    }
}

// ---------------------------------------------------------------------------
// Searching
// ---------------------------------------------------------------------------
pub open spec fn occurs_at(s: Seq<char>, pat: Seq<char>, i: int) -> bool {
    0 <= i && i + pat.len() <= s.len() && s.subrange(i, i + pat.len()) == pat
}

pub open spec fn contains_text(s: Seq<char>, pat: Seq<char>) -> bool {
    exists|i: int| #[trigger] occurs_at(s, pat, i)
}

/// Where `pat` first occurs in `s` at or after position `i`.
pub open spec fn find_from(s: Seq<char>, pat: Seq<char>, i: int) -> Option<int>
    decreases s.len() + 1 - i,
{
    if i < 0 || i + pat.len() > s.len() {
        None
    } else if occurs_at(s, pat, i) {
        Some(i)
    } else {
        find_from(s, pat, i + 1)
    }
}

fn matches_at(s: &Vec<char>, pat: &Vec<char>, i: usize) -> (r: bool)
    ensures
        r == occurs_at(s@, pat@, i as int),
{
    if pat.len() > s.len() || i > s.len() - pat.len() {
        return false;
    }
    let mut k: usize = 0;
    assert(s@.len() == s.len());
    while k < pat.len()
        invariant
            i + pat@.len() <= s@.len(),
            s@.len() <= usize::MAX,
            k <= pat@.len(),
            forall|j: int| 0 <= j < k ==> s@[i + j] == pat@[j],
        decreases pat@.len() - k,
    {
        if s[i + k] != pat[k] {
            assert(s@.subrange(i as int, i + pat@.len())[k as int] != pat@[k as int]);
            return false;
        }
        k = k + 1;
    }
    assert(s@.subrange(i as int, i + pat@.len()) =~= pat@);
    true
}

/// Position of the first occurrence at or after `from`.
pub fn find_chars(s: &Vec<char>, pat: &Vec<char>, from: usize) -> (r: Option<usize>)
    ensures
        match r {
            Some(i) => find_from(s@, pat@, from as int) == Some(i as int),
            None => find_from(s@, pat@, from as int) is None,
        },
        r matches Some(i) ==> from <= i && i + pat@.len() <= s@.len(),
{
    let mut i: usize = from;
    while i <= s.len() && pat.len() <= s.len() - i
        invariant
            from <= i,
            find_from(s@, pat@, from as int) == find_from(s@, pat@, i as int),
            i <= s@.len() || i == from,
        decreases s@.len() + 1 - i,
    {
        if matches_at(s, pat, i) {
            return Some(i);
        }
        if i == s.len() {
            assert(find_from(s@, pat@, i + 1) is None);
            return None;
        }
        i = i + 1;
    }
    None
}

pub proof fn find_from_is_first(s: Seq<char>, pat: Seq<char>, i: int)
    requires
        0 <= i,
    ensures
        find_from(s, pat, i) matches Some(k) ==> i <= k && occurs_at(s, pat, k) && (forall|j: int|
            i <= j < k ==> !#[trigger] occurs_at(s, pat, j)),
        find_from(s, pat, i) is None ==> (forall|j: int|
            i <= j ==> !#[trigger] occurs_at(s, pat, j)),
    decreases s.len() + 1 - i,
{
    if i + pat.len() <= s.len() && !occurs_at(s, pat, i) {
        find_from_is_first(s, pat, i + 1);
    }
}

pub fn contains(s: &str, pat: &str) -> (r: bool)
    ensures
        r == contains_text(s@, pat@),
{
    let v = chars_of(s);
    let p = chars_of(pat);
    proof {
        find_from_is_first(s@, pat@, 0);
    }
    let found = find_chars(&v, &p, 0);
    match found {
        Some(i) => {
            assert(occurs_at(s@, pat@, i as int));
            true
        },
        None => false,
    }
}

pub open spec fn starts(s: Seq<char>, pat: Seq<char>) -> bool {
    pat.len() <= s.len() && s.take(pat.len() as int) == pat
}

pub open spec fn ends(s: Seq<char>, pat: Seq<char>) -> bool {
    pat.len() <= s.len() && s.skip(s.len() - pat.len()) == pat
}

pub fn starts_with(s: &str, pat: &str) -> (r: bool)
    ensures
        r == starts(s@, pat@),
{
    let v = chars_of(s);
    let p = chars_of(pat);
    assert(pat@.len() <= s@.len() ==> s@.take(pat@.len() as int) =~= s@.subrange(
        0,
        0int + pat@.len(),
    ));
    matches_at(&v, &p, 0)
}

pub fn ends_with(s: &str, pat: &str) -> (r: bool)
    ensures
        r == ends(s@, pat@),
{
    let v = chars_of(s);
    let p = chars_of(pat);
    if p.len() > v.len() {
        return false;
    }
    let i: usize = v.len() - p.len();
    assert(s@.skip(i as int) =~= s@.subrange(i as int, i + pat@.len()));
    matches_at(&v, &p, i)
}

pub open spec fn after_prefix(s: Seq<char>, pat: Seq<char>) -> Option<Seq<char>> {
    if starts(s, pat) {
        Some(s.skip(pat.len() as int))
    } else {
        None
    }
}

pub open spec fn before_suffix(s: Seq<char>, pat: Seq<char>) -> Option<Seq<char>> {
    if ends(s, pat) {
        Some(s.take(s.len() - pat.len()))
    } else {
        None
    }
}

pub open spec fn opt_view(s: Option<String>) -> Option<Seq<char>> {
    match s {
        Some(t) => Some(t@),
        None => None,
    }
}

pub fn strip_prefix(s: &str, pat: &str) -> (r: Option<String>)
    ensures
        opt_view(r) == after_prefix(s@, pat@),
{
    if starts_with(s, pat) {
        let v = chars_of(s);
        let n = char_count(pat);
        let rest = string_of(&v, n, v.len());
        assert(rest@ =~= s@.skip(n as int));
        Some(rest)
    } else {
        None
    }
}

/// What stands behind the prefix, as a part of `s`.
pub fn after<'a>(s: &'a str, pat: &str) -> (r: Option<&'a str>)
    ensures
        match r {
            Some(rest) => after_prefix(s@, pat@) == Some(rest@),
            None => after_prefix(s@, pat@) is None,
        },
{
    if starts_with(s, pat) {
        let n = char_count(pat);
        let len = char_count(s);
        let rest = s.substring_char(n, len);
        assert(rest@ =~= s@.skip(n as int));
        Some(rest)
    } else {
        None
    }
}

pub fn strip_suffix(s: &str, pat: &str) -> (r: Option<String>)
    ensures
        opt_view(r) == before_suffix(s@, pat@),
{
    if ends_with(s, pat) {
        let v = chars_of(s);
        let n = char_count(pat);
        let rest = string_of(&v, 0, v.len() - n);
        assert(rest@ =~= s@.take(s@.len() - n));
        Some(rest)
    } else {
        None
    }
}

pub open spec fn has_char(s: Seq<char>, c: char) -> bool {
    exists|i: int| 0 <= i < s.len() && #[trigger] s[i] == c
}

pub fn contains_char(s: &str, c: char) -> (r: bool)
    ensures
        r == has_char(s@, c),
{
    let v = chars_of(s);
    let mut i: usize = 0;
    while i < v.len()
        invariant
            i <= v@.len(),
            v@ == s@,
            forall|j: int| 0 <= j < i ==> s@[j] != c,
        decreases v@.len() - i,
    {
        if v[i] == c {
            return true;
        }
        i = i + 1;
    }
    false
}

// ---------------------------------------------------------------------------
// Splitting and joining
// ---------------------------------------------------------------------------
/// The texts that a sequence of strings holds.
pub open spec fn views(v: Seq<String>) -> Seq<Seq<char>> {
    Seq::new(v.len(), |i: int| v[i]@)
}

pub proof fn views_push(v: Seq<String>, s: String)
    ensures
        views(v.push(s)) == views(v).push(s@),
{
    assert(views(v.push(s)) =~= views(v).push(s@));
}

/// The finished pieces of `s` split at `sep`, and the piece that is still open.
pub open spec fn split_state(s: Seq<char>, sep: char) -> (Seq<Seq<char>>, Seq<char>)
    decreases s.len(),
{
    if s.len() == 0 {
        (Seq::empty(), Seq::empty())
    } else {
        let (done, open) = split_state(s.drop_last(), sep);
        if s.last() == sep {
            (done.push(open), Seq::empty())
        } else {
            (done, open.push(s.last()))
        }
    }
}

/// The pieces between the occurrences of `sep`; always at least one.
pub open spec fn split_on(s: Seq<char>, sep: char) -> Seq<Seq<char>> {
    let (done, open) = split_state(s, sep);
    done.push(open)
}

pub fn split(s: &str, sep: char) -> (r: Vec<String>)
    ensures
        views(r@) == split_on(s@, sep),
        r@.len() >= 1,
{
    let v = chars_of(s);
    let mut out: Vec<String> = Vec::new();
    let mut open = String::new();
    let mut i: usize = 0;
    assert(v@.take(0) =~= Seq::empty());
    assert(views(out@) =~= Seq::empty());
    while i < v.len()
        invariant
            i <= v@.len(),
            split_state(v@.take(i as int), sep) == (views(out@), open@),
        decreases v@.len() - i,
    {
        let c = v[i];
        assert(v@.take(i + 1).drop_last() =~= v@.take(i as int));
        if c == sep {
            proof {
                views_push(out@, open);
            }
            out.push(open);
            open = String::new();
        } else {
            open.push(c);
        }
        i = i + 1;
    }
    assert(v@.take(v@.len() as int) =~= v@);
    proof {
        views_push(out@, open);
    }
    out.push(open);
    out
}

/// The finished words of `s`, and the word that is still open.
pub open spec fn word_state(s: Seq<char>) -> (Seq<Seq<char>>, Seq<char>)
    decreases s.len(),
{
    if s.len() == 0 {
        (Seq::empty(), Seq::empty())
    } else {
        let (done, open) = word_state(s.drop_last());
        if !white(s.last()) {
            (done, open.push(s.last()))
        } else if open.len() > 0 {
            (done.push(open), Seq::empty())
        } else {
            (done, open)
        }
    }
}

/// The maximal runs of characters that are not white space.
pub open spec fn words_of(s: Seq<char>) -> Seq<Seq<char>> {
    let (done, open) = word_state(s);
    if open.len() > 0 {
        done.push(open)
    } else {
        done
    }
}

pub fn split_words(s: &str) -> (r: Vec<String>)
    ensures
        views(r@) == words_of(s@),
{
    let v = chars_of(s);
    let mut out: Vec<String> = Vec::new();
    let mut open = String::new();
    let mut i: usize = 0;
    assert(v@.take(0) =~= Seq::empty());
    assert(views(out@) =~= Seq::empty());
    while i < v.len()
        invariant
            i <= v@.len(),
            word_state(v@.take(i as int)) == (views(out@), open@),
        decreases v@.len() - i,
    {
        let c = v[i];
        assert(v@.take(i + 1).drop_last() =~= v@.take(i as int));
        if !is_white(c) {
            open.push(c);
        } else if !open.as_str().is_empty() {
            proof {
                views_push(out@, open);
            }
            out.push(open);
            open = String::new();
        }
        i = i + 1;
    }
    assert(v@.take(v@.len() as int) =~= v@);
    if !open.as_str().is_empty() {
        proof {
            views_push(out@, open);
        }
        out.push(open);
    }
    out
}

/// The parts one after another, with `sep` between two of them.
pub open spec fn joined(parts: Seq<Seq<char>>, sep: Seq<char>) -> Seq<char>
    decreases parts.len(),
{
    if parts.len() == 0 {
        Seq::empty()
    } else if parts.len() == 1 {
        parts[0]
    } else {
        joined(parts.drop_last(), sep) + sep + parts.last()
    }
}

pub fn join(parts: &Vec<String>, sep: &str) -> (r: String)
    ensures
        r@ == joined(views(parts@), sep@),
{
    if parts.len() == 0 {
        return String::new();
    }
    let mut out = parts[0].clone();
    let mut i: usize = 1;
    assert(views(parts@).take(1) =~= seq![parts@[0]@]);
    while i < parts.len()
        invariant
            1 <= i <= parts@.len(),
            out@ == joined(views(parts@).take(i as int), sep@),
        decreases parts@.len() - i,
    {
        assert(views(parts@).take(i + 1).drop_last() =~= views(parts@).take(i as int));
        out.append(sep);
        out.append(parts[i].as_str());
        i = i + 1;
    }
    assert(views(parts@).take(parts@.len() as int) =~= views(parts@));
    out
}

/// White space runs become single spaces and the ends are trimmed.
pub open spec fn collapsed(s: Seq<char>) -> Seq<char> {
    joined(words_of(s), " "@)
}

pub fn collapse(s: &str) -> (r: String)
    ensures
        r@ == collapsed(s@),
{
    let words = split_words(s);
    join(&words, " ")
}

/// Whether the words of a text stand one space apart, from its beginning on.
pub open spec fn spaced(s: Seq<char>) -> bool {
    &&& s.len() > 0 ==> !white(s[0])
    &&& forall|i: int| 0 <= i < s.len() && white(#[trigger] s[i]) ==> s[i] == ' '
    &&& forall|i: int|
        0 <= i < s.len() - 1 && white(#[trigger] s[i]) ==> !white(s[i + 1])
}

proof fn spaced_words(s: Seq<char>)
    requires
        spaced(s),
    ensures
        ({
            let (done, open) = word_state(s);
            if s.len() == 0 {
                done.len() == 0 && open.len() == 0
            } else if white(s.last()) {
                done.len() > 0 && open.len() == 0 && joined(done, " "@) + " "@ == s
            } else {
                open.len() > 0 && joined(done.push(open), " "@) == s
            }
        }),
    decreases s.len(),
{
    reveal_strlit(" ");
    if s.len() > 0 {
        let t = s.drop_last();
        assert forall|i: int| 0 <= i < t.len() implies t[i] == #[trigger] s[i] by {}
        assert forall|i: int| 0 <= i < t.len() - 1 && white(#[trigger] t[i]) implies !white(
            t[i + 1],
        ) by {
            assert(white(s[i]));
        }
        assert(spaced(t));
        spaced_words(t);
        let (before, word) = word_state(t);
        let c = s.last();
        if t.len() > 0 {
            assert(t.last() == s[s.len() - 2]);
        }
        if !white(c) {
            let all = before.push(word.push(c));
            if t.len() == 0 {
                assert(all =~= seq![seq![c]]);
                assert(joined(all, " "@) =~= s);
            } else if white(t.last()) {
                assert(all.drop_last() =~= before);
                assert(joined(all, " "@) =~= joined(before, " "@) + " "@ + seq![c]);
                assert(joined(all, " "@) =~= s);
            } else {
                let earlier = before.push(word);
                assert(earlier.drop_last() =~= before);
                assert(all.drop_last() =~= before);
                if before.len() == 0 {
                    assert(joined(earlier, " "@) == word);
                    assert(joined(all, " "@) == word.push(c));
                } else {
                    assert(joined(all, " "@) =~= joined(earlier, " "@).push(c));
                }
                assert(joined(all, " "@) =~= s);
            }
        } else {
            assert(s[s.len() - 1] == c);
            assert(t.len() > 0);
            assert(!white(t.last())) by {
                if white(t.last()) {
                    assert(white(s[s.len() - 2]));
                }
            }
            assert(s =~= t + " "@);
        }
    }
}

/// Text whose words stand one space apart is collapsed already, but for a space at
/// its end.
pub proof fn spaced_text_collapses_to_itself(s: Seq<char>)
    requires
        spaced(s),
    ensures
        collapsed(s) == (if s.len() > 0 && white(s.last()) {
            s.drop_last()
        } else {
            s
        }),
{
    reveal_strlit(" ");
    spaced_words(s);
    let (done, open) = word_state(s);
    if s.len() > 0 && white(s.last()) {
        assert(s.drop_last() =~= joined(done, " "@));
    } else if s.len() == 0 {
        assert(joined(done, " "@) =~= s);
    }
}

pub open spec fn is_word(w: Seq<char>) -> bool {
    w.len() > 0 && forall|i: int| 0 <= i < w.len() ==> !white(#[trigger] w[i])
}

proof fn words_are_words(s: Seq<char>)
    ensures
        forall|k: int| 0 <= k < word_state(s).0.len() ==> is_word(#[trigger] word_state(s).0[k]),
        word_state(s).1.len() > 0 ==> is_word(word_state(s).1),
    decreases s.len(),
{
    if s.len() > 0 {
        words_are_words(s.drop_last());
    }
}

proof fn joined_words_are_spaced(words: Seq<Seq<char>>)
    requires
        forall|k: int| 0 <= k < words.len() ==> is_word(#[trigger] words[k]),
    ensures
        spaced(joined(words, " "@)),
        words.len() > 0 ==> joined(words, " "@).len() > 0 && !white(joined(words, " "@).last()),
        words.len() == 0 ==> joined(words, " "@).len() == 0,
    decreases words.len(),
{
    reveal_strlit(" ");
    if words.len() == 1 {
        assert(is_word(words[0]));
    } else if words.len() > 1 {
        joined_words_are_spaced(words.drop_last());
        let a = joined(words.drop_last(), " "@);
        let w = words.last();
        assert(is_word(w)) by {
            assert(is_word(words[words.len() - 1]));
        }
        let all = a + " "@ + w;
        assert(all == joined(words, " "@));
        assert forall|i: int| 0 <= i < all.len() && white(#[trigger] all[i]) implies all[i]
            == ' ' by {
            if i < a.len() {
                assert(all[i] == a[i]);
            } else if i > a.len() {
                assert(all[i] == w[i - a.len() - 1]);
            }
        }
        assert forall|i: int| 0 <= i < all.len() - 1 && white(#[trigger] all[i]) implies !white(
            all[i + 1],
        ) by {
            if i < a.len() {
                assert(all[i] == a[i]);
                if i + 1 < a.len() {
                    assert(all[i + 1] == a[i + 1]);
                } else {
                    assert(a.last() == a[i]);
                }
            } else if i == a.len() {
                assert(all[i + 1] == w[0]);
            } else {
                assert(all[i] == w[i - a.len() - 1]);
            }
        }
        assert(all[0] == a[0]);
        assert(all.last() == w.last());
        assert(w.last() == w[w.len() - 1]);
    }
}

/// Collapsed text has its words one space apart, and ends with one.
pub proof fn collapsed_text_is_spaced(s: Seq<char>)
    ensures
        spaced(collapsed(s)),
        collapsed(s).len() > 0 ==> !white(collapsed(s).last()),
{
    words_are_words(s);
    let words = words_of(s);
    let (done, open) = word_state(s);
    assert forall|k: int| 0 <= k < words.len() implies is_word(#[trigger] words[k]) by {
        if k < done.len() {
            assert(words[k] == done[k]);
        }
    }
    joined_words_are_spaced(words);
}

// ---------------------------------------------------------------------------
// Case
// ---------------------------------------------------------------------------
pub open spec fn ascii_lower_char(c: char) -> char {
    if 'A' <= c <= 'Z' {
        (c as u32 + 32) as char
    } else {
        c
    }
}

pub open spec fn ascii_lower(s: Seq<char>) -> Seq<char> {
    s.map_values(|c: char| ascii_lower_char(c))
}

pub fn to_ascii_lowercase(s: &str) -> (r: String)
    ensures
        r@ == ascii_lower(s@),
{
    let v = chars_of(s);
    let mut out = String::new();
    let mut i: usize = 0;
    while i < v.len()
        invariant
            i <= v@.len(),
            out@ == ascii_lower(v@.take(i as int)),
        decreases v@.len() - i,
    {
        let c = v[i];
        assert(v@.take(i + 1) =~= v@.take(i as int).push(c));
        assert(ascii_lower(v@.take(i + 1)) =~= ascii_lower(v@.take(i as int)).push(
            ascii_lower_char(c),
        ));
        if 'A' <= c && c <= 'Z' {
            let b: u8 = c as u8 + 32;
            out.push(b as char);
        } else {
            out.push(c);
        }
        i = i + 1;
    }
    assert(v@.take(v@.len() as int) =~= v@);
    out
}

pub open spec fn ascii_upper_char(c: char) -> char {
    if 'a' <= c <= 'z' {
        (c as u32 - 32) as char
    } else {
        c
    }
}

pub open spec fn ascii_upper(s: Seq<char>) -> Seq<char> {
    s.map_values(|c: char| ascii_upper_char(c))
}

pub open spec fn ascii(c: char) -> bool {
    c <= '\u{7f}'
}

/// The unified ideographs, in which Chinese is written. They have no case.
pub open spec fn ideograph(c: char) -> bool {
    '\u{4e00}' <= c <= '\u{9fff}'
}

/// What `char::to_lowercase` makes of a character that is neither ASCII nor an
/// ideograph.
pub uninterp spec fn lower_mapping(c: char) -> Seq<char>;

pub open spec fn lower_char(c: char) -> Seq<char> {
    if ascii(c) {
        seq![ascii_lower_char(c)]
    } else if ideograph(c) {
        seq![c]
    } else {
        lower_mapping(c)
    }
}

/// `char::to_lowercase` of the standard library, its characters collected. Of
/// ASCII the capital letters become small and nothing else changes. An ideograph,
/// which has no case, stays as it is. What becomes of any other character is a
/// function of the character alone; which it is is not stated here.
#[verifier::external_body]
pub(crate) fn lowercase_char(c: char) -> (r: String)
    ensures
        ascii(c) ==> r@ == seq![ascii_lower_char(c)],
        ideograph(c) ==> r@ == seq![c],
        !ascii(c) && !ideograph(c) ==> r@ == lower_mapping(c),
{
    c.to_lowercase().collect()
}

/// Whether `str::to_lowercase` writes the capital sigma at position `i` of the text
/// as the small one that ends a word.
pub uninterp spec fn final_sigma(s: Seq<char>, i: int) -> bool;

pub open spec fn lower_in_text(c: char, ends_word: bool) -> Seq<char> {
    if c == 'Σ' {
        seq![
            if ends_word {
                'ς'
            } else {
                'σ'
            },
        ]
    } else {
        lower_char(c)
    }
}

/// The text in lower case, given which capital sigmas end a word.
pub open spec fn lowercased_by(s: Seq<char>, finals: spec_fn(int) -> bool) -> Seq<char>
    decreases s.len(),
{
    if s.len() == 0 {
        Seq::empty()
    } else {
        lowercased_by(s.drop_last(), finals) + lower_in_text(s.last(), finals(s.len() - 1))
    }
}

pub open spec fn lowercased(s: Seq<char>) -> Seq<char> {
    lowercased_by(s, |i: int| final_sigma(s, i))
}

/// `str::to_lowercase` of the standard library. It lowers a text character by
/// character as `char::to_lowercase` does. The one exception is the Greek capital
/// sigma, which becomes one of two small ones; when it does which is not stated
/// here.
#[verifier::external_body]
pub(crate) fn to_lowercase(s: &str) -> (r: String)
    ensures
        r@ == lowercased_by(s@, |i: int| final_sigma(s@, i)),
{
    s.to_lowercase()
}

pub open spec fn small_sigma(c: char) -> bool {
    c == 'σ' || c == 'ς'
}

/// Whether two texts are the same but for which of the small sigmas they write.
pub open spec fn same_but_sigma(a: Seq<char>, b: Seq<char>) -> bool {
    &&& a.len() == b.len()
    &&& forall|i: int|
        0 <= i < a.len() ==> (#[trigger] a[i] == b[i] || (small_sigma(a[i]) && small_sigma(b[i])))
}

proof fn sigmas_make_no_other_difference(
    s: Seq<char>,
    f: spec_fn(int) -> bool,
    g: spec_fn(int) -> bool,
)
    ensures
        same_but_sigma(lowercased_by(s, f), lowercased_by(s, g)),
    decreases s.len(),
{
    if s.len() > 0 {
        sigmas_make_no_other_difference(s.drop_last(), f, g);
        let a = lowercased_by(s.drop_last(), f);
        let b = lowercased_by(s.drop_last(), g);
        let x = lower_in_text(s.last(), f(s.len() - 1));
        let y = lower_in_text(s.last(), g(s.len() - 1));
        assert forall|i: int| 0 <= i < (a + x).len() implies (#[trigger] (a + x)[i] == (b + y)[i]
            || (small_sigma((a + x)[i]) && small_sigma((b + y)[i]))) by {
            if i < a.len() {
                assert((a + x)[i] == a[i] && (b + y)[i] == b[i]);
            } else {
                assert((a + x)[i] == x[i - a.len()] && (b + y)[i] == y[i - a.len()]);
            }
        }
    }
}

proof fn lower_case_of_parts(a: Seq<char>, b: Seq<char>, f: spec_fn(int) -> bool)
    ensures
        lowercased_by(a + b, f) == lowercased_by(a, f) + lowercased_by(
            b,
            |i: int| f(a.len() + i),
        ),
    decreases b.len(),
{
    let g = |i: int| f(a.len() + i);
    if b.len() == 0 {
        assert(a + b =~= a);
        assert(lowercased_by(b, g) =~= Seq::empty());
        assert(lowercased_by(a, f) + lowercased_by(b, g) =~= lowercased_by(a, f));
    } else {
        lower_case_of_parts(a, b.drop_last(), f);
        assert((a + b).drop_last() =~= a + b.drop_last());
        assert((a + b).last() == b.last());
        assert(g(b.len() - 1) == f((a + b).len() - 1));
        assert(lowercased_by(a, f) + (lowercased_by(b.drop_last(), g) + lower_in_text(
            b.last(),
            g(b.len() - 1),
        )) =~= (lowercased_by(a, f) + lowercased_by(b.drop_last(), g)) + lower_in_text(
            b.last(),
            g(b.len() - 1),
        ));
    }
}

pub proof fn found_but_for_sigma(a: Seq<char>, b: Seq<char>, pat: Seq<char>)
    requires
        same_but_sigma(a, b),
        forall|i: int| 0 <= i < pat.len() ==> !small_sigma(#[trigger] pat[i]),
        contains_text(a, pat),
    ensures
        contains_text(b, pat),
{
    let k = choose|k: int| #[trigger] occurs_at(a, pat, k);
    assert forall|j: int| 0 <= j < pat.len() implies b.subrange(k, k + pat.len())[j] == pat[j] by {
        assert(a.subrange(k, k + pat.len())[j] == a[k + j]);
        assert(a[k + j] == b[k + j] || (small_sigma(a[k + j]) && small_sigma(b[k + j])));
        assert(!small_sigma(pat[j]));
    }
    assert(b.subrange(k, k + pat.len()) =~= pat);
    assert(occurs_at(b, pat, k));
}

/// What the lower case of a text contains, that of a longer text around it contains
/// too.
pub proof fn lower_case_keeps_what_is_inside(
    a: Seq<char>,
    s: Seq<char>,
    b: Seq<char>,
    pat: Seq<char>,
)
    requires
        forall|i: int| 0 <= i < pat.len() ==> !small_sigma(#[trigger] pat[i]),
        contains_text(lowercased(s), pat),
    ensures
        contains_text(lowercased(a + s + b), pat),
{
    let whole = a + s + b;
    let f = |i: int| final_sigma(whole, i);
    let g = |i: int| f(a.len() + i);
    lower_case_of_parts(a + s, b, f);
    lower_case_of_parts(a, s, f);
    let left = lowercased_by(a, f);
    let inner = lowercased_by(s, g);
    let right = lowercased_by(b, |i: int| f((a + s).len() + i));
    sigmas_make_no_other_difference(s, |i: int| final_sigma(s, i), g);
    found_but_for_sigma(lowercased(s), inner, pat);
    let k = choose|k: int| #[trigger] occurs_at(inner, pat, k);
    let all = left + inner + right;
    assert(lowercased(whole) == all);
    assert(all.subrange(left.len() + k, left.len() + k + pat.len()) =~= inner.subrange(
        k,
        k + pat.len(),
    ));
    assert(occurs_at(all, pat, left.len() + k));
}

/// Whether a character is one that lower case keeps, as far as that is known here.
pub open spec fn uncapital(c: char) -> bool {
    (ascii(c) && !('A' <= c <= 'Z')) || ideograph(c)
}

proof fn uncapital_text_is_kept(s: Seq<char>, f: spec_fn(int) -> bool)
    requires
        forall|i: int| 0 <= i < s.len() ==> uncapital(#[trigger] s[i]),
    ensures
        lowercased_by(s, f) == s,
    decreases s.len(),
{
    if s.len() > 0 {
        uncapital_text_is_kept(s.drop_last(), f);
        assert(uncapital(s[s.len() - 1]));
        assert(s.drop_last() + seq![s.last()] =~= s);
    } else {
        assert(lowercased_by(s, f) =~= s);
    }
}

/// A text without capitals is in the lower case of every text that it stands in.
pub proof fn lower_case_keeps_small_words(s: Seq<char>, word: Seq<char>)
    requires
        forall|i: int| 0 <= i < word.len() ==> uncapital(#[trigger] word[i]),
        contains_text(s, word),
    ensures
        contains_text(lowercased(s), word),
{
    let k = choose|k: int| #[trigger] occurs_at(s, word, k);
    let a = s.take(k);
    let b = s.skip(k + word.len());
    assert(a + word + b =~= s) by {
        assert(s.subrange(k, k + word.len()) == word);
        assert forall|j: int| 0 <= j < word.len() implies s[k + j] == #[trigger] word[j] by {
            assert(s.subrange(k, k + word.len())[j] == s[k + j]);
        }
    }
    uncapital_text_is_kept(word, |i: int| final_sigma(word, i));
    assert(word.subrange(0, word.len() as int) =~= word);
    assert(occurs_at(lowercased(word), word, 0));
    lower_case_keeps_what_is_inside(a, word, b, word);
}

proof fn upper_case_is_lowered(c: char, ends_word: bool)
    ensures
        lower_in_text(ascii_upper_char(c), ends_word) == lower_in_text(c, ends_word),
{
    assert(lower_in_text(ascii_upper_char(c), ends_word) =~= lower_in_text(c, ends_word));
}

proof fn upper_case_lowers_alike(s: Seq<char>, f: spec_fn(int) -> bool)
    ensures
        lowercased_by(ascii_upper(s), f) == lowercased_by(s, f),
    decreases s.len(),
{
    if s.len() > 0 {
        upper_case_lowers_alike(s.drop_last(), f);
        assert(ascii_upper(s).drop_last() =~= ascii_upper(s.drop_last()));
        assert(ascii_upper(s).last() == ascii_upper_char(s.last()));
        upper_case_is_lowered(s.last(), f(s.len() - 1));
    }
}

/// The lower case of a text does not depend on the case of its ASCII letters, but
/// for the small sigmas.
pub proof fn lower_case_forgets_case(s: Seq<char>)
    ensures
        same_but_sigma(lowercased(ascii_upper(s)), lowercased(s)),
        same_but_sigma(lowercased(s), lowercased(ascii_upper(s))),
{
    let f = |i: int| final_sigma(ascii_upper(s), i);
    let g = |i: int| final_sigma(s, i);
    upper_case_lowers_alike(s, f);
    sigmas_make_no_other_difference(s, f, g);
    sigmas_make_no_other_difference(s, g, f);
}

/// Whether `char::is_alphanumeric` takes a character that is not ASCII for a letter
/// or a digit.
pub uninterp spec fn letter_or_digit(c: char) -> bool;

pub open spec fn alphanumeric(c: char) -> bool {
    if ascii(c) {
        ascii_alphanumeric(c)
    } else {
        letter_or_digit(c)
    }
}

/// `char::is_alphanumeric` of the standard library. Of ASCII these are the letters
/// and the digits. Of any other character the result is a function of the character
/// alone; which of them are alphanumeric is not stated here.
#[verifier::external_body]
pub(crate) fn is_alphanumeric(c: char) -> (r: bool)
    ensures
        ascii(c) ==> r == ascii_alphanumeric(c),
        !ascii(c) ==> r == letter_or_digit(c),
{
    c.is_alphanumeric()
}

/// Whether a character is of a script that is written without spaces between
/// words: kana, ideographs and Hangul syllables.
pub open spec fn cjk(c: char) -> bool {
    ||| '\u{3040}' <= c <= '\u{30ff}'
    ||| '\u{3400}' <= c <= '\u{4dbf}'
    ||| '\u{4e00}' <= c <= '\u{9fff}'
    ||| '\u{ac00}' <= c <= '\u{d7af}'
    ||| '\u{f900}' <= c <= '\u{faff}'
    ||| '\u{20000}' <= c <= '\u{2fa1f}'
}

pub fn is_cjk(c: char) -> (r: bool)
    ensures
        r == cjk(c),
{
    ('\u{3040}' <= c && c <= '\u{30ff}') || ('\u{3400}' <= c && c <= '\u{4dbf}') || (
    '\u{4e00}' <= c && c <= '\u{9fff}') || ('\u{ac00}' <= c && c <= '\u{d7af}') || (
    '\u{f900}' <= c && c <= '\u{faff}') || ('\u{20000}' <= c && c <= '\u{2fa1f}')
}

// ---------------------------------------------------------------------------
// Order
// ---------------------------------------------------------------------------
/// Whether `a` comes before `b` in the order of their characters' code points,
/// which is also that of their bytes in UTF-8.
pub open spec fn precedes(a: Seq<char>, b: Seq<char>) -> bool
    decreases a.len(),
{
    if b.len() == 0 {
        false
    } else if a.len() == 0 {
        true
    } else if a[0] != b[0] {
        a[0] < b[0]
    } else {
        precedes(a.skip(1), b.skip(1))
    }
}

pub fn is_before(a: &str, b: &str) -> (r: bool)
    ensures
        r == precedes(a@, b@),
{
    let v = chars_of(a);
    let w = chars_of(b);
    let mut i: usize = 0;
    assert(v@.skip(0) =~= v@);
    assert(w@.skip(0) =~= w@);
    while i < v.len() && i < w.len()
        invariant
            i <= v@.len(),
            i <= w@.len(),
            v@ == a@,
            w@ == b@,
            precedes(a@, b@) == precedes(v@.skip(i as int), w@.skip(i as int)),
        decreases v@.len() - i,
    {
        if v[i] != w[i] {
            assert(v@.skip(i as int)[0] == v@[i as int]);
            assert(w@.skip(i as int)[0] == w@[i as int]);
            return v[i] < w[i];
        }
        assert(v@.skip(i as int).skip(1) =~= v@.skip(i + 1));
        assert(w@.skip(i as int).skip(1) =~= w@.skip(i + 1));
        i = i + 1;
    }
    i < w.len()
}

/// The order of texts is total and strict.
pub proof fn texts_are_ordered(a: Seq<char>, b: Seq<char>)
    ensures
        !(precedes(a, b) && precedes(b, a)),
        a == b ==> !precedes(a, b),
        a != b ==> precedes(a, b) || precedes(b, a),
    decreases a.len(),
{
    if a.len() > 0 && b.len() > 0 && a[0] == b[0] {
        texts_are_ordered(a.skip(1), b.skip(1));
        if a.skip(1) == b.skip(1) {
            assert(a =~= seq![a[0]] + a.skip(1));
            assert(b =~= seq![b[0]] + b.skip(1));
        }
    } else if a.len() == 0 && b.len() == 0 {
        assert(a =~= b);
    }
}

pub proof fn order_of_texts_chains(a: Seq<char>, b: Seq<char>, c: Seq<char>)
    requires
        precedes(a, b),
        precedes(b, c),
    ensures
        precedes(a, c),
    decreases a.len(),
{
    if a.len() > 0 && a[0] == b[0] && b[0] == c[0] {
        order_of_texts_chains(a.skip(1), b.skip(1), c.skip(1));
    }
}

// ---------------------------------------------------------------------------
// Decimal numbers
// ---------------------------------------------------------------------------
pub open spec fn digit_char(d: int) -> char
    recommends
        0 <= d < 10,
{
    (0x30 + d) as char
}

pub open spec fn decimal_nat(n: nat) -> Seq<char>
    decreases n,
{
    if n < 10 {
        seq![digit_char(n as int)]
    } else {
        decimal_nat(n / 10).push(digit_char((n % 10) as int))
    }
}

/// The decimal notation of `n`.
pub open spec fn decimal(n: int) -> Seq<char> {
    if n < 0 {
        seq!['-'] + decimal_nat((-n) as nat)
    } else {
        decimal_nat(n as nat)
    }
}

fn push_digits(out: &mut String, n: u64)
    ensures
        final(out)@ == old(out)@ + decimal_nat(n as nat),
    decreases n,
{
    if n >= 10 {
        push_digits(out, n / 10);
    }
    let d: u8 = 0x30 + (n % 10) as u8;
    assert(old(out)@ + decimal_nat(n as nat) =~= if n >= 10 {
        (old(out)@ + decimal_nat((n / 10) as nat)).push(d as char)
    } else {
        old(out)@.push(d as char)
    });
    out.push(d as char);
}

pub fn u64_text(n: u64) -> (r: String)
    ensures
        r@ == decimal(n as int),
{
    let mut out = String::new();
    push_digits(&mut out, n);
    assert(out@ =~= decimal(n as int));
    out
}

pub fn usize_text(n: usize) -> (r: String)
    ensures
        r@ == decimal(n as int),
{
    u64_text(n as u64)
}

pub fn i64_text(n: i64) -> (r: String)
    ensures
        r@ == decimal(n as int),
{
    if n >= 0 {
        u64_text(n as u64)
    } else {
        let mut out = String::new();
        out.push('-');
        let m: u64 = ((-1) - n) as u64 + 1;
        push_digits(&mut out, m);
        assert(out@ =~= decimal(n as int));
        out
    }
}

pub open spec fn digits_only(s: Seq<char>) -> bool {
    s.len() > 0 && forall|i: int| 0 <= i < s.len() ==> ascii_digit(#[trigger] s[i])
}

pub open spec fn digits_value(s: Seq<char>) -> nat
    decreases s.len(),
{
    if s.len() == 0 {
        0
    } else {
        10 * digits_value(s.drop_last()) + (s.last() as int - 0x30) as nat
    }
}

/// The number that `s` denotes: digits, with at most one sign before them.
pub open spec fn number_of(s: Seq<char>) -> Option<int> {
    if s.len() > 0 && s[0] == '-' && digits_only(s.skip(1)) {
        Some(-(digits_value(s.skip(1)) as int))
    } else if s.len() > 0 && s[0] == '+' && digits_only(s.skip(1)) {
        Some(digits_value(s.skip(1)) as int)
    } else if digits_only(s) {
        Some(digits_value(s) as int)
    } else {
        None
    }
}

/// The number that `s` denotes, where it lies between `low` and `high`.
pub open spec fn number_in(s: Seq<char>, low: int, high: int) -> Option<int> {
    match number_of(s) {
        Some(n) if low <= n <= high => Some(n),
        _ => None,
    }
}

/// The value of the digits `v[from..]`, or `None` if one is no digit, if there
/// are none, or if the value is over `limit`.
fn digits_up_to(v: &Vec<char>, from: usize, limit: u64) -> (r: Option<u64>)
    requires
        from <= v@.len(),
    ensures
        match r {
            Some(n) => digits_only(v@.skip(from as int)) && n == digits_value(v@.skip(from as int))
                && n <= limit,
            None => !digits_only(v@.skip(from as int)) || digits_value(v@.skip(from as int))
                > limit,
        },
{
    let ghost t = v@.skip(from as int);
    if from == v.len() {
        return None;
    }
    let mut n: u64 = 0;
    let mut over: bool = false;
    let mut i: usize = from;
    assert(t.take(0) =~= Seq::empty());
    while i < v.len()
        invariant
            from <= i <= v@.len(),
            t == v@.skip(from as int),
            forall|j: int| 0 <= j < i - from ==> ascii_digit(#[trigger] t[j]),
            over ==> digits_value(t.take(i - from)) > limit,
            !over ==> n == digits_value(t.take(i - from)) && n <= limit,
        decreases v@.len() - i,
    {
        let c = v[i];
        assert(t[i - from] == c);
        if !is_ascii_digit(c) {
            return None;
        }
        let d: u64 = c as u64 - 0x30u64;
        assert(t.take(i + 1 - from).drop_last() =~= t.take(i - from));
        assert(digits_value(t.take(i + 1 - from)) == 10 * digits_value(t.take(i - from)) + d);
        if !over {
            if (n as u128) * 10 + d as u128 > limit as u128 {
                over = true;
            } else {
                n = n * 10 + d;
            }
        }
        i = i + 1;
    }
    assert(t.take(v@.len() - from) =~= t);
    if over {
        None
    } else {
        Some(n)
    }
}

/// Reads a signed 64-bit number the way the standard library does.
/// The number that `s` denotes without a minus sign.
pub open spec fn unsigned_of(s: Seq<char>) -> Option<nat> {
    if s.len() > 0 && s[0] == '+' && digits_only(s.skip(1)) {
        Some(digits_value(s.skip(1)))
    } else if digits_only(s) {
        Some(digits_value(s))
    } else {
        None
    }
}

pub fn parse_usize(s: &str) -> (r: Option<usize>)
    ensures
        match r {
            Some(n) => unsigned_of(s@) == Some(n as nat),
            None => unsigned_of(s@) matches Some(n) ==> n > usize::MAX,
        },
{
    let v = chars_of(s);
    let from: usize = if v.len() > 0 && v[0] == '+' {
        1
    } else {
        0
    };
    assert(v@.skip(0) =~= v@);
    assert(from == 1 ==> !ascii_digit(v@[0]));
    match digits_up_to(&v, from, usize::MAX as u64) {
        Some(n) => Some(n as usize),
        None => None,
    }
}

pub fn parse_i64(s: &str) -> (r: Option<i64>)
    ensures
        match r {
            Some(n) => number_in(s@, i64::MIN as int, i64::MAX as int) == Some(n as int),
            None => number_in(s@, i64::MIN as int, i64::MAX as int) is None,
        },
{
    let v = chars_of(s);
    if v.len() > 0 && v[0] == '-' {
        assert(!ascii_digit(s@[0]));
        match digits_up_to(&v, 1, 0x8000_0000_0000_0000) {
            Some(n) => {
                if n == 0x8000_0000_0000_0000 {
                    Some(i64::MIN)
                } else {
                    Some(-(n as i64))
                }
            },
            None => None,
        }
    } else if v.len() > 0 && v[0] == '+' {
        assert(!ascii_digit(s@[0]));
        match digits_up_to(&v, 1, 0x7fff_ffff_ffff_ffff) {
            Some(n) => Some(n as i64),
            None => None,
        }
    } else {
        assert(s@.skip(0) =~= s@);
        match digits_up_to(&v, 0, 0x7fff_ffff_ffff_ffff) {
            Some(n) => Some(n as i64),
            None => None,
        }
    }
}

/// Reads a signed 32-bit number the way the standard library does.
pub fn parse_i32(s: &str) -> (r: Option<i32>)
    ensures
        match r {
            Some(n) => number_in(s@, i32::MIN as int, i32::MAX as int) == Some(n as int),
            None => number_in(s@, i32::MIN as int, i32::MAX as int) is None,
        },
{
    match parse_i64(s) {
        Some(n) => {
            if -0x8000_0000 <= n && n <= 0x7fff_ffff {
                Some(n as i32)
            } else {
                None
            }
        },
        None => None,
    }
}

proof fn decimal_nat_reads_back(n: nat)
    ensures
        digits_only(decimal_nat(n)),
        digits_value(decimal_nat(n)) == n,
    decreases n,
{
    if n < 10 {
        let s = decimal_nat(n);
        assert(s.drop_last() =~= Seq::empty());
        assert(digits_value(s.drop_last()) == 0);
    } else {
        decimal_nat_reads_back(n / 10);
        let s = decimal_nat(n);
        assert(s.drop_last() =~= decimal_nat(n / 10));
        assert forall|i: int| 0 <= i < s.len() implies ascii_digit(#[trigger] s[i]) by {
            if i < s.len() - 1 {
                assert(s[i] == decimal_nat(n / 10)[i]);
            }
        }
    }
}

/// Reading the decimal notation of a number gives the number back.
pub proof fn decimal_reads_back(n: int)
    ensures
        number_of(decimal(n)) == Some(n),
{
    if n < 0 {
        decimal_nat_reads_back((-n) as nat);
        assert(decimal(n).skip(1) =~= decimal_nat((-n) as nat));
    } else {
        decimal_nat_reads_back(n as nat);
        assert(ascii_digit(decimal(n)[0]));
    }
}

// ---------------------------------------------------------------------------
// Lists of texts
// ---------------------------------------------------------------------------
pub fn list_contains(v: &Vec<String>, s: &str) -> (r: bool)
    ensures
        r == views(v@).contains(s@),
{
    let mut i: usize = 0;
    while i < v.len()
        invariant
            i <= v@.len(),
            forall|j: int| 0 <= j < i ==> v@[j]@ != s@,
        decreases v@.len() - i,
    {
        if eq(v[i].as_str(), s) {
            assert(views(v@)[i as int] == s@);
            return true;
        }
        i = i + 1;
    }
    false
}

pub fn clone_opt(s: &Option<String>) -> (r: Option<String>)
    ensures
        opt_view(r) == opt_view(*s),
{
    match s {
        Some(t) => Some(t.clone()),
        None => None,
    }
}

pub fn clone_list(v: &Vec<String>) -> (r: Vec<String>)
    ensures
        views(r@) == views(v@),
        r@ == v@,
{
    let mut out: Vec<String> = Vec::new();
    let mut i: usize = 0;
    while i < v.len()
        invariant
            i <= v@.len(),
            out@ == v@.take(i as int),
        decreases v@.len() - i,
    {
        out.push(v[i].clone());
        assert(v@.take(i + 1) =~= v@.take(i as int).push(v@[i as int]));
        i = i + 1;
    }
    assert(v@.take(v@.len() as int) =~= v@);
    out
}

// ---------------------------------------------------------------------------
// Single separators
// ---------------------------------------------------------------------------
pub open spec fn trim_end_char_of(s: Seq<char>, c: char) -> Seq<char>
    decreases s.len(),
{
    if s.len() > 0 && s.last() == c {
        trim_end_char_of(s.drop_last(), c)
    } else {
        s
    }
}

/// `s` without the occurrences of `c` at its end.
pub fn trim_end_char(s: &str, c: char) -> (r: String)
    ensures
        r@ == trim_end_char_of(s@, c),
{
    let v = chars_of(s);
    let mut to: usize = v.len();
    assert(v@.take(v@.len() as int) =~= v@);
    while 0 < to && v[to - 1] == c
        invariant
            to <= v@.len(),
            trim_end_char_of(v@, c) == trim_end_char_of(v@.take(to as int), c),
        decreases to,
    {
        assert(v@.take(to as int).drop_last() =~= v@.take(to - 1));
        to = to - 1;
    }
    let r = string_of(&v, 0, to);
    assert(r@ =~= v@.take(to as int));
    r
}

/// Position of the first `c` at or after position `i`.
pub open spec fn char_from(s: Seq<char>, c: char, i: int) -> Option<int>
    decreases s.len() - i,
{
    if i < 0 || i >= s.len() {
        None
    } else if s[i] == c {
        Some(i)
    } else {
        char_from(s, c, i + 1)
    }
}

/// What stands before and after the first `c`.
pub open spec fn split_once_of(s: Seq<char>, c: char) -> Option<(Seq<char>, Seq<char>)> {
    match char_from(s, c, 0) {
        Some(i) => Some((s.take(i), s.skip(i + 1))),
        None => None,
    }
}

pub fn find_char(v: &Vec<char>, c: char) -> (r: Option<usize>)
    ensures
        match r {
            Some(i) => char_from(v@, c, 0) == Some(i as int) && i < v@.len(),
            None => char_from(v@, c, 0) is None,
        },
{
    let mut i: usize = 0;
    while i < v.len()
        invariant
            i <= v@.len(),
            char_from(v@, c, 0) == char_from(v@, c, i as int),
        decreases v@.len() - i,
    {
        if v[i] == c {
            return Some(i);
        }
        i = i + 1;
    }
    None
}

pub fn split_once(s: &str, c: char) -> (r: Option<(String, String)>)
    ensures
        match r {
            Some(p) => split_once_of(s@, c) == Some((p.0@, p.1@)),
            None => split_once_of(s@, c) is None,
        },
{
    let v = chars_of(s);
    match find_char(&v, c) {
        Some(i) => {
            let n = v.len();
            let a = string_of(&v, 0, i);
            let b = string_of(&v, i + 1, n);
            assert(a@ =~= s@.take(i as int));
            assert(b@ =~= s@.skip(i + 1));
            Some((a, b))
        },
        None => None,
    }
}

/// What stands before and behind the first `pat`.
pub open spec fn parted_by(s: Seq<char>, pat: Seq<char>) -> Option<(Seq<char>, Seq<char>)> {
    match find_from(s, pat, 0) {
        Some(i) => Some((s.take(i), s.skip(i + pat.len()))),
        None => None,
    }
}

pub fn part_by(s: &str, pat: &str) -> (r: Option<(String, String)>)
    ensures
        match r {
            Some(p) => parted_by(s@, pat@) == Some((p.0@, p.1@)),
            None => parted_by(s@, pat@) is None,
        },
{
    let v = chars_of(s);
    let p = chars_of(pat);
    let n = v.len();
    match find_chars(&v, &p, 0) {
        Some(i) => {
            let a = string_of(&v, 0, i);
            let b = string_of(&v, i + p.len(), n);
            assert(a@ =~= s@.take(i as int));
            assert(b@ =~= s@.skip(i + pat@.len()));
            Some((a, b))
        },
        None => None,
    }
}

/// The text before the first `c`, or all of it.
pub open spec fn before_char(s: Seq<char>, c: char) -> Seq<char> {
    match char_from(s, c, 0) {
        Some(i) => s.take(i),
        None => s,
    }
}

pub fn head_before(s: &str, c: char) -> (r: String)
    ensures
        r@ == before_char(s@, c),
{
    match split_once(s, c) {
        Some(p) => p.0,
        None => s.to_owned(),
    }
}

pub proof fn char_from_is_first(s: Seq<char>, c: char, i: int)
    requires
        0 <= i,
    ensures
        char_from(s, c, i) matches Some(k) ==> i <= k < s.len() && s[k] == c && (forall|j: int|
            i <= j < k ==> s[j] != c),
        char_from(s, c, i) is None ==> (forall|j: int| i <= j < s.len() ==> s[j] != c),
    decreases s.len() - i,
{
    if i < s.len() && s[i] != c {
        char_from_is_first(s, c, i + 1);
    }
}

proof fn open_piece_grows(s: Seq<char>, t: Seq<char>, sep: char)
    requires
        !has_char(t, sep),
    ensures
        split_state(s + t, sep) == (split_state(s, sep).0, split_state(s, sep).1 + t),
    decreases t.len(),
{
    if t.len() == 0 {
        assert(s + t =~= s);
        assert(split_state(s, sep).1 + t =~= split_state(s, sep).1);
    } else {
        assert(t[t.len() - 1] != sep);
        assert forall|i: int| 0 <= i < t.drop_last().len() implies t.drop_last()[i] != sep by {
            assert(t.drop_last()[i] == t[i]);
        }
        open_piece_grows(s, t.drop_last(), sep);
        assert((s + t).drop_last() =~= s + t.drop_last());
        assert((s + t).last() == t.last());
        assert((split_state(s, sep).1 + t.drop_last()).push(t.last()) =~= split_state(s, sep).1
            + t);
    }
}

/// A piece without separators behind a separator is one piece more.
pub proof fn split_appends_piece(s: Seq<char>, t: Seq<char>, sep: char)
    requires
        !has_char(t, sep),
    ensures
        split_on(s.push(sep) + t, sep) == split_on(s, sep).push(t),
{
    open_piece_grows(s.push(sep), t, sep);
    assert(s.push(sep).drop_last() =~= s);
    assert(Seq::<char>::empty() + t =~= t);
}

pub proof fn char_from_finds(s: Seq<char>, c: char, i: int, k: int)
    requires
        0 <= i <= k < s.len(),
        s[k] == c,
        forall|j: int| i <= j < k ==> #[trigger] s[j] != c,
    ensures
        char_from(s, c, i) == Some(k),
    decreases k - i,
{
    if i < k {
        assert(s[i] != c);
        char_from_finds(s, c, i + 1, k);
    }
}

/// A text is parted at the first separator: into what stands before and behind it.
pub proof fn texts_part_at_the_first_separator(a: Seq<char>, sep: char, b: Seq<char>)
    requires
        !has_char(a, sep),
    ensures
        split_once_of(a + seq![sep] + b, sep) == Some((a, b)),
        before_char(a + seq![sep] + b, sep) == a,
        split_once_of(a, sep) is None,
        before_char(a, sep) == a,
        split_on(a, sep) == seq![a],
        split_on(a + seq![sep] + b, sep) == seq![a] + split_on(b, sep),
{
    let s = a + seq![sep] + b;
    assert forall|j: int| 0 <= j < a.len() implies #[trigger] s[j] != sep by {
        assert(s[j] == a[j]);
    }
    char_from_finds(s, sep, 0, a.len() as int);
    assert(s.take(a.len() as int) =~= a);
    assert(s.skip(a.len() + 1int) =~= b);
    char_from_is_first(a, sep, 0);
    let none = Seq::<char>::empty();
    open_piece_grows(none, a, sep);
    assert(none + a =~= a);
    assert(split_on(a, sep) =~= seq![a]);
    pieces_behind(a, sep, b);
    assert(split_on(s, sep) =~= seq![a] + split_on(b, sep));
}

proof fn pieces_behind(a: Seq<char>, sep: char, b: Seq<char>)
    requires
        !has_char(a, sep),
    ensures
        split_state(a + seq![sep] + b, sep) == (
            seq![a] + split_state(b, sep).0,
            split_state(b, sep).1,
        ),
    decreases b.len(),
{
    let s = a + seq![sep] + b;
    if b.len() == 0 {
        let none = Seq::<char>::empty();
        open_piece_grows(none, a, sep);
        assert(none + a =~= a);
        assert(s.drop_last() =~= a);
        assert(s.last() == sep);
        assert(split_state(s, sep).0 =~= seq![a] + split_state(b, sep).0);
    } else {
        pieces_behind(a, sep, b.drop_last());
        assert(s.drop_last() =~= a + seq![sep] + b.drop_last());
        assert(s.last() == b.last());
        assert(split_state(s, sep).0 =~= seq![a] + split_state(b, sep).0);
    }
}

/// The decimal notation of a number that is not negative is read back as an index.
pub proof fn indices_read_back(n: nat)
    ensures
        unsigned_of(decimal(n as int)) == Some(n),
        decimal(n as int).len() > 0,
        !has_char(decimal(n as int), '['),
        !has_char(decimal(n as int), '.'),
{
    decimal_nat_reads_back(n);
    let s = decimal(n as int);
    assert(ascii_digit(s[0]));
    assert forall|i: int| 0 <= i < s.len() implies s[i] != '[' && s[i] != '.' by {
        assert(ascii_digit(s[i]));
    }
}

} // verus!
