//! JSON values, as requests, step outputs and federated objects carry them.
//!
//! An object is the list of its entries. A lookup takes the first entry with
//! the key; `insert` writes over that entry, so that a key which occurs once
//! keeps occurring once.
use crate::text;
use vstd::prelude::*;

verus! {

/// A number. Fractions are carried by the bits of their IEEE 754 notation and
/// never computed with.
#[derive(Clone, Copy, Debug, PartialEq, Eq, Structural)]
pub enum Number {
    Pos(u64),
    Neg(i64),
    Fraction(u64),
}

#[derive(Debug, PartialEq, Eq)]
pub enum Json {
    Null,
    Bool(bool),
    Number(Number),
    Str(String),
    Array(Vec<Json>),
    Object(Vec<(String, Json)>),
}

/// What a JSON value means.
pub enum JsonView {
    Null,
    Bool(bool),
    Number(Number),
    Str(Seq<char>),
    Array(Seq<JsonView>),
    Object(Seq<(Seq<char>, JsonView)>),
}

pub type Fields = Vec<(String, Json)>;

impl View for Json {
    type V = JsonView;

    open spec fn view(&self) -> JsonView {
        meaning(*self)
    }
}

pub open spec fn meaning(j: Json) -> JsonView
    decreases j,
{
    match j {
        Json::Null => JsonView::Null,
        Json::Bool(b) => JsonView::Bool(b),
        Json::Number(n) => JsonView::Number(n),
        Json::Str(s) => JsonView::Str(s@),
        Json::Array(a) => JsonView::Array(
            Seq::new(
                a@.len(),
                |i: int|
                    if 0 <= i < a@.len() {
                        meaning(a@[i])
                    } else {
                        JsonView::Null
                    },
            ),
        ),
        Json::Object(o) => JsonView::Object(
            Seq::new(
                o@.len(),
                |i: int|
                    if 0 <= i < o@.len() {
                        (o@[i].0@, meaning(o@[i].1))
                    } else {
                        (Seq::empty(), JsonView::Null)
                    },
            ),
        ),
    }
}

/// What the items of an array mean.
pub open spec fn items(a: Seq<Json>) -> Seq<JsonView> {
    Seq::new(a.len(), |i: int| a[i]@)
}

/// What the entries of an object mean.
pub open spec fn entries(o: Seq<(String, Json)>) -> Seq<(Seq<char>, JsonView)> {
    Seq::new(o.len(), |i: int| (o[i].0@, o[i].1@))
}

pub broadcast proof fn array_meaning(a: Vec<Json>)
    ensures
        #[trigger] Json::Array(a)@ == JsonView::Array(items(a@)),
{
    assert(Json::Array(a)@->Array_0 =~= items(a@));
}

pub broadcast proof fn object_meaning(o: Vec<(String, Json)>)
    ensures
        #[trigger] Json::Object(o)@ == JsonView::Object(entries(o@)),
{
    assert(Json::Object(o)@->Object_0 =~= entries(o@));
}

pub broadcast group group_json {
    array_meaning,
    object_meaning,
}

pub proof fn items_push(a: Seq<Json>, j: Json)
    ensures
        items(a.push(j)) == items(a).push(j@),
{
    assert(items(a.push(j)) =~= items(a).push(j@));
}

pub proof fn entries_push(o: Seq<(String, Json)>, e: (String, Json))
    ensures
        entries(o.push(e)) == entries(o).push((e.0@, e.1@)),
{
    assert(entries(o.push(e)) =~= entries(o).push((e.0@, e.1@)));
}

pub open spec fn text_json(s: Seq<char>) -> JsonView {
    JsonView::Str(s)
}

pub open spec fn int_json(n: int) -> JsonView {
    if n < 0 {
        JsonView::Number(Number::Neg(n as i64))
    } else {
        JsonView::Number(Number::Pos(n as u64))
    }
}

pub open spec fn opt_text_json(s: Option<Seq<char>>) -> JsonView {
    match s {
        Some(t) => JsonView::Str(t),
        None => JsonView::Null,
    }
}

pub open spec fn opt_int_json(n: Option<int>) -> JsonView {
    match n {
        Some(k) => int_json(k),
        None => JsonView::Null,
    }
}

/// Position of the first entry with the key, at or after position `i`.
pub open spec fn key_from(o: Seq<(Seq<char>, JsonView)>, key: Seq<char>, i: int) -> Option<int>
    decreases o.len() - i,
{
    if i < 0 || i >= o.len() {
        None
    } else if o[i].0 == key {
        Some(i)
    } else {
        key_from(o, key, i + 1)
    }
}

/// The value of the first entry with the key.
pub open spec fn entry(o: Seq<(Seq<char>, JsonView)>, key: Seq<char>) -> Option<JsonView> {
    match key_from(o, key, 0) {
        Some(i) => Some(o[i].1),
        None => None,
    }
}

/// The entries after `key` has been set to `v`.
pub open spec fn with_entry(
    o: Seq<(Seq<char>, JsonView)>,
    key: Seq<char>,
    v: JsonView,
) -> Seq<(Seq<char>, JsonView)> {
    match key_from(o, key, 0) {
        Some(i) => o.update(i, (key, v)),
        None => o.push((key, v)),
    }
}

/// The entries without those with the key.
pub open spec fn without_key(o: Seq<(Seq<char>, JsonView)>, key: Seq<char>) -> Seq<
    (Seq<char>, JsonView),
> {
    o.filter(|e: (Seq<char>, JsonView)| e.0 != key)
}

/// No entry with the key is left.
pub proof fn nothing_is_left_of_a_key(o: Seq<(Seq<char>, JsonView)>, key: Seq<char>)
    ensures
        entry(without_key(o, key), key) is None,
        forall|i: int|
            0 <= i < without_key(o, key).len() ==> (#[trigger] without_key(o, key)[i]).0 != key,
    decreases o.len(),
{
    reveal(Seq::filter);
    let rest = without_key(o, key);
    if o.len() > 0 {
        nothing_is_left_of_a_key(o.drop_last(), key);
        let before = without_key(o.drop_last(), key);
        assert forall|i: int| 0 <= i < rest.len() implies (#[trigger] rest[i]).0 != key by {
            if i < before.len() {
                assert(rest[i] == before[i]);
            }
        }
    }
    key_from_is_first(rest, key, 0);
}

/// What stands under other keys stays when a key is taken out.
pub proof fn the_rest_is_left(o: Seq<(Seq<char>, JsonView)>, key: Seq<char>, other: Seq<char>)
    requires
        other != key,
    ensures
        entry(without_key(o, key), other) == entry(o, other),
    decreases o.len(),
{
    reveal(Seq::filter);
    if o.len() > 0 {
        let rest = o.drop_last();
        let last = o.last();
        the_rest_is_left(rest, key, other);
        assert(rest.push(last) =~= o);
        entry_behind(rest, last, other);
        if last.0 != key {
            entry_behind(without_key(rest, key), last, other);
        }
    }
}

proof fn entry_behind(o: Seq<(Seq<char>, JsonView)>, last: (Seq<char>, JsonView), key: Seq<char>)
    ensures
        entry(o.push(last), key) == match entry(o, key) {
            Some(v) => Some(v),
            None => if last.0 == key {
                Some(last.1)
            } else {
                None
            },
        },
{
    if entry(o, key) is Some {
        entry_is_the_first(o, last, key);
    } else {
        lookup_after_put(o, last.0, last.1, key);
    }
}

pub proof fn key_from_is_first(o: Seq<(Seq<char>, JsonView)>, key: Seq<char>, i: int)
    requires
        0 <= i,
    ensures
        key_from(o, key, i) matches Some(k) ==> i <= k < o.len() && o[k].0 == key && (forall|j: int|
            i <= j < k ==> (#[trigger] o[j]).0 != key),
        key_from(o, key, i) is None ==> (forall|j: int|
            i <= j < o.len() ==> (#[trigger] o[j]).0 != key),
    decreases o.len() - i,
{
    if i < o.len() && o[i].0 != key {
        key_from_is_first(o, key, i + 1);
    }
}

proof fn key_from_at(o: Seq<(Seq<char>, JsonView)>, key: Seq<char>, i: int, k: int)
    requires
        0 <= i <= k < o.len(),
        o[k].0 == key,
        forall|j: int| i <= j < k ==> (#[trigger] o[j]).0 != key,
    ensures
        key_from(o, key, i) == Some(k),
    decreases k - i,
{
    if i < k {
        assert(o[i].0 != key);
        key_from_at(o, key, i + 1, k);
    }
}

proof fn key_from_nowhere(o: Seq<(Seq<char>, JsonView)>, key: Seq<char>, i: int)
    requires
        0 <= i,
        forall|j: int| i <= j < o.len() ==> (#[trigger] o[j]).0 != key,
    ensures
        key_from(o, key, i) is None,
    decreases o.len() - i,
{
    if i < o.len() {
        assert(o[i].0 != key);
        key_from_nowhere(o, key, i + 1);
    }
}

/// After a key has been set, a lookup of it gives the value, and a lookup of
/// any other key gives what it gave before.
pub proof fn lookup_after_set(
    o: Seq<(Seq<char>, JsonView)>,
    key: Seq<char>,
    v: JsonView,
    other: Seq<char>,
)
    ensures
        entry(with_entry(o, key, v), key) == Some(v),
        other != key ==> entry(with_entry(o, key, v), other) == entry(o, other),
{
    let w = with_entry(o, key, v);
    key_from_is_first(o, key, 0);
    match key_from(o, key, 0) {
        Some(k) => {
            assert forall|j: int| 0 <= j < k implies (#[trigger] w[j]).0 != key by {
                assert(w[j] == o[j]);
            }
            key_from_at(w, key, 0, k);
        },
        None => {
            assert forall|j: int| 0 <= j < o.len() implies (#[trigger] w[j]).0 != key by {
                assert(w[j] == o[j]);
            }
            key_from_at(w, key, 0, o.len() as int);
        },
    }
    if other != key {
        key_from_is_first(o, other, 0);
        match key_from(o, other, 0) {
            Some(k) => {
                assert(w[k] == o[k]);
                assert forall|j: int| 0 <= j < k implies (#[trigger] w[j]).0 != other by {
                    if w[j] != o[j] {
                        assert(w[j].0 == key);
                    }
                }
                key_from_at(w, other, 0, k);
            },
            None => {
                assert forall|j: int| 0 <= j < w.len() implies (#[trigger] w[j]).0 != other by {
                    if j < o.len() && w[j] == o[j] {
                    } else {
                        assert(w[j].0 == key);
                    }
                }
                key_from_nowhere(w, other, 0);
            },
        }
    }
}

/// An entry behind another with the same key is not seen.
pub proof fn entry_is_the_first(
    o: Seq<(Seq<char>, JsonView)>,
    last: (Seq<char>, JsonView),
    key: Seq<char>,
)
    requires
        entry(o, key) is Some,
    ensures
        entry(o.push(last), key) == entry(o, key),
{
    let w = o.push(last);
    key_from_is_first(o, key, 0);
    let k = key_from(o, key, 0)->0;
    assert(w[k] == o[k]);
    assert forall|j: int| 0 <= j < k implies (#[trigger] w[j]).0 != key by {
        assert(w[j] == o[j]);
    }
    key_from_at(w, key, 0, k);
}

/// After an entry has been put behind the others, a lookup of its key gives
/// the value where the key was not there before, and lookups of other keys give
/// what they gave before.
pub proof fn lookup_after_put(
    o: Seq<(Seq<char>, JsonView)>,
    key: Seq<char>,
    v: JsonView,
    other: Seq<char>,
)
    ensures
        entry(o, key) is None ==> entry(o.push((key, v)), key) == Some(v),
        other != key ==> entry(o.push((key, v)), other) == entry(o, other),
{
    let w = o.push((key, v));
    key_from_is_first(o, key, 0);
    if entry(o, key) is None {
        assert forall|j: int| 0 <= j < o.len() implies (#[trigger] w[j]).0 != key by {
            assert(w[j] == o[j]);
        }
        key_from_at(w, key, 0, o.len() as int);
    }
    if other != key {
        key_from_is_first(o, other, 0);
        match key_from(o, other, 0) {
            Some(k) => {
                assert(w[k] == o[k]);
                assert forall|j: int| 0 <= j < k implies (#[trigger] w[j]).0 != other by {
                    assert(w[j] == o[j]);
                }
                key_from_at(w, other, 0, k);
            },
            None => {
                assert forall|j: int| 0 <= j < w.len() implies (#[trigger] w[j]).0 != other by {
                    if j < o.len() {
                        assert(w[j] == o[j]);
                    }
                }
                key_from_nowhere(w, other, 0);
            },
        }
    }
}

impl JsonView {
    /// What stands under `key`; `None` for a value that is no object.
    pub open spec fn get(self, key: Seq<char>) -> Option<JsonView> {
        match self {
            JsonView::Object(o) => entry(o, key),
            _ => None,
        }
    }

    /// The object with one more entry behind the others.
    pub open spec fn with(self, key: Seq<char>, v: JsonView) -> JsonView {
        match self {
            JsonView::Object(o) => JsonView::Object(o.push((key, v))),
            _ => self,
        }
    }

    pub open spec fn as_text(self) -> Option<Seq<char>> {
        match self {
            JsonView::Str(s) => Some(s),
            _ => None,
        }
    }

    pub open spec fn text_at(self, key: Seq<char>) -> Option<Seq<char>> {
        match self.get(key) {
            Some(v) => v.as_text(),
            None => None,
        }
    }

    pub open spec fn as_int(self) -> Option<int> {
        match self {
            JsonView::Number(Number::Pos(n)) => if n <= i64::MAX {
                Some(n as int)
            } else {
                None
            },
            JsonView::Number(Number::Neg(n)) => Some(n as int),
            _ => None,
        }
    }

    pub open spec fn int_at(self, key: Seq<char>) -> Option<int> {
        match self.get(key) {
            Some(v) => v.as_int(),
            None => None,
        }
    }

    pub open spec fn as_unsigned(self) -> Option<u64> {
        match self {
            JsonView::Number(Number::Pos(n)) => Some(n),
            _ => None,
        }
    }

    pub open spec fn as_bool(self) -> Option<bool> {
        match self {
            JsonView::Bool(b) => Some(b),
            _ => None,
        }
    }

    pub open spec fn bool_at(self, key: Seq<char>) -> Option<bool> {
        match self.get(key) {
            Some(v) => v.as_bool(),
            None => None,
        }
    }

    pub open spec fn as_array(self) -> Option<Seq<JsonView>> {
        match self {
            JsonView::Array(a) => Some(a),
            _ => None,
        }
    }

    pub open spec fn array_at(self, key: Seq<char>) -> Option<Seq<JsonView>> {
        match self.get(key) {
            Some(v) => v.as_array(),
            None => None,
        }
    }
}

pub open spec fn opt_json_view(j: Option<Json>) -> Option<JsonView> {
    match j {
        Some(v) => Some(v@),
        None => None,
    }
}

pub open spec fn opt_json_ref_view(j: Option<&Json>) -> Option<JsonView> {
    match j {
        Some(v) => Some(v@),
        None => None,
    }
}


// ---------------------------------------------------------------------------
// Building
// ---------------------------------------------------------------------------
pub fn string(s: &str) -> (r: Json)
    ensures
        r@ == text_json(s@),
{
    Json::Str(s.to_owned())
}

pub fn number(n: i64) -> (r: Json)
    ensures
        r@ == int_json(n as int),
{
    if n < 0 {
        Json::Number(Number::Neg(n))
    } else {
        Json::Number(Number::Pos(n as u64))
    }
}

pub fn unsigned(n: u64) -> (r: Json)
    ensures
        r@ == int_json(n as int),
{
    Json::Number(Number::Pos(n))
}

pub fn opt_string(s: &Option<String>) -> (r: Json)
    ensures
        r@ == opt_text_json(text::opt_view(*s)),
{
    match s {
        Some(t) => string(t.as_str()),
        None => Json::Null,
    }
}

pub open spec fn opt_i64_view(n: Option<i64>) -> Option<int> {
    match n {
        Some(k) => Some(k as int),
        None => None,
    }
}

pub fn opt_int(n: Option<i64>) -> (r: Json)
    ensures
        r@ == opt_int_json(opt_i64_view(n)),
{
    match n {
        Some(k) => number(k),
        None => Json::Null,
    }
}

/// Adds an entry behind the others.
pub fn put(fields: &mut Fields, key: &str, value: Json)
    ensures
        entries(final(fields)@) == entries(old(fields)@).push((key@, value@)),
{
    let e = (key.to_owned(), value);
    proof {
        entries_push(fields@, e);
    }
    fields.push(e);
}

/// The object without entries.
pub open spec fn empty() -> JsonView {
    JsonView::Object(Seq::empty())
}

pub fn object() -> (r: Json)
    ensures
        r@ == empty(),
{
    broadcast use group_json;

    let fields: Fields = Vec::new();
    assert(entries(fields@) =~= Seq::empty());
    let r = Json::Object(fields);
    assert(r@ == JsonView::Object(entries(fields@)));
    r
}

pub fn array(list: Vec<Json>) -> (r: Json)
    ensures
        r@ == JsonView::Array(items(list@)),
{
    broadcast use group_json;

    let r = Json::Array(list);
    assert(r@ == JsonView::Array(items(list@)));
    r
}

pub fn strings(v: &Vec<String>) -> (r: Json)
    ensures
        r@ == texts_json(text::views(v@)),
{
    broadcast use group_json;

    let mut out: Vec<Json> = Vec::new();
    let mut i: usize = 0;
    while i < v.len()
        invariant
            i <= v@.len(),
            out@.len() == i,
            forall|k: int| 0 <= k < i ==> #[trigger] out@[k]@ == JsonView::Str(v@[k]@),
        decreases v@.len() - i,
    {
        out.push(string(v[i].as_str()));
        i = i + 1;
    }
    assert(items(out@) =~= texts_json(text::views(v@))->Array_0);
    Json::Array(out)
}

pub open spec fn texts_json(v: Seq<Seq<char>>) -> JsonView {
    JsonView::Array(v.map_values(|s: Seq<char>| JsonView::Str(s)))
}

impl Json {
    /// A copy that means the same.
    pub fn copy(&self) -> (r: Json)
        ensures
            r@ == self@,
        decreases self,
    {
        broadcast use group_json;

        match self {
            Json::Null => Json::Null,
            Json::Bool(b) => Json::Bool(*b),
            Json::Number(n) => Json::Number(*n),
            Json::Str(s) => Json::Str(s.clone()),
            Json::Array(a) => {
                let mut out: Vec<Json> = Vec::new();
                let mut i: usize = 0;
                while i < a.len()
                    invariant
                        i <= a@.len(),
                        *self == Json::Array(*a),
                        out@.len() == i,
                        forall|k: int| 0 <= k < i ==> #[trigger] out@[k]@ == a@[k]@,
                    decreases a@.len() - i,
                {
                    assert(decreases_to!(*self => self->Array_0));
                    assert(decreases_to!(a => a[i as int]));
                    out.push(a[i].copy());
                    i = i + 1;
                }
                assert(items(out@) =~= items(a@));
                Json::Array(out)
            },
            Json::Object(o) => {
                let mut out: Fields = Vec::new();
                let mut i: usize = 0;
                while i < o.len()
                    invariant
                        i <= o@.len(),
                        *self == Json::Object(*o),
                        out@.len() == i,
                        forall|k: int|
                            0 <= k < i ==> (#[trigger] out@[k]).0@ == o@[k].0@ && out@[k].1@
                                == o@[k].1@,
                    decreases o@.len() - i,
                {
                    assert(decreases_to!(*self => self->Object_0));
                    assert(decreases_to!(o => o[i as int]));
                    assert(decreases_to!(o[i as int] => o[i as int].1));
                    out.push((o[i].0.clone(), o[i].1.copy()));
                    i = i + 1;
                }
                assert(entries(out@) =~= entries(o@));
                Json::Object(out)
            },
        }
    }

    /// The object with one more entry behind the others.
    pub fn with(self, key: &str, value: Json) -> (r: Json)
        ensures
            r@ == self@.with(key@, value@),
    {
        broadcast use group_json;

        match self {
            Json::Object(o) => {
                let mut o = o;
                assert(self@ == JsonView::Object(entries(o@)));
                put(&mut o, key, value);
                let r = Json::Object(o);
                assert(r@ == JsonView::Object(entries(o@)));
                r
            },
            other => other,
        }
    }

    pub fn get(&self, key: &str) -> (r: Option<&Json>)
        ensures
            opt_json_ref_view(r) == self@.get(key@),
            r matches Some(v) ==> decreases_to!(self => v),
    {
        broadcast use group_json;

        match self {
            Json::Object(o) => field(o, key),
            _ => None,
        }
    }

    pub fn as_str(&self) -> (r: Option<&str>)
        ensures
            match r {
                Some(s) => self@.as_text() == Some(s@),
                None => self@.as_text() is None,
            },
    {
        match self {
            Json::Str(s) => Some(s.as_str()),
            _ => None,
        }
    }

    pub fn str_at(&self, key: &str) -> (r: Option<&str>)
        ensures
            match r {
                Some(s) => self@.text_at(key@) == Some(s@),
                None => self@.text_at(key@) is None,
            },
    {
        match self.get(key) {
            Some(v) => v.as_str(),
            None => None,
        }
    }

    pub fn as_i64(&self) -> (r: Option<i64>)
        ensures
            opt_i64_view(r) == self@.as_int(),
    {
        match self {
            Json::Number(Number::Pos(n)) => {
                if *n <= 0x7fff_ffff_ffff_ffff {
                    Some(*n as i64)
                } else {
                    None
                }
            },
            Json::Number(Number::Neg(n)) => Some(*n),
            _ => None,
        }
    }

    pub fn as_u64(&self) -> (r: Option<u64>)
        ensures
            r == self@.as_unsigned(),
    {
        match self {
            Json::Number(Number::Pos(n)) => Some(*n),
            _ => None,
        }
    }

    pub fn i64_at(&self, key: &str) -> (r: Option<i64>)
        ensures
            opt_i64_view(r) == self@.int_at(key@),
    {
        match self.get(key) {
            Some(v) => v.as_i64(),
            None => None,
        }
    }

    pub fn as_bool(&self) -> (r: Option<bool>)
        ensures
            r == self@.as_bool(),
    {
        match self {
            Json::Bool(b) => Some(*b),
            _ => None,
        }
    }

    pub fn bool_at(&self, key: &str) -> (r: Option<bool>)
        ensures
            r == self@.bool_at(key@),
    {
        match self.get(key) {
            Some(v) => v.as_bool(),
            None => None,
        }
    }

    pub fn is_null(&self) -> (r: bool)
        ensures
            r == (self@ is Null),
    {
        matches!(self, Json::Null)
    }

    pub fn is_object(&self) -> (r: bool)
        ensures
            r == (self@ is Object),
    {
        matches!(self, Json::Object(_))
    }
}

/// The value of the first entry with the key.
pub fn field<'a>(o: &'a Fields, key: &str) -> (r: Option<&'a Json>)
    ensures
        opt_json_ref_view(r) == entry(entries(o@), key@),
        r matches Some(v) ==> decreases_to!(Json::Object(*o) => v),
{
    broadcast use group_json;

    let mut i: usize = 0;
    while i < o.len()
        invariant
            i <= o@.len(),
            key_from(entries(o@), key@, 0) == key_from(entries(o@), key@, i as int),
        decreases o@.len() - i,
    {
        if text::eq(o[i].0.as_str(), key) {
            assert(decreases_to!(Json::Object(*o) => Json::Object(*o)->Object_0));
            assert(decreases_to!(o => o[i as int]));
            assert(decreases_to!(o[i as int] => o[i as int].1));
            return Some(&o[i].1);
        }
        i = i + 1;
    }
    None
}

/// Sets `key` to `value`: over the first entry with the key, or behind the
/// others.
pub fn set(o: &mut Fields, key: &str, value: Json)
    ensures
        entries(final(o)@) == with_entry(entries(old(o)@), key@, value@),
{
    let mut i: usize = 0;
    while i < o.len()
        invariant
            i <= o@.len(),
            o@ == old(o)@,
            key_from(entries(o@), key@, 0) == key_from(entries(o@), key@, i as int),
        decreases o@.len() - i,
    {
        if text::eq(o[i].0.as_str(), key) {
            let e = (key.to_owned(), value);
            let ghost before = o@;
            o[i] = e;
            assert(entries(o@) =~= entries(before).update(i as int, (key@, value@)));
            return ;
        }
        i = i + 1;
    }
    put(o, key, value);
}

/// Takes the entries with the key out. The result is the first of them.
pub fn take(o: &mut Fields, key: &str) -> (r: Option<Json>)
    ensures
        opt_json_view(r) == entry(entries(old(o)@), key@),
        entries(final(o)@) == without_key(entries(old(o)@), key@),
{
    let ghost given = o@;
    let ghost all = entries(o@);
    let ghost mut seen: int = 0;
    let mut first: Option<Json> = None;
    let mut i: usize = 0;
    proof {
        reveal(Seq::filter);
        assert(all.take(0) =~= Seq::empty());
        assert(given.skip(0) =~= given);
    }
    while i < o.len()
        invariant
            0 <= seen <= given.len(),
            all == entries(given),
            i <= o@.len(),
            o@.skip(i as int) == given.skip(seen),
            entries(o@.take(i as int)) == without_key(all.take(seen), key@),
            first is None ==> key_from(all, key@, 0) == key_from(all, key@, seen),
            first is Some ==> opt_json_view(first) == entry(all, key@),
        decreases given.len() - seen,
    {
        proof {
            reveal(Seq::filter);
            assert(o@.skip(i as int).len() == given.skip(seen).len());
            assert(seen < given.len());
            assert(o@.skip(i as int)[0] == o@[i as int]);
            assert(given.skip(seen)[0] == given[seen]);
            assert(all[seen] == (given[seen].0@, given[seen].1@));
            assert(all.take(seen + 1).drop_last() =~= all.take(seen));
            assert(all.take(seen + 1).last() == all[seen]);
        }
        let ghost before = o@;
        if text::eq(o[i].0.as_str(), key) {
            let e = o.remove(i);
            if first.is_none() {
                first = Some(e.1);
            }
            assert(o@.skip(i as int) =~= given.skip(seen + 1)) by {
                assert forall|k: int| 0 <= k < o@.skip(i as int).len() implies o@.skip(
                    i as int,
                )[k] == given.skip(seen + 1)[k] by {
                    assert(before.skip(i as int)[k + 1] == given.skip(seen)[k + 1]);
                }
                assert(before.skip(i as int).len() == given.skip(seen).len());
            }
            assert(o@.take(i as int) =~= before.take(i as int));
        } else {
            assert(entries(before.take(i + 1)) =~= entries(before.take(i as int)).push(all[seen]));
            i = i + 1;
            assert(o@.skip(i as int) =~= given.skip(seen + 1)) by {
                assert forall|k: int| 0 <= k < o@.skip(i as int).len() implies o@.skip(
                    i as int,
                )[k] == given.skip(seen + 1)[k] by {
                    assert(before.skip(i - 1)[k + 1] == given.skip(seen)[k + 1]);
                }
                assert(before.skip(i - 1).len() == given.skip(seen).len());
            }
        }
        proof {
            seen = seen + 1;
        }
    }
    proof {
        assert(given.skip(seen).len() == 0);
        assert(all.take(seen) =~= all);
        assert(o@.take(i as int) =~= o@);
    }
    first
}

/// A copy of the object with `key` set to `value`.
pub fn with_field(o: &Fields, key: &str, value: Json) -> (r: Json)
    ensures
        r@ == JsonView::Object(with_entry(entries(o@), key@, value@)),
{
    broadcast use group_json;

    let mut out: Fields = copy_fields(o);
    set(&mut out, key, value);
    let r = Json::Object(out);
    assert(r@ == JsonView::Object(entries(out@)));
    r
}

pub fn copy_items(a: &Vec<Json>) -> (r: Vec<Json>)
    ensures
        items(r@) == items(a@),
{
    let mut out: Vec<Json> = Vec::new();
    let mut i: usize = 0;
    while i < a.len()
        invariant
            i <= a@.len(),
            out@.len() == i,
            forall|k: int| 0 <= k < i ==> #[trigger] out@[k]@ == a@[k]@,
        decreases a@.len() - i,
    {
        out.push(a[i].copy());
        i = i + 1;
    }
    assert(items(out@) =~= items(a@));
    out
}

pub fn copy_fields(o: &Fields) -> (r: Fields)
    ensures
        entries(r@) == entries(o@),
{
    let mut out: Fields = Vec::new();
    let mut i: usize = 0;
    while i < o.len()
        invariant
            i <= o@.len(),
            out@.len() == i,
            forall|k: int|
                0 <= k < i ==> (#[trigger] out@[k]).0@ == o@[k].0@ && out@[k].1@ == o@[k].1@,
        decreases o@.len() - i,
    {
        out.push((o[i].0.clone(), o[i].1.copy()));
        i = i + 1;
    }
    assert(entries(out@) =~= entries(o@));
    out
}

} // verus!
