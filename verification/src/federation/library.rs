//! A short account of what a platform library holds.
//!
//! The raw data of a platform has no fixed shape, so the account is the best
//! that can be read off it: how many items its lists seem to hold, and the
//! titles of the first few.
use crate::json;
use crate::json::{Fields, Json, JsonView};
use crate::text;
use vstd::prelude::*;

verus! {

broadcast use crate::json::group_json;

pub const MAX_TITLES: usize = 5;

pub const MAX_TITLE_CHARS: usize = 80;

/// What has been counted so far.
pub struct Tally {
    pub count: usize,
    pub titles: Vec<String>,
}

pub struct TallyView {
    pub count: int,
    pub titles: Seq<Seq<char>>,
}

impl View for Tally {
    type V = TallyView;

    open spec fn view(&self) -> TallyView {
        TallyView { count: self.count as int, titles: text::views(self.titles@) }
    }
}

/// The title of an item, under whichever of the usual names comes first; empty
/// when that is no text.
pub open spec fn title_of(item: JsonView) -> Seq<char> {
    let found = match item.get("title"@) {
        Some(v) => Some(v),
        None => match item.get("name"@) {
            Some(v) => Some(v),
            None => item.get("subject_title"@),
        },
    };
    match found {
        Some(v) => match v.as_text() {
            Some(t) => text::trimmed(t),
            None => Seq::empty(),
        },
        None => Seq::empty(),
    }
}

/// The titles after one more item: at most a few, none empty, none twice, each
/// cut to its first characters.
pub open spec fn with_title(titles: Seq<Seq<char>>, item: JsonView) -> Seq<Seq<char>> {
    let t = title_of(item);
    if titles.len() >= MAX_TITLES || t.len() == 0 || titles.contains(t) {
        titles
    } else {
        titles.push(text::at_most(t, MAX_TITLE_CHARS as nat))
    }
}

/// What an item of a list is about: itself, or what it wraps.
pub open spec fn subject_of(item: JsonView) -> JsonView {
    match item.get("node"@) {
        Some(v) => v,
        None => match item.get("subject"@) {
            Some(v) => v,
            None => item,
        },
    }
}

pub open spec fn objects_in(a: Seq<JsonView>) -> Seq<JsonView> {
    a.filter(|v: JsonView| v is Object)
}

pub open spec fn with_titles(titles: Seq<Seq<char>>, list: Seq<JsonView>) -> Seq<Seq<char>>
    decreases list.len(),
{
    if list.len() == 0 {
        titles
    } else {
        with_title(with_titles(titles, list.drop_last()), subject_of(list.last()))
    }
}

/// Counts stop at the largest number the machine can count to.
pub open spec fn capped(n: int) -> int {
    if n > usize::MAX {
        usize::MAX as int
    } else {
        n
    }
}

/// The names under which platforms keep their lists.
pub open spec fn known_key(k: int) -> Seq<char> {
    if k == 0 {
        "games"@
    } else if k == 1 {
        "anime"@
    } else if k == 2 {
        "manga"@
    } else if k == 3 {
        "music"@
    } else if k == 4 {
        "collection"@
    } else if k == 5 {
        "items"@
    } else if k == 6 {
        "data"@
    } else {
        "list"@
    }
}

pub open spec fn is_known_key(s: Seq<char>) -> bool {
    exists|k: int| 0 <= k < 8 && s == #[trigger] known_key(k)
}

/// The tally after a value: a list of objects counts as a list of items, any
/// other list is looked into, and an object is looked into under the usual
/// names first and, while nothing has been counted, in its other lists.
pub open spec fn walked(v: JsonView, t: TallyView) -> TallyView
    decreases v, 1nat, 0nat,
{
    match v {
        JsonView::Array(a) => {
            let objects = objects_in(a);
            if objects.len() > 0 {
                TallyView {
                    count: capped(t.count + objects.len()),
                    titles: with_titles(t.titles, objects),
                }
            } else {
                walked_items(v, a.len() as int, t)
            }
        },
        JsonView::Object(o) => {
            let known = walked_known(v, 8, t);
            if known.count == 0 {
                walked_others(v, o.len() as int, known)
            } else {
                known
            }
        },
        _ => t,
    }
}

/// The tally after the first `n` items of a list.
pub open spec fn walked_items(v: JsonView, n: int, t: TallyView) -> TallyView
    decreases v, 0nat, n,
{
    if !(v is Array) || n <= 0 || n > v->Array_0.len() {
        t
    } else {
        walked(v->Array_0[n - 1], walked_items(v, n - 1, t))
    }
}

/// The tally after the first `n` of the usual names.
pub open spec fn walked_known(v: JsonView, n: int, t: TallyView) -> TallyView
    decreases v, 0nat, n,
{
    if !(v is Object) || n <= 0 {
        t
    } else {
        let before = walked_known(v, n - 1, t);
        proof {
            json::key_from_is_first(v->Object_0, known_key(n - 1), 0);
        }
        match json::key_from(v->Object_0, known_key(n - 1), 0) {
            Some(i) => walked(v->Object_0[i].1, before),
            None => before,
        }
    }
}

/// The tally after the lists among the first `n` entries that have none of the
/// usual names.
pub open spec fn walked_others(v: JsonView, n: int, t: TallyView) -> TallyView
    decreases v, 0nat, n,
{
    if !(v is Object) || n <= 0 || n > v->Object_0.len() {
        t
    } else {
        let before = walked_others(v, n - 1, t);
        let e = v->Object_0[n - 1];
        if is_known_key(e.0) || !(e.1 is Array) {
            before
        } else {
            walked(e.1, before)
        }
    }
}

fn push_title(titles: &mut Vec<String>, item: &Json)
    ensures
        text::views(final(titles)@) == with_title(text::views(old(titles)@), item@),
{
    if titles.len() >= MAX_TITLES {
        return ;
    }
    let found = match item.get("title") {
        Some(v) => Some(v),
        None => match item.get("name") {
            Some(v) => Some(v),
            None => item.get("subject_title"),
        },
    };
    let t = match found {
        Some(v) => match v.as_str() {
            Some(s) => text::trim(s),
            None => String::new(),
        },
        None => String::new(),
    };
    assert(t@ == title_of(item@));
    if !t.as_str().is_empty() && !text::list_contains(titles, t.as_str()) {
        let cut = text::take_chars(t.as_str(), MAX_TITLE_CHARS);
        proof {
            text::views_push(titles@, cut);
        }
        titles.push(cut);
    }
}

fn push_subject_title(titles: &mut Vec<String>, item: &Json)
    ensures
        text::views(final(titles)@) == with_title(text::views(old(titles)@), subject_of(item@)),
{
    match item.get("node") {
        Some(node) => push_title(titles, node),
        None => match item.get("subject") {
            Some(subject) => push_title(titles, subject),
            None => push_title(titles, item),
        },
    }
}

fn known_key_text(k: usize) -> (r: &'static str)
    ensures
        r@ == known_key(k as int),
{
    if k == 0 {
        "games"
    } else if k == 1 {
        "anime"
    } else if k == 2 {
        "manga"
    } else if k == 3 {
        "music"
    } else if k == 4 {
        "collection"
    } else if k == 5 {
        "items"
    } else if k == 6 {
        "data"
    } else {
        "list"
    }
}

fn key_is_known(key: &str) -> (r: bool)
    ensures
        r == is_known_key(key@),
{
    let mut k: usize = 0;
    while k < 8
        invariant
            k <= 8,
            forall|j: int| 0 <= j < k ==> key@ != #[trigger] known_key(j),
        decreases 8 - k,
    {
        if text::eq(key, known_key_text(k)) {
            assert(key@ == known_key(k as int));
            return true;
        }
        k = k + 1;
    }
    false
}

fn walk(v: &Json, t: &mut Tally)
    ensures
        final(t)@ == walked(v@, old(t)@),
    decreases v,
{
    match v {
        Json::Array(a) => walk_array(v, a, t),
        Json::Object(o) => walk_object(v, o, t),
        _ => {},
    }
}

fn walk_array(v: &Json, a: &Vec<Json>, t: &mut Tally)
    requires
        *v == Json::Array(*a),
    ensures
        final(t)@ == walked(v@, old(t)@),
    decreases v, 0int,
{
    let ghost before = t@;
    let ghost list = json::items(a@);
    let ghost is_object = |v: JsonView| v is Object;
    let mut titles: Vec<String> = text::clone_list(&t.titles);
    let mut count: usize = 0;
    let mut i: usize = 0;
    assert(list.take(0) =~= Seq::empty());
    assert(objects_in(list.take(0)) =~= Seq::empty()) by {
        reveal(Seq::filter);
    }
    while i < a.len()
        invariant
            i <= a@.len(),
            list == json::items(a@),
            is_object == (|v: JsonView| v is Object),
            count == objects_in(list.take(i as int)).len(),
            count <= i,
            text::views(titles@) == with_titles(before.titles, objects_in(list.take(i as int))),
        decreases a@.len() - i,
    {
        proof {
            reveal(Seq::filter);
            assert(list.take(i + 1).drop_last() =~= list.take(i as int));
            assert(list.take(i + 1).last() == a@[i as int]@);
        }
        if a[i].is_object() {
            assert(objects_in(list.take(i + 1)) == objects_in(list.take(i as int)).push(
                a@[i as int]@,
            ));
            assert(objects_in(list.take(i + 1)).drop_last() =~= objects_in(list.take(i as int)));
            push_subject_title(&mut titles, &a[i]);
            count = count + 1;
        }
        i = i + 1;
    }
    assert(list.take(a@.len() as int) =~= list);
    if count > 0 {
        t.titles = titles;
        t.count = t.count.saturating_add(count);
        return ;
    }
    let mut k: usize = 0;
    while k < a.len()
        invariant
            k <= a@.len(),
            *v == Json::Array(*a),
            v@ == JsonView::Array(list),
            list == json::items(a@),
            t@ == walked_items(v@, k as int, before),
        decreases a@.len() - k,
    {
        assert(decreases_to!(*v => v->Array_0));
        assert(decreases_to!(a => a[k as int]));
        walk(&a[k], t);
        k = k + 1;
    }
}

fn walk_object(v: &Json, o: &Fields, t: &mut Tally)
    requires
        *v == Json::Object(*o),
    ensures
        final(t)@ == walked(v@, old(t)@),
    decreases v, 0int,
{
    let ghost before = t@;
    let mut k: usize = 0;
    while k < 8
        invariant
            k <= 8,
            *v == Json::Object(*o),
            t@ == walked_known(v@, k as int, before),
        decreases 8 - k,
    {
        if let Some(inner) = v.get(known_key_text(k)) {
            walk(inner, t);
        }
        k = k + 1;
    }
    if t.count == 0 {
        let ghost known = t@;
        let mut i: usize = 0;
        while i < o.len()
            invariant
                i <= o@.len(),
                *v == Json::Object(*o),
                v@ == JsonView::Object(json::entries(o@)),
                t@ == walked_others(v@, i as int, known),
            decreases o@.len() - i,
        {
            if !key_is_known(o[i].0.as_str()) && matches!(o[i].1, Json::Array(_)) {
                assert(decreases_to!(*v => v->Object_0));
                assert(decreases_to!(o => o[i as int]));
                assert(decreases_to!(o[i as int] => o[i as int].1));
                walk(&o[i].1, t);
            }
            i = i + 1;
        }
    }
}

pub open spec fn summary_of(raw: JsonView) -> TallyView {
    walked(raw, TallyView { count: 0, titles: Seq::empty() })
}

/// How many items the raw data of a platform seems to hold, and the titles of
/// up to five of them.
pub fn summarize_library_raw(raw: &Json) -> (r: (usize, Vec<String>))
    ensures
        r.0 == summary_of(raw@).count,
        text::views(r.1@) == summary_of(raw@).titles,
{
    let mut t = Tally { count: 0, titles: Vec::new() };
    assert(t@.titles =~= Seq::empty());
    walk(raw, &mut t);
    (t.count, t.titles)
}

/// At most a few titles, each with some characters but not too many.
pub open spec fn short_titles(titles: Seq<Seq<char>>) -> bool {
    &&& titles.len() <= MAX_TITLES
    &&& forall|i: int|
        0 <= i < titles.len() ==> 0 < (#[trigger] titles[i]).len() <= MAX_TITLE_CHARS
}

proof fn with_titles_stays_short(titles: Seq<Seq<char>>, list: Seq<JsonView>)
    requires
        short_titles(titles),
    ensures
        short_titles(with_titles(titles, list)),
    decreases list.len(),
{
    if list.len() > 0 {
        with_titles_stays_short(titles, list.drop_last());
    }
}

proof fn walk_stays_short(v: JsonView, t: TallyView)
    requires
        short_titles(t.titles),
    ensures
        short_titles(walked(v, t).titles),
    decreases v, 1nat, 0nat,
{
    match v {
        JsonView::Array(a) => {
            with_titles_stays_short(t.titles, objects_in(a));
            walk_items_stays_short(v, a.len() as int, t);
        },
        JsonView::Object(o) => {
            walk_known_stays_short(v, 8, t);
            walk_others_stays_short(v, o.len() as int, walked_known(v, 8, t));
        },
        _ => {},
    }
}

proof fn walk_items_stays_short(v: JsonView, n: int, t: TallyView)
    requires
        short_titles(t.titles),
    ensures
        short_titles(walked_items(v, n, t).titles),
    decreases v, 0nat, n,
{
    if v is Array && 0 < n <= v->Array_0.len() {
        walk_items_stays_short(v, n - 1, t);
        walk_stays_short(v->Array_0[n - 1], walked_items(v, n - 1, t));
    }
}

proof fn walk_known_stays_short(v: JsonView, n: int, t: TallyView)
    requires
        short_titles(t.titles),
    ensures
        short_titles(walked_known(v, n, t).titles),
    decreases v, 0nat, n,
{
    if v is Object && n > 0 {
        walk_known_stays_short(v, n - 1, t);
        json::key_from_is_first(v->Object_0, known_key(n - 1), 0);
        if let Some(i) = json::key_from(v->Object_0, known_key(n - 1), 0) {
            walk_stays_short(v->Object_0[i].1, walked_known(v, n - 1, t));
        }
    }
}

proof fn walk_others_stays_short(v: JsonView, n: int, t: TallyView)
    requires
        short_titles(t.titles),
    ensures
        short_titles(walked_others(v, n, t).titles),
    decreases v, 0nat, n,
{
    if v is Object && 0 < n <= v->Object_0.len() {
        walk_others_stays_short(v, n - 1, t);
        walk_stays_short(v->Object_0[n - 1].1, walked_others(v, n - 1, t));
    }
}

/// However the raw data looks, the account of it stays short: at most five
/// titles, none empty and none over eighty characters.
pub proof fn summary_is_short(raw: JsonView)
    ensures
        short_titles(summary_of(raw).titles),
{
    walk_stays_short(raw, TallyView { count: 0, titles: Seq::empty() });
}

proof fn titles_are_told(titles: Seq<Seq<char>>, list: Seq<JsonView>, i: int)
    requires
        titles.len() <= 5,
        forall|k: int| 0 <= k < titles.len() ==> (#[trigger] titles[k]).len() <= 80,
        0 <= i < list.len(),
    ensures
        with_titles(titles, list).len() <= 5,
        forall|k: int|
            0 <= k < with_titles(titles, list).len() ==> (#[trigger] with_titles(
                titles,
                list,
            )[k]).len() <= 80,
        with_titles(titles, list).len() == 5 || title_of(subject_of(list[i])).len() == 0
            || with_titles(titles, list).contains(
            text::at_most(title_of(subject_of(list[i])), 80),
        ),
    decreases list.len(),
{
    let before = with_titles(titles, list.drop_last());
    let all = with_titles(titles, list);
    if list.len() > 1 {
        if i < list.len() - 1 {
            titles_are_told(titles, list.drop_last(), i);
            assert(list.drop_last()[i] == list[i]);
        } else {
            titles_are_told(titles, list.drop_last(), 0);
        }
    } else {
        assert(list.drop_last().len() == 0);
        assert(before == titles);
    }
    assert forall|k: int| 0 <= k < all.len() implies (#[trigger] all[k]).len() <= 80 by {
        if k < before.len() {
            assert(all[k] == before[k]);
        }
    }
    let t = title_of(subject_of(list[i]));
    if i < list.len() - 1 {
        if before.contains(text::at_most(t, 80)) {
            let k = choose|k: int| 0 <= k < before.len() && before[k] == text::at_most(t, 80);
            assert(all[k] == before[k]);
        }
    } else if before.len() < 5 && t.len() > 0 {
        if before.contains(t) {
            let k = choose|k: int| 0 <= k < before.len() && before[k] == t;
            assert(before[k].len() <= 80);
            assert(text::at_most(t, 80) =~= t);
        } else {
            assert(all.last() == text::at_most(t, 80));
        }
    }
}

/// Of a list of objects each is counted, and each title is told, at most eighty
/// characters of it, until five are.
pub proof fn every_object_is_counted(list: Seq<JsonView>)
    requires
        0 < list.len() <= usize::MAX,
        forall|i: int| 0 <= i < list.len() ==> (#[trigger] list[i]) is Object,
    ensures
        summary_of(JsonView::Array(list)).count == list.len(),
        forall|i: int|
            0 <= i < list.len() ==> summary_of(JsonView::Array(list)).titles.len() == 5
                || title_of(subject_of(#[trigger] list[i])).len() == 0 || summary_of(
                JsonView::Array(list),
            ).titles.contains(text::at_most(title_of(subject_of(list[i])), 80)),
{
    objects_stay(list);
    assert forall|i: int|
        0 <= i < list.len() implies summary_of(JsonView::Array(list)).titles.len() == 5
        || title_of(subject_of(#[trigger] list[i])).len() == 0 || summary_of(
        JsonView::Array(list),
    ).titles.contains(text::at_most(title_of(subject_of(list[i])), 80)) by {
        titles_are_told(Seq::empty(), list, i);
    }
}

proof fn objects_stay(list: Seq<JsonView>)
    requires
        forall|i: int| 0 <= i < list.len() ==> (#[trigger] list[i]) is Object,
    ensures
        objects_in(list) == list,
    decreases list.len(),
{
    reveal(Seq::filter);
    if list.len() > 0 {
        objects_stay(list.drop_last());
        assert(list.drop_last().push(list.last()) =~= list);
    }
}

/// The title of an item is its title; of one without, its name; of one without
/// either, that of its subject. It is told without the space around it.
pub proof fn items_are_titled(item: JsonView, title: Seq<char>)
    ensures
        item.get("title"@) == Some(JsonView::Str(title)) ==> title_of(item) == text::trimmed(title),
        item.get("title"@) is None && item.get("name"@) == Some(JsonView::Str(title)) ==> title_of(
            item,
        ) == text::trimmed(title),
        item.get("title"@) is None && item.get("name"@) is None && item.get("subject_title"@)
            == Some(JsonView::Str(title)) ==> title_of(item) == text::trimmed(title),
        forall|inner: JsonView|
            item.get("node"@) == Some(inner) ==> #[trigger] subject_of(item) == inner,
{
}

/// A list under a key that such data is known by is told as the list alone would
/// be.
pub proof fn known_lists_are_told_as_themselves(key: Seq<char>, list: Seq<JsonView>)
    requires
        key == "games"@ || key == "anime"@ || key == "manga"@ || key == "music"@ || key
            == "collection"@ || key == "items"@ || key == "data"@ || key == "list"@,
    ensures
        summary_of(json::empty().with(key, JsonView::Array(list))) == summary_of(
            JsonView::Array(list),
        ),
{
    reveal_strlit("games");
    reveal_strlit("anime");
    reveal_strlit("manga");
    reveal_strlit("music");
    reveal_strlit("collection");
    reveal_strlit("items");
    reveal_strlit("data");
    reveal_strlit("list");
    assert("games"@.len() == 5 && "anime"@.len() == 5 && "manga"@.len() == 5 && "music"@.len() == 5
        && "collection"@.len() == 10 && "items"@.len() == 5 && "data"@.len() == 4 && "list"@.len()
        == 4);
    assert("games"@[0] == 'g' && "anime"@[0] == 'a' && "manga"@[0] == 'm' && "music"@[0] == 'm'
        && "manga"@[1] == 'a' && "music"@[1] == 'u' && "items"@[0] == 'i' && "data"@[0] == 'd'
        && "list"@[0] == 'l');
    let o = seq![(key, JsonView::Array(list))];
    let v = JsonView::Object(o);
    assert(json::empty().with(key, JsonView::Array(list)) == v) by {
        assert(Seq::<(Seq<char>, JsonView)>::empty().push((key, JsonView::Array(list))) =~= o);
    }
    let none = TallyView { count: 0, titles: Seq::empty() };
    let k = if key == "games"@ {
        0int
    } else if key == "anime"@ {
        1
    } else if key == "manga"@ {
        2
    } else if key == "music"@ {
        3
    } else if key == "collection"@ {
        4
    } else if key == "items"@ {
        5
    } else if key == "data"@ {
        6
    } else {
        7
    };
    assert(key == known_key(k));
    only_one_key_is_walked(v, key, k, 8, none);
    assert(is_known_key(key));
    let told = walked(JsonView::Array(list), none);
    assert(o[0] == (key, JsonView::Array(list)));
    assert(walked_known(v, 8, none) == told);
    assert(walked_others(v, 0, told) == told);
    assert(walked_others(v, 1, told) == told);
    assert(walked(v, none) == told);
}

proof fn only_one_key_is_walked(v: JsonView, key: Seq<char>, k: int, n: int, t: TallyView)
    requires
        v is Object,
        v->Object_0.len() == 1,
        v->Object_0[0].0 == key,
        0 <= k < 8,
        0 <= n <= 8,
        forall|j: int| 0 <= j < 8 ==> (#[trigger] known_key(j) == key <==> j == k),
    ensures
        walked_known(v, n, t) == if n <= k {
            t
        } else {
            walked(v->Object_0[0].1, t)
        },
    decreases n,
{
    if n > 0 {
        only_one_key_is_walked(v, key, k, n - 1, t);
        reveal_with_fuel(json::key_from, 2);
        assert(known_key(n - 1) == key <==> n - 1 == k);
    }
}

} // verus!
