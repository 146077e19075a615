//! Feeds are unique by their normalized address. Where several rows stand for
//! one feed, they are merged into one without losing anything a reader did.
use crate::json;
use crate::json::Json;
use crate::text;
use vstd::prelude::*;

verus! {

/// The width of the category column.
pub const CATEGORY_MAX_CHARS: usize = 100;

#[derive(Clone, Copy, Debug, PartialEq, Eq, Structural)]
pub enum SourceType {
    Note,
    Rss,
    Phantasiai,
    Link,
}

impl SourceType {
    /// How the type is shown beside an article.
    pub open spec fn label_of(self) -> Seq<char> {
        match self {
            SourceType::Note => "Note"@,
            SourceType::Rss => "Rss"@,
            SourceType::Phantasiai => "Phantasiai"@,
            SourceType::Link => "Link"@,
        }
    }

    pub fn label(self) -> (r: &'static str)
        ensures
            r@ == self.label_of(),
    {
        match self {
            SourceType::Note => "Note",
            SourceType::Rss => "Rss",
            SourceType::Phantasiai => "Phantasiai",
            SourceType::Link => "Link",
        }
    }
}

/// A feed as it is stored. Times are counted from one fixed moment.
pub struct FeedSource {
    pub id: i32,
    pub source_type: SourceType,
    pub feed_type: String,
    pub category: Option<String>,
    pub icon: Option<String>,
    pub description: Option<String>,
    pub site_url: Option<String>,
    pub card_size: Option<String>,
    pub theme_color: Option<String>,
    pub sort_order: Option<i32>,
    pub ai_style_tags: Option<Json>,
    pub extra_config: Option<Json>,
    pub rsshub_route: Option<String>,
    pub enabled: bool,
    pub update_interval: i32,
    pub admin_only: bool,
    pub last_fetched_at: Option<i64>,
    pub last_success_at: Option<i64>,
    pub created_at: i64,
}

// ---------------------------------------------------------------------------
// Rounds
// ---------------------------------------------------------------------------
/// How often the duplicates that come up meanwhile are merged.
pub const DEDUPE_ROUNDS: usize = 3;

/// What follows when the duplicates have been merged and looked for again.
#[derive(Clone, Copy, Debug, PartialEq, Eq, Structural)]
pub enum RoundEnd {
    /// There are none: addresses can be made unique.
    MakeUnique,
    /// Some have come up: they are merged, too.
    Again,
    /// They keep coming up.
    GiveUp,
}

/// What follows the round with this number, counted from one.
pub fn after_round(round: usize, duplicates_left: bool) -> (r: RoundEnd)
    ensures
        r == (if !duplicates_left {
            RoundEnd::MakeUnique
        } else if round < DEDUPE_ROUNDS {
            RoundEnd::Again
        } else {
            RoundEnd::GiveUp
        }),
{
    if !duplicates_left {
        RoundEnd::MakeUnique
    } else if round < DEDUPE_ROUNDS {
        RoundEnd::Again
    } else {
        RoundEnd::GiveUp
    }
}

// ---------------------------------------------------------------------------
// The survivor
// ---------------------------------------------------------------------------
pub open spec fn tier(t: SourceType) -> int {
    match t {
        SourceType::Note => 0,
        SourceType::Rss | SourceType::Phantasiai => 1,
        SourceType::Link => 2,
    }
}

/// Notes before feeds that are fetched before mere links, and then by age.
pub open spec fn ranks_before(a: FeedSource, b: FeedSource) -> bool {
    tier(a.source_type) < tier(b.source_type) || (tier(a.source_type) == tier(b.source_type)
        && a.id < b.id)
}

pub fn survivor_rank(source: &FeedSource) -> (r: (u8, i32))
    ensures
        r.0 == tier(source.source_type),
        r.1 == source.id,
        r.0 == 0 <==> source.source_type is Note,
        r.0 == 2 <==> source.source_type is Link,
{
    let tier: u8 = match source.source_type {
        SourceType::Note => 0,
        SourceType::Rss | SourceType::Phantasiai => 1,
        SourceType::Link => 2,
    };
    (tier, source.id)
}

/// The position of the row that the others are merged into: the first of those
/// that no other ranks before.
pub fn survivor_position(rows: &Vec<FeedSource>) -> (r: usize)
    requires
        rows@.len() > 0,
    ensures
        r < rows@.len(),
        forall|i: int| 0 <= i < rows@.len() ==> !ranks_before(#[trigger] rows@[i], rows@[r as int]),
        forall|i: int| 0 <= i < r ==> ranks_before(rows@[r as int], #[trigger] rows@[i]),
        (exists|i: int| 0 <= i < rows@.len() && (#[trigger] rows@[i]).source_type is Note)
            ==> rows@[r as int].source_type is Note,
        rows@[r as int].source_type is Link ==> (forall|i: int|
            0 <= i < rows@.len() ==> (#[trigger] rows@[i]).source_type is Link),
{
    let mut best: usize = 0;
    let mut i: usize = 1;
    while i < rows.len()
        invariant
            best < i <= rows@.len(),
            forall|k: int|
                0 <= k < i ==> !ranks_before(#[trigger] rows@[k], rows@[best as int]),
            forall|k: int|
                0 <= k < best ==> ranks_before(rows@[best as int], #[trigger] rows@[k]),
        decreases rows@.len() - i,
    {
        let a = survivor_rank(&rows[i]);
        let b = survivor_rank(&rows[best]);
        if a.0 < b.0 || (a.0 == b.0 && a.1 < b.1) {
            best = i;
        }
        i = i + 1;
    }
    best
}

// ---------------------------------------------------------------------------
// Categories
// ---------------------------------------------------------------------------
/// The names after the parts of one more category: new ones, trimmed, that are
/// not empty.
pub open spec fn add_names(names: Seq<Seq<char>>, parts: Seq<Seq<char>>) -> Seq<Seq<char>>
    decreases parts.len(),
{
    if parts.len() == 0 {
        names
    } else {
        let before = add_names(names, parts.drop_last());
        let name = text::trimmed(parts.last());
        if name.len() == 0 || before.contains(name) {
            before
        } else {
            before.push(name)
        }
    }
}

pub open spec fn category_names(categories: Seq<Seq<char>>) -> Seq<Seq<char>>
    decreases categories.len(),
{
    if categories.len() == 0 {
        Seq::empty()
    } else {
        add_names(category_names(categories.drop_last()), text::split_on(categories.last(), ','))
    }
}

/// The first category that is not blank.
pub open spec fn first_filled(categories: Seq<Seq<char>>, i: int) -> Option<Seq<char>>
    decreases categories.len() - i,
{
    if i < 0 || i >= categories.len() {
        None
    } else if !text::blank(categories[i]) {
        Some(categories[i])
    } else {
        first_filled(categories, i + 1)
    }
}

/// The union of the categories, in order; where it is wider than the column,
/// the first category alone.
pub open spec fn category_union(categories: Seq<Seq<char>>) -> Option<Seq<char>> {
    let names = category_names(categories);
    if names.len() == 0 {
        if categories.len() > 0 {
            Some(categories[0])
        } else {
            None
        }
    } else if text::joined(names, ", "@).len() <= CATEGORY_MAX_CHARS {
        Some(text::joined(names, ", "@))
    } else {
        first_filled(categories, 0)
    }
}

fn push_names(names: &mut Vec<String>, category: &str)
    ensures
        text::views(final(names)@) == add_names(
            text::views(old(names)@),
            text::split_on(category@, ','),
        ),
{
    let parts = text::split(category, ',');
    let ghost all = text::views(parts@);
    let ghost before = text::views(names@);
    let mut i: usize = 0;
    assert(all.take(0) =~= Seq::empty());
    while i < parts.len()
        invariant
            i <= parts@.len(),
            all == text::views(parts@),
            text::views(names@) == add_names(before, all.take(i as int)),
        decreases parts@.len() - i,
    {
        assert(all.take(i + 1).drop_last() =~= all.take(i as int));
        let name = text::trim(parts[i].as_str());
        if !name.as_str().is_empty() && !text::list_contains(names, name.as_str()) {
            proof {
                text::views_push(names@, name);
            }
            names.push(name);
        }
        i = i + 1;
    }
    assert(all.take(parts@.len() as int) =~= all);
}

#[verifier::loop_isolation(false)]
pub fn merged_category(categories: &Vec<String>) -> (r: Option<String>)
    ensures
        text::opt_view(r) == category_union(text::views(categories@)),
{
    let ghost all = text::views(categories@);
    let mut names: Vec<String> = Vec::new();
    let mut i: usize = 0;
    assert(all.take(0) =~= Seq::empty());
    assert(text::views(names@) =~= Seq::empty());
    while i < categories.len()
        invariant
            i <= categories@.len(),
            all == text::views(categories@),
            text::views(names@) == category_names(all.take(i as int)),
        decreases categories@.len() - i,
    {
        assert(all.take(i + 1).drop_last() =~= all.take(i as int));
        push_names(&mut names, categories[i].as_str());
        i = i + 1;
    }
    assert(all.take(categories@.len() as int) =~= all);
    if names.len() == 0 {
        return if categories.len() > 0 {
            Some(categories[0].clone())
        } else {
            None
        };
    }
    let joined = text::join(&names, ", ");
    if text::char_count(joined.as_str()) <= CATEGORY_MAX_CHARS {
        return Some(joined);
    }
    let mut k: usize = 0;
    while k < categories.len()
        invariant
            k <= categories@.len(),
            all == text::views(categories@),
            first_filled(all, 0) == first_filled(all, k as int),
        decreases categories@.len() - k,
    {
        if !text::is_blank(categories[k].as_str()) {
            return Some(categories[k].clone());
        }
        k = k + 1;
    }
    None
}

/// The union of categories fits its column, wherever each category does.
pub proof fn category_union_fits(categories: Seq<Seq<char>>)
    requires
        forall|i: int|
            0 <= i < categories.len() ==> (#[trigger] categories[i]).len() <= CATEGORY_MAX_CHARS,
    ensures
        category_union(categories) matches Some(c) ==> c.len() <= CATEGORY_MAX_CHARS,
{
    first_filled_is_one(categories, 0);
}

proof fn first_filled_is_one(categories: Seq<Seq<char>>, i: int)
    requires
        0 <= i,
    ensures
        first_filled(categories, i) matches Some(c) ==> exists|k: int|
            0 <= k < categories.len() && #[trigger] categories[k] == c,
    decreases categories.len() - i,
{
    if i < categories.len() && text::blank(categories[i]) {
        first_filled_is_one(categories, i + 1);
    }
}

// ---------------------------------------------------------------------------
// Settings
// ---------------------------------------------------------------------------
#[derive(Clone, Copy, PartialEq, Eq, Structural)]
enum TextField {
    Icon,
    Description,
    SiteUrl,
    CardSize,
    ThemeColor,
    RsshubRoute,
}

impl FeedSource {
    spec fn field(self, f: TextField) -> Option<Seq<char>> {
        match f {
            TextField::Icon => text::opt_view(self.icon),
            TextField::Description => text::opt_view(self.description),
            TextField::SiteUrl => text::opt_view(self.site_url),
            TextField::CardSize => text::opt_view(self.card_size),
            TextField::ThemeColor => text::opt_view(self.theme_color),
            TextField::RsshubRoute => text::opt_view(self.rsshub_route),
        }
    }

    fn text_field(&self, f: TextField) -> (r: &Option<String>)
        ensures
            text::opt_view(*r) == self.field(f),
    {
        match f {
            TextField::Icon => &self.icon,
            TextField::Description => &self.description,
            TextField::SiteUrl => &self.site_url,
            TextField::CardSize => &self.card_size,
            TextField::ThemeColor => &self.theme_color,
            TextField::RsshubRoute => &self.rsshub_route,
        }
    }
}

/// The first value that is there, at or after position `i`.
pub open spec fn first_some<T>(values: Seq<Option<T>>, i: int) -> Option<T>
    decreases values.len() - i,
{
    if i < 0 || i >= values.len() {
        None
    } else if values[i] is Some {
        values[i]
    } else {
        first_some(values, i + 1)
    }
}

/// The survivor's own value, else the first that one of the others has.
pub open spec fn filled<T>(own: Option<T>, others: Seq<Option<T>>) -> Option<T> {
    if own is Some {
        own
    } else {
        first_some(others, 0)
    }
}

#[verifier::loop_isolation(false)]
fn fill_text(survivor: &FeedSource, losers: &Vec<FeedSource>, f: TextField) -> (r: Option<String>)
    ensures
        text::opt_view(r) == filled(
            survivor.field(f),
            losers@.map_values(|s: FeedSource| s.field(f)),
        ),
{
    if let Some(own) = survivor.text_field(f) {
        return Some(own.clone());
    }
    let ghost others = losers@.map_values(|s: FeedSource| s.field(f));
    let mut i: usize = 0;
    while i < losers.len()
        invariant
            i <= losers@.len(),
            others == losers@.map_values(|s: FeedSource| s.field(f)),
            first_some(others, 0) == first_some(others, i as int),
        decreases losers@.len() - i,
    {
        if let Some(value) = losers[i].text_field(f) {
            return Some(value.clone());
        }
        i = i + 1;
    }
    None
}

/// A value that only means something for the same kind of feed.
pub open spec fn where_same<T>(kind: Seq<char>, s: FeedSource, value: Option<T>) -> Option<T> {
    if s.feed_type@ == kind {
        value
    } else {
        None
    }
}

#[verifier::loop_isolation(false)]
fn fill_route(survivor: &FeedSource, losers: &Vec<FeedSource>) -> (r: Option<String>)
    ensures
        text::opt_view(r) == filled(
            text::opt_view(survivor.rsshub_route),
            losers@.map_values(
                |s: FeedSource|
                    where_same(survivor.feed_type@, s, text::opt_view(s.rsshub_route)),
            ),
        ),
{
    if let Some(own) = &survivor.rsshub_route {
        return Some(own.clone());
    }
    let ghost others = losers@.map_values(
        |s: FeedSource| where_same(survivor.feed_type@, s, text::opt_view(s.rsshub_route)),
    );
    let mut i: usize = 0;
    while i < losers.len()
        invariant
            i <= losers@.len(),
            others == losers@.map_values(
                |s: FeedSource| where_same(survivor.feed_type@, s, text::opt_view(s.rsshub_route)),
            ),
            first_some(others, 0) == first_some(others, i as int),
        decreases losers@.len() - i,
    {
        if text::eq(losers[i].feed_type.as_str(), survivor.feed_type.as_str()) {
            if let Some(value) = &losers[i].rsshub_route {
                return Some(value.clone());
            }
        }
        i = i + 1;
    }
    None
}

#[verifier::loop_isolation(false)]
fn fill_config(survivor: &FeedSource, losers: &Vec<FeedSource>) -> (r: Option<Json>)
    ensures
        json::opt_json_view(r) == filled(
            json::opt_json_view(survivor.extra_config),
            losers@.map_values(
                |s: FeedSource|
                    where_same(survivor.feed_type@, s, json::opt_json_view(s.extra_config)),
            ),
        ),
{
    if let Some(own) = &survivor.extra_config {
        return Some(own.copy());
    }
    let ghost others = losers@.map_values(
        |s: FeedSource| where_same(survivor.feed_type@, s, json::opt_json_view(s.extra_config)),
    );
    let mut i: usize = 0;
    while i < losers.len()
        invariant
            i <= losers@.len(),
            others == losers@.map_values(
                |s: FeedSource|
                    where_same(survivor.feed_type@, s, json::opt_json_view(s.extra_config)),
            ),
            first_some(others, 0) == first_some(others, i as int),
        decreases losers@.len() - i,
    {
        if text::eq(losers[i].feed_type.as_str(), survivor.feed_type.as_str()) {
            if let Some(value) = &losers[i].extra_config {
                return Some(value.copy());
            }
        }
        i = i + 1;
    }
    None
}

#[verifier::loop_isolation(false)]
fn fill_tags(survivor: &FeedSource, losers: &Vec<FeedSource>) -> (r: Option<Json>)
    ensures
        json::opt_json_view(r) == filled(
            json::opt_json_view(survivor.ai_style_tags),
            losers@.map_values(|s: FeedSource| json::opt_json_view(s.ai_style_tags)),
        ),
{
    if let Some(own) = &survivor.ai_style_tags {
        return Some(own.copy());
    }
    let ghost others = losers@.map_values(|s: FeedSource| json::opt_json_view(s.ai_style_tags));
    let mut i: usize = 0;
    while i < losers.len()
        invariant
            i <= losers@.len(),
            others == losers@.map_values(|s: FeedSource| json::opt_json_view(s.ai_style_tags)),
            first_some(others, 0) == first_some(others, i as int),
        decreases losers@.len() - i,
    {
        if let Some(value) = &losers[i].ai_style_tags {
            return Some(value.copy());
        }
        i = i + 1;
    }
    None
}

#[verifier::loop_isolation(false)]
fn fill_order(survivor: &FeedSource, losers: &Vec<FeedSource>) -> (r: Option<i32>)
    ensures
        r == filled(survivor.sort_order, losers@.map_values(|s: FeedSource| s.sort_order)),
{
    if survivor.sort_order.is_some() {
        return survivor.sort_order;
    }
    let ghost others = losers@.map_values(|s: FeedSource| s.sort_order);
    let mut i: usize = 0;
    while i < losers.len()
        invariant
            i <= losers@.len(),
            others == losers@.map_values(|s: FeedSource| s.sort_order),
            first_some(others, 0) == first_some(others, i as int),
        decreases losers@.len() - i,
    {
        if losers[i].sort_order.is_some() {
            return losers[i].sort_order;
        }
        i = i + 1;
    }
    None
}

/// All rows of a group, the survivor first.
pub open spec fn group(survivor: FeedSource, losers: Seq<FeedSource>) -> Seq<FeedSource> {
    seq![survivor] + losers
}

pub open spec fn given_categories(rows: Seq<FeedSource>) -> Seq<Seq<char>>
    decreases rows.len(),
{
    if rows.len() == 0 {
        Seq::empty()
    } else {
        let before = given_categories(rows.drop_last());
        match rows.last().category {
            Some(c) => before.push(c@),
            None => before,
        }
    }
}

/// The shortest interval that is one, else the survivor's.
pub open spec fn is_merged_interval(survivor: FeedSource, losers: Seq<FeedSource>, n: int) -> bool {
    let rows = group(survivor, losers);
    if exists|i: int| 0 <= i < rows.len() && (#[trigger] rows[i]).update_interval > 0 {
        &&& n > 0
        &&& exists|i: int| 0 <= i < rows.len() && (#[trigger] rows[i]).update_interval == n
        &&& forall|i: int|
            0 <= i < rows.len() && (#[trigger] rows[i]).update_interval > 0 ==> n
                <= rows[i].update_interval
    } else {
        n == survivor.update_interval
    }
}

pub open spec fn later(a: Option<i64>, b: Option<i64>) -> Option<i64> {
    match (a, b) {
        (Some(x), Some(y)) => Some(
            if x >= y {
                x
            } else {
                y
            },
        ),
        (Some(x), None) => Some(x),
        (None, y) => y,
    }
}

pub fn later_of(a: Option<i64>, b: Option<i64>) -> (r: Option<i64>)
    ensures
        r == later(a, b),
{
    match (a, b) {
        (Some(x), Some(y)) => Some(
            if x >= y {
                x
            } else {
                y
            },
        ),
        (Some(x), None) => Some(x),
        (None, y) => y,
    }
}

/// The latest fetch of a group; `None` where there was none.
pub open spec fn latest_fetch(rows: Seq<FeedSource>) -> Option<i64>
    decreases rows.len(),
{
    if rows.len() == 0 {
        None
    } else {
        later(latest_fetch(rows.drop_last()), rows.last().last_fetched_at)
    }
}

pub open spec fn latest_success(rows: Seq<FeedSource>) -> Option<i64>
    decreases rows.len(),
{
    if rows.len() == 0 {
        None
    } else {
        later(latest_success(rows.drop_last()), rows.last().last_success_at)
    }
}

/// Whether `merged` has what the rows of its group had: the survivor's settings
/// where it has them, else the first that another has; fetched as long as one
/// was fetched, as often as the most frequent; hidden as soon as one was hidden.
pub open spec fn is_merge_of(
    merged: FeedSource,
    survivor: FeedSource,
    losers: Seq<FeedSource>,
) -> bool {
    let rows = group(survivor, losers);
    &&& merged.id == survivor.id
    &&& merged.source_type == survivor.source_type
    &&& merged.feed_type@ == survivor.feed_type@
    &&& text::opt_view(merged.category) == category_union(given_categories(rows))
    &&& text::opt_view(merged.icon) == filled(
        text::opt_view(survivor.icon),
        losers.map_values(|s: FeedSource| text::opt_view(s.icon)),
    )
    &&& text::opt_view(merged.description) == filled(
        text::opt_view(survivor.description),
        losers.map_values(|s: FeedSource| text::opt_view(s.description)),
    )
    &&& text::opt_view(merged.site_url) == filled(
        text::opt_view(survivor.site_url),
        losers.map_values(|s: FeedSource| text::opt_view(s.site_url)),
    )
    &&& text::opt_view(merged.card_size) == filled(
        text::opt_view(survivor.card_size),
        losers.map_values(|s: FeedSource| text::opt_view(s.card_size)),
    )
    &&& text::opt_view(merged.theme_color) == filled(
        text::opt_view(survivor.theme_color),
        losers.map_values(|s: FeedSource| text::opt_view(s.theme_color)),
    )
    &&& merged.sort_order == filled(
        survivor.sort_order,
        losers.map_values(|s: FeedSource| s.sort_order),
    )
    &&& json::opt_json_view(merged.ai_style_tags) == filled(
        json::opt_json_view(survivor.ai_style_tags),
        losers.map_values(|s: FeedSource| json::opt_json_view(s.ai_style_tags)),
    )
    &&& json::opt_json_view(merged.extra_config) == filled(
        json::opt_json_view(survivor.extra_config),
        losers.map_values(
            |s: FeedSource|
                where_same(survivor.feed_type@, s, json::opt_json_view(s.extra_config)),
        ),
    )
    &&& text::opt_view(merged.rsshub_route) == filled(
        text::opt_view(survivor.rsshub_route),
        losers.map_values(
            |s: FeedSource| where_same(survivor.feed_type@, s, text::opt_view(s.rsshub_route)),
        ),
    )
    &&& merged.enabled == exists|i: int| 0 <= i < rows.len() && (#[trigger] rows[i]).enabled
    &&& merged.admin_only == exists|i: int| 0 <= i < rows.len() && (#[trigger] rows[i]).admin_only
    &&& is_merged_interval(survivor, losers, merged.update_interval as int)
    &&& merged.last_fetched_at == latest_fetch(rows)
    &&& merged.last_success_at == latest_success(rows)
    &&& exists|i: int| 0 <= i < rows.len() && (#[trigger] rows[i]).created_at == merged.created_at
    &&& forall|i: int| 0 <= i < rows.len() ==> merged.created_at <= (#[trigger] rows[i]).created_at
}

struct Totals {
    enabled: bool,
    admin_only: bool,
    interval: i32,
    fetched: Option<i64>,
    success: Option<i64>,
    created: i64,
    categories: Vec<String>,
}

/// What the settings that combine all rows come to.
spec fn totals_of(t: Totals, survivor: FeedSource, losers: Seq<FeedSource>) -> bool {
    let rows = group(survivor, losers);
    &&& t.enabled == exists|i: int| 0 <= i < rows.len() && (#[trigger] rows[i]).enabled
    &&& t.admin_only == exists|i: int| 0 <= i < rows.len() && (#[trigger] rows[i]).admin_only
    &&& is_merged_interval(survivor, losers, t.interval as int)
    &&& t.fetched == latest_fetch(rows)
    &&& t.success == latest_success(rows)
    &&& text::views(t.categories@) == given_categories(rows)
    &&& exists|i: int| 0 <= i < rows.len() && (#[trigger] rows[i]).created_at == t.created
    &&& forall|i: int| 0 <= i < rows.len() ==> t.created <= (#[trigger] rows[i]).created_at
}

fn totals(survivor: &FeedSource, losers: &Vec<FeedSource>) -> (r: Totals)
    ensures
        totals_of(r, *survivor, losers@),
{
    let mut categories: Vec<String> = Vec::new();
    if let Some(c) = &survivor.category {
        categories.push(c.clone());
    }
    let mut t = Totals {
        enabled: survivor.enabled,
        admin_only: survivor.admin_only,
        interval: survivor.update_interval,
        fetched: survivor.last_fetched_at,
        success: survivor.last_success_at,
        created: survivor.created_at,
        categories,
    };
    proof {
        let one = group(*survivor, losers@.take(0));
        assert(one =~= seq![*survivor]);
        assert(one[0] == *survivor);
        assert(one.drop_last() =~= Seq::empty());
        assert(given_categories(one.drop_last()) == Seq::<Seq<char>>::empty());
        assert(latest_fetch(one.drop_last()) is None);
        assert(latest_success(one.drop_last()) is None);
        assert(text::views(t.categories@) =~= given_categories(one));
    }
    let mut i: usize = 0;
    while i < losers.len()
        invariant
            i <= losers@.len(),
            totals_of(t, *survivor, losers@.take(i as int)),
        decreases losers@.len() - i,
    {
        let row = &losers[i];
        let ghost before = group(*survivor, losers@.take(i as int));
        let ghost after = group(*survivor, losers@.take(i + 1));
        let ghost old_t = t;
        if row.enabled {
            t.enabled = true;
        }
        if row.admin_only {
            t.admin_only = true;
        }
        if row.update_interval > 0 && (t.interval <= 0 || row.update_interval < t.interval) {
            t.interval = row.update_interval;
        }
        t.fetched = later_of(t.fetched, row.last_fetched_at);
        t.success = later_of(t.success, row.last_success_at);
        if row.created_at < t.created {
            t.created = row.created_at;
        }
        if let Some(c) = &row.category {
            let c = c.clone();
            proof {
                text::views_push(t.categories@, c);
            }
            t.categories.push(c);
        }
        proof {
            assert(after =~= before.push(*row));
            assert(after.drop_last() =~= before);
            assert(after.last() == *row);
            assert(after[before.len() as int] == *row);
            assert forall|k: int| 0 <= k < before.len() implies #[trigger] after[k] == before[k] by {}
            assert forall|k: int| 0 <= k < before.len() implies #[trigger] before[k] == after[k] by {}
            let n = t.interval as int;
            if exists|k: int| 0 <= k < after.len() && (#[trigger] after[k]).update_interval > 0 {
                if exists|k: int| 0 <= k < before.len() && (#[trigger] before[k]).update_interval > 0 {
                    let k = choose|k: int|
                        0 <= k < before.len() && (#[trigger] before[k]).update_interval
                            == old_t.interval;
                    assert(after[k].update_interval == old_t.interval);
                } else {
                    assert(row.update_interval > 0);
                    assert(before[0] == *survivor);
                    assert(old_t.interval == survivor.update_interval);
                }
                assert(n > 0);
            } else {
                assert(before[0] == *survivor);
            }
        }
        i = i + 1;
    }
    assert(losers@.take(losers@.len() as int) =~= losers@);
    t
}

/// The survivor with the settings of its group.
pub fn merged_settings(survivor: &FeedSource, losers: &Vec<FeedSource>) -> (r: FeedSource)
    ensures
        is_merge_of(r, *survivor, losers@),
{
    let t = totals(survivor, losers);
    let category = merged_category(&t.categories);
    let icon = fill_text(survivor, losers, TextField::Icon);
    let description = fill_text(survivor, losers, TextField::Description);
    let site_url = fill_text(survivor, losers, TextField::SiteUrl);
    let card_size = fill_text(survivor, losers, TextField::CardSize);
    let theme_color = fill_text(survivor, losers, TextField::ThemeColor);
    proof {
        assert(losers@.map_values(|s: FeedSource| s.field(TextField::Icon)) =~= losers@.map_values(
            |s: FeedSource| text::opt_view(s.icon),
        ));
        assert(losers@.map_values(|s: FeedSource| s.field(TextField::Description))
            =~= losers@.map_values(|s: FeedSource| text::opt_view(s.description)));
        assert(losers@.map_values(|s: FeedSource| s.field(TextField::SiteUrl))
            =~= losers@.map_values(|s: FeedSource| text::opt_view(s.site_url)));
        assert(losers@.map_values(|s: FeedSource| s.field(TextField::CardSize))
            =~= losers@.map_values(|s: FeedSource| text::opt_view(s.card_size)));
        assert(losers@.map_values(|s: FeedSource| s.field(TextField::ThemeColor))
            =~= losers@.map_values(|s: FeedSource| text::opt_view(s.theme_color)));
    }
    FeedSource {
        id: survivor.id,
        source_type: survivor.source_type,
        feed_type: survivor.feed_type.clone(),
        category,
        icon,
        description,
        site_url,
        card_size,
        theme_color,
        sort_order: fill_order(survivor, losers),
        ai_style_tags: fill_tags(survivor, losers),
        extra_config: fill_config(survivor, losers),
        rsshub_route: fill_route(survivor, losers),
        enabled: t.enabled,
        update_interval: t.interval,
        admin_only: t.admin_only,
        last_fetched_at: t.fetched,
        last_success_at: t.success,
        created_at: t.created,
    }
}

/// A merge never shows what one of the rows hid, and never stops fetching what
/// one of them fetched.
pub proof fn merge_keeps_hidden_and_fetched(
    merged: FeedSource,
    survivor: FeedSource,
    losers: Seq<FeedSource>,
    i: int,
)
    requires
        is_merge_of(merged, survivor, losers),
        0 <= i < group(survivor, losers).len(),
    ensures
        group(survivor, losers)[i].admin_only ==> merged.admin_only,
        group(survivor, losers)[i].enabled ==> merged.enabled,
{
}

/// Whether a source is fetched.
pub open spec fn fetched(source: FeedSource) -> bool {
    source.source_type is Rss || source.source_type is Phantasiai
}

/// Which row survives, of a group that stands for one feed: a note if there is one,
/// else a source that is fetched if there is one; and of those of its own kind the
/// one with the smallest number.
pub proof fn notes_survive_feeds_survive_links(rows: Seq<FeedSource>, r: int, k: int)
    requires
        0 <= r < rows.len(),
        0 <= k < rows.len(),
        forall|i: int| 0 <= i < rows.len() ==> !ranks_before(#[trigger] rows[i], rows[r]),
    ensures
        rows[k].source_type is Note ==> rows[r].source_type is Note,
        fetched(rows[k]) ==> rows[r].source_type is Note || fetched(rows[r]),
        (rows[k].source_type is Note && rows[r].source_type is Note) || (fetched(rows[k])
            && fetched(rows[r])) || (rows[k].source_type is Link && rows[r].source_type is Link)
            ==> rows[r].id <= rows[k].id,
{
    assert(!ranks_before(rows[k], rows[r]));
}

/// What is ranked before another is never ranked behind it, and of two rows with
/// different numbers one is ranked before the other.
pub proof fn rows_are_ranked(a: FeedSource, b: FeedSource)
    ensures
        !(ranks_before(a, b) && ranks_before(b, a)),
        a.id != b.id ==> ranks_before(a, b) || ranks_before(b, a),
        a.source_type is Note && b.source_type !is Note ==> ranks_before(a, b),
        fetched(a) && b.source_type is Link ==> ranks_before(a, b),
        a.source_type == b.source_type ==> (ranks_before(a, b) <==> a.id < b.id),
        fetched(a) && fetched(b) ==> (ranks_before(a, b) <==> a.id < b.id),
{
}

/// What the survivor has stays; what it lacks is taken from the first other that has
/// it; only what none has is missing.
pub proof fn what_is_lacking_is_filled<T>(own: Option<T>, others: Seq<Option<T>>, k: int)
    requires
        0 <= k < others.len(),
    ensures
        own is Some ==> filled(own, others) == own,
        own is None && others[k] is Some && (forall|j: int|
            0 <= j < k ==> (#[trigger] others[j]) is None) ==> filled(own, others) == others[k],
        filled(own, others) is None ==> own is None && others[k] is None,
{
    first_some_is_first(others, 0, k);
}

proof fn first_some_is_first<T>(values: Seq<Option<T>>, i: int, k: int)
    requires
        0 <= i <= k < values.len(),
    ensures
        values[k] is Some && (forall|j: int| i <= j < k ==> (#[trigger] values[j]) is None)
            ==> first_some(values, i) == values[k],
        first_some(values, i) is None ==> values[k] is None,
    decreases k - i,
{
    if i < k {
        if values[i] is None {
            first_some_is_first(values, i + 1, k);
        }
    }
}

/// What the merged source has of each setting: the survivor's, where it has one; else
/// that of the first other that has one. What tells how to fetch a feed is taken only
/// from a feed of the same type.
pub proof fn settings_are_the_survivors_or_filled(
    merged: FeedSource,
    survivor: FeedSource,
    losers: Seq<FeedSource>,
    k: int,
)
    requires
        is_merge_of(merged, survivor, losers),
        0 <= k < losers.len(),
    ensures
        merged.id == survivor.id,
        merged.source_type == survivor.source_type,
        survivor.icon is Some ==> text::opt_view(merged.icon) == text::opt_view(survivor.icon),
        survivor.description is Some ==> text::opt_view(merged.description) == text::opt_view(
            survivor.description,
        ),
        survivor.site_url is Some ==> text::opt_view(merged.site_url) == text::opt_view(
            survivor.site_url,
        ),
        survivor.sort_order is Some ==> merged.sort_order == survivor.sort_order,
        survivor.rsshub_route is Some ==> text::opt_view(merged.rsshub_route) == text::opt_view(
            survivor.rsshub_route,
        ),
        survivor.extra_config is Some ==> json::opt_json_view(merged.extra_config)
            == json::opt_json_view(survivor.extra_config),
        losers[k].icon is Some ==> merged.icon is Some,
        losers[k].description is Some ==> merged.description is Some,
        losers[k].site_url is Some ==> merged.site_url is Some,
        losers[k].card_size is Some ==> merged.card_size is Some,
        losers[k].theme_color is Some ==> merged.theme_color is Some,
        losers[k].sort_order is Some ==> merged.sort_order is Some,
        losers[k].ai_style_tags is Some ==> merged.ai_style_tags is Some,
        losers[k].feed_type@ == survivor.feed_type@ && losers[k].rsshub_route is Some
            ==> merged.rsshub_route is Some,
        losers[k].feed_type@ == survivor.feed_type@ && losers[k].extra_config is Some
            ==> merged.extra_config is Some,
        (forall|j: int|
            0 <= j < losers.len() ==> (#[trigger] losers[j]).feed_type@ != survivor.feed_type@)
            ==> text::opt_view(merged.rsshub_route) == text::opt_view(survivor.rsshub_route)
            && json::opt_json_view(merged.extra_config) == json::opt_json_view(
            survivor.extra_config,
        ),
{
    let icons = losers.map_values(|s: FeedSource| text::opt_view(s.icon));
    let descriptions = losers.map_values(|s: FeedSource| text::opt_view(s.description));
    let sites = losers.map_values(|s: FeedSource| text::opt_view(s.site_url));
    let sizes = losers.map_values(|s: FeedSource| text::opt_view(s.card_size));
    let colors = losers.map_values(|s: FeedSource| text::opt_view(s.theme_color));
    let orders = losers.map_values(|s: FeedSource| s.sort_order);
    let tags = losers.map_values(|s: FeedSource| json::opt_json_view(s.ai_style_tags));
    let routes = losers.map_values(
        |s: FeedSource| where_same(survivor.feed_type@, s, text::opt_view(s.rsshub_route)),
    );
    let configs = losers.map_values(
        |s: FeedSource| where_same(survivor.feed_type@, s, json::opt_json_view(s.extra_config)),
    );
    what_is_lacking_is_filled(text::opt_view(survivor.icon), icons, k);
    what_is_lacking_is_filled(text::opt_view(survivor.description), descriptions, k);
    what_is_lacking_is_filled(text::opt_view(survivor.site_url), sites, k);
    what_is_lacking_is_filled(text::opt_view(survivor.card_size), sizes, k);
    what_is_lacking_is_filled(text::opt_view(survivor.theme_color), colors, k);
    what_is_lacking_is_filled(survivor.sort_order, orders, k);
    what_is_lacking_is_filled(json::opt_json_view(survivor.ai_style_tags), tags, k);
    what_is_lacking_is_filled(text::opt_view(survivor.rsshub_route), routes, k);
    what_is_lacking_is_filled(json::opt_json_view(survivor.extra_config), configs, k);
    if forall|j: int|
        0 <= j < losers.len() ==> (#[trigger] losers[j]).feed_type@ != survivor.feed_type@ {
        assert forall|j: int| 0 <= j < routes.len() implies (#[trigger] routes[j]) is None by {
            assert(losers[j].feed_type@ != survivor.feed_type@);
        }
        assert forall|j: int| 0 <= j < configs.len() implies (#[trigger] configs[j]) is None by {
            assert(losers[j].feed_type@ != survivor.feed_type@);
        }
        nothing_is_first(routes, 0);
        nothing_is_first(configs, 0);
    }
}

proof fn nothing_is_first<T>(values: Seq<Option<T>>, i: int)
    requires
        0 <= i,
        forall|j: int| i <= j < values.len() ==> (#[trigger] values[j]) is None,
    ensures
        first_some(values, i) is None,
    decreases values.len() - i,
{
    if i < values.len() {
        assert(values[i] is None);
        nothing_is_first(values, i + 1);
    }
}

/// The merged source was fetched when the one that was fetched last was, and fetched
/// with success likewise; it is as old as the oldest, and is fetched as often as the
/// one that is fetched most often.
pub proof fn times_of_a_merged_source(
    merged: FeedSource,
    survivor: FeedSource,
    losers: Seq<FeedSource>,
    i: int,
)
    requires
        is_merge_of(merged, survivor, losers),
        0 <= i < group(survivor, losers).len(),
    ensures
        group(survivor, losers)[i].last_fetched_at matches Some(t) ==> (
        merged.last_fetched_at matches Some(m) && m >= t),
        group(survivor, losers)[i].last_success_at matches Some(t) ==> (
        merged.last_success_at matches Some(m) && m >= t),
        merged.last_fetched_at is Some ==> exists|j: int|
            0 <= j < group(survivor, losers).len() && (#[trigger] group(
                survivor,
                losers,
            )[j]).last_fetched_at == merged.last_fetched_at,
        merged.last_success_at is Some ==> exists|j: int|
            0 <= j < group(survivor, losers).len() && (#[trigger] group(
                survivor,
                losers,
            )[j]).last_success_at == merged.last_success_at,
        merged.created_at <= group(survivor, losers)[i].created_at,
        group(survivor, losers)[i].update_interval > 0 ==> 0 < merged.update_interval <= group(
            survivor,
            losers,
        )[i].update_interval,
        merged.enabled ==> exists|j: int|
            0 <= j < group(survivor, losers).len() && (#[trigger] group(
                survivor,
                losers,
            )[j]).enabled,
        merged.admin_only ==> exists|j: int|
            0 <= j < group(survivor, losers).len() && (#[trigger] group(
                survivor,
                losers,
            )[j]).admin_only,
{
    latest_is_the_latest(group(survivor, losers), i);
}

proof fn latest_is_the_latest(rows: Seq<FeedSource>, i: int)
    ensures
        0 <= i < rows.len() ==> (rows[i].last_fetched_at matches Some(t) ==> (latest_fetch(
            rows,
        ) matches Some(m) && m >= t)) && (rows[i].last_success_at matches Some(t) ==> (
        latest_success(rows) matches Some(m) && m >= t)),
        latest_fetch(rows) is Some ==> exists|j: int|
            0 <= j < rows.len() && (#[trigger] rows[j]).last_fetched_at == latest_fetch(rows),
        latest_success(rows) is Some ==> exists|j: int|
            0 <= j < rows.len() && (#[trigger] rows[j]).last_success_at == latest_success(rows),
    decreases rows.len(),
{
    if rows.len() > 0 {
        let front = rows.drop_last();
        latest_is_the_latest(front, i);
        let last = rows[rows.len() - 1];
        if latest_fetch(front) is Some && latest_fetch(rows) == latest_fetch(front) {
            let j = choose|j: int|
                0 <= j < front.len() && (#[trigger] front[j]).last_fetched_at == latest_fetch(
                    front,
                );
            assert(rows[j] == front[j]);
        } else if latest_fetch(rows) is Some {
            assert(rows[rows.len() - 1].last_fetched_at == latest_fetch(rows));
        }
        if latest_success(front) is Some && latest_success(rows) == latest_success(front) {
            let j = choose|j: int|
                0 <= j < front.len() && (#[trigger] front[j]).last_success_at == latest_success(
                    front,
                );
            assert(rows[j] == front[j]);
        } else if latest_success(rows) is Some {
            assert(rows[rows.len() - 1].last_success_at == latest_success(rows));
        }
    }
}

proof fn names_are_added(names: Seq<Seq<char>>, parts: Seq<Seq<char>>)
    requires
        names.no_duplicates(),
    ensures
        add_names(names, parts).no_duplicates(),
        forall|n: Seq<char>| names.contains(n) ==> #[trigger] add_names(names, parts).contains(n),
        forall|i: int|
            0 <= i < parts.len() && text::trimmed(#[trigger] parts[i]).len() > 0 ==> add_names(
                names,
                parts,
            ).contains(text::trimmed(parts[i])),
        forall|n: Seq<char>|
            #[trigger] add_names(names, parts).contains(n) ==> names.contains(n) || (n.len() > 0
                && exists|i: int| 0 <= i < parts.len() && text::trimmed(#[trigger] parts[i]) == n),
    decreases parts.len(),
{
    if parts.len() > 0 {
        let front = parts.drop_last();
        names_are_added(names, front);
        let before = add_names(names, front);
        let all = add_names(names, parts);
        let name = text::trimmed(parts.last());
        assert forall|n: Seq<char>| before.contains(n) implies #[trigger] all.contains(n) by {
            let k = choose|k: int| 0 <= k < before.len() && before[k] == n;
            assert(all[k] == n);
        }
        assert forall|n: Seq<char>| names.contains(n) implies #[trigger] all.contains(n) by {
            assert(before.contains(n));
        }
        if all != before {
            assert(all[before.len() as int] == name);
        }
        assert forall|i: int|
            0 <= i < parts.len() && text::trimmed(#[trigger] parts[i]).len() > 0 implies all.contains(
            text::trimmed(parts[i]),
        ) by {
            if i < front.len() {
                assert(front[i] == parts[i]);
                assert(before.contains(text::trimmed(front[i])));
            }
        }
        assert forall|n: Seq<char>| #[trigger] all.contains(n) implies names.contains(n) || (
        n.len() > 0 && exists|i: int|
            0 <= i < parts.len() && text::trimmed(#[trigger] parts[i]) == n) by {
            let k = choose|k: int| 0 <= k < all.len() && all[k] == n;
            if k < before.len() {
                assert(before[k] == n);
                assert(before.contains(n));
                if !names.contains(n) {
                    let i = choose|i: int|
                        0 <= i < front.len() && text::trimmed(#[trigger] front[i]) == n;
                    assert(parts[i] == front[i]);
                }
            } else {
                assert(text::trimmed(parts[parts.len() - 1]) == n);
            }
        }
    }
}

/// The union of categories holds each name that any of them holds, once and trimmed,
/// and no other.
pub proof fn the_union_holds_every_name(categories: Seq<Seq<char>>, i: int, j: int)
    requires
        0 <= i < categories.len(),
        0 <= j < text::split_on(categories[i], ',').len(),
    ensures
        category_names(categories).no_duplicates(),
        text::trimmed(text::split_on(categories[i], ',')[j]).len() > 0 ==> category_names(
            categories,
        ).contains(text::trimmed(text::split_on(categories[i], ',')[j])),
    decreases categories.len(),
{
    let front = categories.drop_last();
    names_are_distinct(front);
    let parts = text::split_on(categories.last(), ',');
    names_are_added(category_names(front), parts);
    if i < front.len() {
        the_union_holds_every_name(front, i, j);
    }
}

proof fn names_are_distinct(categories: Seq<Seq<char>>)
    ensures
        category_names(categories).no_duplicates(),
    decreases categories.len(),
{
    if categories.len() > 0 {
        names_are_distinct(categories.drop_last());
        names_are_added(
            category_names(categories.drop_last()),
            text::split_on(categories.last(), ','),
        );
    }
}

} // verus!
