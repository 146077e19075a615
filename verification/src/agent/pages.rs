//! What the agent reads of the feed reader's pages: the list of sources, the
//! articles of one source, and one article.
use crate::db::source_merge::SourceType;
use crate::json;
use crate::json::{Json, JsonView};
use crate::text;
use std::collections::HashMap;
use vstd::prelude::*;

verus! {

broadcast use vstd::std_specs::hash::group_hash_axioms;
// ---------------------------------------------------------------------------
// Requests
// ---------------------------------------------------------------------------

/// What a request asks to read.
#[derive(Debug, PartialEq, Eq)]
pub enum PageAsk {
    Sources,
    /// The articles of a source, under this identifier.
    Items(i32),
    /// The article with this guid.
    Article(String),
}

#[derive(Debug, PartialEq, Eq)]
pub struct PageRequest {
    pub ask: PageAsk,
    pub filter: String,
    /// The category as it was written, without the white space around it.
    pub category: Option<String>,
    pub limit: u64,
}

pub enum PageAskView {
    Sources,
    Items(i32),
    Article(Seq<char>),
}

pub struct PageRequestView {
    pub ask: PageAskView,
    pub filter: Seq<char>,
    pub category: Option<Seq<char>>,
    pub limit: u64,
}

impl View for PageAsk {
    type V = PageAskView;

    open spec fn view(&self) -> PageAskView {
        match self {
            PageAsk::Sources => PageAskView::Sources,
            PageAsk::Items(id) => PageAskView::Items(*id),
            PageAsk::Article(guid) => PageAskView::Article(guid@),
        }
    }
}

impl View for PageRequest {
    type V = PageRequestView;

    open spec fn view(&self) -> PageRequestView {
        PageRequestView {
            ask: self.ask@,
            filter: self.filter@,
            category: text::opt_view(self.category),
            limit: self.limit,
        }
    }
}

pub open spec fn text_param(params: JsonView, key: Seq<char>, default: Seq<char>) -> Seq<char> {
    match params.text_at(key) {
        Some(s) => s,
        None => default,
    }
}

pub open spec fn asked_level(params: JsonView) -> Seq<char> {
    text_param(params, "level"@, "sources"@)
}

pub open spec fn asked_category(params: JsonView) -> Option<Seq<char>> {
    match params.text_at("category"@) {
        Some(s) if text::trimmed(s).len() > 0 => Some(text::trimmed(s)),
        _ => None,
    }
}

pub open spec fn asked_limit(params: JsonView) -> u64 {
    match params.get("limit"@) {
        Some(v) => match v.as_unsigned() {
            Some(n) => n,
            None => 20,
        },
        None => 20,
    }
}

/// What is asked for, or why that cannot be read.
pub open spec fn asked_page(params: JsonView) -> Result<PageAskView, Seq<char>> {
    let level = asked_level(params);
    if level == "sources"@ {
        Ok(PageAskView::Sources)
    } else if level == "items"@ {
        match params.int_at("sourceId"@) {
            Some(id) => Ok(PageAskView::Items(id as i64 as i32)),
            None => Err("Missing sourceId for items level"@),
        }
    } else if level == "detail"@ || level == "reader"@ {
        match params.text_at("itemId"@) {
            Some(guid) => Ok(PageAskView::Article(guid)),
            None => Err("Missing itemId for detail/reader level"@),
        }
    } else {
        Err("Unknown phantasi page level: "@ + level)
    }
}

/// Reads a request.
pub fn page_request(params: &Json) -> (r: Result<PageRequest, String>)
    ensures
        match asked_page(params@) {
            Ok(ask) => {
                &&& r matches Ok(request)
                &&& request@.ask == ask
                &&& request@.filter == text_param(params@, "filter"@, "all"@)
                &&& request@.category == asked_category(params@)
                &&& request@.limit == asked_limit(params@)
            },
            Err(e) => {
                &&& r matches Err(message)
                &&& message@ == e
            },
        },
{
    let level: String = match params.str_at("level") {
        Some(s) => s.to_owned(),
        None => "sources".to_owned(),
    };
    let filter: String = match params.str_at("filter") {
        Some(s) => s.to_owned(),
        None => "all".to_owned(),
    };
    let category: Option<String> = match params.str_at("category") {
        Some(s) => {
            let name = text::trim(s);
            if name.as_str().is_empty() {
                None
            } else {
                Some(name)
            }
        },
        None => None,
    };
    let limit: u64 = match params.get("limit") {
        Some(v) => match v.as_u64() {
            Some(n) => n,
            None => 20,
        },
        None => 20,
    };
    let ask = if text::eq(level.as_str(), "sources") {
        PageAsk::Sources
    } else if text::eq(level.as_str(), "items") {
        match params.i64_at("sourceId") {
            Some(id) => PageAsk::Items(id as i32),
            None => return Err("Missing sourceId for items level".to_owned()),
        }
    } else if text::eq(level.as_str(), "detail") || text::eq(level.as_str(), "reader") {
        match params.str_at("itemId") {
            Some(guid) => PageAsk::Article(guid.to_owned()),
            None => return Err("Missing itemId for detail/reader level".to_owned()),
        }
    } else {
        let mut message = "Unknown phantasi page level: ".to_owned();
        message.append(level.as_str());
        return Err(message);
    };
    Ok(PageRequest { ask, filter, category, limit })
}

// ---------------------------------------------------------------------------
// Sources
// ---------------------------------------------------------------------------
/// A source as the list shows it.
pub struct SourceRow {
    pub id: i32,
    pub name: String,
    pub url: Option<String>,
    pub site_url: Option<String>,
    pub icon: Option<String>,
    pub category: Option<String>,
    pub source_type: String,
    pub kind: SourceType,
    /// Whether its category is the one that is asked for, under any of the names
    /// that the category goes by.
    pub category_matches: bool,
    pub item_count: i32,
    pub updated_at: String,
}

/// Whether a source is listed under a category. Links that were filed before
/// there were categories count as friend links.
pub open spec fn listed(s: SourceRow, category: Option<Seq<char>>) -> bool {
    match category {
        None => true,
        Some(cat) => {
            let ok = s.category is Some && s.category_matches;
            if !ok && cat == "友情链接"@ {
                s.kind is Link && (s.category is None || text::blank(s.category->0@))
            } else {
                ok
            }
        },
    }
}

fn is_listed(s: &SourceRow, category: &Option<String>) -> (r: bool)
    ensures
        r == listed(*s, text::opt_view(*category)),
{
    let cat = match category {
        Some(cat) => cat,
        None => return true,
    };
    let ok = s.category.is_some() && s.category_matches;
    if !ok && text::eq(cat.as_str(), "友情链接") {
        matches!(s.kind, SourceType::Link) && match &s.category {
            Some(c) => text::is_blank(c.as_str()),
            None => true,
        }
    } else {
        ok
    }
}

pub open spec fn unread_of(unread: Map<i32, i64>, id: i32) -> int {
    if unread.contains_key(id) {
        unread[id] as int
    } else {
        0
    }
}

pub open spec fn source_json(s: SourceRow, unread: Map<i32, i64>) -> JsonView {
    json::empty().with("id"@, json::int_json(s.id as int)).with(
        "name"@,
        json::text_json(s.name@),
    ).with("url"@, json::opt_text_json(text::opt_view(s.url))).with(
        "siteUrl"@,
        json::opt_text_json(text::opt_view(s.site_url)),
    ).with("icon"@, json::opt_text_json(text::opt_view(s.icon))).with(
        "category"@,
        json::opt_text_json(text::opt_view(s.category)),
    ).with("sourceType"@, json::text_json(s.source_type@)).with(
        "unreadCount"@,
        json::int_json(unread_of(unread, s.id)),
    ).with("itemCount"@, json::int_json(s.item_count as int)).with(
        "lastUpdated"@,
        json::text_json(s.updated_at@),
    )
}

fn show_source(s: &SourceRow, unread: &HashMap<i32, i64>) -> (r: Json)
    ensures
        r@ == source_json(*s, unread@),
{
    let count: i64 = match unread.get(&s.id) {
        Some(n) => *n,
        None => 0,
    };
    json::object().with("id", json::number(s.id as i64)).with(
        "name",
        json::string(s.name.as_str()),
    ).with("url", json::opt_string(&s.url)).with("siteUrl", json::opt_string(&s.site_url)).with(
        "icon",
        json::opt_string(&s.icon),
    ).with("category", json::opt_string(&s.category)).with(
        "sourceType",
        json::string(s.source_type.as_str()),
    ).with("unreadCount", json::number(count)).with(
        "itemCount",
        json::number(s.item_count as i64),
    ).with("lastUpdated", json::string(s.updated_at.as_str()))
}

/// The listed sources, in their order.
pub open spec fn listed_sources(
    sources: Seq<SourceRow>,
    unread: Map<i32, i64>,
    category: Option<Seq<char>>,
) -> Seq<JsonView>
    decreases sources.len(),
{
    if sources.len() == 0 {
        Seq::empty()
    } else {
        let before = listed_sources(sources.drop_last(), unread, category);
        if listed(sources.last(), category) {
            before.push(source_json(sources.last(), unread))
        } else {
            before
        }
    }
}

pub open spec fn source_filters(is_admin: bool) -> JsonView {
    if is_admin {
        json::texts_json(seq!["all"@, "unread"@, "starred"@, "today"@])
    } else {
        json::texts_json(seq!["all"@, "unread"@, "today"@])
    }
}

pub open spec fn item_filters(is_admin: bool) -> JsonView {
    if is_admin {
        json::texts_json(seq!["all"@, "unread"@, "starred"@])
    } else {
        json::texts_json(seq!["all"@, "unread"@])
    }
}

fn filters_of_sources(is_admin: bool) -> (r: Json)
    ensures
        r@ == source_filters(is_admin),
{
    if is_admin {
        let v: Vec<String> = vec![
            "all".to_owned(),
            "unread".to_owned(),
            "starred".to_owned(),
            "today".to_owned(),
        ];
        assert(text::views(v@) =~= seq!["all"@, "unread"@, "starred"@, "today"@]);
        json::strings(&v)
    } else {
        let v: Vec<String> = vec!["all".to_owned(), "unread".to_owned(), "today".to_owned()];
        assert(text::views(v@) =~= seq!["all"@, "unread"@, "today"@]);
        json::strings(&v)
    }
}

fn filters_of_items(is_admin: bool) -> (r: Json)
    ensures
        r@ == item_filters(is_admin),
{
    if is_admin {
        let v: Vec<String> = vec!["all".to_owned(), "unread".to_owned(), "starred".to_owned()];
        assert(text::views(v@) =~= seq!["all"@, "unread"@, "starred"@]);
        json::strings(&v)
    } else {
        let v: Vec<String> = vec!["all".to_owned(), "unread".to_owned()];
        assert(text::views(v@) =~= seq!["all"@, "unread"@]);
        json::strings(&v)
    }
}

pub open spec fn sources_title(category: Option<Seq<char>>) -> Seq<char> {
    match category {
        Some(c) => c,
        None => "Feeds"@,
    }
}

pub open spec fn sources_json(
    shown: Seq<JsonView>,
    in_system: int,
    category: Option<Seq<char>>,
    filter: Seq<char>,
    is_admin: bool,
) -> JsonView {
    let total = json::int_json(shown.len() as int);
    json::empty().with("level"@, json::text_json("sources"@)).with(
        "hierarchy"@,
        json::empty().with("level"@, json::text_json("list"@)).with(
            "current"@,
            json::empty().with("view"@, json::text_json("all_sources"@)),
        ),
    ).with(
        "content"@,
        json::empty().with("title"@, json::text_json(sources_title(category))).with(
            "sources"@,
            JsonView::Array(shown),
        ).with(
            "metadata"@,
            json::empty().with("totalSources"@, total).with(
                "totalInSystem"@,
                json::int_json(in_system),
            ).with("category"@, json::opt_text_json(category)),
        ),
    ).with(
        "stats"@,
        json::empty().with("totalSources"@, total).with("totalItems"@, json::int_json(0)).with(
            "unreadCount"@,
            json::int_json(0),
        ),
    ).with(
        "navigation"@,
        json::empty().with("currentFilter"@, json::text_json(filter)).with(
            "category"@,
            json::opt_text_json(category),
        ).with("availableFilters"@, source_filters(is_admin)).with(
            "canGoBack"@,
            JsonView::Bool(false),
        ).with("parentPath"@, json::text_json("/"@)),
    )
}

/// The list of sources.
pub fn sources_page(
    sources: &Vec<SourceRow>,
    unread: &HashMap<i32, i64>,
    category: &Option<String>,
    filter: &str,
    is_admin: bool,
) -> (r: Json)
    ensures
        r@ == sources_json(
            listed_sources(sources@, unread@, text::opt_view(*category)),
            sources@.len() as int,
            text::opt_view(*category),
            filter@,
            is_admin,
        ),
{
    let ghost cat = text::opt_view(*category);
    let mut list: Vec<Json> = Vec::new();
    let mut i: usize = 0;
    assert(json::items(list@) =~= Seq::empty());
    while i < sources.len()
        invariant
            i <= sources@.len(),
            cat == text::opt_view(*category),
            json::items(list@) == listed_sources(sources@.take(i as int), unread@, cat),
        decreases sources@.len() - i,
    {
        assert(sources@.take(i + 1).drop_last() =~= sources@.take(i as int));
        if is_listed(&sources[i], category) {
            let shown = show_source(&sources[i], unread);
            proof {
                json::items_push(list@, shown);
            }
            list.push(shown);
        }
        i = i + 1;
    }
    assert(sources@.take(sources@.len() as int) =~= sources@);
    let total = list.len() as u64;
    let title: String = match category {
        Some(c) => c.clone(),
        None => "Feeds".to_owned(),
    };
    json::object().with("level", json::string("sources")).with(
        "hierarchy",
        json::object().with("level", json::string("list")).with(
            "current",
            json::object().with("view", json::string("all_sources")),
        ),
    ).with(
        "content",
        json::object().with("title", json::string(title.as_str())).with(
            "sources",
            json::array(list),
        ).with(
            "metadata",
            json::object().with("totalSources", json::unsigned(total)).with(
                "totalInSystem",
                json::unsigned(sources.len() as u64),
            ).with("category", json::opt_string(category)),
        ),
    ).with(
        "stats",
        json::object().with("totalSources", json::unsigned(total)).with(
            "totalItems",
            json::unsigned(0),
        ).with("unreadCount", json::unsigned(0)),
    ).with(
        "navigation",
        json::object().with("currentFilter", json::string(filter)).with(
            "category",
            json::opt_string(category),
        ).with("availableFilters", filters_of_sources(is_admin)).with(
            "canGoBack",
            Json::Bool(false),
        ).with("parentPath", json::string("/")),
    )
}

// ---------------------------------------------------------------------------
// Articles of a source
// ---------------------------------------------------------------------------
/// Which articles of a source are read.
#[derive(Clone, Copy, Debug, PartialEq, Eq, Structural)]
pub enum ItemFilter {
    Every,
    /// Those that the reader has not read.
    Unread,
    /// Those that the reader has starred.
    Starred,
}

pub open spec fn item_filter(filter: Seq<char>) -> ItemFilter {
    if filter == "unread"@ {
        ItemFilter::Unread
    } else if filter == "starred"@ {
        ItemFilter::Starred
    } else {
        ItemFilter::Every
    }
}

/// Which articles to read, or why none may be read. `visible` says of a source
/// that was found whether this reader may see it.
pub fn plan_items(visible: Option<bool>, filter: &str, is_admin: bool) -> (r: Result<
    ItemFilter,
    &'static str,
>)
    ensures
        if visible != Some(true) {
            r matches Err(m) && m@ == "Source not found"@
        } else if item_filter(filter@) is Starred && !is_admin {
            r matches Err(m) && m@ == "Forbidden"@
        } else {
            r == Ok::<ItemFilter, &'static str>(item_filter(filter@))
        },
        r is Ok ==> visible == Some(true),
        r matches Ok(f) ==> f is Starred ==> is_admin && filter@ == "starred"@,
        visible == Some(true) && is_admin ==> r is Ok,
{
    match visible {
        Some(true) => {},
        _ => return Err("Source not found"),
    }
    if text::eq(filter, "unread") {
        Ok(ItemFilter::Unread)
    } else if text::eq(filter, "starred") {
        if is_admin {
            Ok(ItemFilter::Starred)
        } else {
            Err("Forbidden")
        }
    } else {
        Ok(ItemFilter::Every)
    }
}

/// An article as the list of its source shows it.
pub struct ItemRow {
    pub id: i32,
    pub guid: String,
    pub title: String,
    pub summary: Option<String>,
    pub link: Option<String>,
    pub author: Option<String>,
    pub published_at: String,
}

/// What a reader has done with an article.
pub struct ReadingState {
    pub item_id: i32,
    pub is_read: bool,
    pub is_starred: bool,
    /// How far the article has been read, as a number, or `null`.
    pub read_progress: Json,
    pub read_at: Option<String>,
}

/// The last state that speaks of the article.
pub open spec fn state_of(states: Seq<ReadingState>, item_id: i32) -> Option<ReadingState>
    decreases states.len(),
{
    if states.len() == 0 {
        None
    } else if states.last().item_id == item_id {
        Some(states.last())
    } else {
        state_of(states.drop_last(), item_id)
    }
}

fn find_state<'a>(states: &'a Vec<ReadingState>, item_id: i32) -> (r: Option<&'a ReadingState>)
    ensures
        match r {
            Some(s) => state_of(states@, item_id) == Some(*s),
            None => state_of(states@, item_id) is None,
        },
{
    let mut i: usize = states.len();
    assert(states@.take(i as int) =~= states@);
    while 0 < i
        invariant
            i <= states@.len(),
            state_of(states@, item_id) == state_of(states@.take(i as int), item_id),
        decreases i,
    {
        assert(states@.take(i as int).drop_last() =~= states@.take(i - 1));
        i = i - 1;
        if states[i].item_id == item_id {
            return Some(&states[i]);
        }
    }
    None
}

/// A summary of more than 200 bytes is cut there, between two characters.
pub open spec fn short_summary(summary: Option<Seq<char>>) -> Option<Seq<char>> {
    match summary {
        Some(s) => if vstd::utf8::encode_utf8(s).len() > 200 {
            Some(text::byte_head(s, 200) + "..."@)
        } else {
            Some(s)
        },
        None => None,
    }
}

fn shorten(summary: &Option<String>) -> (r: Option<String>)
    ensures
        text::opt_view(r) == short_summary(text::opt_view(*summary)),
{
    match summary {
        Some(s) => {
            if text::byte_len(s.as_str()) > 200 {
                let mut cut = text::truncate_str(s.as_str(), 200);
                cut.append("...");
                Some(cut)
            } else {
                Some(s.clone())
            }
        },
        None => None,
    }
}

pub open spec fn item_json(item: ItemRow, states: Seq<ReadingState>) -> JsonView {
    let state = state_of(states, item.id);
    json::empty().with("id"@, json::int_json(item.id as int)).with(
        "guid"@,
        json::text_json(item.guid@),
    ).with("title"@, json::text_json(item.title@)).with(
        "summary"@,
        json::opt_text_json(short_summary(text::opt_view(item.summary))),
    ).with("link"@, json::opt_text_json(text::opt_view(item.link))).with(
        "author"@,
        json::opt_text_json(text::opt_view(item.author)),
    ).with("publishedAt"@, json::text_json(item.published_at@)).with(
        "isRead"@,
        JsonView::Bool(state is Some && state->0.is_read),
    ).with("isStarred"@, JsonView::Bool(state is Some && state->0.is_starred))
}

fn show_item(item: &ItemRow, states: &Vec<ReadingState>) -> (r: Json)
    ensures
        r@ == item_json(*item, states@),
{
    let (is_read, is_starred) = match find_state(states, item.id) {
        Some(s) => (s.is_read, s.is_starred),
        None => (false, false),
    };
    let summary = shorten(&item.summary);
    json::object().with("id", json::number(item.id as i64)).with(
        "guid",
        json::string(item.guid.as_str()),
    ).with("title", json::string(item.title.as_str())).with(
        "summary",
        json::opt_string(&summary),
    ).with("link", json::opt_string(&item.link)).with(
        "author",
        json::opt_string(&item.author),
    ).with("publishedAt", json::string(item.published_at.as_str())).with(
        "isRead",
        Json::Bool(is_read),
    ).with("isStarred", Json::Bool(is_starred))
}

pub open spec fn items_shown(items: Seq<ItemRow>, states: Seq<ReadingState>) -> Seq<JsonView> {
    Seq::new(items.len(), |i: int| item_json(items[i], states))
}

/// How many articles a source has for a reader.
pub struct ItemCounts {
    pub total: u64,
    pub unread: u64,
    pub starred: u64,
}

pub open spec fn items_json(
    source_id: int,
    source_name: Seq<char>,
    shown: Seq<JsonView>,
    counts: ItemCounts,
    filter: Seq<char>,
    is_admin: bool,
) -> JsonView {
    json::empty().with("level"@, json::text_json("items"@)).with(
        "hierarchy"@,
        json::empty().with("level"@, json::text_json("nested"@)).with(
            "parent"@,
            json::empty().with("type"@, json::text_json("source"@)).with(
                "id"@,
                json::int_json(source_id),
            ).with("name"@, json::text_json(source_name)),
        ).with("current"@, json::empty().with("view"@, json::text_json("item_list"@))),
    ).with(
        "content"@,
        json::empty().with("title"@, json::text_json(source_name)).with(
            "items"@,
            JsonView::Array(shown),
        ).with(
            "metadata"@,
            json::empty().with("sourceId"@, json::int_json(source_id)).with(
                "totalItems"@,
                json::int_json(counts.total as int),
            ),
        ),
    ).with(
        "stats"@,
        json::empty().with("totalItems"@, json::int_json(counts.total as int)).with(
            "unreadCount"@,
            json::int_json(counts.unread as int),
        ).with(
            "starredCount"@,
            json::int_json(
                if is_admin {
                    counts.starred as int
                } else {
                    0
                },
            ),
        ),
    ).with(
        "navigation"@,
        json::empty().with("currentFilter"@, json::text_json(filter)).with(
            "availableFilters"@,
            item_filters(is_admin),
        ).with("canGoBack"@, JsonView::Bool(true)).with(
            "parentPath"@,
            json::text_json("/journal"@),
        ),
    )
}

/// The articles of a source, with what this reader has done with each.
pub fn items_page(
    source_id: i32,
    source_name: &str,
    items: &Vec<ItemRow>,
    states: &Vec<ReadingState>,
    counts: ItemCounts,
    filter: &str,
    is_admin: bool,
) -> (r: Json)
    ensures
        r@ == items_json(
            source_id as int,
            source_name@,
            items_shown(items@, states@),
            counts,
            filter@,
            is_admin,
        ),
{
    let mut list: Vec<Json> = Vec::new();
    let mut i: usize = 0;
    while i < items.len()
        invariant
            i <= items@.len(),
            list@.len() == i,
            forall|k: int| 0 <= k < i ==> #[trigger] list@[k]@ == item_json(items@[k], states@),
        decreases items@.len() - i,
    {
        list.push(show_item(&items[i], states));
        i = i + 1;
    }
    assert(json::items(list@) =~= items_shown(items@, states@));
    let starred: u64 = if is_admin {
        counts.starred
    } else {
        0
    };
    json::object().with("level", json::string("items")).with(
        "hierarchy",
        json::object().with("level", json::string("nested")).with(
            "parent",
            json::object().with("type", json::string("source")).with(
                "id",
                json::number(source_id as i64),
            ).with("name", json::string(source_name)),
        ).with("current", json::object().with("view", json::string("item_list"))),
    ).with(
        "content",
        json::object().with("title", json::string(source_name)).with(
            "items",
            json::array(list),
        ).with(
            "metadata",
            json::object().with("sourceId", json::number(source_id as i64)).with(
                "totalItems",
                json::unsigned(counts.total),
            ),
        ),
    ).with(
        "stats",
        json::object().with("totalItems", json::unsigned(counts.total)).with(
            "unreadCount",
            json::unsigned(counts.unread),
        ).with("starredCount", json::unsigned(starred)),
    ).with(
        "navigation",
        json::object().with("currentFilter", json::string(filter)).with(
            "availableFilters",
            filters_of_items(is_admin),
        ).with("canGoBack", Json::Bool(true)).with("parentPath", json::string("/journal")),
    )
}

// ---------------------------------------------------------------------------
// One article
// ---------------------------------------------------------------------------
pub struct Article {
    pub id: i32,
    pub guid: String,
    pub source_id: i32,
    pub title: String,
    pub content: Option<String>,
    pub summary: Option<String>,
    pub link: Option<String>,
    pub author: Option<String>,
    pub image: Option<String>,
    pub published_at: String,
    pub word_count: Option<i32>,
    pub reading_time: Option<i32>,
    pub fulltext_fetched: bool,
    pub audio_url: Option<String>,
    pub video_url: Option<String>,
}

pub struct ArticleSource {
    pub id: i32,
    pub name: String,
    pub icon: Option<String>,
    pub site_url: Option<String>,
    pub kind: SourceType,
    /// Whether this reader may see the source.
    pub visible: bool,
}

/// The stored length of an article, or that of its content.
pub open spec fn words(article: Article) -> i32 {
    match article.word_count {
        Some(n) => n,
        None => match article.content {
            Some(c) => c@.len() as usize as i32,
            None => 0,
        },
    }
}

pub fn word_count(article: &Article) -> (r: i32)
    ensures
        r == words(*article),
{
    match article.word_count {
        Some(n) => n,
        None => match &article.content {
            Some(c) => text::char_count(c.as_str()) as i32,
            None => 0,
        },
    }
}

pub open spec fn article_json(article: Article, minutes: i32) -> JsonView {
    json::empty().with("id"@, json::int_json(article.id as int)).with(
        "guid"@,
        json::text_json(article.guid@),
    ).with("title"@, json::text_json(article.title@)).with(
        "content"@,
        json::opt_text_json(text::opt_view(article.content)),
    ).with("summary"@, json::opt_text_json(text::opt_view(article.summary))).with(
        "link"@,
        json::opt_text_json(text::opt_view(article.link)),
    ).with("author"@, json::opt_text_json(text::opt_view(article.author))).with(
        "image"@,
        json::opt_text_json(text::opt_view(article.image)),
    ).with("publishedAt"@, json::text_json(article.published_at@)).with(
        "wordCount"@,
        json::int_json(words(article) as int),
    ).with("readingTime"@, json::int_json(minutes as int)).with(
        "fulltextFetched"@,
        JsonView::Bool(article.fulltext_fetched),
    ).with("audioUrl"@, json::opt_text_json(text::opt_view(article.audio_url))).with(
        "videoUrl"@,
        json::opt_text_json(text::opt_view(article.video_url)),
    )
}

fn show_article(article: &Article, minutes: i32) -> (r: Json)
    ensures
        r@ == article_json(*article, minutes),
{
    json::object().with("id", json::number(article.id as i64)).with(
        "guid",
        json::string(article.guid.as_str()),
    ).with("title", json::string(article.title.as_str())).with(
        "content",
        json::opt_string(&article.content),
    ).with("summary", json::opt_string(&article.summary)).with(
        "link",
        json::opt_string(&article.link),
    ).with("author", json::opt_string(&article.author)).with(
        "image",
        json::opt_string(&article.image),
    ).with("publishedAt", json::string(article.published_at.as_str())).with(
        "wordCount",
        json::number(word_count(article) as i64),
    ).with("readingTime", json::number(minutes as i64)).with(
        "fulltextFetched",
        Json::Bool(article.fulltext_fetched),
    ).with("audioUrl", json::opt_string(&article.audio_url)).with(
        "videoUrl",
        json::opt_string(&article.video_url),
    )
}

pub open spec fn reader_state_json(state: Option<ReadingState>) -> JsonView {
    json::empty().with("isRead"@, JsonView::Bool(state is Some && state->0.is_read)).with(
        "isStarred"@,
        JsonView::Bool(state is Some && state->0.is_starred),
    ).with(
        "readProgress"@,
        match state {
            Some(s) => s.read_progress@,
            None => JsonView::Null,
        },
    ).with(
        "readAt"@,
        match state {
            Some(s) => json::opt_text_json(text::opt_view(s.read_at)),
            None => JsonView::Null,
        },
    )
}

fn show_reader_state(state: &Option<ReadingState>) -> (r: Json)
    ensures
        r@ == reader_state_json(*state),
{
    match state {
        Some(s) => json::object().with("isRead", Json::Bool(s.is_read)).with(
            "isStarred",
            Json::Bool(s.is_starred),
        ).with("readProgress", s.read_progress.copy()).with("readAt", json::opt_string(&s.read_at)),
        None => json::object().with("isRead", Json::Bool(false)).with(
            "isStarred",
            Json::Bool(false),
        ).with("readProgress", Json::Null).with("readAt", Json::Null),
    }
}

pub open spec fn reader_actions() -> JsonView {
    json::texts_json(
        seq![
            "markAsRead"@,
            "toggleStar"@,
            "updateProgress"@,
            "fetchFulltext"@,
            "shareArticle"@,
        ],
    )
}

pub open spec fn article_page_json(
    article: Article,
    source: ArticleSource,
    state: Option<ReadingState>,
    minutes: i32,
) -> JsonView {
    json::empty().with("level"@, json::text_json("reader"@)).with(
        "hierarchy"@,
        json::empty().with("level"@, json::text_json("detail"@)).with(
            "parent"@,
            json::empty().with("type"@, json::text_json("source"@)).with(
                "id"@,
                json::int_json(article.source_id as int),
            ).with("name"@, json::text_json(source.name@)),
        ).with(
            "current"@,
            json::empty().with("type"@, json::text_json("item"@)).with(
                "id"@,
                json::int_json(article.id as int),
            ).with("guid"@, json::text_json(article.guid@)),
        ),
    ).with(
        "content"@,
        json::empty().with("title"@, json::text_json(article.title@)).with(
            "article"@,
            article_json(article, minutes),
        ).with(
            "source"@,
            json::empty().with("id"@, json::int_json(source.id as int)).with(
                "name"@,
                json::text_json(source.name@),
            ).with("icon"@, json::opt_text_json(text::opt_view(source.icon))).with(
                "siteUrl"@,
                json::opt_text_json(text::opt_view(source.site_url)),
            ).with("sourceType"@, json::text_json(source.kind.label_of())),
        ),
    ).with("readerState"@, reader_state_json(state)).with(
        "navigation"@,
        json::empty().with("canGoBack"@, JsonView::Bool(true)).with(
            "parentPath"@,
            json::text_json("/journal"@),
        ),
    ).with("actions"@, json::empty().with("available"@, reader_actions()))
}

/// The source of an article that this reader may read.
pub open spec fn readable(article: Option<Article>, source: Option<ArticleSource>) -> bool {
    article is Some && source is Some && source->0.visible
}

/// Whether an article was found, in a source that this reader may see.
pub fn article_is_readable(article: &Option<Article>, source: &Option<ArticleSource>) -> (r: bool)
    ensures
        r == readable(*article, *source),
{
    match (article, source) {
        (Some(_), Some(s)) => s.visible,
        _ => false,
    }
}

/// One article with what this reader has done with it. `estimate` is the reading
/// time in minutes of an article for which none is stored.
pub fn article_page(
    article: &Option<Article>,
    source: &Option<ArticleSource>,
    state: &Option<ReadingState>,
    estimate: i32,
) -> (r: Result<Json, &'static str>)
    ensures
        if readable(*article, *source) {
            &&& r matches Ok(page)
            &&& page@ == article_page_json(
                article->0,
                source->0,
                *state,
                match article->0.reading_time {
                    Some(minutes) => minutes,
                    None => estimate,
                },
            )
        } else {
            r matches Err(m) && m@ == "Item not found"@
        },
{
    if !article_is_readable(article, source) {
        return Err("Item not found");
    }
    match (article, source) {
        (Some(article), Some(source)) => {
            let minutes: i32 = match article.reading_time {
                Some(minutes) => minutes,
                None => estimate,
            };
            let actions: Vec<String> = vec![
                "markAsRead".to_owned(),
                "toggleStar".to_owned(),
                "updateProgress".to_owned(),
                "fetchFulltext".to_owned(),
                "shareArticle".to_owned(),
            ];
            assert(text::views(actions@) =~= seq![
                "markAsRead"@,
                "toggleStar"@,
                "updateProgress"@,
                "fetchFulltext"@,
                "shareArticle"@,
            ]);
            Ok(
                json::object().with("level", json::string("reader")).with(
                    "hierarchy",
                    json::object().with("level", json::string("detail")).with(
                        "parent",
                        json::object().with("type", json::string("source")).with(
                            "id",
                            json::number(article.source_id as i64),
                        ).with("name", json::string(source.name.as_str())),
                    ).with(
                        "current",
                        json::object().with("type", json::string("item")).with(
                            "id",
                            json::number(article.id as i64),
                        ).with("guid", json::string(article.guid.as_str())),
                    ),
                ).with(
                    "content",
                    json::object().with("title", json::string(article.title.as_str())).with(
                        "article",
                        show_article(article, minutes),
                    ).with(
                        "source",
                        json::object().with("id", json::number(source.id as i64)).with(
                            "name",
                            json::string(source.name.as_str()),
                        ).with("icon", json::opt_string(&source.icon)).with(
                            "siteUrl",
                            json::opt_string(&source.site_url),
                        ).with("sourceType", json::string(source.kind.label())),
                    ),
                ).with("readerState", show_reader_state(state)).with(
                    "navigation",
                    json::object().with("canGoBack", Json::Bool(true)).with(
                        "parentPath",
                        json::string("/journal"),
                    ),
                ).with("actions", json::object().with("available", json::strings(&actions))),
            )
        },
        _ => Err("Item not found"),
    }
}

// ---------------------------------------------------------------------------
// Laws
// ---------------------------------------------------------------------------
/// A page of articles never says more of stars to a reader who is no
/// administrator: none are counted, and the filter for them is not offered.
pub proof fn stars_are_for_administrators(
    source_id: int,
    source_name: Seq<char>,
    shown: Seq<JsonView>,
    counts: ItemCounts,
    other: ItemCounts,
    filter: Seq<char>,
)
    requires
        counts.total == other.total,
        counts.unread == other.unread,
    ensures
        items_json(source_id, source_name, shown, counts, filter, false) == items_json(
            source_id,
            source_name,
            shown,
            other,
            filter,
            false,
        ),
        item_filter(filter) is Starred ==> !(item_filters(false)->Array_0.contains(
            json::text_json(filter),
        )),
{
    if item_filter(filter) is Starred {
        reveal_strlit("starred");
        reveal_strlit("all");
        reveal_strlit("unread");
        let offered = item_filters(false)->Array_0;
        assert(offered.len() == 2);
        assert(offered[0] == json::text_json("all"@));
        assert(offered[1] == json::text_json("unread"@));
        assert("all"@.len() == 3 && "unread"@.len() == 6 && filter.len() == 7);
        assert forall|k: int| 0 <= k < offered.len() implies offered[k] != json::text_json(
            filter,
        ) by {
            assert(offered[k]->Str_0.len() != filter.len());
        }
    }
}

proof fn sources_grow(a: Seq<SourceRow>, b: Seq<SourceRow>, unread: Map<i32, i64>, category: Option<Seq<char>>)
    ensures
        listed_sources(a + b, unread, category) == listed_sources(a, unread, category)
            + listed_sources(b, unread, category),
    decreases b.len(),
{
    let all = a + b;
    if b.len() == 0 {
        assert(all =~= a);
        assert(listed_sources(b, unread, category) =~= Seq::empty());
        assert(listed_sources(a, unread, category) + listed_sources(b, unread, category)
            =~= listed_sources(a, unread, category));
    } else {
        sources_grow(a, b.drop_last(), unread, category);
        assert(all.drop_last() =~= a + b.drop_last());
        assert(all.last() == b.last());
        assert(listed_sources(all, unread, category) =~= listed_sources(a, unread, category)
            + listed_sources(b, unread, category));
    }
}

/// Without a category every source is shown, in its order. With one, those whose
/// category matches are, and among the friends' links the links that have no
/// category.
pub proof fn sources_of_the_category_are_shown(
    before: Seq<SourceRow>,
    source: SourceRow,
    after: Seq<SourceRow>,
    unread: Map<i32, i64>,
    category: Option<Seq<char>>,
)
    ensures
        ({
            let shown = match category {
                None => true,
                Some(c) => (source.category is Some && source.category_matches) || (c == "友情链接"@
                    && source.kind is Link && (source.category is None || text::blank(
                    source.category->0@,
                ))),
            };
            listed_sources(before.push(source) + after, unread, category) == (if shown {
                listed_sources(before, unread, category).push(source_json(source, unread))
            } else {
                listed_sources(before, unread, category)
            }) + listed_sources(after, unread, category)
        }),
        category is None ==> listed_sources(before, unread, category).len() == before.len(),
{
    sources_grow(before.push(source), after, unread, category);
    assert(before.push(source).drop_last() =~= before);
    if category is None {
        every_source_is_shown(before, unread);
    }
}

proof fn every_source_is_shown(sources: Seq<SourceRow>, unread: Map<i32, i64>)
    ensures
        listed_sources(sources, unread, None).len() == sources.len(),
    decreases sources.len(),
{
    if sources.len() > 0 {
        every_source_is_shown(sources.drop_last(), unread);
    }
}

/// A source is shown by its number and its name, with what is unread of it.
pub proof fn sources_say_what_is_unread(s: SourceRow, unread: Map<i32, i64>)
    ensures
        source_json(s, unread).get("id"@) == Some(json::int_json(s.id as int)),
        source_json(s, unread).text_at("name"@) == Some(s.name@),
        source_json(s, unread).get("unreadCount"@) == Some(
            json::int_json(
                if unread.contains_key(s.id) {
                    unread[s.id] as int
                } else {
                    0
                },
            ),
        ),
{
    reveal_strlit("id");
    reveal_strlit("name");
    reveal_strlit("url");
    reveal_strlit("siteUrl");
    reveal_strlit("icon");
    reveal_strlit("category");
    reveal_strlit("sourceType");
    reveal_strlit("unreadCount");
    assert("id"@.len() == 2 && "name"@.len() == 4 && "url"@.len() == 3 && "siteUrl"@.len() == 7
        && "icon"@.len() == 4 && "category"@.len() == 8 && "sourceType"@.len() == 10
        && "unreadCount"@.len() == 11 && "name"@[0] == 'n' && "icon"@[0] == 'i');
    reveal_with_fuel(json::key_from, 9);
}

/// The state of an article is the latest that there is of it.
pub proof fn the_latest_state_counts(states: Seq<ReadingState>, item_id: i32)
    ensures
        match state_of(states, item_id) {
            Some(s) => exists|k: int|
                0 <= k < states.len() && #[trigger] states[k] == s && s.item_id == item_id && (forall|
                    j: int,
                |
                    k < j < states.len() ==> (#[trigger] states[j]).item_id != item_id),
            None => forall|j: int|
                0 <= j < states.len() ==> (#[trigger] states[j]).item_id != item_id,
        },
    decreases states.len(),
{
    if states.len() > 0 {
        let rest = states.drop_last();
        let n = states.len() - 1;
        if states.last().item_id == item_id {
            assert(states[n] == states.last());
        } else {
            the_latest_state_counts(rest, item_id);
            if let Some(s) = state_of(rest, item_id) {
                let k = choose|k: int|
                    0 <= k < rest.len() && #[trigger] rest[k] == s && s.item_id == item_id && (
                    forall|j: int|
                        k < j < rest.len() ==> (#[trigger] rest[j]).item_id != item_id);
                assert(states[k] == s);
                assert forall|j: int| k < j < states.len() implies (#[trigger] states[j]).item_id
                    != item_id by {
                    if j < n {
                        assert(rest[j] == states[j]);
                    }
                }
            } else {
                assert forall|j: int| 0 <= j < states.len() implies (#[trigger] states[j]).item_id
                    != item_id by {
                    if j < n {
                        assert(rest[j] == states[j]);
                    }
                }
            }
        }
    }
}

/// Every article of a page is shown, in its order, and is read or starred exactly
/// where its state says so.
pub proof fn articles_show_how_they_were_read(
    items: Seq<ItemRow>,
    states: Seq<ReadingState>,
    i: int,
)
    requires
        0 <= i < items.len(),
    ensures
        items_shown(items, states).len() == items.len(),
        ({
            let shown = items_shown(items, states)[i];
            let state = state_of(states, items[i].id);
            &&& shown.text_at("guid"@) == Some(items[i].guid@)
            &&& shown.text_at("title"@) == Some(items[i].title@)
            &&& shown.bool_at("isRead"@) == Some(
                match state {
                    Some(s) => s.is_read,
                    None => false,
                },
            )
            &&& shown.bool_at("isStarred"@) == Some(
                match state {
                    Some(s) => s.is_starred,
                    None => false,
                },
            )
        }),
{
    reveal_strlit("id");
    reveal_strlit("guid");
    reveal_strlit("title");
    reveal_strlit("summary");
    reveal_strlit("link");
    reveal_strlit("author");
    reveal_strlit("publishedAt");
    reveal_strlit("isRead");
    reveal_strlit("isStarred");
    assert("id"@.len() == 2 && "guid"@.len() == 4 && "title"@.len() == 5 && "summary"@.len() == 7
        && "link"@.len() == 4 && "author"@.len() == 6 && "publishedAt"@.len() == 11 && "isRead"@.len()
        == 6 && "isStarred"@.len() == 9 && "guid"@[0] == 'g' && "link"@[0] == 'l' && "author"@[0]
        == 'a' && "isRead"@[0] == 'i');
    reveal_with_fuel(json::key_from, 10);
}

/// A request that names no level asks for the sources, and one that names no
/// limit for twenty; articles are asked for by their source, one article by its
/// own name.
pub proof fn pages_are_those_that_are_asked_for(params: JsonView, guid: Seq<char>, id: int)
    requires
        0 <= id <= i32::MAX,
    ensures
        params.text_at("level"@) is None || params.text_at("level"@) == Some("sources"@)
            ==> asked_page(params) == Ok::<PageAskView, Seq<char>>(PageAskView::Sources),
        params.text_at("level"@) == Some("items"@) && params.int_at("sourceId"@) == Some(id)
            ==> asked_page(params) == Ok::<PageAskView, Seq<char>>(PageAskView::Items(id as i32)),
        params.text_at("level"@) == Some("items"@) && params.int_at("sourceId"@) is None
            ==> asked_page(params) is Err,
        (params.text_at("level"@) == Some("detail"@) || params.text_at("level"@) == Some("reader"@))
            && params.text_at("itemId"@) == Some(guid) ==> asked_page(params) == Ok::<
            PageAskView,
            Seq<char>,
        >(PageAskView::Article(guid)),
        (params.text_at("level"@) == Some("detail"@) || params.text_at("level"@) == Some("reader"@))
            && params.text_at("itemId"@) is None ==> asked_page(params) is Err,
        params.get("limit"@) is None ==> asked_limit(params) == 20,
        params.get("limit"@) == Some(json::int_json(id)) ==> asked_limit(params) == id,
{
    reveal_strlit("sources");
    reveal_strlit("items");
    reveal_strlit("detail");
    reveal_strlit("reader");
    assert("sources"@.len() == 7 && "items"@.len() == 5 && "detail"@.len() == 6 && "reader"@.len()
        == 6);
}

/// What cannot be seen is not shown: an article is readable exactly where it is
/// there and its source may be seen.
pub proof fn hidden_articles_are_not_shown(article: Option<Article>, source: Option<ArticleSource>)
    ensures
        readable(article, source) <==> article is Some && (source matches Some(s) && s.visible),
{
}

/// An article is shown with its own number, name and text, and how far it was
/// read.
pub proof fn articles_show_themselves(article: Article, minutes: i32, state: Option<ReadingState>)
    ensures
        ({
            let shown = article_json(article, minutes);
            &&& shown.get("id"@) == Some(json::int_json(article.id as int))
            &&& shown.text_at("guid"@) == Some(article.guid@)
            &&& shown.text_at("title"@) == Some(article.title@)
            &&& shown.get("content"@) == Some(json::opt_text_json(text::opt_view(article.content)))
        }),
        reader_state_json(state).bool_at("isRead"@) == Some(
            match state {
                Some(s) => s.is_read,
                None => false,
            },
        ),
        reader_state_json(state).bool_at("isStarred"@) == Some(
            match state {
                Some(s) => s.is_starred,
                None => false,
            },
        ),
        article.word_count matches Some(n) ==> words(article) == n,
        article.word_count is None && article.content is None ==> words(article) == 0,
        article.word_count is None && article.content is Some && article.content->0@.len()
            <= i32::MAX ==> words(article) == article.content->0@.len(),
{
    reveal_strlit("id");
    reveal_strlit("guid");
    reveal_strlit("title");
    reveal_strlit("content");
    reveal_strlit("isRead");
    reveal_strlit("isStarred");
    assert("id"@.len() == 2 && "guid"@.len() == 4 && "title"@.len() == 5 && "content"@.len() == 7
        && "isRead"@.len() == 6 && "isStarred"@.len() == 9);
    reveal_with_fuel(json::key_from, 5);
}

/// Stars are offered to administrators alone, on the page of sources too; to
/// everyone all sources, the unread and those of today are.
pub proof fn filters_are_offered(is_admin: bool)
    ensures
        source_filters(is_admin)->Array_0.contains(json::text_json("starred"@)) <==> is_admin,
        source_filters(is_admin)->Array_0.contains(json::text_json("all"@)),
        source_filters(is_admin)->Array_0.contains(json::text_json("unread"@)),
        source_filters(is_admin)->Array_0.contains(json::text_json("today"@)),
        item_filters(is_admin)->Array_0.contains(json::text_json("starred"@)) <==> is_admin,
        item_filters(is_admin)->Array_0.contains(json::text_json("all"@)),
        item_filters(is_admin)->Array_0.contains(json::text_json("unread"@)),
{
    reveal_strlit("all");
    reveal_strlit("unread");
    reveal_strlit("starred");
    reveal_strlit("today");
    assert("all"@.len() == 3 && "unread"@.len() == 6 && "starred"@.len() == 7 && "today"@.len() == 5);
    let s = source_filters(is_admin)->Array_0;
    let i = item_filters(is_admin)->Array_0;
    assert(s[0] == json::text_json("all"@) && s[1] == json::text_json("unread"@));
    assert(i[0] == json::text_json("all"@) && i[1] == json::text_json("unread"@));
    if is_admin {
        assert(s[2] == json::text_json("starred"@) && s[3] == json::text_json("today"@));
        assert(i[2] == json::text_json("starred"@));
    } else {
        assert(s[2] == json::text_json("today"@));
        assert(s.len() == 3 && i.len() == 2);
        assert forall|k: int| 0 <= k < s.len() implies s[k] != json::text_json("starred"@) by {
            assert(s[k]->Str_0.len() != 7);
        }
        assert forall|k: int| 0 <= k < i.len() implies i[k] != json::text_json("starred"@) by {
            assert(i[k]->Str_0.len() != 7);
        }
    }
}

/// A page of sources holds the sources that it shows and says how many there are.
pub proof fn pages_hold_their_sources(
    shown: Seq<JsonView>,
    in_system: int,
    category: Option<Seq<char>>,
    filter: Seq<char>,
    is_admin: bool,
)
    ensures
        ({
            let page = sources_json(shown, in_system, category, filter, is_admin);
            &&& page.text_at("level"@) == Some("sources"@)
            &&& page.get("content"@) matches Some(content) && content.get("sources"@) == Some(
                JsonView::Array(shown),
            )
            &&& page.get("stats"@) matches Some(stats) && stats.get("totalSources"@) == Some(
                json::int_json(shown.len() as int),
            )
        }),
{
    reveal_strlit("level");
    reveal_strlit("hierarchy");
    reveal_strlit("content");
    reveal_strlit("stats");
    reveal_strlit("title");
    reveal_strlit("sources");
    assert("level"@.len() == 5 && "hierarchy"@.len() == 9 && "content"@.len() == 7 && "stats"@.len()
        == 5 && "title"@.len() == 5 && "sources"@.len() == 7 && "level"@[0] == 'l' && "stats"@[0]
        == 's');
    reveal_with_fuel(json::key_from, 5);
}

/// A category is asked for by its name, without the space around it; a blank one
/// is none.
pub proof fn categories_are_asked_for_by_name(params: JsonView, name: Seq<char>)
    ensures
        params.text_at("category"@) == Some(name) && text::trimmed(name).len() > 0 ==> asked_category(
            params,
        ) == Some(text::trimmed(name)),
        params.text_at("category"@) == Some(name) && text::trimmed(name).len() == 0
            ==> asked_category(params) is None,
        params.text_at("category"@) is None ==> asked_category(params) is None,
{
}

/// A short summary is shown as it is; of a long one as much as two hundred bytes
/// hold, and that there is more.
pub proof fn long_summaries_are_cut(summary: Seq<char>)
    ensures
        vstd::utf8::encode_utf8(summary).len() <= 200 ==> short_summary(Some(summary)) == Some(
            summary,
        ),
        vstd::utf8::encode_utf8(summary).len() > 200 ==> short_summary(Some(summary)) == Some(
            text::byte_head(summary, 200) + "..."@,
        ),
        short_summary(None) is None,
{
}

} // verus!
