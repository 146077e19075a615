//! Importing feed lists.
use crate::json;
use crate::json::{Json, JsonView};
use crate::refusal;
use crate::refusal::Refusal;
use vstd::prelude::*;

verus! {

broadcast use crate::json::group_json;

/// A feed list to import.
pub struct ImportOpmlRequest {
    pub opml: String,
}

/// A feed of a list.
pub struct OpmlFeed {
    pub title: String,
    pub url: String,
    pub category: Option<String>,
    pub site_url: Option<String>,
}

/// A feed as it is subscribed to.
pub struct NewFeedSource {
    pub user_id: i32,
    pub name: String,
    pub url: String,
    pub category: Option<String>,
    pub site_url: Option<String>,
    pub enabled: bool,
    pub error_count: i32,
    pub item_count: i32,
    pub update_interval: i32,
}

pub open spec fn source_of(user_id: i32, feed: OpmlFeed) -> NewFeedSource {
    NewFeedSource {
        user_id,
        name: feed.title,
        url: feed.url,
        category: feed.category,
        site_url: feed.site_url,
        enabled: true,
        error_count: 0,
        item_count: 0,
        update_interval: 30,
    }
}

/// The subscriptions that a list asks for, in its order. A list without feeds is
/// refused.
pub fn plan_import(user_id: i32, feeds: Vec<OpmlFeed>) -> (r: Result<Vec<NewFeedSource>, Refusal>)
    ensures
        match r {
            Ok(sources) => feeds@.len() > 0 && sources@ == feeds@.map_values(
                |f: OpmlFeed| source_of(user_id, f),
            ),
            Err(e) => feeds@.len() == 0 && e@ == refusal::fault(400, "No feeds found in OPML"@),
        },
{
    if feeds.len() == 0 {
        return Err(refusal::refuse(400, "No feeds found in OPML"));
    }
    let mut rest = feeds;
    let mut out: Vec<NewFeedSource> = Vec::new();
    while rest.len() > 0
        invariant
            out@.len() + rest@.len() == feeds@.len(),
            rest@ == feeds@.skip(out@.len() as int),
            forall|k: int| 0 <= k < out@.len() ==> #[trigger] out@[k] == source_of(user_id, feeds@[k]),
        decreases rest@.len(),
    {
        let ghost n = out@.len() as int;
        let feed = rest.remove(0);
        assert(feed == feeds@[n]);
        out.push(
            NewFeedSource {
                user_id,
                name: feed.title,
                url: feed.url,
                category: feed.category,
                site_url: feed.site_url,
                enabled: true,
                error_count: 0,
                item_count: 0,
                update_interval: 30,
            },
        );
        assert(rest@ =~= feeds@.skip(n + 1));
    }
    assert(out@ =~= feeds@.map_values(|f: OpmlFeed| source_of(user_id, f)));
    Ok(out)
}

/// What is answered once every feed was either created or found to be there
/// already.
pub fn import_response(created: &Vec<bool>) -> (r: Json)
    ensures
        r@ == json::empty().with("success"@, JsonView::Bool(true)).with(
            "imported"@,
            json::int_json(created@.filter(|c: bool| c).len() as int),
        ).with(
            "skipped"@,
            json::int_json(created@.len() - created@.filter(|c: bool| c).len()),
        ),
{
    let ghost yes = |c: bool| c;
    let mut imported: usize = 0;
    let mut i: usize = 0;
    assert(created@.take(0).filter(yes) =~= Seq::empty()) by {
        reveal(Seq::filter);
    }
    while i < created.len()
        invariant
            i <= created@.len(),
            yes == (|c: bool| c),
            imported == created@.take(i as int).filter(yes).len(),
            imported <= i,
        decreases created@.len() - i,
    {
        proof {
            reveal(Seq::filter);
            assert(created@.take(i + 1).drop_last() =~= created@.take(i as int));
        }
        if created[i] {
            imported = imported + 1;
        }
        i = i + 1;
    }
    assert(created@.take(created@.len() as int) =~= created@);
    json::object()
        .with("success", Json::Bool(true))
        .with("imported", json::unsigned(imported as u64))
        .with("skipped", json::unsigned((created.len() - imported) as u64))
}

/// A feed is taken over as the list names it, switched on, with nothing read yet.
pub proof fn feeds_are_taken_over(user_id: i32, feed: OpmlFeed)
    ensures
        ({
            let source = source_of(user_id, feed);
            &&& source.user_id == user_id
            &&& source.name == feed.title
            &&& source.url == feed.url
            &&& source.category == feed.category
            &&& source.site_url == feed.site_url
            &&& source.enabled && source.error_count == 0 && source.item_count == 0
            &&& source.update_interval == 30
        }),
{
}

} // verus!
