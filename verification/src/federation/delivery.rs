//! Carrying an activity to the inboxes of its audience.
use crate::federation::audience::{FanOutScope, Visibility};
use crate::federation::{audience, urls};
use crate::json::Json;
use crate::text;
use vstd::prelude::*;

verus! {

/// Where one follower is reached. Bad data affects only the follower it
/// belongs to.
#[derive(Debug, PartialEq, Eq)]
pub enum FollowerRoute {
    Local(String),
    Remote { inbox: String, domain: String },
    Skip(&'static str),
}

/// What a route means.
pub enum Route {
    Local(Seq<char>),
    Remote { inbox: Seq<char>, domain: Seq<char> },
    Skip(Seq<char>),
}

impl View for FollowerRoute {
    type V = Route;

    open spec fn view(&self) -> Route {
        match self {
            FollowerRoute::Local(name) => Route::Local(name@),
            FollowerRoute::Remote { inbox, domain } => Route::Remote {
                inbox: inbox@,
                domain: domain@,
            },
            FollowerRoute::Skip(reason) => Route::Skip(reason@),
        }
    }
}

pub open spec fn opt_str_view(s: Option<&str>) -> Option<Seq<char>> {
    match s {
        Some(t) => Some(t@),
        None => None,
    }
}

pub open spec fn trimmed_or_empty(s: Option<Seq<char>>) -> Seq<char> {
    match s {
        Some(t) => text::trimmed(t),
        None => Seq::empty(),
    }
}

/// The local user that a follower is, by its inbox or else by its actor.
pub open spec fn local_follower(
    base_url: Seq<char>,
    inbox: Option<Seq<char>>,
    actor: Option<Seq<char>>,
) -> Option<Seq<char>> {
    let i = trimmed_or_empty(inbox);
    let a = trimmed_or_empty(actor);
    match urls::username_of_inbox(base_url, i) {
        Some(name) => Some(name),
        None => if a.len() > 0 {
            urls::username_of_actor(base_url, a)
        } else {
            None
        },
    }
}

pub open spec fn route_of(
    base_url: Seq<char>,
    inbox: Option<Seq<char>>,
    domain: Option<Seq<char>>,
    actor: Option<Seq<char>>,
) -> Route {
    let i = trimmed_or_empty(inbox);
    match local_follower(base_url, inbox, actor) {
        Some(name) => Route::Local(name),
        None => if i.len() == 0 {
            Route::Skip("empty inbox_url"@)
        } else {
            match domain {
                None => Route::Skip("undecodable domain"@),
                Some(d) => Route::Remote { inbox: i, domain: d },
            }
        },
    }
}

fn trim_or_empty(s: Option<&str>) -> (r: String)
    ensures
        r@ == trimmed_or_empty(opt_str_view(s)),
{
    match s {
        Some(t) => text::trim(t),
        None => String::new(),
    }
}

pub fn route_follower(
    base_url: &str,
    inbox: Option<&str>,
    domain: Option<&str>,
    actor: Option<&str>,
) -> (r: FollowerRoute)
    ensures
        r@ == route_of(base_url@, opt_str_view(inbox), opt_str_view(domain), opt_str_view(actor)),
{
    let inbox = trim_or_empty(inbox);
    let actor = trim_or_empty(actor);
    if let Some(name) = urls::local_username_from_inbox_url(base_url, inbox.as_str()) {
        return FollowerRoute::Local(name);
    }
    if !actor.as_str().is_empty() {
        if let Some(name) = urls::local_username_from_actor_url(base_url, actor.as_str()) {
            return FollowerRoute::Local(name);
        }
    }
    if inbox.as_str().is_empty() {
        return FollowerRoute::Skip("empty inbox_url");
    }
    match domain {
        None => FollowerRoute::Skip("undecodable domain"),
        Some(d) => FollowerRoute::Remote { inbox, domain: d.to_owned() },
    }
}

/// One accepted follower as stored; a column that could not be decoded is
/// `None`.
pub struct FollowerRow {
    pub inbox: Option<String>,
    pub domain: Option<String>,
    pub actor: Option<String>,
}

impl FollowerRow {
    pub open spec fn route(self, base_url: Seq<char>) -> Route {
        route_of(
            base_url,
            text::opt_view(self.inbox),
            text::opt_view(self.domain),
            text::opt_view(self.actor),
        )
    }
}

/// A remote inbox to queue an activity for.
#[derive(Debug, PartialEq, Eq)]
pub struct DeliveryTarget {
    pub inbox: String,
    pub domain: String,
}

pub open spec fn target_view(t: DeliveryTarget) -> (Seq<char>, Seq<char>) {
    (t.inbox@, t.domain@)
}

pub open spec fn target_views(v: Seq<DeliveryTarget>) -> Seq<(Seq<char>, Seq<char>)> {
    Seq::new(v.len(), |i: int| target_view(v[i]))
}

/// The remote inboxes of these followers, in order.
pub open spec fn remote_targets(base_url: Seq<char>, rows: Seq<FollowerRow>) -> Seq<
    (Seq<char>, Seq<char>),
>
    decreases rows.len(),
{
    if rows.len() == 0 {
        Seq::empty()
    } else {
        let before = remote_targets(base_url, rows.drop_last());
        match rows.last().route(base_url) {
            Route::Remote { inbox, domain } => before.push((inbox, domain)),
            _ => before,
        }
    }
}

/// The followers on this site, in order.
pub open spec fn local_names(base_url: Seq<char>, rows: Seq<FollowerRow>) -> Seq<Seq<char>>
    decreases rows.len(),
{
    if rows.len() == 0 {
        Seq::empty()
    } else {
        let before = local_names(base_url, rows.drop_last());
        match rows.last().route(base_url) {
            Route::Local(name) => before.push(name),
            _ => before,
        }
    }
}

/// How many of these followers cannot be reached.
pub open spec fn unusable(base_url: Seq<char>, rows: Seq<FollowerRow>) -> nat
    decreases rows.len(),
{
    if rows.len() == 0 {
        0
    } else {
        unusable(base_url, rows.drop_last()) + if rows.last().route(base_url) is Skip {
            1nat
        } else {
            0nat
        }
    }
}

/// Every follower is carried to exactly once, or counted as unusable.
pub proof fn every_follower_is_accounted_for(base_url: Seq<char>, rows: Seq<FollowerRow>)
    ensures
        remote_targets(base_url, rows).len() + local_names(base_url, rows).len() + unusable(
            base_url,
            rows,
        ) == rows.len(),
    decreases rows.len(),
{
    if rows.len() > 0 {
        every_follower_is_accounted_for(base_url, rows.drop_last());
    }
}

/// What is done for some followers does not depend on the others: a follower
/// with bad data costs nobody else a delivery.
pub proof fn fan_out_is_per_follower(
    base_url: Seq<char>,
    some: Seq<FollowerRow>,
    others: Seq<FollowerRow>,
)
    ensures
        remote_targets(base_url, some + others) == remote_targets(base_url, some) + remote_targets(
            base_url,
            others,
        ),
        local_names(base_url, some + others) == local_names(base_url, some) + local_names(
            base_url,
            others,
        ),
        unusable(base_url, some + others) == unusable(base_url, some) + unusable(base_url, others),
    decreases others.len(),
{
    if others.len() == 0 {
        assert(some + others =~= some);
    } else {
        fan_out_is_per_follower(base_url, some, others.drop_last());
        assert((some + others).drop_last() =~= some + others.drop_last());
        assert((some + others).last() == others.last());
    }
}

/// What is to be done for an activity: the queue rows to write with it, and
/// the users to hand it to once it is stored.
pub struct FanOutPlan {
    pub remote: Vec<DeliveryTarget>,
    pub local_followers: Vec<String>,
    pub skipped: u64,
}

fn as_opt_str(s: &Option<String>) -> (r: Option<&str>)
    ensures
        opt_str_view(r) == text::opt_view(*s),
{
    match s {
        Some(t) => Some(t.as_str()),
        None => None,
    }
}

/// Routes every accepted follower.
pub fn plan_follower_fan_out(base_url: &str, rows: &Vec<FollowerRow>) -> (r: FanOutPlan)
    ensures
        target_views(r.remote@) == remote_targets(base_url@, rows@),
        text::views(r.local_followers@) == local_names(base_url@, rows@),
        r.skipped == unusable(base_url@, rows@),
{
    let mut remote: Vec<DeliveryTarget> = Vec::new();
    let mut local: Vec<String> = Vec::new();
    let mut skipped: u64 = 0;
    let mut i: usize = 0;
    assert(rows@.take(0) =~= Seq::empty());
    assert(target_views(remote@) =~= Seq::empty());
    assert(text::views(local@) =~= Seq::empty());
    while i < rows.len()
        invariant
            i <= rows@.len(),
            skipped <= i,
            target_views(remote@) == remote_targets(base_url@, rows@.take(i as int)),
            text::views(local@) == local_names(base_url@, rows@.take(i as int)),
            skipped == unusable(base_url@, rows@.take(i as int)),
        decreases rows@.len() - i,
    {
        let row = &rows[i];
        assert(rows@.take(i + 1).drop_last() =~= rows@.take(i as int));
        assert(rows@.take(i + 1).last() == *row);
        match route_follower(
            base_url,
            as_opt_str(&row.inbox),
            as_opt_str(&row.domain),
            as_opt_str(&row.actor),
        ) {
            FollowerRoute::Local(name) => {
                proof {
                    text::views_push(local@, name);
                }
                local.push(name);
            },
            FollowerRoute::Remote { inbox, domain } => {
                let target = DeliveryTarget { inbox, domain };
                assert(target_views(remote@.push(target)) =~= target_views(remote@).push(
                    target_view(target),
                ));
                remote.push(target);
            },
            FollowerRoute::Skip(_) => {
                skipped = skipped + 1;
            },
        }
        i = i + 1;
    }
    assert(rows@.take(rows@.len() as int) =~= rows@);
    FanOutPlan { remote, local_followers: local, skipped }
}

/// A neighbouring site that shares a room with this one.
pub struct RoomPeer {
    pub inbox_url: String,
    pub domain: String,
}

pub open spec fn peer_kept(local_domain: Seq<char>, peer: RoomPeer) -> bool {
    local_domain.len() == 0 || peer.domain@ != local_domain
}

pub open spec fn peer_targets(local_domain: Seq<char>, peers: Seq<RoomPeer>) -> Seq<
    (Seq<char>, Seq<char>),
>
    decreases peers.len(),
{
    if peers.len() == 0 {
        Seq::empty()
    } else {
        let before = peer_targets(local_domain, peers.drop_last());
        if peer_kept(local_domain, peers.last()) {
            before.push((peers.last().inbox_url@, peers.last().domain@))
        } else {
            before
        }
    }
}

/// The lower-case domain of this site; empty when it is not known.
pub open spec fn own_domain(domain: Option<Seq<char>>) -> Seq<char> {
    match domain {
        Some(d) => text::ascii_lower(d),
        None => Seq::empty(),
    }
}

/// The neighbours a public activity is also queued for: all but this site.
pub fn plan_room_peer_fan_out(site_domain: &Option<String>, peers: &Vec<RoomPeer>) -> (r: Vec<
    DeliveryTarget,
>)
    ensures
        target_views(r@) == peer_targets(own_domain(text::opt_view(*site_domain)), peers@),
{
    let local_domain = match site_domain {
        Some(d) => text::to_ascii_lowercase(d.as_str()),
        None => String::new(),
    };
    let mut out: Vec<DeliveryTarget> = Vec::new();
    let mut i: usize = 0;
    assert(peers@.take(0) =~= Seq::empty());
    assert(target_views(out@) =~= Seq::empty());
    while i < peers.len()
        invariant
            i <= peers@.len(),
            target_views(out@) == peer_targets(local_domain@, peers@.take(i as int)),
        decreases peers@.len() - i,
    {
        let peer = &peers[i];
        assert(peers@.take(i + 1).drop_last() =~= peers@.take(i as int));
        if local_domain.as_str().is_empty() || !text::eq(
            peer.domain.as_str(),
            local_domain.as_str(),
        ) {
            let target = DeliveryTarget {
                inbox: peer.inbox_url.clone(),
                domain: peer.domain.clone(),
            };
            assert(target_views(out@.push(target)) =~= target_views(out@).push(
                target_view(target),
            ));
            out.push(target);
        }
        i = i + 1;
    }
    assert(peers@.take(peers@.len() as int) =~= peers@);
    out
}

/// How far an activity of this visibility is carried.
///
/// A direct activity is carried to no follower. Only a public one is carried to
/// the neighbouring sites: one for the followers would leave its audience there.
pub fn stage_fan_out(
    visibility: Visibility,
    room_peers: bool,
    base_url: &str,
    followers: &Vec<FollowerRow>,
    site_domain: &Option<String>,
    peers: &Vec<RoomPeer>,
) -> (r: FanOutPlan)
    ensures
        target_views(r.remote@) == fan_out_targets(
            visibility,
            room_peers,
            base_url@,
            followers@,
            own_domain(text::opt_view(*site_domain)),
            peers@,
        ),
        text::views(r.local_followers@) == fan_out_locals(visibility, base_url@, followers@),
        r.skipped == (if audience::scope_of(visibility) is AllFollowers {
            unusable(base_url@, followers@)
        } else {
            0
        }),
{
    let mut plan = match audience::fan_out_scope(visibility) {
        FanOutScope::AllFollowers => plan_follower_fan_out(base_url, followers),
        FanOutScope::ExplicitRecipientsOnly => {
            let plan = FanOutPlan {
                remote: Vec::new(),
                local_followers: Vec::new(),
                skipped: 0,
            };
            assert(target_views(plan.remote@) =~= Seq::empty());
            assert(text::views(plan.local_followers@) =~= Seq::empty());
            plan
        },
    };
    if room_peers && visibility == Visibility::Public {
        let mut more = plan_room_peer_fan_out(site_domain, peers);
        assert(target_views(plan.remote@ + more@) =~= target_views(plan.remote@) + target_views(
            more@,
        ));
        plan.remote.append(&mut more);
    }
    plan
}

pub open spec fn fan_out_targets(
    visibility: Visibility,
    room_peers: bool,
    base_url: Seq<char>,
    followers: Seq<FollowerRow>,
    local_domain: Seq<char>,
    peers: Seq<RoomPeer>,
) -> Seq<(Seq<char>, Seq<char>)> {
    let own = if audience::scope_of(visibility) is AllFollowers {
        remote_targets(base_url, followers)
    } else {
        Seq::empty()
    };
    if room_peers && visibility is Public {
        own + peer_targets(local_domain, peers)
    } else {
        own
    }
}

pub open spec fn fan_out_locals(
    visibility: Visibility,
    base_url: Seq<char>,
    followers: Seq<FollowerRow>,
) -> Seq<Seq<char>> {
    if audience::scope_of(visibility) is AllFollowers {
        local_names(base_url, followers)
    } else {
        Seq::empty()
    }
}

/// A direct activity is carried to nobody.
pub proof fn direct_is_carried_to_nobody(
    room_peers: bool,
    base_url: Seq<char>,
    followers: Seq<FollowerRow>,
    local_domain: Seq<char>,
    peers: Seq<RoomPeer>,
)
    ensures
        fan_out_targets(
            Visibility::Direct,
            room_peers,
            base_url,
            followers,
            local_domain,
            peers,
        ).len() == 0,
        fan_out_locals(Visibility::Direct, base_url, followers).len() == 0,
{
}

proof fn routes_are_listed(base_url: Seq<char>, rows: Seq<FollowerRow>, i: int)
    requires
        0 <= i < rows.len(),
    ensures
        match rows[i].route(base_url) {
            Route::Remote { inbox, domain } => remote_targets(base_url, rows).contains(
                (inbox, domain),
            ),
            Route::Local(name) => local_names(base_url, rows).contains(name),
            Route::Skip(_) => true,
        },
    decreases rows.len(),
{
    let remote = remote_targets(base_url, rows);
    let local = local_names(base_url, rows);
    if i == rows.len() - 1 {
        match rows[i].route(base_url) {
            Route::Remote { inbox, domain } => {
                assert(remote[remote.len() - 1] == (inbox, domain));
            },
            Route::Local(name) => {
                assert(local[local.len() - 1] == name);
            },
            Route::Skip(_) => {},
        }
    } else {
        let front = rows.drop_last();
        routes_are_listed(base_url, front, i);
        match rows[i].route(base_url) {
            Route::Remote { inbox, domain } => {
                let before = remote_targets(base_url, front);
                let k = choose|k: int| 0 <= k < before.len() && before[k] == (inbox, domain);
                assert(remote[k] == (inbox, domain));
            },
            Route::Local(name) => {
                let before = local_names(base_url, front);
                let k = choose|k: int| 0 <= k < before.len() && before[k] == name;
                assert(local[k] == name);
            },
            Route::Skip(_) => {},
        }
    }
}

proof fn listed_are_routes(base_url: Seq<char>, rows: Seq<FollowerRow>, k: int)
    ensures
        0 <= k < remote_targets(base_url, rows).len() ==> exists|i: int|
            0 <= i < rows.len() && (#[trigger] rows[i]).route(base_url) == (Route::Remote {
                inbox: remote_targets(base_url, rows)[k].0,
                domain: remote_targets(base_url, rows)[k].1,
            }),
        0 <= k < local_names(base_url, rows).len() ==> exists|i: int|
            0 <= i < rows.len() && (#[trigger] rows[i]).route(base_url) == Route::Local(
                local_names(base_url, rows)[k],
            ),
    decreases rows.len(),
{
    if rows.len() > 0 {
        let front = rows.drop_last();
        listed_are_routes(base_url, front, k);
        let last = rows[rows.len() - 1];
        let remote = remote_targets(base_url, front);
        let local = local_names(base_url, front);
        if 0 <= k < remote.len() {
            let i = choose|i: int|
                0 <= i < front.len() && (#[trigger] front[i]).route(base_url) == (Route::Remote {
                    inbox: remote[k].0,
                    domain: remote[k].1,
                });
            assert(rows[i] == front[i]);
        } else if 0 <= k < remote_targets(base_url, rows).len() {
            assert(rows[rows.len() - 1].route(base_url) is Remote);
        }
        if 0 <= k < local.len() {
            let i = choose|i: int|
                0 <= i < front.len() && (#[trigger] front[i]).route(base_url) == Route::Local(
                    local[k],
                );
            assert(rows[i] == front[i]);
        } else if 0 <= k < local_names(base_url, rows).len() {
            assert(rows[rows.len() - 1].route(base_url) is Local);
        }
    }
}

/// An activity that is not direct is carried to every follower that can be reached:
/// each remote one is a target, and each local one a name.
pub proof fn every_reachable_follower_is_carried_to(
    visibility: Visibility,
    room_peers: bool,
    base_url: Seq<char>,
    followers: Seq<FollowerRow>,
    local_domain: Seq<char>,
    peers: Seq<RoomPeer>,
    i: int,
)
    requires
        visibility != Visibility::Direct,
        0 <= i < followers.len(),
    ensures
        match followers[i].route(base_url) {
            Route::Remote { inbox, domain } => fan_out_targets(
                visibility,
                room_peers,
                base_url,
                followers,
                local_domain,
                peers,
            ).contains((inbox, domain)),
            Route::Local(name) => fan_out_locals(visibility, base_url, followers).contains(name),
            Route::Skip(_) => true,
        },
{
    routes_are_listed(base_url, followers, i);
    if let Route::Remote { inbox, domain } = followers[i].route(base_url) {
        let own = remote_targets(base_url, followers);
        let all = fan_out_targets(
            visibility,
            room_peers,
            base_url,
            followers,
            local_domain,
            peers,
        );
        let k = choose|k: int| 0 <= k < own.len() && own[k] == (inbox, domain);
        assert(all[k] == (inbox, domain));
    }
}

/// A public activity is carried to every neighbouring site, where that is asked for.
pub proof fn public_reaches_the_neighbours(
    base_url: Seq<char>,
    followers: Seq<FollowerRow>,
    local_domain: Seq<char>,
    peers: Seq<RoomPeer>,
    i: int,
)
    requires
        0 <= i < peers.len(),
        peers[i].domain@ != local_domain,
    ensures
        fan_out_targets(
            Visibility::Public,
            true,
            base_url,
            followers,
            local_domain,
            peers,
        ).contains((peers[i].inbox_url@, peers[i].domain@)),
{
    peers_are_listed(local_domain, peers, i);
    let more = peer_targets(local_domain, peers);
    let k = choose|k: int|
        0 <= k < more.len() && more[k] == (peers[i].inbox_url@, peers[i].domain@);
    let own = remote_targets(base_url, followers);
    assert((own + more)[own.len() + k] == more[k]);
}

proof fn peers_are_listed(local_domain: Seq<char>, peers: Seq<RoomPeer>, i: int)
    requires
        0 <= i < peers.len(),
        peers[i].domain@ != local_domain,
    ensures
        peer_targets(local_domain, peers).contains((peers[i].inbox_url@, peers[i].domain@)),
    decreases peers.len(),
{
    let all = peer_targets(local_domain, peers);
    if i == peers.len() - 1 {
        assert(all[all.len() - 1] == (peers[i].inbox_url@, peers[i].domain@));
    } else {
        peers_are_listed(local_domain, peers.drop_last(), i);
        let before = peer_targets(local_domain, peers.drop_last());
        let k = choose|k: int|
            0 <= k < before.len() && before[k] == (peers[i].inbox_url@, peers[i].domain@);
        assert(all[k] == before[k]);
    }
}

proof fn peers_are_other_sites(local_domain: Seq<char>, peers: Seq<RoomPeer>, k: int)
    requires
        0 <= k < peer_targets(local_domain, peers).len(),
    ensures
        local_domain.len() > 0 ==> peer_targets(local_domain, peers)[k].1 != local_domain,
        exists|i: int|
            0 <= i < peers.len() && (#[trigger] peers[i]).inbox_url@ == peer_targets(
                local_domain,
                peers,
            )[k].0 && peers[i].domain@ == peer_targets(local_domain, peers)[k].1,
    decreases peers.len(),
{
    let before = peer_targets(local_domain, peers.drop_last());
    if k < before.len() {
        peers_are_other_sites(local_domain, peers.drop_last(), k);
        let i = choose|i: int|
            0 <= i < peers.len() - 1 && (#[trigger] peers.drop_last()[i]).inbox_url@
                == before[k].0 && peers.drop_last()[i].domain@ == before[k].1;
        assert(peers[i] == peers.drop_last()[i]);
    } else {
        assert(peers[peers.len() - 1].domain@ == peer_targets(local_domain, peers)[k].1);
    }
}

/// An activity is carried to nobody else: each target is where a follower is
/// reached, or, of a public activity, a neighbouring site other than this one; and
/// each name is a follower's.
pub proof fn nobody_else_is_carried_to(
    visibility: Visibility,
    room_peers: bool,
    base_url: Seq<char>,
    followers: Seq<FollowerRow>,
    local_domain: Seq<char>,
    peers: Seq<RoomPeer>,
    k: int,
)
    ensures
        ({
            let all = fan_out_targets(
                visibility,
                room_peers,
                base_url,
                followers,
                local_domain,
                peers,
            );
            0 <= k < all.len() ==> (exists|i: int|
                0 <= i < followers.len() && (#[trigger] followers[i]).route(base_url) == (
                Route::Remote { inbox: all[k].0, domain: all[k].1 })) || (visibility
                == Visibility::Public && room_peers && (local_domain.len() > 0 ==> all[k].1
                != local_domain) && exists|i: int|
                0 <= i < peers.len() && (#[trigger] peers[i]).inbox_url@ == all[k].0
                    && peers[i].domain@ == all[k].1)
        }),
        ({
            let names = fan_out_locals(visibility, base_url, followers);
            0 <= k < names.len() ==> exists|i: int|
                0 <= i < followers.len() && (#[trigger] followers[i]).route(base_url)
                    == Route::Local(names[k])
        }),
{
    listed_are_routes(base_url, followers, k);
    let own = remote_targets(base_url, followers);
    let more = peer_targets(local_domain, peers);
    if room_peers && visibility == Visibility::Public && own.len() <= k < own.len() + more.len() {
        peers_are_other_sites(local_domain, peers, k - own.len());
        assert((own + more)[k] == more[k - own.len()]);
    }
    if 0 <= k < own.len() {
        assert((own + more)[k] == own[k]);
    }
}

/// How a follower is reached: on this site by name, whether the inbox or the actor
/// says so; elsewhere at the inbox, if it has one and its domain is known; else not
/// at all.
pub proof fn followers_are_reached_where_they_are(
    base_url: Seq<char>,
    name: Seq<char>,
    inbox: Option<Seq<char>>,
    domain: Option<Seq<char>>,
    actor: Option<Seq<char>>,
)
    requires
        name.len() > 0,
        !text::has_char(name, '/'),
        base_url.len() > 0,
        !text::white(base_url[0]),
    ensures
        inbox == Some(urls::inbox_url_of(base_url, name)) ==> route_of(
            base_url,
            inbox,
            domain,
            actor,
        ) == Route::Local(name),
        local_follower(base_url, inbox, actor) is None && trimmed_or_empty(inbox).len() > 0
            && domain is Some ==> route_of(base_url, inbox, domain, actor) == (Route::Remote {
            inbox: trimmed_or_empty(inbox),
            domain: domain->0,
        }),
        route_of(base_url, inbox, domain, actor) is Skip ==> local_follower(
            base_url,
            inbox,
            actor,
        ) is None && (trimmed_or_empty(inbox).len() == 0 || domain is None),
        route_of(base_url, inbox, domain, actor) is Remote ==> urls::username_of_actor(
            base_url,
            trimmed_or_empty(actor),
        ) is None || trimmed_or_empty(actor).len() == 0,
{
    urls::inbox_url_names_its_user(base_url, name);
    reveal_strlit("/inbox");
    let own = urls::inbox_url_of(base_url, name);
    assert(own.last() == 'x');
    assert(own[0] == base_url[0]);
    assert(text::trim_start_of(own) == own);
    assert(text::trim_end_of(own) == own);
}

pub open spec fn total(counts: Seq<u32>) -> nat
    decreases counts.len(),
{
    if counts.len() == 0 {
        0
    } else {
        total(counts.drop_last()) + counts.last() as nat
    }
}

proof fn total_grows(counts: Seq<u32>, i: int)
    requires
        0 <= i <= counts.len(),
    ensures
        total(counts.take(i)) <= total(counts),
    decreases counts.len() - i,
{
    if i < counts.len() {
        total_grows(counts, i + 1);
        assert(counts.take(i + 1).drop_last() =~= counts.take(i));
    } else {
        assert(counts.take(i) =~= counts);
    }
}

/// How many deliveries an activity led to: the queue rows that were written
/// for its remote targets, and the local deliveries that succeeded.
pub fn delivered_count(queued: &Vec<u32>, local: &Vec<bool>) -> (r: u32)
    requires
        total(queued@) + local@.len() <= u32::MAX,
    ensures
        r == total(queued@) + local@.filter(|ok: bool| ok).len(),
{
    let mut n: u32 = 0;
    let mut i: usize = 0;
    assert(queued@.take(0) =~= Seq::empty());
    while i < queued.len()
        invariant
            i <= queued@.len(),
            n == total(queued@.take(i as int)),
            total(queued@) + local@.len() <= u32::MAX,
        decreases queued@.len() - i,
    {
        proof {
            total_grows(queued@, i + 1);
            assert(queued@.take(i + 1).drop_last() =~= queued@.take(i as int));
        }
        n = n + queued[i];
        i = i + 1;
    }
    assert(queued@.take(queued@.len() as int) =~= queued@);
    let ghost succeeded = |ok: bool| ok;
    let mut j: usize = 0;
    assert(local@.take(0).filter(succeeded) =~= Seq::empty()) by {
        reveal(Seq::filter);
    }
    while j < local.len()
        invariant
            j <= local@.len(),
            succeeded == (|ok: bool| ok),
            total(queued@) + local@.len() <= u32::MAX,
            local@.take(j as int).filter(succeeded).len() <= j,
            n == total(queued@) + local@.take(j as int).filter(succeeded).len(),
        decreases local@.len() - j,
    {
        proof {
            reveal(Seq::filter);
            assert(local@.take(j + 1).drop_last() =~= local@.take(j as int));
        }
        if local[j] {
            n = n + 1;
        }
        j = j + 1;
    }
    assert(local@.take(local@.len() as int) =~= local@);
    n
}

// ---------------------------------------------------------------------------
// One activity to one inbox
// ---------------------------------------------------------------------------
/// An identifier that is not positive, so that no row can have it.
#[derive(Clone, Copy, Debug, PartialEq, Eq, Structural)]
pub struct NonPositiveId;

pub fn validate_delivery_activity_id(activity_id: i32) -> (r: Result<i32, NonPositiveId>)
    ensures
        r == (if activity_id > 0 {
            Ok(activity_id)
        } else {
            Err(NonPositiveId)
        }),
{
    if activity_id > 0 {
        Ok(activity_id)
    } else {
        Err(NonPositiveId)
    }
}

/// What is done next with a stored activity and its target inbox.
#[derive(Debug, PartialEq, Eq)]
pub enum DeliveryStep {
    /// Hand the activity to this local user, without HTTP.
    DeliverLocally(String),
    /// Record that the activity has arrived; a failure to record it is no error.
    RecordDelivered,
    /// Queue the activity for the delivery worker.
    QueuePending,
}

/// The first step after the activity has been stored.
pub fn first_delivery_step(base_url: &str, target_inbox: &str) -> (r: DeliveryStep)
    ensures
        match urls::username_of_inbox(base_url@, target_inbox@) {
            Some(name) => r matches DeliveryStep::DeliverLocally(n) && n@ == name,
            None => r is QueuePending,
        },
{
    match urls::local_username_from_inbox_url(base_url, target_inbox) {
        Some(name) => DeliveryStep::DeliverLocally(name),
        None => DeliveryStep::QueuePending,
    }
}

/// The step after local delivery: an activity that was not taken is left to the
/// delivery worker.
pub fn step_after_local_delivery(succeeded: bool) -> (r: DeliveryStep)
    ensures
        succeeded ==> r is RecordDelivered,
        !succeeded ==> r is QueuePending,
{
    if succeeded {
        DeliveryStep::RecordDelivered
    } else {
        DeliveryStep::QueuePending
    }
}

/// Why an activity is not delivered in process.
#[derive(Debug, PartialEq, Eq)]
pub enum LocalDeliveryError {
    MissingActorOrType,
    ForeignSigner(String),
}

impl LocalDeliveryError {
    pub open spec fn text(self) -> Seq<char> {
        match self {
            LocalDeliveryError::MissingActorOrType => "Missing actor or type in activity"@,
            LocalDeliveryError::ForeignSigner(signer) =>
                "In-process delivery requires a local signer, got "@ + signer@,
        }
    }

    pub fn message(&self) -> (r: String)
        ensures
            r@ == self.text(),
    {
        match self {
            LocalDeliveryError::MissingActorOrType => {
                "Missing actor or type in activity".to_owned()
            },
            LocalDeliveryError::ForeignSigner(signer) => {
                let mut out = "In-process delivery requires a local signer, got ".to_owned();
                out.append(signer.as_str());
                out
            },
        }
    }
}

/// What has to be resolved before an activity is executed for a local user.
#[derive(Debug, PartialEq, Eq)]
pub struct LocalDelivery {
    pub activity_type: String,
    /// The signer's actor has to be known.
    pub needs_actor: bool,
    /// The signer's move has to be verified.
    pub needs_move: bool,
}

pub open spec fn type_of_activity(activity: crate::json::JsonView) -> Seq<char> {
    match activity.text_at("type"@) {
        Some(t) => t,
        None => ""@,
    }
}

pub open spec fn type_needs_actor(t: Seq<char>) -> bool {
    t == "Follow"@ || t == "Create"@ || t == "Update"@ || t == "Delete"@ || t == "Announce"@ || t
        == "Like"@
}

/// Checks an activity that never left the process: it names its type, and its
/// signer is an actor of this site.
pub fn check_local_delivery(base_url: &str, activity: &Json, signer: &str) -> (r: Result<
    LocalDelivery,
    LocalDeliveryError,
>)
    ensures
        ({
            let t = type_of_activity(activity@);
            match r {
                Err(LocalDeliveryError::MissingActorOrType) => t.len() == 0 || signer@.len() == 0,
                Err(LocalDeliveryError::ForeignSigner(s)) => t.len() > 0 && signer@.len() > 0
                    && urls::username_of_actor(base_url@, signer@) is None && s@ == signer@,
                Ok(d) => {
                    &&& t.len() > 0 && signer@.len() > 0
                    &&& urls::username_of_actor(base_url@, signer@) is Some
                    &&& d.activity_type@ == t
                    &&& d.needs_actor == type_needs_actor(t)
                    &&& d.needs_move == (t == "Move"@)
                },
            }
        }),
{
    let t = match activity.str_at("type") {
        Some(t) => t,
        None => "",
    };
    proof {
        reveal_strlit("");
    }
    if t.is_empty() || signer.is_empty() {
        return Err(LocalDeliveryError::MissingActorOrType);
    }
    if urls::local_username_from_actor_url(base_url, signer).is_none() {
        return Err(LocalDeliveryError::ForeignSigner(signer.to_owned()));
    }
    let needs_actor = text::eq(t, "Follow") || text::eq(t, "Create") || text::eq(t, "Update")
        || text::eq(t, "Delete") || text::eq(t, "Announce") || text::eq(t, "Like");
    Ok(
        LocalDelivery {
            activity_type: t.to_owned(),
            needs_actor,
            needs_move: text::eq(t, "Move"),
        },
    )
}

pub open spec fn error_text_of(body: crate::json::JsonView, fallback: Seq<char>) -> Seq<char> {
    match body.text_at("error"@) {
        Some(e) => e,
        None => fallback,
    }
}

/// The message of an error response.
pub fn error_message(body: &Json, fallback: &str) -> (r: String)
    ensures
        r@ == error_text_of(body@, fallback@),
{
    match body.str_at("error") {
        Some(e) => e.to_owned(),
        None => fallback.to_owned(),
    }
}

// ---------------------------------------------------------------------------
// After the transaction
// ---------------------------------------------------------------------------
/// A reply to an inbox of this site.
pub struct LocalReply<A> {
    pub user_id: i32,
    pub activity: A,
    pub target_inbox: String,
}

/// Effects that may only happen after the transaction that produced them has
/// been committed; they are dropped with it otherwise.
pub struct PostCommit<N, A> {
    pub notices: Vec<N>,
    pub local_replies: Vec<LocalReply<A>>,
}

impl<N, A> PostCommit<N, A> {
    pub fn new() -> (r: Self)
        ensures
            r.notices@.len() == 0,
            r.local_replies@.len() == 0,
    {
        PostCommit { notices: Vec::new(), local_replies: Vec::new() }
    }

    pub fn push(&mut self, notice: Option<N>)
        ensures
            final(self).local_replies == old(self).local_replies,
            match notice {
                Some(n) => final(self).notices@ == old(self).notices@.push(n),
                None => final(self).notices@ == old(self).notices@,
            },
    {
        if let Some(n) = notice {
            self.notices.push(n);
        }
    }

    pub fn reply_locally(&mut self, user_id: i32, activity: A, target_inbox: String)
        ensures
            final(self).notices == old(self).notices,
            final(self).local_replies@ == old(self).local_replies@.push(
                (LocalReply { user_id, activity, target_inbox }),
            ),
    {
        self.local_replies.push(LocalReply { user_id, activity, target_inbox });
    }
}

/// The site knows its own domain however it is written.
pub proof fn the_own_domain_is_known(domain: Seq<char>, other: Seq<char>)
    ensures
        text::ascii_lower(domain) == text::ascii_lower(other) ==> own_domain(Some(domain))
            == own_domain(Some(other)),
        own_domain(Some(domain)) == text::ascii_lower(domain),
        own_domain(None).len() == 0,
{
}

/// Who sent an activity is looked up for the kinds that follow, create, change or
/// remove something, pass it on or like it, and for no other.
pub proof fn senders_are_looked_up_where_they_matter(t: Seq<char>)
    ensures
        type_needs_actor(t) <==> seq![
            "Follow"@,
            "Create"@,
            "Update"@,
            "Delete"@,
            "Announce"@,
            "Like"@,
        ].contains(t),
{
    let kinds = seq!["Follow"@, "Create"@, "Update"@, "Delete"@, "Announce"@, "Like"@];
    assert(kinds[0] == "Follow"@ && kinds[1] == "Create"@ && kinds[2] == "Update"@ && kinds[3]
        == "Delete"@ && kinds[4] == "Announce"@ && kinds[5] == "Like"@);
}

} // verus!
