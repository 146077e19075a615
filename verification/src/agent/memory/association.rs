//! How memories hang together: by what they are about, and by when they were
//! learned. How strongly one brings another to mind is weighed elsewhere.
use crate::agent::memory::lexical::Concept;
use crate::sort;
use crate::text;
use vstd::prelude::*;

verus! {

/// Memories learned within so many seconds are linked.
pub const WINDOW_SECS: i64 = 3600;

/// How many later memories one is linked to at most.
pub const TIME_LINKS: usize = 8;

/// A memory as far as it hangs together with others.
pub struct Node<'a> {
    pub concepts: &'a [Concept],
    pub at_ms: i64,
}

// ---------------------------------------------------------------------------
// Concepts
// ---------------------------------------------------------------------------
/// Whether a memory is about the concept, by its name in lower case.
pub open spec fn is_about(concepts: Seq<Concept>, key: Seq<char>) -> bool {
    exists|i: int|
        0 <= i < concepts.len() && text::lowercased((#[trigger] concepts[i]).name@) == key
}

/// The memories that are about the concept, in order.
pub open spec fn members_of(nodes: Seq<Node>, key: Seq<char>) -> Seq<int>
    decreases nodes.len(),
{
    if nodes.len() == 0 {
        Seq::empty()
    } else {
        let before = members_of(nodes.drop_last(), key);
        if is_about(nodes.last().concepts@, key) {
            before.push(nodes.len() - 1)
        } else {
            before
        }
    }
}

/// The memories that share a concept.
pub struct Group {
    pub key: String,
    pub members: Vec<usize>,
}

pub open spec fn group_holds(g: Group, nodes: Seq<Node>) -> bool {
    &&& g.members@.len() == members_of(nodes, g.key@).len()
    &&& forall|i: int|
        0 <= i < g.members@.len() ==> (#[trigger] g.members@[i]) == members_of(nodes, g.key@)[i]
}

fn mentions_key(concepts: &[Concept], key: &str) -> (r: bool)
    ensures
        r == is_about(concepts@, key@),
{
    let mut i: usize = 0;
    while i < concepts.len()
        invariant
            i <= concepts@.len(),
            forall|k: int|
                0 <= k < i ==> text::lowercased((#[trigger] concepts@[k]).name@) != key@,
        decreases concepts@.len() - i,
    {
        let name = text::to_lowercase(concepts[i].name.as_str());
        if text::eq(name.as_str(), key) {
            assert(text::lowercased(concepts@[i as int].name@) == key@);
            return true;
        }
        i = i + 1;
    }
    false
}

fn find_members(nodes: &Vec<Node>, key: &str) -> (r: Vec<usize>)
    ensures
        r@.len() == members_of(nodes@, key@).len(),
        forall|i: int| 0 <= i < r@.len() ==> (#[trigger] r@[i]) == members_of(nodes@, key@)[i],
{
    let mut out: Vec<usize> = Vec::new();
    let mut i: usize = 0;
    assert(nodes@.take(0) =~= Seq::empty());
    while i < nodes.len()
        invariant
            i <= nodes@.len(),
            out@.len() == members_of(nodes@.take(i as int), key@).len(),
            forall|k: int|
                0 <= k < out@.len() ==> (#[trigger] out@[k]) == members_of(
                    nodes@.take(i as int),
                    key@,
                )[k],
        decreases nodes@.len() - i,
    {
        assert(nodes@.take(i + 1).drop_last() =~= nodes@.take(i as int));
        assert(nodes@.take(i + 1).last() == nodes@[i as int]);
        if mentions_key(nodes[i].concepts, key) {
            out.push(i);
        }
        i = i + 1;
    }
    assert(nodes@.take(nodes@.len() as int) =~= nodes@);
    out
}

pub open spec fn has_key(groups: Seq<Group>, key: Seq<char>) -> bool {
    exists|g: int| 0 <= g < groups.len() && (#[trigger] groups[g]).key@ == key
}

/// The concepts that more than one memory is about, each with its memories.
pub fn concept_members(nodes: &Vec<Node>) -> (r: Vec<Group>)
    ensures
        forall|g: int|
            0 <= g < r@.len() ==> group_holds(#[trigger] r@[g], nodes@) && r@[g].members@.len() > 1,
        forall|g: int, h: int|
            0 <= g < h < r@.len() ==> (#[trigger] r@[g]).key@ != (#[trigger] r@[h]).key@,
        forall|key: Seq<char>|
            #[trigger] members_of(nodes@, key).len() > 1 ==> has_key(r@, key),
{
    let mut groups: Vec<Group> = Vec::new();
    let mut keys: Vec<String> = Vec::new();
    let mut i: usize = 0;
    while i < nodes.len()
        invariant
            i <= nodes@.len(),
            forall|g: int|
                0 <= g < groups@.len() ==> group_holds(#[trigger] groups@[g], nodes@)
                    && groups@[g].members@.len() > 1 && text::views(keys@).contains(
                    groups@[g].key@,
                ),
            forall|g: int, h: int|
                0 <= g < h < groups@.len() ==> (#[trigger] groups@[g]).key@ != (
                #[trigger] groups@[h]).key@,
            forall|key: Seq<char>|
                #[trigger] text::views(keys@).contains(key) && members_of(nodes@, key).len() > 1
                    ==> has_key(groups@, key),
            forall|n: int, key: Seq<char>|
                0 <= n < i && #[trigger] is_about(nodes@[n].concepts@, key) ==> text::views(
                    keys@,
                ).contains(key),
        decreases nodes@.len() - i,
    {
        let concepts = nodes[i].concepts;
        let mut k: usize = 0;
        while k < concepts.len()
            invariant
                i < nodes@.len(),
                concepts == nodes@[i as int].concepts,
                k <= concepts@.len(),
                forall|g: int|
                    0 <= g < groups@.len() ==> group_holds(#[trigger] groups@[g], nodes@)
                        && groups@[g].members@.len() > 1 && text::views(keys@).contains(
                        groups@[g].key@,
                    ),
                forall|g: int, h: int|
                    0 <= g < h < groups@.len() ==> (#[trigger] groups@[g]).key@ != (
                    #[trigger] groups@[h]).key@,
                forall|key: Seq<char>|
                    #[trigger] text::views(keys@).contains(key) && members_of(nodes@, key).len()
                        > 1 ==> has_key(groups@, key),
                forall|n: int, key: Seq<char>|
                    0 <= n < i && #[trigger] is_about(nodes@[n].concepts@, key) ==> text::views(
                        keys@,
                    ).contains(key),
                forall|m: int|
                    0 <= m < k ==> text::views(keys@).contains(
                        text::lowercased((#[trigger] concepts@[m]).name@),
                    ),
            decreases concepts@.len() - k,
        {
            let key = text::to_lowercase(concepts[k].name.as_str());
            if !text::list_contains(&keys, key.as_str()) {
                let ghost known = text::views(keys@);
                let ghost before = groups@;
                let copy = key.clone();
                proof {
                    text::views_push(keys@, copy);
                    assert(known.push(key@)[known.len() as int] == key@);
                    assert forall|x: Seq<char>| known.contains(x) implies #[trigger] known.push(
                        key@,
                    ).contains(x) by {
                        let p = choose|p: int| 0 <= p < known.len() && known[p] == x;
                        assert(known.push(key@)[p] == x);
                    }
                    assert forall|x: Seq<char>| #[trigger]
                        known.push(key@).contains(x) implies known.contains(x) || x == key@ by {
                        let p = choose|p: int|
                            0 <= p < known.push(key@).len() && known.push(key@)[p] == x;
                        if p < known.len() {
                            assert(known[p] == x);
                        }
                    }
                }
                keys.push(copy);
                let members = find_members(nodes, key.as_str());
                if members.len() > 1 {
                    groups.push(Group { key, members });
                    assert(groups@[before.len() as int].key@ == key@);
                }
                proof {
                    assert forall|x: Seq<char>| #[trigger]
                        text::views(keys@).contains(x) && members_of(nodes@, x).len()
                            > 1 implies has_key(groups@, x) by {
                        if x != key@ {
                            assert(known.contains(x));
                            assert(has_key(before, x));
                            let g = choose|g: int|
                                0 <= g < before.len() && (#[trigger] before[g]).key@ == x;
                            assert(groups@[g].key@ == x);
                        } else {
                            assert(groups@[before.len() as int].key@ == x);
                        }
                    }
                    assert forall|g: int| 0 <= g < groups@.len() implies group_holds(
                        #[trigger] groups@[g],
                        nodes@,
                    ) && groups@[g].members@.len() > 1 && text::views(keys@).contains(
                        groups@[g].key@,
                    ) by {
                        if g < before.len() {
                            assert(groups@[g] == before[g]);
                        }
                    }
                    assert forall|g: int, h: int| 0 <= g < h < groups@.len() implies (
                    #[trigger] groups@[g]).key@ != (#[trigger] groups@[h]).key@ by {
                        assert(groups@[g] == before[g]);
                        assert(known.contains(before[g].key@));
                        if h < before.len() {
                            assert(groups@[h] == before[h]);
                        }
                    }
                }
            }
            k = k + 1;
        }
        proof {
            assert forall|n: int, key: Seq<char>|
                0 <= n < i + 1 && #[trigger] is_about(
                    nodes@[n].concepts@,
                    key,
                ) implies text::views(keys@).contains(key) by {
                if n == i {
                    let m = choose|m: int|
                        0 <= m < concepts@.len() && text::lowercased(
                            (#[trigger] concepts@[m]).name@,
                        ) == key;
                    assert(text::views(keys@).contains(text::lowercased(concepts@[m].name@)));
                }
            }
        }
        i = i + 1;
    }
    proof {
        assert forall|key: Seq<char>|
            #[trigger] members_of(nodes@, key).len() > 1 implies has_key(groups@, key) by {
            some_member(nodes@, key);
            let n = choose|n: int|
                0 <= n < nodes@.len() && #[trigger] is_about(nodes@[n].concepts@, key);
            assert(text::views(keys@).contains(key));
        }
    }
    groups
}

proof fn some_member(nodes: Seq<Node>, key: Seq<char>)
    requires
        members_of(nodes, key).len() > 0,
    ensures
        exists|n: int| 0 <= n < nodes.len() && #[trigger] is_about(nodes[n].concepts@, key),
    decreases nodes.len(),
{
    if nodes.len() > 0 {
        if is_about(nodes.last().concepts@, key) {
            assert(is_about(nodes[nodes.len() - 1].concepts@, key));
        } else {
            some_member(nodes.drop_last(), key);
            let n = choose|n: int|
                0 <= n < nodes.drop_last().len() && #[trigger] is_about(
                    nodes.drop_last()[n].concepts@,
                    key,
                );
            assert(is_about(nodes[n].concepts@, key));
        }
    }
}

// ---------------------------------------------------------------------------
// Time
// ---------------------------------------------------------------------------
/// Two memories that were learned close together, and how many seconds apart.
#[derive(Clone, Copy)]
pub struct TimeLink {
    pub earlier: usize,
    pub later: usize,
    pub apart_secs: i64,
}

pub open spec fn time_keys(nodes: Seq<Node>) -> Seq<(u64, i64)> {
    Seq::new(nodes.len(), |i: int| (0u64, nodes[i].at_ms))
}

/// How many whole seconds lie between two memories in order of time.
pub open spec fn apart(nodes: Seq<Node>, order: Seq<usize>, p: int, q: int) -> int {
    (nodes[order[q] as int].at_ms - nodes[order[p] as int].at_ms) / 1000
}

/// The links of the memory at place `p` in the order of time to those from place
/// `q` on: to the next few, as long as they are within the window.
pub open spec fn links_from(nodes: Seq<Node>, order: Seq<usize>, p: int, q: int) -> Seq<TimeLink>
    decreases order.len() - q,
{
    if q <= p || q >= order.len() || q - p > TIME_LINKS || apart(nodes, order, p, q) > WINDOW_SECS {
        Seq::empty()
    } else {
        seq![
            TimeLink {
                earlier: order[p],
                later: order[q],
                apart_secs: apart(nodes, order, p, q) as i64,
            },
        ] + links_from(nodes, order, p, q + 1)
    }
}

/// The links of the first `n` memories in the order of time.
pub open spec fn links_of(nodes: Seq<Node>, order: Seq<usize>, n: int) -> Seq<TimeLink>
    decreases n,
{
    if n <= 0 {
        Seq::empty()
    } else {
        links_of(nodes, order, n - 1) + links_from(nodes, order, n - 1, n)
    }
}

/// The memories that were learned close together.
pub fn time_neighbours(nodes: &Vec<Node>) -> (r: Vec<TimeLink>)
    ensures
        exists|order: Seq<usize>|
            #![trigger sort::in_order(time_keys(nodes@), order)]
            sort::in_order(time_keys(nodes@), order) && r@ == links_of(
                nodes@,
                order,
                nodes@.len() as int,
            ),
{
    let mut keys: Vec<(u64, i64)> = Vec::new();
    let mut i: usize = 0;
    while i < nodes.len()
        invariant
            i <= nodes@.len(),
            keys@ == time_keys(nodes@).take(i as int),
        decreases nodes@.len() - i,
    {
        keys.push((0, nodes[i].at_ms));
        assert(time_keys(nodes@).take(i + 1) =~= time_keys(nodes@).take(i as int).push(
            time_keys(nodes@)[i as int],
        ));
        i = i + 1;
    }
    assert(time_keys(nodes@).take(nodes@.len() as int) =~= time_keys(nodes@));
    let order = sort::order_of(&keys);
    let n = order.len();
    let mut out: Vec<TimeLink> = Vec::new();
    let mut p: usize = 0;
    while p < n
        invariant
            p <= n,
            n == order@.len(),
            n == nodes@.len(),
            sort::in_order(time_keys(nodes@), order@),
            out@ == links_of(nodes@, order@, p as int),
        decreases n - p,
    {
        let ghost before = out@;
        let mut q: usize = p + 1;
        let ghost own = links_from(nodes@, order@, p as int, p + 1);
        assert(out@ + links_from(nodes@, order@, p as int, q as int) =~= before + own);
        while q < n && q - p <= TIME_LINKS
            invariant_except_break
                out@ + links_from(nodes@, order@, p as int, q as int) == before + own,
            invariant
                p < q <= n,
                n == order@.len(),
                n == nodes@.len(),
                sort::in_order(time_keys(nodes@), order@),
            ensures
                out@ == before + own,
            decreases n - q,
        {
            assert(order@[p as int] < nodes@.len() && order@[q as int] < nodes@.len());
            assert(sort::comes_before(
                time_keys(nodes@),
                order@[p as int] as int,
                order@[q as int] as int,
            ));
            let a = nodes[order[p]].at_ms;
            let b = nodes[order[q]].at_ms;
            assert(a <= b);
            let secs: i128 = (b as i128 - a as i128) / 1000;
            assert(secs == apart(nodes@, order@, p as int, q as int));
            if secs > WINDOW_SECS as i128 {
                assert(out@ + links_from(nodes@, order@, p as int, q as int) =~= out@);
                break ;
            }
            let link = TimeLink { earlier: order[p], later: order[q], apart_secs: secs as i64 };
            let ghost so_far = out@;
            out.push(link);
            assert(out@ + links_from(nodes@, order@, p as int, q + 1) =~= so_far + links_from(
                nodes@,
                order@,
                p as int,
                q as int,
            ));
            q = q + 1;
            if q >= n || q - p > TIME_LINKS {
                assert(out@ + links_from(nodes@, order@, p as int, q as int) =~= out@);
            }
        }
        p = p + 1;
    }
    out
}

/// No memory is linked to more later ones than may be.
pub proof fn links_are_few(nodes: Seq<Node>, order: Seq<usize>, p: int, q: int)
    requires
        p < q,
    ensures
        links_from(nodes, order, p, q).len() <= if q - p > TIME_LINKS {
            0
        } else {
            TIME_LINKS - (q - p) + 1
        },
        forall|k: int|
            0 <= k < links_from(nodes, order, p, q).len() ==> (#[trigger] links_from(
                nodes,
                order,
                p,
                q,
            )[k]).earlier == order[p],
    decreases order.len() - q,
{
    if q < order.len() && q - p <= TIME_LINKS && apart(nodes, order, p, q) <= WINDOW_SECS {
        links_are_few(nodes, order, p, q + 1);
        let rest = links_from(nodes, order, p, q + 1);
        let all = links_from(nodes, order, p, q);
        assert forall|k: int| 0 <= k < all.len() implies (#[trigger] all[k]).earlier
            == order[p] by {
            if k > 0 {
                assert(all[k] == rest[k - 1]);
            }
        }
    }
}

// ---------------------------------------------------------------------------
// Wandering
// ---------------------------------------------------------------------------
/// A walk along associations: where it began, where it is and where it has been.
pub struct Walk {
    pub start: usize,
    pub at: usize,
    pub visited: Vec<usize>,
}

/// A memory that the walk may go to next, and what leads there: how many memories
/// share each concept that both are about, and how many seconds apart the two were
/// learned, once for each link between them.
pub struct Way {
    pub other: usize,
    pub shared: Vec<usize>,
    pub apart: Vec<i64>,
}

pub struct WayView {
    pub other: int,
    pub shared: Seq<usize>,
    pub apart: Seq<i64>,
}

impl View for Way {
    type V = WayView;

    open spec fn view(&self) -> WayView {
        WayView { other: self.other as int, shared: self.shared@, apart: self.apart@ }
    }
}

/// How many memories share the concept, where `other` is one of them.
pub open spec fn share(groups: Seq<Group>, key: Seq<char>, other: usize, i: int) -> Option<usize>
    decreases groups.len() - i,
{
    if i < 0 || i >= groups.len() {
        None
    } else if groups[i].key@ == key {
        if groups[i].members@.contains(other) {
            Some(groups[i].members.len())
        } else {
            None
        }
    } else {
        share(groups, key, other, i + 1)
    }
}

/// What leads to `other` by way of these concepts, in their order.
pub open spec fn shares(concepts: Seq<Concept>, groups: Seq<Group>, other: usize) -> Seq<usize>
    decreases concepts.len(),
{
    if concepts.len() == 0 {
        Seq::empty()
    } else {
        let before = shares(concepts.drop_last(), groups, other);
        match share(groups, text::lowercased(concepts.last().name@), other, 0) {
            Some(n) => before.push(n),
            None => before,
        }
    }
}

pub open spec fn joins(link: TimeLink, a: usize, b: usize) -> bool {
    (link.earlier == a && link.later == b) || (link.earlier == b && link.later == a)
}

/// How far apart the two memories were learned, link by link.
pub open spec fn gaps(links: Seq<TimeLink>, a: usize, b: usize) -> Seq<i64>
    decreases links.len(),
{
    if links.len() == 0 {
        Seq::empty()
    } else {
        let before = gaps(links.drop_last(), a, b);
        if joins(links.last(), a, b) {
            before.push(links.last().apart_secs)
        } else {
            before
        }
    }
}

/// The ways on to the first `n` memories: to those that hang together with where
/// the walk is, that it has not been to and that are not to be avoided.
pub open spec fn ways(
    nodes: Seq<Node>,
    groups: Seq<Group>,
    links: Seq<TimeLink>,
    at: usize,
    barred: Seq<usize>,
    n: int,
) -> Seq<WayView>
    decreases n,
{
    if n <= 0 {
        Seq::empty()
    } else {
        let before = ways(nodes, groups, links, at, barred, n - 1);
        let way = WayView {
            other: n - 1,
            shared: shares(nodes[at as int].concepts@, groups, (n - 1) as usize),
            apart: gaps(links, at, (n - 1) as usize),
        };
        if barred.contains((n - 1) as usize) || (way.shared.len() == 0 && way.apart.len() == 0) {
            before
        } else {
            before.push(way)
        }
    }
}

pub open spec fn way_views(v: Seq<Way>) -> Seq<WayView> {
    Seq::new(v.len(), |i: int| v[i]@)
}

fn holds(list: &Vec<usize>, n: usize) -> (r: bool)
    ensures
        r == list@.contains(n),
{
    let mut i: usize = 0;
    while i < list.len()
        invariant
            i <= list@.len(),
            forall|k: int| 0 <= k < i ==> (#[trigger] list@[k]) != n,
        decreases list@.len() - i,
    {
        if list[i] == n {
            assert(list@[i as int] == n);
            return true;
        }
        i = i + 1;
    }
    false
}

fn find_share(groups: &Vec<Group>, key: &str, other: usize) -> (r: Option<usize>)
    ensures
        r == share(groups@, key@, other, 0),
{
    let mut i: usize = 0;
    while i < groups.len()
        invariant
            i <= groups@.len(),
            share(groups@, key@, other, 0) == share(groups@, key@, other, i as int),
        decreases groups@.len() - i,
    {
        if text::eq(groups[i].key.as_str(), key) {
            if holds(&groups[i].members, other) {
                return Some(groups[i].members.len());
            }
            return None;
        }
        i = i + 1;
    }
    None
}

fn find_shares(concepts: &[Concept], groups: &Vec<Group>, other: usize) -> (r: Vec<usize>)
    ensures
        r@ == shares(concepts@, groups@, other),
{
    let mut out: Vec<usize> = Vec::new();
    let mut i: usize = 0;
    assert(concepts@.take(0) =~= Seq::empty());
    while i < concepts.len()
        invariant
            i <= concepts@.len(),
            out@ == shares(concepts@.take(i as int), groups@, other),
        decreases concepts@.len() - i,
    {
        assert(concepts@.take(i + 1).drop_last() =~= concepts@.take(i as int));
        let key = text::to_lowercase(concepts[i].name.as_str());
        if let Some(n) = find_share(groups, key.as_str(), other) {
            out.push(n);
        }
        i = i + 1;
    }
    assert(concepts@.take(concepts@.len() as int) =~= concepts@);
    out
}

fn find_gaps(links: &Vec<TimeLink>, a: usize, b: usize) -> (r: Vec<i64>)
    ensures
        r@ == gaps(links@, a, b),
{
    let mut out: Vec<i64> = Vec::new();
    let mut i: usize = 0;
    assert(links@.take(0) =~= Seq::empty());
    while i < links.len()
        invariant
            i <= links@.len(),
            out@ == gaps(links@.take(i as int), a, b),
        decreases links@.len() - i,
    {
        assert(links@.take(i + 1).drop_last() =~= links@.take(i as int));
        let link = links[i];
        if (link.earlier == a && link.later == b) || (link.earlier == b && link.later == a) {
            out.push(link.apart_secs);
        }
        i = i + 1;
    }
    assert(links@.take(links@.len() as int) =~= links@);
    out
}

/// Begins a walk, where there is a memory to begin at.
pub fn begin_walk(nodes: &Vec<Node>, start: usize) -> (r: Option<Walk>)
    ensures
        match r {
            Some(w) => start < nodes@.len() && w.start == start && w.at == start && w.visited@
                == seq![start],
            None => start >= nodes@.len(),
        },
{
    if start >= nodes.len() {
        return None;
    }
    let visited: Vec<usize> = vec![start];
    assert(visited@ =~= seq![start]);
    Some(Walk { start, at: start, visited })
}

/// Where a walk may go next, in order.
pub fn ways_on(
    nodes: &Vec<Node>,
    groups: &Vec<Group>,
    links: &Vec<TimeLink>,
    walk: &Walk,
    avoid: &Vec<usize>,
) -> (r: Vec<Way>)
    requires
        walk.at < nodes@.len(),
    ensures
        way_views(r@) == ways(
            nodes@,
            groups@,
            links@,
            walk.at,
            walk.visited@ + avoid@,
            nodes@.len() as int,
        ),
{
    let ghost barred = walk.visited@ + avoid@;
    let mut out: Vec<Way> = Vec::new();
    let mut n: usize = 0;
    assert(way_views(out@) =~= Seq::empty());
    while n < nodes.len()
        invariant
            n <= nodes@.len(),
            walk.at < nodes@.len(),
            barred == walk.visited@ + avoid@,
            way_views(out@) == ways(nodes@, groups@, links@, walk.at, barred, n as int),
        decreases nodes@.len() - n,
    {
        let seen = holds(&walk.visited, n);
        let avoided = holds(avoid, n);
        proof {
            if walk.visited@.contains(n) {
                let i = walk.visited@.index_of(n);
                assert(barred[i] == n);
            }
            if avoid@.contains(n) {
                let i = avoid@.index_of(n);
                assert(barred[walk.visited@.len() + i] == n);
            }
            if barred.contains(n) {
                let i = barred.index_of(n);
                if i < walk.visited@.len() {
                    assert(walk.visited@[i] == n);
                } else {
                    assert(avoid@[i - walk.visited@.len()] == n);
                }
            }
        }
        let shared = find_shares(nodes[walk.at].concepts, groups, n);
        let apart = find_gaps(links, walk.at, n);
        if !seen && !avoided && (shared.len() > 0 || apart.len() > 0) {
            let way = Way { other: n, shared, apart };
            let ghost before = out@;
            out.push(way);
            assert(way_views(out@) =~= way_views(before).push(way@));
        }
        n = n + 1;
    }
    out
}

/// Goes on to another memory.
pub fn go_on(walk: &mut Walk, other: usize)
    ensures
        final(walk).start == old(walk).start,
        final(walk).at == other,
        final(walk).visited@ == old(walk).visited@.push(other),
{
    walk.visited.push(other);
    walk.at = other;
}

/// Where a walk has ended, if it has moved at all.
pub fn landed(walk: &Walk) -> (r: Option<usize>)
    ensures
        r == if walk.at != walk.start {
            Some(walk.at)
        } else {
            None
        },
{
    if walk.at != walk.start {
        Some(walk.at)
    } else {
        None
    }
}

/// Every way on leads to a memory of its own that the walk has not been to and
/// that is not avoided, along something the two have in common; and every such
/// memory has a way.
pub proof fn ways_lead_to_new_places(
    nodes: Seq<Node>,
    groups: Seq<Group>,
    links: Seq<TimeLink>,
    at: usize,
    barred: Seq<usize>,
    n: int,
)
    requires
        0 <= n <= usize::MAX,
    ensures
        forall|i: int|
            0 <= i < ways(nodes, groups, links, at, barred, n).len() ==> {
                let way = #[trigger] ways(nodes, groups, links, at, barred, n)[i];
                &&& 0 <= way.other < n
                &&& !barred.contains(way.other as usize)
                &&& way.shared.len() > 0 || way.apart.len() > 0
            },
        forall|i: int, k: int|
            0 <= i < k < ways(nodes, groups, links, at, barred, n).len() ==> (#[trigger] ways(
                nodes,
                groups,
                links,
                at,
                barred,
                n,
            )[i]).other < (#[trigger] ways(nodes, groups, links, at, barred, n)[k]).other,
        forall|other: int|
            0 <= other < n && !barred.contains(other as usize) && (#[trigger] shares(
                nodes[at as int].concepts@,
                groups,
                other as usize,
            ).len() > 0 || gaps(links, at, other as usize).len() > 0) ==> exists|i: int|
                0 <= i < ways(nodes, groups, links, at, barred, n).len() && (#[trigger] ways(
                    nodes,
                    groups,
                    links,
                    at,
                    barred,
                    n,
                )[i]).other == other,
    decreases n,
{
    if n > 0 {
        ways_lead_to_new_places(nodes, groups, links, at, barred, n - 1);
        let before = ways(nodes, groups, links, at, barred, n - 1);
        let all = ways(nodes, groups, links, at, barred, n);
        assert forall|i: int| 0 <= i < all.len() implies {
            let way = #[trigger] all[i];
            &&& 0 <= way.other < n
            &&& !barred.contains(way.other as usize)
            &&& way.shared.len() > 0 || way.apart.len() > 0
        } by {
            if i < before.len() {
                assert(all[i] == before[i]);
            }
        }
        assert forall|i: int, k: int| 0 <= i < k < all.len() implies (#[trigger] all[i]).other < (
        #[trigger] all[k]).other by {
            assert(all[i] == before[i]);
            if k < before.len() {
                assert(all[k] == before[k]);
            }
        }
        assert forall|other: int|
            0 <= other < n && !barred.contains(other as usize) && (#[trigger] shares(
                nodes[at as int].concepts@,
                groups,
                other as usize,
            ).len() > 0 || gaps(links, at, other as usize).len() > 0) implies exists|i: int|
            0 <= i < all.len() && (#[trigger] all[i]).other == other by {
            if other < n - 1 {
                let i = choose|i: int|
                    0 <= i < before.len() && (#[trigger] before[i]).other == other;
                assert(all[i] == before[i]);
            } else {
                assert(all[before.len() as int].other == other);
            }
        }
    }
}

/// The memories that share a concept are exactly those that are about it, whatever
/// the case of its name.
pub proof fn groups_hold_what_is_about_the_concept(nodes: Seq<Node>, key: Seq<char>, i: int)
    requires
        0 <= i < nodes.len(),
    ensures
        members_of(nodes, key).contains(i) <==> exists|c: int|
            0 <= c < nodes[i].concepts@.len() && text::lowercased(
                (#[trigger] nodes[i].concepts@[c]).name@,
            ) == key,
        forall|p: int, q: int|
            0 <= p < q < members_of(nodes, key).len() ==> (#[trigger] members_of(nodes, key)[p]) < (
            #[trigger] members_of(nodes, key)[q]),
{
    members_ascend(nodes, key);
    members_are_about(nodes, key, i);
    assert(is_about(nodes[i].concepts@, key) <==> exists|c: int|
        0 <= c < nodes[i].concepts@.len() && text::lowercased(
            (#[trigger] nodes[i].concepts@[c]).name@,
        ) == key);
}

proof fn members_are_about(nodes: Seq<Node>, key: Seq<char>, i: int)
    requires
        0 <= i < nodes.len(),
    ensures
        members_of(nodes, key).contains(i) <==> is_about(nodes[i].concepts@, key),
    decreases nodes.len(),
{
    let all = members_of(nodes, key);
    let front = nodes.drop_last();
    let before = members_of(front, key);
    members_ascend(front, key);
    if i < front.len() {
        members_are_about(front, key, i);
        if before.contains(i) {
            let k = choose|k: int| 0 <= k < before.len() && before[k] == i;
            assert(all[k] == i);
        }
        if all.contains(i) {
            let k = choose|k: int| 0 <= k < all.len() && all[k] == i;
            assert(before[k] == i);
        }
    } else {
        if is_about(nodes.last().concepts@, key) {
            assert(all[all.len() - 1] == i);
        } else if all.contains(i) {
            let k = choose|k: int| 0 <= k < all.len() && all[k] == i;
            assert(before[k] < front.len());
        }
    }
}

proof fn members_ascend(nodes: Seq<Node>, key: Seq<char>)
    ensures
        forall|p: int, q: int|
            0 <= p < q < members_of(nodes, key).len() ==> (#[trigger] members_of(nodes, key)[p]) < (
            #[trigger] members_of(nodes, key)[q]),
        forall|p: int|
            0 <= p < members_of(nodes, key).len() ==> 0 <= (#[trigger] members_of(nodes, key)[p])
                < nodes.len(),
    decreases nodes.len(),
{
    if nodes.len() > 0 {
        members_ascend(nodes.drop_last(), key);
        let before = members_of(nodes.drop_last(), key);
        let all = members_of(nodes, key);
        assert forall|p: int| 0 <= p < all.len() implies 0 <= (#[trigger] all[p]) < nodes.len() by {
            if p < before.len() {
                assert(all[p] == before[p]);
            }
        }
        assert forall|p: int, q: int| 0 <= p < q < all.len() implies (#[trigger] all[p]) < (
        #[trigger] all[q]) by {
            assert(all[p] == before[p]);
            if q < before.len() {
                assert(all[q] == before[q]);
            }
        }
    }
}

/// Two memories are linked by time exactly where the later is one of the eight that
/// come next after the earlier, and comes within an hour of it; the link says how
/// many seconds they are apart.
pub proof fn memories_near_in_time_are_linked(
    nodes: Seq<Node>,
    order: Seq<usize>,
    p: int,
    q: int,
    k: int,
)
    requires
        sort::in_order(time_keys(nodes), order),
        0 <= p < q < order.len(),
    ensures
        ({
            let links = links_of(nodes, order, nodes.len() as int);
            let secs = (nodes[order[q] as int].at_ms - nodes[order[p] as int].at_ms) / 1000;
            let link = TimeLink { earlier: order[p], later: order[q], apart_secs: secs as i64 };
            &&& q - p <= 8 && secs <= 3600 ==> links.contains(link)
            &&& 0 <= k < links.len() ==> exists|a: int, b: int|
                #![trigger order[a], order[b]]
                0 <= a < b < order.len() && b - a <= 8 && links[k].earlier == order[a]
                    && links[k].later == order[b] && (nodes[order[b] as int].at_ms
                    - nodes[order[a] as int].at_ms) / 1000 <= 3600
        }),
{
    let links = links_of(nodes, order, nodes.len() as int);
    let secs = (nodes[order[q] as int].at_ms - nodes[order[p] as int].at_ms) / 1000;
    if q - p <= 8 && secs <= 3600 {
        near_are_linked_from(nodes, order, p, p + 1, q);
        links_come_from_each(nodes, order, nodes.len() as int, p);
        let own = links_from(nodes, order, p, p + 1);
        let link = TimeLink { earlier: order[p], later: order[q], apart_secs: secs as i64 };
        let i = choose|i: int| 0 <= i < own.len() && own[i] == link;
        assert(links.contains(own[i]));
    }
    if 0 <= k < links.len() {
        links_are_of_near(nodes, order, nodes.len() as int, k);
    }
}

proof fn times_ascend(nodes: Seq<Node>, order: Seq<usize>, p: int, q: int)
    requires
        sort::in_order(time_keys(nodes), order),
        0 <= p <= q < order.len(),
    ensures
        nodes[order[p] as int].at_ms <= nodes[order[q] as int].at_ms,
{
    assert(order[p] < nodes.len() && order[q] < nodes.len());
    if p < q {
        assert(sort::comes_before(time_keys(nodes), order[p] as int, order[q] as int));
    }
}

proof fn near_are_linked_from(nodes: Seq<Node>, order: Seq<usize>, p: int, from: int, q: int)
    requires
        sort::in_order(time_keys(nodes), order),
        0 <= p < from <= q < order.len(),
        q - p <= 8,
        apart(nodes, order, p, q) <= 3600,
    ensures
        links_from(nodes, order, p, from).contains(
            (TimeLink {
                earlier: order[p],
                later: order[q],
                apart_secs: apart(nodes, order, p, q) as i64,
            }),
        ),
    decreases q - from,
{
    let link = TimeLink {
        earlier: order[p],
        later: order[q],
        apart_secs: apart(nodes, order, p, q) as i64,
    };
    times_ascend(nodes, order, from, q);
    let all = links_from(nodes, order, p, from);
    if from == q {
        assert(all[0] == link);
    } else {
        near_are_linked_from(nodes, order, p, from + 1, q);
        let rest = links_from(nodes, order, p, from + 1);
        let i = choose|i: int| 0 <= i < rest.len() && rest[i] == link;
        assert(all[i + 1] == link);
    }
}

proof fn links_come_from_each(nodes: Seq<Node>, order: Seq<usize>, n: int, p: int)
    requires
        0 <= p < n,
    ensures
        forall|i: int|
            0 <= i < links_from(nodes, order, p, p + 1).len() ==> links_of(
                nodes,
                order,
                n,
            ).contains(#[trigger] links_from(nodes, order, p, p + 1)[i]),
    decreases n,
{
    let own = links_from(nodes, order, p, p + 1);
    let all = links_of(nodes, order, n);
    let before = links_of(nodes, order, n - 1);
    if p < n - 1 {
        links_come_from_each(nodes, order, n - 1, p);
        assert forall|i: int| 0 <= i < own.len() implies all.contains(#[trigger] own[i]) by {
            assert(before.contains(own[i]));
            let k = choose|k: int| 0 <= k < before.len() && before[k] == own[i];
            assert(all[k] == own[i]);
        }
    } else {
        assert forall|i: int| 0 <= i < own.len() implies all.contains(#[trigger] own[i]) by {
            assert(all[before.len() + i] == own[i]);
        }
    }
}

proof fn links_from_are_near(nodes: Seq<Node>, order: Seq<usize>, p: int, from: int, k: int)
    requires
        0 <= p < from,
        0 <= k < links_from(nodes, order, p, from).len(),
    ensures
        exists|b: int|
            p < b < order.len() && b - p <= 8 && links_from(nodes, order, p, from)[k].earlier
                == order[p] && links_from(nodes, order, p, from)[k].later == #[trigger] order[b]
                && apart(nodes, order, p, b) <= 3600,
    decreases order.len() - from,
{
    let all = links_from(nodes, order, p, from);
    if k == 0 {
        assert(all[0].later == order[from]);
    } else {
        links_from_are_near(nodes, order, p, from + 1, k - 1);
        assert(all[k] == links_from(nodes, order, p, from + 1)[k - 1]);
    }
}

proof fn links_are_of_near(nodes: Seq<Node>, order: Seq<usize>, n: int, k: int)
    requires
        0 <= n <= order.len(),
        0 <= k < links_of(nodes, order, n).len(),
    ensures
        ({
            let links = links_of(nodes, order, n);
            exists|a: int, b: int|
                #![trigger order[a], order[b]]
                0 <= a < b < order.len() && b - a <= 8 && links[k].earlier == order[a]
                    && links[k].later == order[b] && (nodes[order[b] as int].at_ms
                    - nodes[order[a] as int].at_ms) / 1000 <= 3600
        }),
    decreases n,
{
    let links = links_of(nodes, order, n);
    let before = links_of(nodes, order, n - 1);
    if k < before.len() {
        links_are_of_near(nodes, order, n - 1, k);
        assert(links[k] == before[k]);
    } else {
        let own = links_from(nodes, order, n - 1, n);
        let i = k - before.len();
        links_from_are_near(nodes, order, n - 1, n, i);
        assert(links[k] == own[i]);
        let b = choose|b: int|
            n - 1 < b < order.len() && b - (n - 1) <= 8 && own[i].earlier == order[n - 1]
                && own[i].later == #[trigger] order[b] && apart(nodes, order, n - 1, b) <= 3600;
        assert(order[n - 1] == order[n - 1] && order[b] == order[b]);
    }
}

/// Memories are apart by what the links between them say, whichever is the earlier;
/// without a link there is nothing to say.
pub proof fn gaps_are_those_of_the_links(links: Seq<TimeLink>, a: usize, b: usize, k: int)
    requires
        0 <= k < links.len(),
    ensures
        gaps(links, a, b) == gaps(links, b, a),
        (links[k].earlier == a && links[k].later == b) ==> gaps(links, a, b).contains(
            links[k].apart_secs,
        ),
        (forall|i: int|
            0 <= i < links.len() ==> !((#[trigger] links[i]).earlier == a && links[i].later == b)
                && !(links[i].earlier == b && links[i].later == a)) ==> gaps(links, a, b).len()
            == 0,
    decreases links.len(),
{
    let front = links.drop_last();
    gaps_go_both_ways(links, a, b);
    let all = gaps(links, a, b);
    if k < front.len() {
        gaps_are_those_of_the_links(front, a, b, k);
        if links[k].earlier == a && links[k].later == b {
            let before = gaps(front, a, b);
            let i = choose|i: int| 0 <= i < before.len() && before[i] == links[k].apart_secs;
            assert(all[i] == links[k].apart_secs);
        }
        if forall|i: int|
            0 <= i < links.len() ==> !((#[trigger] links[i]).earlier == a && links[i].later == b)
                && !(links[i].earlier == b && links[i].later == a) {
            assert(!joins(links[links.len() - 1], a, b));
            assert forall|i: int| 0 <= i < front.len() implies !((#[trigger] front[i]).earlier == a
                && front[i].later == b) && !(front[i].earlier == b && front[i].later == a) by {
                assert(front[i] == links[i]);
            }
        }
    } else {
        if links[k].earlier == a && links[k].later == b {
            assert(all[all.len() - 1] == links[k].apart_secs);
        }
        if forall|i: int|
            0 <= i < links.len() ==> !((#[trigger] links[i]).earlier == a && links[i].later == b)
                && !(links[i].earlier == b && links[i].later == a) {
            assert(!joins(links[k], a, b));
            no_links_no_gaps(front, a, b);
        }
    }
}

proof fn no_links_no_gaps(links: Seq<TimeLink>, a: usize, b: usize)
    requires
        forall|i: int|
            0 <= i < links.len() ==> !((#[trigger] links[i]).earlier == a && links[i].later == b)
                && !(links[i].earlier == b && links[i].later == a),
    ensures
        gaps(links, a, b).len() == 0,
    decreases links.len(),
{
    if links.len() > 0 {
        assert(!joins(links[links.len() - 1], a, b));
        no_links_no_gaps(links.drop_last(), a, b);
    }
}

proof fn gaps_go_both_ways(links: Seq<TimeLink>, a: usize, b: usize)
    ensures
        gaps(links, a, b) == gaps(links, b, a),
    decreases links.len(),
{
    if links.len() > 0 {
        gaps_go_both_ways(links.drop_last(), a, b);
    }
}

/// A concept that two memories share leads from one to the other, and counts by how
/// many memories share it.
pub proof fn shared_concepts_lead_on(
    concepts: Seq<Concept>,
    groups: Seq<Group>,
    other: usize,
    c: int,
    g: int,
)
    requires
        0 <= c < concepts.len(),
        0 <= g < groups.len(),
        groups[g].key@ == text::lowercased(concepts[c].name@),
        forall|h: int| 0 <= h < groups.len() && h != g ==> (#[trigger] groups[h]).key@
            != groups[g].key@,
    ensures
        groups[g].members@.contains(other) ==> shares(concepts, groups, other).contains(
            groups[g].members.len(),
        ),
    decreases concepts.len(),
{
    if groups[g].members@.contains(other) {
        share_is_found(groups, groups[g].key@, other, 0, g);
        let all = shares(concepts, groups, other);
        if c == concepts.len() - 1 {
            assert(all[all.len() - 1] == groups[g].members.len());
        } else {
            shared_concepts_lead_on(concepts.drop_last(), groups, other, c, g);
            let before = shares(concepts.drop_last(), groups, other);
            let i = choose|i: int| 0 <= i < before.len() && before[i] == groups[g].members.len();
            assert(all[i] == before[i]);
        }
    }
}

proof fn share_is_found(groups: Seq<Group>, key: Seq<char>, other: usize, i: int, g: int)
    requires
        0 <= i <= g < groups.len(),
        groups[g].key@ == key,
        groups[g].members@.contains(other),
        forall|h: int| i <= h < g ==> (#[trigger] groups[h]).key@ != key,
    ensures
        share(groups, key, other, i) == Some(groups[g].members.len()),
    decreases g - i,
{
    if i < g {
        assert(groups[i].key@ != key);
        share_is_found(groups, key, other, i + 1, g);
    }
}

/// Where nothing is shared, nothing leads on.
pub proof fn unshared_concepts_lead_nowhere(
    concepts: Seq<Concept>,
    groups: Seq<Group>,
    other: usize,
)
    requires
        forall|g: int| 0 <= g < groups.len() ==> !(#[trigger] groups[g]).members@.contains(other),
    ensures
        shares(concepts, groups, other).len() == 0,
    decreases concepts.len(),
{
    if concepts.len() > 0 {
        unshared_concepts_lead_nowhere(concepts.drop_last(), groups, other);
        no_share(groups, text::lowercased(concepts.last().name@), other, 0);
    }
}

proof fn no_share(groups: Seq<Group>, key: Seq<char>, other: usize, i: int)
    requires
        0 <= i,
        forall|g: int| 0 <= g < groups.len() ==> !(#[trigger] groups[g]).members@.contains(other),
    ensures
        share(groups, key, other, i) is None,
    decreases groups.len() - i,
{
    if i < groups.len() {
        assert(!groups[i].members@.contains(other));
        if groups[i].key@ != key {
            no_share(groups, key, other, i + 1);
        }
    }
}

} // verus!
