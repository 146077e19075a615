//! Moving the articles of one feed to another: two copies of an article become
//! one, and whatever readers did with either stays.
use crate::db::source_merge;
use crate::text;
use vstd::prelude::*;

verus! {

// ---------------------------------------------------------------------------
// Articles
// ---------------------------------------------------------------------------
/// An article as far as merging looks at it. `guid` is unique within a feed.
pub struct Item {
    pub id: i32,
    pub guid: String,
    /// Whether other sites know the article by its number.
    pub federated: bool,
    pub topic: Option<String>,
}

/// Two copies of one article, of which one stays.
#[derive(Clone, Copy, Debug, PartialEq, Eq, Structural)]
pub struct ItemPair {
    pub drop: i32,
    pub keep: i32,
}

/// The survivor's copy stays, unless only the other is known to other sites.
pub open spec fn pair_of(loser: Item, survivor: Item) -> ItemPair {
    if loser.federated && !survivor.federated {
        ItemPair { drop: survivor.id, keep: loser.id }
    } else {
        ItemPair { drop: loser.id, keep: survivor.id }
    }
}

/// The first article with the guid.
pub open spec fn find_guid(items: Seq<Item>, guid: Seq<char>, i: int) -> Option<Item>
    decreases items.len() - i,
{
    if i < 0 || i >= items.len() {
        None
    } else if items[i].guid@ == guid {
        Some(items[i])
    } else {
        find_guid(items, guid, i + 1)
    }
}

/// The pairs among the articles of two feeds, in the order of the first.
pub open spec fn pairs_of(losers: Seq<Item>, survivors: Seq<Item>) -> Seq<ItemPair>
    decreases losers.len(),
{
    if losers.len() == 0 {
        Seq::empty()
    } else {
        let before = pairs_of(losers.drop_last(), survivors);
        match find_guid(survivors, losers.last().guid@, 0) {
            Some(s) => before.push(pair_of(losers.last(), s)),
            None => before,
        }
    }
}

fn position_of_guid(items: &Vec<Item>, guid: &str) -> (r: Option<usize>)
    ensures
        match r {
            Some(k) => k < items@.len() && find_guid(items@, guid@, 0) == Some(items@[k as int]),
            None => find_guid(items@, guid@, 0) is None,
        },
{
    let mut i: usize = 0;
    while i < items.len()
        invariant
            i <= items@.len(),
            find_guid(items@, guid@, 0) == find_guid(items@, guid@, i as int),
        decreases items@.len() - i,
    {
        if text::eq(items[i].guid.as_str(), guid) {
            return Some(i);
        }
        i = i + 1;
    }
    None
}

/// Which articles are merged into which when the articles of a feed move to
/// another. Those without a counterpart move as they are.
pub fn move_items(losers: &Vec<Item>, survivors: &Vec<Item>) -> (r: Vec<ItemPair>)
    ensures
        r@ == pairs_of(losers@, survivors@),
{
    let mut out: Vec<ItemPair> = Vec::new();
    let mut i: usize = 0;
    assert(losers@.take(0) =~= Seq::empty());
    while i < losers.len()
        invariant
            i <= losers@.len(),
            out@ == pairs_of(losers@.take(i as int), survivors@),
        decreases losers@.len() - i,
    {
        assert(losers@.take(i + 1).drop_last() =~= losers@.take(i as int));
        if let Some(k) = position_of_guid(survivors, losers[i].guid.as_str()) {
            let loser = &losers[i];
            let survivor = &survivors[k];
            out.push(
                if loser.federated && !survivor.federated {
                    ItemPair { drop: survivor.id, keep: loser.id }
                } else {
                    ItemPair { drop: loser.id, keep: survivor.id }
                },
            );
        }
        i = i + 1;
    }
    assert(losers@.take(losers@.len() as int) =~= losers@);
    out
}

/// The topic of the article that stays: its own, else that of the other.
pub open spec fn kept_topic(keep: Item, drop: Item) -> Option<Seq<char>> {
    match text::opt_view(keep.topic) {
        Some(t) => Some(t),
        None => text::opt_view(drop.topic),
    }
}

pub fn merged_topic(keep: &Item, drop: &Item) -> (r: Option<String>)
    ensures
        text::opt_view(r) == kept_topic(*keep, *drop),
{
    match &keep.topic {
        Some(t) => Some(t.clone()),
        None => match &drop.topic {
            Some(t) => Some(t.clone()),
            None => None,
        },
    }
}

/// An article that other sites know is dropped only for one that they know too.
pub proof fn federated_article_stays(losers: Seq<Item>, survivors: Seq<Item>, k: int)
    requires
        0 <= k < losers.len(),
        losers[k].federated,
    ensures
        find_guid(survivors, losers[k].guid@, 0) matches Some(s) ==> pairs_of(
            losers,
            survivors,
        ).contains(pair_of(losers[k], s)) && (pair_of(losers[k], s).keep == losers[k].id
            || s.federated),
{
    copies_are_paired(losers, survivors, k);
}

/// Where the copy that other sites know is already the survivor's, it stays: in
/// particular it is not dropped for one that they do not know.
pub proof fn federated_survivor_stays(losers: Seq<Item>, survivors: Seq<Item>, k: int)
    requires
        0 <= k < losers.len(),
    ensures
        find_guid(survivors, losers[k].guid@, 0) matches Some(s) ==> s.federated ==> pairs_of(
            losers,
            survivors,
        ).contains(ItemPair { drop: losers[k].id, keep: s.id }),
{
    copies_are_paired(losers, survivors, k);
}

proof fn copies_are_paired(losers: Seq<Item>, survivors: Seq<Item>, k: int)
    requires
        0 <= k < losers.len(),
    ensures
        find_guid(survivors, losers[k].guid@, 0) matches Some(s) ==> pairs_of(
            losers,
            survivors,
        ).contains(pair_of(losers[k], s)),
    decreases losers.len(),
{
    if let Some(s) = find_guid(survivors, losers[k].guid@, 0) {
        let before = pairs_of(losers.drop_last(), survivors);
        let all = pairs_of(losers, survivors);
        if k == losers.len() - 1 {
            assert(all[before.len() as int] == pair_of(losers[k], s));
        } else {
            copies_are_paired(losers.drop_last(), survivors, k);
            let i = choose|i: int| 0 <= i < before.len() && before[i] == pair_of(losers[k], s);
            assert(all[i] == pair_of(losers[k], s));
        }
    }
}

// ---------------------------------------------------------------------------
// What readers did
// ---------------------------------------------------------------------------
/// What one reader did with one article. The progress is an integer that grows
/// with it; times are counted from one fixed moment.
#[derive(Debug, PartialEq, Eq)]
pub struct UserState {
    pub user_id: i32,
    pub is_read: bool,
    pub read_at: Option<i64>,
    pub is_starred: bool,
    pub starred_at: Option<i64>,
    pub progress: Option<i64>,
    pub notes: Option<String>,
    pub updated_at: Option<i64>,
}

/// Notes that hold nothing but spaces are no notes.
pub open spec fn no_notes(notes: Option<Seq<char>>) -> bool {
    match notes {
        Some(n) => forall|i: int| 0 <= i < n.len() ==> #[trigger] n[i] == ' ',
        None => true,
    }
}

#[verifier::loop_isolation(false)]
fn has_no_notes(notes: &Option<String>) -> (r: bool)
    ensures
        r == no_notes(text::opt_view(*notes)),
{
    match notes {
        Some(n) => {
            let v = text::chars_of(n.as_str());
            let mut i: usize = 0;
            while i < v.len()
                invariant
                    i <= v@.len(),
                    v@ == n@,
                    forall|j: int| 0 <= j < i ==> #[trigger] n@[j] == ' ',
                decreases v@.len() - i,
            {
                if v[i] != ' ' {
                    assert(text::opt_view(*notes)->0[i as int] != ' ');
                    return false;
                }
                i = i + 1;
            }
            true
        },
        None => true,
    }
}

pub open spec fn joined_notes(keep: Option<Seq<char>>, drop: Option<Seq<char>>) -> Option<Seq<char>> {
    if no_notes(keep) {
        drop
    } else if no_notes(drop) || drop == keep {
        keep
    } else {
        Some(keep->0 + "\n\n"@ + drop->0)
    }
}

pub open spec fn earlier(a: Option<i64>, b: Option<i64>) -> Option<i64> {
    match (a, b) {
        (Some(x), Some(y)) => Some(
            if x <= y {
                x
            } else {
                y
            },
        ),
        (Some(x), None) => Some(x),
        (None, y) => y,
    }
}

pub open spec fn merged_starred_at(keep: UserState, drop: UserState) -> Option<i64> {
    if keep.is_starred && drop.is_starred {
        earlier(keep.starred_at, drop.starred_at)
    } else if drop.is_starred {
        drop.starred_at
    } else {
        keep.starred_at
    }
}

/// Whether `merged` is what a reader did with either copy.
pub open spec fn is_state_merge(merged: UserState, keep: UserState, drop: UserState) -> bool {
    &&& merged.user_id == keep.user_id
    &&& merged.is_read == (keep.is_read || drop.is_read)
    &&& merged.read_at == source_merge::later(keep.read_at, drop.read_at)
    &&& merged.is_starred == (keep.is_starred || drop.is_starred)
    &&& merged.starred_at == merged_starred_at(keep, drop)
    &&& merged.progress == source_merge::later(keep.progress, drop.progress)
    &&& text::opt_view(merged.notes) == joined_notes(
        text::opt_view(keep.notes),
        text::opt_view(drop.notes),
    )
    &&& merged.updated_at == source_merge::later(keep.updated_at, drop.updated_at)
}

fn clone_opt(s: &Option<String>) -> (r: Option<String>)
    ensures
        text::opt_view(r) == text::opt_view(*s),
{
    match s {
        Some(t) => Some(t.clone()),
        None => None,
    }
}

pub fn merge_user_state(keep: &UserState, drop: &UserState) -> (r: UserState)
    ensures
        is_state_merge(r, *keep, *drop),
{
    let starred_at = if keep.is_starred && drop.is_starred {
        match (keep.starred_at, drop.starred_at) {
            (Some(x), Some(y)) => Some(
                if x <= y {
                    x
                } else {
                    y
                },
            ),
            (Some(x), None) => Some(x),
            (None, y) => y,
        }
    } else if drop.is_starred {
        drop.starred_at
    } else {
        keep.starred_at
    };
    let notes = if has_no_notes(&keep.notes) {
        clone_opt(&drop.notes)
    } else if has_no_notes(&drop.notes) {
        clone_opt(&keep.notes)
    } else {
        match (&keep.notes, &drop.notes) {
            (Some(k), Some(d)) => {
                if text::eq(k.as_str(), d.as_str()) {
                    Some(k.clone())
                } else {
                    let mut both = k.clone();
                    both.append("\n\n");
                    both.append(d.as_str());
                    Some(both)
                }
            },
            _ => clone_opt(&keep.notes),
        }
    };
    UserState {
        user_id: keep.user_id,
        is_read: keep.is_read || drop.is_read,
        read_at: source_merge::later_of(keep.read_at, drop.read_at),
        is_starred: keep.is_starred || drop.is_starred,
        starred_at,
        progress: source_merge::later_of(keep.progress, drop.progress),
        notes,
        updated_at: source_merge::later_of(keep.updated_at, drop.updated_at),
    }
}

/// The state of a reader.
pub open spec fn state_of(states: Seq<UserState>, user_id: i32, i: int) -> Option<UserState>
    decreases states.len() - i,
{
    if i < 0 || i >= states.len() {
        None
    } else if states[i].user_id == user_id {
        Some(states[i])
    } else {
        state_of(states, user_id, i + 1)
    }
}

fn position_of_user(states: &Vec<UserState>, user_id: i32) -> (r: Option<usize>)
    ensures
        match r {
            Some(k) => k < states@.len() && state_of(states@, user_id, 0) == Some(
                states@[k as int],
            ),
            None => state_of(states@, user_id, 0) is None,
        },
{
    let mut i: usize = 0;
    while i < states.len()
        invariant
            i <= states@.len(),
            state_of(states@, user_id, 0) == state_of(states@, user_id, i as int),
        decreases states@.len() - i,
    {
        if states[i].user_id == user_id {
            return Some(i);
        }
        i = i + 1;
    }
    None
}

/// What becomes of the state of a reader of the copy that is dropped.
#[derive(Debug, PartialEq, Eq)]
pub enum StateStep {
    /// The reader has a state on the copy that stays: it becomes this.
    Combine(UserState),
    /// The reader has none there: the state moves.
    Move,
}

/// What is done with the state of one reader of the dropped copy, given the
/// states on the copy that stays.
pub fn carry_state(keep_states: &Vec<UserState>, drop: &UserState) -> (r: StateStep)
    ensures
        match state_of(keep_states@, drop.user_id, 0) {
            Some(keep) => r matches StateStep::Combine(m) && is_state_merge(m, keep, *drop),
            None => r is Move,
        },
{
    match position_of_user(keep_states, drop.user_id) {
        Some(k) => StateStep::Combine(merge_user_state(&keep_states[k], drop)),
        None => StateStep::Move,
    }
}

/// Nothing a reader did with either copy is lost: what was read or starred
/// stays so, the progress does not fall, and notes that were written are kept.
pub proof fn nothing_a_reader_did_is_lost(merged: UserState, keep: UserState, drop: UserState)
    requires
        is_state_merge(merged, keep, drop),
    ensures
        keep.is_read || drop.is_read ==> merged.is_read,
        keep.is_starred || drop.is_starred ==> merged.is_starred,
        keep.progress matches Some(p) ==> (merged.progress matches Some(m) && m >= p),
        drop.progress matches Some(p) ==> (merged.progress matches Some(m) && m >= p),
        !no_notes(text::opt_view(keep.notes)) ==> (merged.notes matches Some(m)
            && text::contains_text(m@, keep.notes->0@)),
        !no_notes(text::opt_view(drop.notes)) ==> (merged.notes matches Some(m)
            && text::contains_text(m@, drop.notes->0@)),
{
    let k = text::opt_view(keep.notes);
    let d = text::opt_view(drop.notes);
    if merged.notes is Some {
        let m = merged.notes->0@;
        if !no_notes(k) {
            assert(m.subrange(0, 0int + k->0.len()) =~= k->0);
            assert(text::occurs_at(m, k->0, 0));
        }
        if !no_notes(d) {
            let at = m.len() - d->0.len();
            assert(m.subrange(at, at + d->0.len()) =~= d->0);
            assert(text::occurs_at(m, d->0, at));
        }
    }
}

/// What is generated for an article moves only where the article that stays has
/// none of its own; what readers wrote always moves.
pub fn derived_moves(keep_has_one: bool) -> (r: bool)
    ensures
        r == !keep_has_one,
{
    !keep_has_one
}

proof fn find_guid_finds(items: Seq<Item>, guid: Seq<char>, i: int)
    requires
        0 <= i,
    ensures
        find_guid(items, guid, i) matches Some(found) ==> exists|k: int|
            i <= k < items.len() && #[trigger] items[k] == found && found.guid@ == guid,
        find_guid(items, guid, i) is None ==> (forall|k: int|
            i <= k < items.len() ==> (#[trigger] items[k]).guid@ != guid),
    decreases items.len() - i,
{
    if i < items.len() && items[i].guid@ != guid {
        find_guid_finds(items, guid, i + 1);
    } else if i < items.len() {
        assert(items[i] == items[i]);
    }
}

/// Articles are merged only with a copy of their own: each pair is of one article of
/// either feed with the same guid, of which one is dropped and the other stays. An
/// article whose guid the other feed has is always paired.
pub proof fn only_copies_are_merged(losers: Seq<Item>, survivors: Seq<Item>, p: int, k: int, m: int)
    ensures
        0 <= p < pairs_of(losers, survivors).len() ==> exists|i: int, j: int|
            #![trigger losers[i], survivors[j]]
            0 <= i < losers.len() && 0 <= j < survivors.len() && losers[i].guid@
                == survivors[j].guid@ && {
                let pair = pairs_of(losers, survivors)[p];
                (pair.drop == losers[i].id && pair.keep == survivors[j].id) || (pair.drop
                    == survivors[j].id && pair.keep == losers[i].id)
            },
        0 <= k < losers.len() && 0 <= m < survivors.len() && losers[k].guid@ == survivors[m].guid@
            ==> exists|q: int|
            0 <= q < pairs_of(losers, survivors).len() && ((#[trigger] pairs_of(
                losers,
                survivors,
            )[q]).drop == losers[k].id || pairs_of(losers, survivors)[q].keep == losers[k].id),
{
    if 0 <= p < pairs_of(losers, survivors).len() {
        pairs_are_of_copies(losers, survivors, p);
    }
    if 0 <= k < losers.len() && 0 <= m < survivors.len() && losers[k].guid@ == survivors[m].guid@ {
        find_guid_finds(survivors, losers[k].guid@, 0);
        assert(survivors[m].guid@ == losers[k].guid@);
        copies_are_paired(losers, survivors, k);
        let s = find_guid(survivors, losers[k].guid@, 0)->0;
        let all = pairs_of(losers, survivors);
        let q = choose|q: int| 0 <= q < all.len() && all[q] == pair_of(losers[k], s);
        assert(all[q].drop == losers[k].id || all[q].keep == losers[k].id);
    }
}

proof fn pairs_are_of_copies(losers: Seq<Item>, survivors: Seq<Item>, p: int)
    requires
        0 <= p < pairs_of(losers, survivors).len(),
    ensures
        exists|i: int, j: int|
            #![trigger losers[i], survivors[j]]
            0 <= i < losers.len() && 0 <= j < survivors.len() && losers[i].guid@
                == survivors[j].guid@ && {
                let pair = pairs_of(losers, survivors)[p];
                (pair.drop == losers[i].id && pair.keep == survivors[j].id) || (pair.drop
                    == survivors[j].id && pair.keep == losers[i].id)
            },
    decreases losers.len(),
{
    let front = losers.drop_last();
    let before = pairs_of(front, survivors);
    if p < before.len() {
        pairs_are_of_copies(front, survivors, p);
        let (i, j) = choose|i: int, j: int|
            #![trigger front[i], survivors[j]]
            0 <= i < front.len() && 0 <= j < survivors.len() && front[i].guid@
                == survivors[j].guid@ && {
                let pair = before[p];
                (pair.drop == front[i].id && pair.keep == survivors[j].id) || (pair.drop
                    == survivors[j].id && pair.keep == front[i].id)
            };
        assert(losers[i] == front[i]);
    } else {
        let last = losers.len() - 1;
        find_guid_finds(survivors, losers[last].guid@, 0);
        let s = find_guid(survivors, losers[last].guid@, 0)->0;
        let j = choose|j: int| 0 <= j < survivors.len() && #[trigger] survivors[j] == s;
        assert(losers[last].guid@ == survivors[j].guid@);
    }
}

/// Merging makes nothing up: what is read, starred or noted in the end was so on one
/// of the copies, and every time and the progress are those of one of them. A read is
/// as late as the later one; a star on both is as old as the older one.
pub proof fn nothing_is_made_up_for_a_reader(merged: UserState, keep: UserState, drop: UserState)
    requires
        is_state_merge(merged, keep, drop),
    ensures
        merged.user_id == keep.user_id,
        merged.is_read ==> keep.is_read || drop.is_read,
        merged.is_starred ==> keep.is_starred || drop.is_starred,
        merged.progress == keep.progress || merged.progress == drop.progress,
        merged.read_at == keep.read_at || merged.read_at == drop.read_at,
        merged.updated_at == keep.updated_at || merged.updated_at == drop.updated_at,
        merged.starred_at == keep.starred_at || merged.starred_at == drop.starred_at,
        keep.read_at matches Some(t) ==> (merged.read_at matches Some(m) && m >= t),
        drop.read_at matches Some(t) ==> (merged.read_at matches Some(m) && m >= t),
        keep.updated_at matches Some(t) ==> (merged.updated_at matches Some(m) && m >= t),
        drop.updated_at matches Some(t) ==> (merged.updated_at matches Some(m) && m >= t),
        keep.is_starred && drop.is_starred && keep.starred_at is Some ==> (
        merged.starred_at matches Some(m) && m <= keep.starred_at->0),
        keep.is_starred && drop.is_starred && drop.starred_at is Some ==> (
        merged.starred_at matches Some(m) && m <= drop.starred_at->0),
        keep.is_starred && !drop.is_starred ==> merged.starred_at == keep.starred_at,
        drop.is_starred && !keep.is_starred ==> merged.starred_at == drop.starred_at,
        no_notes(text::opt_view(keep.notes)) ==> text::opt_view(merged.notes) == text::opt_view(
            drop.notes,
        ),
        no_notes(text::opt_view(drop.notes)) && !no_notes(text::opt_view(keep.notes))
            ==> text::opt_view(merged.notes) == text::opt_view(keep.notes),
        text::opt_view(keep.notes) == text::opt_view(drop.notes) ==> text::opt_view(merged.notes)
            == text::opt_view(keep.notes),
{
}

/// The article that stays has a topic if either has, its own first.
pub proof fn topics_are_kept(keep: Item, drop: Item)
    ensures
        keep.topic is Some ==> kept_topic(keep, drop) == text::opt_view(keep.topic),
        keep.topic is None ==> kept_topic(keep, drop) == text::opt_view(drop.topic),
{
}

/// A reader's state on the copy that stays is found exactly when there is one, and it
/// is that reader's.
pub proof fn states_are_found_by_reader(states: Seq<UserState>, user_id: i32, i: int)
    requires
        0 <= i,
    ensures
        state_of(states, user_id, i) matches Some(s) ==> s.user_id == user_id && exists|k: int|
            i <= k < states.len() && #[trigger] states[k] == s,
        (exists|k: int| i <= k < states.len() && (#[trigger] states[k]).user_id == user_id)
            ==> state_of(states, user_id, i) is Some,
    decreases states.len() - i,
{
    if i < states.len() && states[i].user_id != user_id {
        states_are_found_by_reader(states, user_id, i + 1);
    } else if i < states.len() {
        assert(states[i] == states[i]);
    }
}

} // verus!
