//! What was on the persona's mind in each conversation a moment ago. It is
//! attention, not memory: it lapses when the talk goes quiet.
use vstd::prelude::*;

verus! {

/// A pause of so many milliseconds ends a train of thought.
pub const IDLE_MS: u64 = 1_800_000;

/// How many conversations are held at once; the stalest go first.
pub const MAX_HELD: usize = 10_000;

/// What a turn leaves active: identifiers of memories, each with its activation
/// by the bits of its IEEE 754 notation.
#[derive(Debug, PartialEq, Eq)]
pub struct Priming {
    pub active: Vec<(String, u64)>,
}

impl View for Priming {
    type V = Seq<(Seq<char>, u64)>;

    open spec fn view(&self) -> Seq<(Seq<char>, u64)> {
        Seq::new(self.active@.len(), |i: int| (self.active@[i].0@, self.active@[i].1))
    }
}

impl Priming {
    pub fn empty() -> (r: Self)
        ensures
            r@ == Seq::<(Seq<char>, u64)>::empty(),
    {
        let r = Priming { active: Vec::new() };
        assert(r@ =~= Seq::empty());
        r
    }

    /// One active memory.
    pub fn with(id: &str, activation: u64) -> (r: Self)
        ensures
            r@ == seq![(id@, activation)],
    {
        let active: Vec<(String, u64)> = vec![(id.to_owned(), activation)];
        let r = Priming { active };
        assert(r@ =~= seq![(id@, activation)]);
        r
    }

    pub fn is_empty(&self) -> (r: bool)
        ensures
            r == (self@.len() == 0),
    {
        self.active.len() == 0
    }

    pub fn copy(&self) -> (r: Self)
        ensures
            r@ == self@,
    {
        let mut active: Vec<(String, u64)> = Vec::new();
        let mut i: usize = 0;
        while i < self.active.len()
            invariant
                i <= self.active@.len(),
                active@.len() == i,
                forall|k: int|
                    0 <= k < i ==> (#[trigger] active@[k]).0@ == self.active@[k].0@ && active@[k].1
                        == self.active@[k].1,
            decreases self.active@.len() - i,
        {
            active.push((self.active[i].0.clone(), self.active[i].1));
            i = i + 1;
        }
        let r = Priming { active };
        assert(r@ =~= self@);
        r
    }
}

/// What the last turn of a conversation left.
pub struct Left {
    pub user_id: i32,
    pub at_ms: u64,
    pub priming: Priming,
}

/// How long ago something was.
pub open spec fn elapsed(now_ms: u64, at_ms: u64) -> int {
    if now_ms >= at_ms {
        now_ms - at_ms
    } else {
        0
    }
}

pub open spec fn is_warm(left: Left, now_ms: u64) -> bool {
    elapsed(now_ms, left.at_ms) < IDLE_MS
}

/// Position of a person's conversation, from `i` on.
pub open spec fn person_from(held: Seq<Left>, user_id: i32, i: int) -> Option<int>
    decreases held.len() - i,
{
    if i < 0 || i >= held.len() {
        None
    } else if held[i].user_id == user_id {
        Some(i)
    } else {
        person_from(held, user_id, i + 1)
    }
}

pub open spec fn warm(held: Seq<Left>, now_ms: u64) -> Seq<Left> {
    held.filter(|l: Left| is_warm(l, now_ms))
}

pub open spec fn without_person(held: Seq<Left>, user_id: i32) -> Seq<Left> {
    match person_from(held, user_id, 0) {
        Some(i) => held.remove(i),
        None => held,
    }
}

/// Position of the first of the stalest conversations, of those from `i` on and
/// the one at `best`.
pub open spec fn stalest_from(held: Seq<Left>, best: int, i: int) -> int
    decreases held.len() - i,
{
    if i < 0 || i >= held.len() {
        best
    } else if held[i].at_ms < held[best].at_ms {
        stalest_from(held, i, i + 1)
    } else {
        stalest_from(held, best, i + 1)
    }
}

/// The conversations with room for one more.
pub open spec fn with_room(held: Seq<Left>, user_id: i32) -> Seq<Left> {
    if held.len() >= MAX_HELD && person_from(held, user_id, 0) is None {
        held.remove(stalest_from(held, 0, 1))
    } else {
        held
    }
}

/// The conversations once a turn has left something. The latest is the last.
pub open spec fn kept(held: Seq<Left>, left: Left) -> Seq<Left> {
    if left.priming@.len() == 0 {
        without_person(held, left.user_id)
    } else {
        without_person(
            with_room(warm(held, left.at_ms), left.user_id),
            left.user_id,
        ).push(left)
    }
}

/// Nobody is held twice.
pub open spec fn one_each(held: Seq<Left>) -> bool {
    forall|i: int, j: int|
        0 <= i < j < held.len() ==> (#[trigger] held[i]).user_id != (#[trigger] held[j]).user_id
}

/// The conversations stand in the order in which they were kept.
pub open spec fn in_order(held: Seq<Left>) -> bool {
    forall|i: int, j: int|
        0 <= i < j < held.len() ==> (#[trigger] held[i]).at_ms <= (#[trigger] held[j]).at_ms
}

/// What the last turn of a person left on the mind, if the talk is still warm.
pub open spec fn on_mind(held: Seq<Left>, user_id: i32, now_ms: u64) -> Seq<(Seq<char>, u64)> {
    match person_from(held, user_id, 0) {
        Some(i) if is_warm(held[i], now_ms) => held[i].priming@,
        _ => Seq::empty(),
    }
}

fn find_person(held: &Vec<Left>, user_id: i32) -> (r: Option<usize>)
    ensures
        match r {
            Some(i) => person_from(held@, user_id, 0) == Some(i as int) && i < held@.len(),
            None => person_from(held@, user_id, 0) is None,
        },
{
    let mut i: usize = 0;
    while i < held.len()
        invariant
            i <= held@.len(),
            person_from(held@, user_id, 0) == person_from(held@, user_id, i as int),
        decreases held@.len() - i,
    {
        if held[i].user_id == user_id {
            return Some(i);
        }
        i = i + 1;
    }
    None
}

fn still_warm(left: &Left, now_ms: u64) -> (r: bool)
    ensures
        r == is_warm(*left, now_ms),
{
    now_ms.saturating_sub(left.at_ms) < IDLE_MS
}

/// What the last turn of a person left, if the talk is still warm.
pub fn current(held: &Vec<Left>, user_id: i32, now_ms: u64) -> (r: Priming)
    ensures
        r@ == on_mind(held@, user_id, now_ms),
{
    match find_person(held, user_id) {
        Some(i) => {
            if still_warm(&held[i], now_ms) {
                held[i].priming.copy()
            } else {
                Priming::empty()
            }
        },
        None => Priming::empty(),
    }
}

fn drop_cold(held: &mut Vec<Left>, now_ms: u64)
    ensures
        final(held)@ == warm(old(held)@, now_ms),
{
    let ghost all = held@;
    let ghost mut seen: int = 0;
    let mut i: usize = 0;
    proof {
        reveal(Seq::filter);
        assert(all.skip(0) =~= all);
        assert(warm(all.take(0), now_ms) + all.skip(0) =~= all);
    }
    while i < held.len()
        invariant
            0 <= seen <= all.len(),
            i == warm(all.take(seen), now_ms).len(),
            held@ == warm(all.take(seen), now_ms) + all.skip(seen),
        decreases all.len() - seen,
    {
        proof {
            reveal(Seq::filter);
            assert(all.take(seen + 1).drop_last() =~= all.take(seen));
            assert(all.skip(seen)[0] == all[seen]);
            assert(held@[i as int] == all[seen]);
            assert(all.take(seen + 1).last() == all[seen]);
        }
        if still_warm(&held[i], now_ms) {
            assert(warm(all.take(seen + 1), now_ms) + all.skip(seen + 1) =~= held@);
            i = i + 1;
        } else {
            let ghost before = held@;
            held.remove(i);
            assert(held@ =~= warm(all.take(seen + 1), now_ms) + all.skip(seen + 1));
        }
        proof {
            seen = seen + 1;
        }
    }
    proof {
        assert(all.skip(seen).len() == 0);
        assert(seen == all.len());
        assert(all.take(seen) =~= all);
        assert(held@ =~= warm(all, now_ms));
    }
}

fn find_stalest(held: &Vec<Left>) -> (r: usize)
    requires
        held@.len() > 0,
    ensures
        r < held@.len(),
        r == stalest_from(held@, 0, 1),
{
    let mut best: usize = 0;
    let mut i: usize = 1;
    while i < held.len()
        invariant
            1 <= i <= held@.len(),
            best < held@.len(),
            stalest_from(held@, 0, 1) == stalest_from(held@, best as int, i as int),
        decreases held@.len() - i,
    {
        if held[i].at_ms < held[best].at_ms {
            best = i;
        }
        i = i + 1;
    }
    best
}

/// Keeps what a turn left for the next one. A turn that left nothing clears the
/// person's mind. Nobody comes to be held twice, and as long as time does not run
/// backwards the conversations stay in their order.
pub fn keep(held: &mut Vec<Left>, user_id: i32, priming: Priming, now_ms: u64)
    ensures
        final(held)@ == kept(old(held)@, (Left { user_id, at_ms: now_ms, priming })),
        one_each(old(held)@) ==> one_each(final(held)@),
        in_order(old(held)@) && (forall|i: int|
            0 <= i < old(held)@.len() ==> (#[trigger] old(held)@[i]).at_ms <= now_ms) ==> in_order(
            final(held)@,
        ),
{
    let left = Left { user_id, at_ms: now_ms, priming };
    let ghost before = held@;
    proof {
        keeping_holds_one_each(before, left);
        keeping_keeps_the_order(before, left);
    }
    if left.priming.is_empty() {
        if let Some(i) = find_person(held, user_id) {
            held.remove(i);
        }
        return ;
    }
    drop_cold(held, now_ms);
    if held.len() >= MAX_HELD && find_person(held, user_id).is_none() {
        let i = find_stalest(held);
        held.remove(i);
    }
    if let Some(i) = find_person(held, user_id) {
        held.remove(i);
    }
    held.push(left);
}

/// A new persona has nothing on its mind from before.
pub fn forget(held: &mut Vec<Left>)
    ensures
        final(held)@.len() == 0,
{
    held.clear();
}

// ---------------------------------------------------------------------------
// Laws
// ---------------------------------------------------------------------------
proof fn person_from_is_first(held: Seq<Left>, user_id: i32, i: int)
    requires
        0 <= i,
    ensures
        person_from(held, user_id, i) matches Some(k) ==> i <= k < held.len() && held[k].user_id
            == user_id && (forall|j: int| i <= j < k ==> (#[trigger] held[j]).user_id != user_id),
        person_from(held, user_id, i) is None ==> (forall|j: int|
            i <= j < held.len() ==> (#[trigger] held[j]).user_id != user_id),
    decreases held.len() - i,
{
    if i < held.len() && held[i].user_id != user_id {
        person_from_is_first(held, user_id, i + 1);
    }
}

proof fn person_from_at(held: Seq<Left>, user_id: i32, i: int, k: int)
    requires
        0 <= i <= k < held.len(),
        held[k].user_id == user_id,
        forall|j: int| i <= j < k ==> (#[trigger] held[j]).user_id != user_id,
    ensures
        person_from(held, user_id, i) == Some(k),
    decreases k - i,
{
    if i < k {
        assert(held[i].user_id != user_id);
        person_from_at(held, user_id, i + 1, k);
    }
}

proof fn nobody_is_found(held: Seq<Left>, user_id: i32, i: int)
    requires
        0 <= i,
        forall|j: int| i <= j < held.len() ==> (#[trigger] held[j]).user_id != user_id,
    ensures
        person_from(held, user_id, i) is None,
    decreases held.len() - i,
{
    if i < held.len() {
        nobody_is_found(held, user_id, i + 1);
    }
}

/// Where nobody is held twice, a person is found wherever they are.
proof fn the_one_is_found(held: Seq<Left>, k: int)
    requires
        one_each(held),
        0 <= k < held.len(),
    ensures
        person_from(held, held[k].user_id, 0) == Some(k),
{
    person_from_at(held, held[k].user_id, 0, k);
}

/// The warm conversations are a part of all, in the same order.
proof fn warm_is_part(held: Seq<Left>, now_ms: u64)
    ensures
        forall|i: int|
            0 <= i < warm(held, now_ms).len() ==> held.contains(#[trigger] warm(held, now_ms)[i])
                && is_warm(warm(held, now_ms)[i], now_ms),
        forall|i: int|
            0 <= i < held.len() && is_warm(#[trigger] held[i], now_ms) ==> warm(
                held,
                now_ms,
            ).contains(held[i]),
        one_each(held) ==> one_each(warm(held, now_ms)),
        in_order(held) ==> in_order(warm(held, now_ms)),
        warm(held, now_ms).len() <= held.len(),
    decreases held.len(),
{
    reveal(Seq::filter);
    if held.len() > 0 {
        let short = held.drop_last();
        let last = held.last();
        warm_is_part(short, now_ms);
        let before = warm(short, now_ms);
        let all = warm(held, now_ms);
        assert(held[held.len() - 1] == last);
        assert forall|x: Left| short.contains(x) implies held.contains(x) by {
            let k = choose|k: int| 0 <= k < short.len() && short[k] == x;
            assert(held[k] == x);
        }
        assert forall|i: int| 0 <= i < all.len() implies held.contains(#[trigger] all[i])
            && is_warm(all[i], now_ms) by {
            if i < before.len() {
                assert(all[i] == before[i]);
            }
        }
        assert forall|i: int| 0 <= i < held.len() && is_warm(#[trigger] held[i], now_ms) implies
            all.contains(held[i]) by {
            if i < short.len() {
                assert(short[i] == held[i]);
                let k = choose|k: int| 0 <= k < before.len() && before[k] == held[i];
                assert(all[k] == held[i]);
            } else {
                assert(all[before.len() as int] == last);
            }
        }
        if one_each(held) {
            assert forall|i: int, j: int| 0 <= i < j < short.len() implies (
            #[trigger] short[i]).user_id != (#[trigger] short[j]).user_id by {
                assert(held[i].user_id != held[j].user_id);
            }
            assert forall|i: int, j: int| 0 <= i < j < all.len() implies (
            #[trigger] all[i]).user_id != (#[trigger] all[j]).user_id by {
                assert(all[i] == before[i]);
                if j < before.len() {
                    assert(all[j] == before[j]);
                } else {
                    let k = choose|k: int| 0 <= k < short.len() && short[k] == before[i];
                    assert(held[k].user_id != held[held.len() - 1].user_id);
                }
            }
        }
        if in_order(held) {
            assert forall|i: int, j: int| 0 <= i < j < short.len() implies (
            #[trigger] short[i]).at_ms <= (#[trigger] short[j]).at_ms by {
                assert(held[i].at_ms <= held[j].at_ms);
            }
            assert forall|i: int, j: int| 0 <= i < j < all.len() implies (
            #[trigger] all[i]).at_ms <= (#[trigger] all[j]).at_ms by {
                assert(all[i] == before[i]);
                if j < before.len() {
                    assert(all[j] == before[j]);
                } else {
                    let k = choose|k: int| 0 <= k < short.len() && short[k] == before[i];
                    assert(held[k].at_ms <= held[held.len() - 1].at_ms);
                }
            }
        }
    }
}

proof fn removing_keeps_the_rest(held: Seq<Left>, k: int)
    requires
        0 <= k < held.len(),
    ensures
        one_each(held) ==> one_each(held.remove(k)),
        in_order(held) ==> in_order(held.remove(k)),
        forall|i: int|
            0 <= i < held.len() && i != k ==> held.remove(k).contains(#[trigger] held[i]),
        forall|i: int|
            0 <= i < held.remove(k).len() ==> held.contains(#[trigger] held.remove(k)[i]),
        one_each(held) ==> forall|i: int|
            0 <= i < held.remove(k).len() ==> (#[trigger] held.remove(k)[i]).user_id
                != held[k].user_id,
{
    let rest = held.remove(k);
    assert forall|i: int| 0 <= i < rest.len() implies #[trigger] rest[i] == held[
        if i < k {
            i
        } else {
            i + 1
        }
    ] by {}
    assert forall|i: int| 0 <= i < held.len() && i != k implies rest.contains(
        #[trigger] held[i],
    ) by {
        if i < k {
            assert(rest[i] == held[i]);
        } else {
            assert(rest[i - 1] == held[i]);
        }
    }
}

/// What is left of the conversations before the new one is added.
pub open spec fn others_kept(held: Seq<Left>, left: Left) -> Seq<Left> {
    without_person(with_room(warm(held, left.at_ms), left.user_id), left.user_id)
}

proof fn others_are_part(held: Seq<Left>, left: Left)
    ensures
        one_each(held) ==> one_each(others_kept(held, left)),
        one_each(held) ==> forall|i: int|
            0 <= i < others_kept(held, left).len() ==> (#[trigger] others_kept(
                held,
                left,
            )[i]).user_id != left.user_id,
        in_order(held) ==> in_order(others_kept(held, left)),
        forall|i: int|
            0 <= i < others_kept(held, left).len() ==> held.contains(
                #[trigger] others_kept(held, left)[i],
            ),
{
    let now = warm(held, left.at_ms);
    let room = with_room(now, left.user_id);
    warm_is_part(held, left.at_ms);
    person_from_is_first(now, left.user_id, 0);
    if now.len() > 0 {
        stalest_is_inside(now, 0, 1);
        removing_keeps_the_rest(now, stalest_from(now, 0, 1));
    }
    person_from_is_first(room, left.user_id, 0);
    if let Some(k) = person_from(room, left.user_id, 0) {
        removing_keeps_the_rest(room, k);
    }
    let rest = others_kept(held, left);
    assert forall|i: int| 0 <= i < room.len() implies held.contains(#[trigger] room[i]) by {
        assert(now.contains(room[i]));
        let k = choose|k: int| 0 <= k < now.len() && now[k] == room[i];
        assert(held.contains(now[k]));
    }
    assert forall|i: int| 0 <= i < rest.len() implies held.contains(#[trigger] rest[i]) by {
        assert(room.contains(rest[i]));
        let k = choose|k: int| 0 <= k < room.len() && room[k] == rest[i];
        assert(held.contains(room[k]));
    }
}

proof fn keeping_holds_one_each(held: Seq<Left>, left: Left)
    ensures
        one_each(held) ==> one_each(kept(held, left)),
{
    if left.priming@.len() == 0 {
        person_from_is_first(held, left.user_id, 0);
        if let Some(k) = person_from(held, left.user_id, 0) {
            removing_keeps_the_rest(held, k);
        }
    } else {
        others_are_part(held, left);
    }
}

proof fn keeping_keeps_the_order(held: Seq<Left>, left: Left)
    ensures
        in_order(held) && (forall|i: int|
            0 <= i < held.len() ==> (#[trigger] held[i]).at_ms <= left.at_ms) ==> in_order(
            kept(held, left),
        ),
        (forall|i: int| 0 <= i < held.len() ==> (#[trigger] held[i]).at_ms <= left.at_ms) ==> (
        forall|i: int|
            0 <= i < kept(held, left).len() ==> (#[trigger] kept(held, left)[i]).at_ms
                <= left.at_ms),
{
    if left.priming@.len() == 0 {
        person_from_is_first(held, left.user_id, 0);
        if let Some(k) = person_from(held, left.user_id, 0) {
            removing_keeps_the_rest(held, k);
            let rest = held.remove(k);
            if forall|i: int| 0 <= i < held.len() ==> (#[trigger] held[i]).at_ms <= left.at_ms {
                assert forall|i: int| 0 <= i < rest.len() implies (#[trigger] rest[i]).at_ms
                    <= left.at_ms by {
                    assert(held.contains(rest[i]));
                }
            }
        }
    } else {
        others_are_part(held, left);
        let rest = others_kept(held, left);
        if forall|i: int| 0 <= i < held.len() ==> (#[trigger] held[i]).at_ms <= left.at_ms {
            assert forall|i: int| 0 <= i < rest.len() implies (#[trigger] rest[i]).at_ms
                <= left.at_ms by {
                assert(held.contains(rest[i]));
            }
        }
    }
}

/// A turn hands what it left to the next turn of the same person: it is found
/// again for as long as the talk is warm.
pub proof fn a_turn_hands_its_priming_on(held: Seq<Left>, left: Left, now_ms: u64)
    requires
        one_each(held),
        elapsed(now_ms, left.at_ms) < IDLE_MS,
    ensures
        on_mind(kept(held, left), left.user_id, now_ms) == left.priming@,
{
    let after = kept(held, left);
    if left.priming@.len() > 0 {
        keeping_holds_one_each(held, left);
        the_one_is_found(after, after.len() - 1);
    } else {
        person_from_is_first(held, left.user_id, 0);
        if let Some(k) = person_from(held, left.user_id, 0) {
            removing_keeps_the_rest(held, k);
        }
        nobody_is_found(after, left.user_id, 0);
        assert(left.priming@ =~= Seq::empty());
    }
}

/// However long it goes on, no more conversations are held than may be.
pub proof fn few_conversations_are_held(held: Seq<Left>, left: Left)
    requires
        held.len() <= MAX_HELD,
    ensures
        kept(held, left).len() <= MAX_HELD,
{
    person_from_is_first(held, left.user_id, 0);
    if left.priming@.len() > 0 {
        warm_is_part(held, left.at_ms);
        let now = warm(held, left.at_ms);
        let room = with_room(now, left.user_id);
        person_from_is_first(now, left.user_id, 0);
        person_from_is_first(room, left.user_id, 0);
        if now.len() > 0 {
            stalest_is_inside(now, 0, 1);
        }
    }
}

proof fn stalest_is_inside(held: Seq<Left>, best: int, i: int)
    requires
        0 <= best < held.len(),
        0 <= i,
        forall|j: int| 0 <= j < i && j < held.len() ==> held[best].at_ms <= (
        #[trigger] held[j]).at_ms,
    ensures
        0 <= stalest_from(held, best, i) < held.len(),
        forall|j: int|
            0 <= j < held.len() ==> held[stalest_from(held, best, i)].at_ms <= (
            #[trigger] held[j]).at_ms,
    decreases held.len() - i,
{
    if i < held.len() {
        if held[i].at_ms < held[best].at_ms {
            stalest_is_inside(held, i, i + 1);
        } else {
            stalest_is_inside(held, best, i + 1);
        }
    }
}

/// Whether a person's conversation goes to make room: all are warm and there are as
/// many as may be, the turn is of somebody new, and this is the one that was kept
/// longest ago.
pub open spec fn makes_room(held: Seq<Left>, left: Left, person: i32) -> bool {
    let now = warm(held, left.at_ms);
    &&& left.priming@.len() > 0
    &&& now.len() >= MAX_HELD
    &&& person_from(now, left.user_id, 0) is None
    &&& now[stalest_from(now, 0, 1)].user_id == person
}

/// What is on the mind of everybody else stays as it was, but for the one who makes
/// room; and of all that are warm that one was kept longest ago.
pub proof fn others_keep_their_minds(held: Seq<Left>, left: Left, person: i32, now_ms: u64)
    requires
        one_each(held),
        person != left.user_id,
        left.at_ms <= now_ms,
    ensures
        !makes_room(held, left, person) ==> on_mind(kept(held, left), person, now_ms) == on_mind(
            held,
            person,
            now_ms,
        ),
        makes_room(held, left, person) ==> {
            let now = warm(held, left.at_ms);
            &&& on_mind(kept(held, left), person, now_ms) == Seq::<(Seq<char>, u64)>::empty()
            &&& person_from(now, person, 0) matches Some(i)
            &&& forall|j: int| 0 <= j < now.len() ==> now[i].at_ms <= (#[trigger] now[j]).at_ms
        },
{
    let after = kept(held, left);
    keeping_holds_one_each(held, left);
    person_from_is_first(held, person, 0);
    person_from_is_first(after, person, 0);
    if left.priming@.len() == 0 {
        person_from_is_first(held, left.user_id, 0);
        if let Some(k) = person_from(held, left.user_id, 0) {
            removing_keeps_the_rest(held, k);
        }
    } else {
        others_are_part(held, left);
    }
    assert forall|i: int|
        0 <= i < after.len() && (#[trigger] after[i]).user_id == person implies held.contains(
        after[i],
    ) by {
        if left.priming@.len() > 0 {
            assert(i < after.len() - 1);
            assert(after[i] == others_kept(held, left)[i]);
        }
    }
    let now = warm(held, left.at_ms);
    warm_is_part(held, left.at_ms);
    if now.len() > 0 {
        stalest_is_inside(now, 0, 1);
        removing_keeps_the_rest(now, stalest_from(now, 0, 1));
    }
    let room = with_room(now, left.user_id);
    person_from_is_first(now, left.user_id, 0);
    person_from_is_first(room, left.user_id, 0);
    if let Some(k) = person_from(room, left.user_id, 0) {
        removing_keeps_the_rest(room, k);
    }
    if makes_room(held, left, person) {
        let k = stalest_from(now, 0, 1);
        the_one_is_found(now, k);
        let rest = others_kept(held, left);
        assert forall|i: int| 0 <= i < rest.len() implies (#[trigger] rest[i]).user_id
            != person by {
            assert(rest == room);
            assert(room[i].user_id != now[k].user_id);
        }
        nobody_is_found(after, person, 0);
    } else {
        match person_from(held, person, 0) {
            None => {
                assert forall|i: int| 0 <= i < after.len() implies (#[trigger] after[i]).user_id
                    != person by {
                    if after[i].user_id == person {
                        let k = choose|k: int| 0 <= k < held.len() && held[k] == after[i];
                        assert(held[k].user_id != person);
                    }
                }
                nobody_is_found(after, person, 0);
            },
            Some(k) => {
                let entry = held[k];
                if left.priming@.len() == 0 {
                    assert(after.contains(entry));
                } else if is_warm(entry, left.at_ms) {
                    assert(now.contains(held[k]));
                    let m = choose|m: int| 0 <= m < now.len() && now[m] == entry;
                    the_one_is_found(now, m);
                    if now.len() >= MAX_HELD && person_from(now, left.user_id, 0) is None {
                        assert(m != stalest_from(now, 0, 1));
                        assert(room.contains(now[m]));
                    }
                    let n = choose|n: int| 0 <= n < room.len() && room[n] == entry;
                    let rest = others_kept(held, left);
                    if let Some(x) = person_from(room, left.user_id, 0) {
                        assert(n != x);
                        assert(rest.contains(room[n]));
                    }
                    let q = choose|q: int| 0 <= q < rest.len() && rest[q] == entry;
                    assert(after[q] == entry);
                }
                if after.contains(entry) {
                    let q = choose|q: int| 0 <= q < after.len() && after[q] == entry;
                    the_one_is_found(after, q);
                } else {
                    assert(!is_warm(entry, now_ms));
                    if let Some(q) = person_from(after, person, 0) {
                        assert(held.contains(after[q]));
                        let z = choose|z: int| 0 <= z < held.len() && held[z] == after[q];
                        the_one_is_found(held, z);
                    }
                }
            },
        }
    }
}

/// The conversations once several turns have left something, one after another.
pub open spec fn kept_all(held: Seq<Left>, turns: Seq<Left>) -> Seq<Left>
    decreases turns.len(),
{
    if turns.len() == 0 {
        held
    } else {
        kept(kept_all(held, turns.drop_last()), turns.last())
    }
}

/// The people whose turns these are.
pub open spec fn people(turns: Seq<Left>) -> Set<i32> {
    turns.map_values(|l: Left| l.user_id).to_set()
}

/// Whether the turns come one after another, none before `from_ms` and none after
/// `to_ms`.
pub open spec fn follow(turns: Seq<Left>, from_ms: u64, to_ms: u64) -> bool {
    &&& in_order(turns)
    &&& forall|i: int| 0 <= i < turns.len() ==> from_ms <= (#[trigger] turns[i]).at_ms <= to_ms
}

/// Whether the conversation is held, and whoever stands behind it is one of `since`.
pub open spec fn held_before(held: Seq<Left>, left: Left, since: Set<i32>) -> bool
    decreases held.len(),
{
    held.len() > 0 && (held.last() == left || (held.last().user_id != left.user_id
        && since.contains(held.last().user_id) && held_before(held.drop_last(), left, since)))
}

proof fn held_before_is_held(held: Seq<Left>, left: Left, since: Set<i32>)
    requires
        held_before(held, left, since),
    ensures
        held.contains(left),
        one_each(held) && held[0] == left ==> forall|j: int|
            0 < j < held.len() ==> since.contains((#[trigger] held[j]).user_id),
    decreases held.len(),
{
    assert(held[held.len() - 1] == held.last());
    if held.last() != left {
        let short = held.drop_last();
        held_before_is_held(short, left, since);
        let k = choose|k: int| 0 <= k < short.len() && short[k] == left;
        assert(held[k] == left);
        if one_each(held) && held[0] == left {
            assert forall|i: int, j: int| 0 <= i < j < short.len() implies (
            #[trigger] short[i]).user_id != (#[trigger] short[j]).user_id by {
                assert(held[i].user_id != held[j].user_id);
            }
            assert(short[0] == left);
            assert forall|j: int| 0 < j < held.len() implies since.contains(
                (#[trigger] held[j]).user_id,
            ) by {
                if j < short.len() {
                    assert(short[j] == held[j]);
                }
            }
        }
    } else if one_each(held) && held[0] == left {
        if held.len() > 1 {
            assert(held[0].user_id != held[held.len() - 1].user_id);
        }
    }
}

proof fn held_before_stays_warm(held: Seq<Left>, left: Left, since: Set<i32>, now_ms: u64)
    requires
        held_before(held, left, since),
        is_warm(left, now_ms),
    ensures
        held_before(warm(held, now_ms), left, since),
    decreases held.len(),
{
    reveal(Seq::filter);
    let short = warm(held.drop_last(), now_ms);
    if held.last() != left {
        held_before_stays_warm(held.drop_last(), left, since, now_ms);
    }
    if is_warm(held.last(), now_ms) {
        assert(warm(held, now_ms).drop_last() =~= short);
    }
}

proof fn held_before_without(held: Seq<Left>, left: Left, since: Set<i32>, k: int)
    requires
        held_before(held, left, since),
        0 <= k < held.len(),
        held[k] != left,
    ensures
        held_before(held.remove(k), left, since),
    decreases held.len(),
{
    let rest = held.remove(k);
    if k == held.len() - 1 {
        assert(rest =~= held.drop_last());
    } else {
        assert(rest.last() == held.last());
        assert(rest.drop_last() =~= held.drop_last().remove(k));
        if held.last() != left {
            assert(held.drop_last()[k] == held[k]);
            held_before_without(held.drop_last(), left, since, k);
        }
    }
}

/// In order, the first conversation is the stalest.
proof fn the_first_is_stalest(held: Seq<Left>, i: int)
    requires
        in_order(held),
        held.len() > 0,
        1 <= i,
    ensures
        stalest_from(held, 0, i) == 0,
    decreases held.len() - i,
{
    if i < held.len() {
        assert(held[0].at_ms <= held[i].at_ms);
        the_first_is_stalest(held, i + 1);
    }
}

/// Distinct people of a set, without one of them, are fewer than the set has.
proof fn too_few_people(held: Seq<Left>, since: Set<i32>, newcomer: i32)
    requires
        one_each(held),
        held.len() > 0,
        forall|j: int| 0 < j < held.len() ==> since.contains((#[trigger] held[j]).user_id),
        forall|j: int| 0 <= j < held.len() ==> (#[trigger] held[j]).user_id != newcomer,
        since.contains(newcomer),
        since.finite(),
    ensures
        held.len() <= since.len(),
{
    let rest = held.skip(1);
    let ids = rest.map_values(|l: Left| l.user_id);
    assert forall|i: int, j: int| 0 <= i < ids.len() && 0 <= j < ids.len() && i != j implies ids[i]
        != ids[j] by {
        assert(ids[i] == held[i + 1].user_id && ids[j] == held[j + 1].user_id);
    }
    assert(ids.no_duplicates());
    ids.unique_seq_to_set();
    let others = since.remove(newcomer);
    assert forall|x: i32| ids.to_set().contains(x) implies others.contains(x) by {
        let i = choose|i: int| 0 <= i < ids.len() && ids[i] == x;
        assert(ids[i] == held[i + 1].user_id);
    }
    vstd::set_lib::lemma_len_subset(ids.to_set(), others);
}

proof fn a_turn_passes_it_by(held: Seq<Left>, left: Left, turn: Left, since: Set<i32>)
    requires
        one_each(held),
        in_order(held),
        held_before(held, left, since),
        turn.user_id != left.user_id,
        since.contains(turn.user_id),
        since.finite(),
        since.len() < MAX_HELD,
        is_warm(left, turn.at_ms),
    ensures
        held_before(kept(held, turn), left, since),
{
    let user = turn.user_id;
    if turn.priming@.len() == 0 {
        person_from_is_first(held, user, 0);
        if let Some(k) = person_from(held, user, 0) {
            held_before_without(held, left, since, k);
        }
    } else {
        let now = warm(held, turn.at_ms);
        warm_is_part(held, turn.at_ms);
        held_before_stays_warm(held, left, since, turn.at_ms);
        person_from_is_first(now, user, 0);
        if now.len() >= MAX_HELD && person_from(now, user, 0) is None {
            the_first_is_stalest(now, 1);
            if now[0] == left {
                held_before_is_held(now, left, since);
                too_few_people(now, since, user);
            }
            held_before_without(now, left, since, 0);
        }
        let room = with_room(now, user);
        person_from_is_first(room, user, 0);
        if let Some(k) = person_from(room, user, 0) {
            held_before_without(room, left, since, k);
        }
        let rest = without_person(room, user);
        assert(kept(held, turn).drop_last() =~= rest);
    }
}

/// Only this conversation is held of its person, if any is.
pub open spec fn only(held: Seq<Left>, left: Left) -> bool {
    forall|i: int|
        0 <= i < held.len() && (#[trigger] held[i]).user_id == left.user_id ==> held[i] == left
}

proof fn turns_of_others_bring_nothing(held: Seq<Left>, turn: Left, person: i32)
    requires
        turn.user_id != person,
    ensures
        forall|i: int|
            0 <= i < kept(held, turn).len() && (#[trigger] kept(held, turn)[i]).user_id == person
                ==> held.contains(kept(held, turn)[i]),
{
    let after = kept(held, turn);
    if turn.priming@.len() == 0 {
        person_from_is_first(held, turn.user_id, 0);
        if let Some(k) = person_from(held, turn.user_id, 0) {
            removing_keeps_the_rest(held, k);
        }
    } else {
        others_are_part(held, turn);
        assert forall|i: int|
            0 <= i < after.len() && (#[trigger] after[i]).user_id == person implies held.contains(
            after[i],
        ) by {
            assert(after[i] == others_kept(held, turn)[i]);
        }
    }
}

proof fn through_turns_of_others(
    held: Seq<Left>,
    left: Left,
    turns: Seq<Left>,
    now_ms: u64,
    since: Set<i32>,
)
    requires
        one_each(held),
        in_order(held),
        forall|i: int| 0 <= i < held.len() ==> (#[trigger] held[i]).at_ms <= left.at_ms,
        only(held, left),
        follow(turns, left.at_ms, now_ms),
        forall|i: int| 0 <= i < turns.len() ==> (#[trigger] turns[i]).user_id != left.user_id,
        forall|i: int| 0 <= i < turns.len() ==> since.contains((#[trigger] turns[i]).user_id),
        since.finite(),
    ensures
        one_each(kept_all(held, turns)),
        in_order(kept_all(held, turns)),
        only(kept_all(held, turns), left),
        forall|i: int|
            0 <= i < kept_all(held, turns).len() ==> (#[trigger] kept_all(held, turns)[i]).at_ms
                <= if turns.len() == 0 {
                left.at_ms
            } else {
                turns.last().at_ms
            },
        held_before(held, left, since) && since.len() < MAX_HELD && is_warm(left, now_ms)
            ==> held_before(kept_all(held, turns), left, since),
    decreases turns.len(),
{
    if turns.len() > 0 {
        let earlier = turns.drop_last();
        let turn = turns.last();
        assert(turns[turns.len() - 1] == turn);
        assert forall|i: int| 0 <= i < earlier.len() implies earlier[i] == #[trigger] turns[i] by {}
        assert forall|i: int, j: int| 0 <= i < j < earlier.len() implies (
        #[trigger] earlier[i]).at_ms <= (#[trigger] earlier[j]).at_ms by {
            assert(turns[i].at_ms <= turns[j].at_ms);
        }
        through_turns_of_others(held, left, earlier, now_ms, since);
        let before = kept_all(held, earlier);
        let after = kept_all(held, turns);
        if earlier.len() > 0 {
            assert(turns[earlier.len() - 1].at_ms <= turns[turns.len() - 1].at_ms);
        }
        assert forall|i: int| 0 <= i < before.len() implies (#[trigger] before[i]).at_ms
            <= turn.at_ms by {}
        keeping_holds_one_each(before, turn);
        keeping_keeps_the_order(before, turn);
        turns_of_others_bring_nothing(before, turn, left.user_id);
        assert forall|i: int|
            0 <= i < after.len() && (#[trigger] after[i]).user_id == left.user_id implies after[i]
            == left by {
            assert(before.contains(after[i]));
        }
        if held_before(held, left, since) && since.len() < MAX_HELD && is_warm(left, now_ms) {
            a_turn_passes_it_by(before, left, turn, since);
        }
    }
}

/// What a turn left is still on the mind after turns of others, while the talk is
/// warm and fewer people than may be held have had a turn since. Once it has gone
/// cold, or where the turn left nothing, nothing is on the mind.
pub proof fn priming_outlasts_turns_of_others(
    held: Seq<Left>,
    left: Left,
    turns: Seq<Left>,
    now_ms: u64,
)
    requires
        one_each(held),
        in_order(held),
        forall|i: int| 0 <= i < held.len() ==> (#[trigger] held[i]).at_ms <= left.at_ms,
        left.at_ms <= now_ms,
        follow(turns, left.at_ms, now_ms),
        forall|i: int| 0 <= i < turns.len() ==> (#[trigger] turns[i]).user_id != left.user_id,
    ensures
        ({
            let mind = on_mind(kept_all(kept(held, left), turns), left.user_id, now_ms);
            &&& elapsed(now_ms, left.at_ms) < IDLE_MS && people(turns).len() < MAX_HELD ==> mind
                == left.priming@
            &&& elapsed(now_ms, left.at_ms) >= IDLE_MS ==> mind.len() == 0
            &&& left.priming@.len() == 0 ==> mind.len() == 0
        }),
{
    let first = kept(held, left);
    let after = kept_all(first, turns);
    let since = people(turns);
    let ids = turns.map_values(|l: Left| l.user_id);
    assert forall|i: int| 0 <= i < turns.len() implies since.contains(
        (#[trigger] turns[i]).user_id,
    ) by {
        assert(ids[i] == turns[i].user_id);
    }
    vstd::seq_lib::seq_to_set_is_finite(ids);
    keeping_holds_one_each(held, left);
    keeping_keeps_the_order(held, left);
    if left.priming@.len() == 0 {
        person_from_is_first(held, left.user_id, 0);
        if let Some(k) = person_from(held, left.user_id, 0) {
            removing_keeps_the_rest(held, k);
        }
    } else {
        others_are_part(held, left);
        assert(first.last() == left);
    }
    assert(only(first, left));
    through_turns_of_others(first, left, turns, now_ms, since);
    person_from_is_first(after, left.user_id, 0);
    if left.priming@.len() == 0 {
        assert(left.priming@ =~= Seq::empty());
        if let Some(k) = person_from(after, left.user_id, 0) {
            assert(after[k] == left);
        }
    } else if elapsed(now_ms, left.at_ms) < IDLE_MS && since.len() < MAX_HELD {
        held_before_is_held(after, left, since);
        let k = choose|k: int| 0 <= k < after.len() && after[k] == left;
        the_one_is_found(after, k);
    } else if let Some(k) = person_from(after, left.user_id, 0) {
        assert(after[k] == left);
    }
}

/// Nothing is on the mind of a person without a turn, whoever else has one.
pub proof fn a_mind_is_ones_own(held: Seq<Left>, turns: Seq<Left>, person: i32, now_ms: u64)
    requires
        forall|i: int| 0 <= i < held.len() ==> (#[trigger] held[i]).user_id != person,
        forall|i: int| 0 <= i < turns.len() ==> (#[trigger] turns[i]).user_id != person,
    ensures
        on_mind(kept_all(held, turns), person, now_ms).len() == 0,
        forall|i: int|
            0 <= i < kept_all(held, turns).len() ==> (#[trigger] kept_all(held, turns)[i]).user_id
                != person,
    decreases turns.len(),
{
    if turns.len() > 0 {
        let earlier = turns.drop_last();
        assert(turns[turns.len() - 1] == turns.last());
        assert forall|i: int| 0 <= i < earlier.len() implies (#[trigger] earlier[i]).user_id
            != person by {
            assert(earlier[i] == turns[i]);
        }
        a_mind_is_ones_own(held, earlier, person, now_ms);
        let before = kept_all(held, earlier);
        let after = kept_all(held, turns);
        turns_of_others_bring_nothing(before, turns.last(), person);
        assert forall|i: int| 0 <= i < after.len() implies (#[trigger] after[i]).user_id
            != person by {
            if after[i].user_id == person {
                assert(before.contains(after[i]));
            }
        }
    }
    nobody_is_found(kept_all(held, turns), person, 0);
}

/// Who makes room is the one who has been silent longest.
pub proof fn the_longest_silent_makes_room(held: Seq<Left>, best: int, from: int, i: int)
    requires
        0 <= best < from <= held.len(),
        forall|k: int| 0 <= k < from ==> held[best].at_ms <= (#[trigger] held[k]).at_ms,
        0 <= i < held.len(),
    ensures
        0 <= stalest_from(held, best, from) < held.len(),
        held[stalest_from(held, best, from)].at_ms <= held[i].at_ms,
    decreases held.len() - from,
{
    if from < held.len() {
        if held[from].at_ms < held[best].at_ms {
            the_longest_silent_makes_room(held, from, from + 1, i);
        } else {
            the_longest_silent_makes_room(held, best, from + 1, i);
        }
    }
}

/// What was on the mind is there for half an hour, and gone after it.
pub proof fn minds_go_cold_after_half_an_hour(held: Seq<Left>, user_id: i32, now_ms: u64)
    ensures
        on_mind(held, user_id, now_ms).len() > 0 ==> exists|i: int|
            0 <= i < held.len() && (#[trigger] held[i]).user_id == user_id && on_mind(
                held,
                user_id,
                now_ms,
            ) == held[i].priming@ && now_ms < held[i].at_ms + 1_800_000,
        forall|i: int|
            0 <= i < held.len() && one_each(held) && (#[trigger] held[i]).user_id == user_id
                && held[i].at_ms <= now_ms < held[i].at_ms + 1_800_000 ==> on_mind(
                held,
                user_id,
                now_ms,
            ) == held[i].priming@,
{
    person_from_is_first(held, user_id, 0);
    if let Some(k) = person_from(held, user_id, 0) {
        assert(held[k].user_id == user_id);
        assert forall|i: int|
            0 <= i < held.len() && one_each(held) && (#[trigger] held[i]).user_id == user_id
                && held[i].at_ms <= now_ms < held[i].at_ms + 1_800_000 implies on_mind(
            held,
            user_id,
            now_ms,
        ) == held[i].priming@ by {
            if i < k {
                assert(held[i].user_id != held[k].user_id);
            }
            if k < i {
                assert(held[k].user_id != held[i].user_id);
            }
        }
    }
}

} // verus!
