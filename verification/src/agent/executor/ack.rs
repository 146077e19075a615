//! Waiting for the browser's live snapshots. A step whose output asks the
//! browser how it stands waits until the answer is in, and the answer is merged
//! before the next step reads it. The user sees no question.
use crate::agent::capability;
use crate::agent::capability::CapabilityRef;
use crate::agent::executor::frontend;
use crate::json;
use crate::json::{Fields, Json, JsonView};
use crate::text;
use vstd::prelude::*;

verus! {

// ---------------------------------------------------------------------------
// Which outputs wait
// ---------------------------------------------------------------------------
/// Whether an action asks for a snapshot.
pub open spec fn asks_snapshot(action: JsonView) -> bool {
    action.text_at("type"@) == Some("query_windows"@) || action.text_at("type"@) == Some(
        "music_get_status"@,
    )
}

pub open spec fn needs_ack(output: JsonView) -> bool {
    exists|i: int|
        0 <= i < frontend::actions_of(output).len() && asks_snapshot(
            #[trigger] frontend::actions_of(output)[i],
        )
}

pub fn actions_need_snapshot_ack(output: &Json) -> (r: bool)
    ensures
        r == needs_ack(output@),
{
    let outputs: Vec<&Json> = vec![output];
    let actions = frontend::collect_step_frontend_actions(&outputs);
    let ghost own = frontend::actions_of(output@);
    proof {
        let all = frontend::ref_views(outputs@);
        assert(all.drop_last() =~= Seq::empty());
        assert(all.last() == output@);
        reveal_with_fuel(frontend::actions_of_all, 2);
        assert(json::items(actions@) =~= own);
    }
    let mut i: usize = 0;
    while i < actions.len()
        invariant
            i <= actions@.len(),
            json::items(actions@) == own,
            own == frontend::actions_of(output@),
            forall|k: int| 0 <= k < i ==> !asks_snapshot(#[trigger] own[k]),
        decreases actions@.len() - i,
    {
        assert(own[i as int] == actions@[i as int]@);
        if let Some(kind) = actions[i].str_at("type") {
            if text::eq(kind, "query_windows") || text::eq(kind, "music_get_status") {
                assert(asks_snapshot(own[i as int]));
                return true;
            }
        }
        i = i + 1;
    }
    false
}

// ---------------------------------------------------------------------------
// Registrations
// ---------------------------------------------------------------------------
pub open spec fn key_of(task_id: Seq<char>, step_id: Seq<char>) -> Seq<char> {
    task_id + "\0"@ + step_id
}

fn ack_key(task_id: &str, step_id: &str) -> (r: String)
    ensures
        r@ == key_of(task_id@, step_id@),
{
    let mut out = task_id.to_owned();
    out.append("\0");
    out.append(step_id);
    out
}

/// A registered wait. Whoever holds it gives it back with
/// [`PendingAcks::release`].
pub struct PendingAck {
    pub key: String,
    pub identity: u64,
}

/// The waits that are open, each under the key of its task and step.
pub struct PendingAcks {
    waits: Vec<(String, u64)>,
    next: u64,
}

impl View for PendingAcks {
    type V = Map<Seq<char>, u64>;

    closed spec fn view(&self) -> Map<Seq<char>, u64> {
        waits_map(self.waits@)
    }
}

spec fn waits_map(waits: Seq<(String, u64)>) -> Map<Seq<char>, u64>
    decreases waits.len(),
{
    if waits.len() == 0 {
        Map::empty()
    } else {
        waits_map(waits.drop_last()).insert(waits.last().0@, waits.last().1)
    }
}

proof fn waits_map_of(waits: Seq<(String, u64)>)
    ensures
        forall|key: Seq<char>| #[trigger]
            waits_map(waits).contains_key(key) <==> exists|i: int|
                0 <= i < waits.len() && (#[trigger] waits[i]).0@ == key,
        distinct(waits) ==> forall|i: int|
            0 <= i < waits.len() ==> waits_map(waits)[(#[trigger] waits[i]).0@] == waits[i].1,
    decreases waits.len(),
{
    if waits.len() > 0 {
        let front = waits.drop_last();
        waits_map_of(front);
        assert forall|key: Seq<char>| #[trigger] waits_map(waits).contains_key(key) implies exists|
            i: int,
        | 0 <= i < waits.len() && (#[trigger] waits[i]).0@ == key by {
            if key == waits.last().0@ {
                assert(waits[waits.len() - 1].0@ == key);
            } else {
                assert(waits_map(front).contains_key(key));
                let i = choose|i: int| 0 <= i < front.len() && (#[trigger] front[i]).0@ == key;
                assert(waits[i].0@ == key);
            }
        }
        assert forall|key: Seq<char>|
            (exists|i: int| 0 <= i < waits.len() && (#[trigger] waits[i]).0@ == key) implies
            #[trigger] waits_map(waits).contains_key(key) by {
            let i = choose|i: int| 0 <= i < waits.len() && (#[trigger] waits[i]).0@ == key;
            if i < waits.len() - 1 {
                assert(front[i].0@ == key);
                assert(waits_map(front).contains_key(key));
            }
        }
        if distinct(waits) {
            assert(distinct(front)) by {
                assert forall|i: int, j: int| 0 <= i < j < front.len() implies (
                #[trigger] front[i]).0@ != (#[trigger] front[j]).0@ by {
                    assert(waits[i].0@ != waits[j].0@);
                }
            }
            assert forall|i: int| 0 <= i < waits.len() implies waits_map(waits)[(
            #[trigger] waits[i]).0@] == waits[i].1 by {
                if i < waits.len() - 1 {
                    assert(front[i] == waits[i]);
                    assert(waits[i].0@ != waits[waits.len() - 1].0@);
                }
            }
        }
    }
}

/// No key is registered twice.
spec fn distinct(waits: Seq<(String, u64)>) -> bool {
    forall|i: int, j: int|
        0 <= i < j < waits.len() ==> (#[trigger] waits[i]).0@ != (#[trigger] waits[j]).0@
}

/// The open waits once a wait has been given back: its own registration is gone,
/// and no other.
pub open spec fn released(open: Map<Seq<char>, u64>, key: Seq<char>, identity: u64) -> Map<
    Seq<char>,
    u64,
> {
    if open.contains_key(key) && open[key] == identity {
        open.remove(key)
    } else {
        open
    }
}

impl PendingAcks {
    pub closed spec fn wf(&self) -> bool {
        &&& distinct(self.waits@)
        &&& forall|i: int| 0 <= i < self.waits@.len() ==> (#[trigger] self.waits@[i]).1 < self.next
    }

    /// The identity of the next wait; those before it have been handed out.
    pub closed spec fn issued(&self) -> u64 {
        self.next
    }

    pub fn new() -> (r: Self)
        ensures
            r.wf(),
            r@ == Map::<Seq<char>, u64>::empty(),
            r.issued() == 0,
    {
        PendingAcks { waits: Vec::new(), next: 0 }
    }

    /// Whether there are identities left for further waits.
    pub fn has_identities(&self) -> (r: bool)
        ensures
            r == (self.issued() < u64::MAX),
    {
        self.next < u64::MAX
    }

    fn position(&self, key: &str) -> (r: Option<usize>)
        ensures
            match r {
                Some(i) => i < self.waits@.len() && self.waits@[i as int].0@ == key@,
                None => forall|i: int|
                    0 <= i < self.waits@.len() ==> (#[trigger] self.waits@[i]).0@ != key@,
            },
    {
        let mut i: usize = 0;
        while i < self.waits.len()
            invariant
                i <= self.waits@.len(),
                forall|k: int| 0 <= k < i ==> (#[trigger] self.waits@[k]).0@ != key@,
            decreases self.waits@.len() - i,
        {
            if text::eq(self.waits[i].0.as_str(), key) {
                return Some(i);
            }
            i = i + 1;
        }
        None
    }

    fn remove_at(&mut self, i: usize)
        requires
            old(self).wf(),
            i < old(self).waits@.len(),
        ensures
            final(self).wf(),
            final(self).next == old(self).next,
            final(self)@ == old(self)@.remove(old(self).waits@[i as int].0@),
    {
        let ghost before = self.waits@;
        let ghost key = before[i as int].0@;
        self.waits.remove(i);
        proof {
            let after = self.waits@;
            assert(forall|k: int|
                0 <= k < after.len() ==> #[trigger] after[k] == before[if k < i {
                    k
                } else {
                    k + 1
                }]);
            waits_map_of(before);
            waits_map_of(after);
            assert(distinct(after));
            assert forall|k: Seq<char>| #[trigger]
                waits_map(after).contains_key(k) == waits_map(before).remove(key).contains_key(
                    k,
                ) by {
                if waits_map(after).contains_key(k) {
                    let j = choose|j: int| 0 <= j < after.len() && (#[trigger] after[j]).0@ == k;
                    let m = if j < i {
                        j
                    } else {
                        j + 1
                    };
                    assert(before[m].0@ == k);
                    assert(k != key);
                } else if waits_map(before).remove(key).contains_key(k) {
                    let m = choose|m: int|
                        0 <= m < before.len() && (#[trigger] before[m]).0@ == k;
                    let j = if m < i {
                        m
                    } else {
                        m - 1
                    };
                    assert(after[j].0@ == k);
                }
            }
            assert forall|k: Seq<char>| #[trigger] waits_map(after).contains_key(k) implies waits_map(
                after,
            )[k] == waits_map(before).remove(key)[k] by {
                let j = choose|j: int| 0 <= j < after.len() && (#[trigger] after[j]).0@ == k;
                let m = if j < i {
                    j
                } else {
                    j + 1
                };
                assert(before[m] == after[j]);
            }
            assert(waits_map(after) =~= waits_map(before).remove(key));
        }
    }

    /// Registers a wait for a step whose output asks for a snapshot. A wait that
    /// is open for the step is replaced.
    pub fn begin_if_needed(&mut self, task_id: &str, step_id: &str, output: &Json) -> (r: Option<
        PendingAck,
    >)
        requires
            old(self).wf(),
            old(self).issued() < u64::MAX,
        ensures
            final(self).wf(),
            match r {
                Some(p) => {
                    &&& needs_ack(output@)
                    &&& p.key@ == key_of(task_id@, step_id@)
                    &&& p.identity == old(self).issued()
                    &&& final(self).issued() == old(self).issued() + 1
                    &&& final(self)@ == old(self)@.insert(p.key@, p.identity)
                },
                None => !needs_ack(output@) && *final(self) == *old(self),
            },
    {
        if !actions_need_snapshot_ack(output) {
            return None;
        }
        let key = ack_key(task_id, step_id);
        let ghost first = self@;
        if let Some(i) = self.position(key.as_str()) {
            self.remove_at(i);
        } else {
            proof {
                waits_map_of(self.waits@);
                assert(self@ =~= self@.remove(key@));
            }
        }
        assert(self@ == first.remove(key@));
        let identity = self.next;
        let ghost before = self.waits@;
        self.waits.push((key.clone(), identity));
        self.next = self.next + 1;
        proof {
            let after = self.waits@;
            assert(after.drop_last() =~= before);
            assert(after.last().0@ == key@);
            assert(waits_map(after) == waits_map(before).insert(key@, identity));
            waits_map_of(before);
            assert(!waits_map(before).contains_key(key@));
            assert forall|i: int, j: int| 0 <= i < j < after.len() implies (
            #[trigger] after[i]).0@ != (#[trigger] after[j]).0@ by {
                assert(before[i] == after[i]);
                assert(waits_map(before).contains_key(before[i].0@));
                if j < before.len() {
                    assert(before[j] == after[j]);
                }
            }
            assert(self@ =~= first.insert(key@, identity));
        }
        Some(PendingAck { key, identity })
    }

    /// Takes out the wait of a step, for which an answer has come. The result
    /// names the wait to hand the answer to.
    pub fn submit(&mut self, task_id: &str, step_id: &str) -> (r: Option<u64>)
        requires
            old(self).wf(),
        ensures
            final(self).wf(),
            final(self).issued() == old(self).issued(),
            ({
                let key = key_of(task_id@, step_id@);
                if old(self)@.contains_key(key) {
                    r == Some(old(self)@[key]) && final(self)@ == old(self)@.remove(key)
                } else {
                    r is None && final(self)@ == old(self)@
                }
            }),
    {
        let key = ack_key(task_id, step_id);
        proof {
            waits_map_of(self.waits@);
        }
        match self.position(key.as_str()) {
            Some(i) => {
                let identity = self.waits[i].1;
                self.remove_at(i);
                Some(identity)
            },
            None => None,
        }
    }

    /// Gives a wait back, whether it was answered, timed out or was dropped. Only
    /// its own registration goes: a wait that has been replaced leaves the newer
    /// one alone.
    pub fn release(&mut self, ack: &PendingAck)
        requires
            old(self).wf(),
        ensures
            final(self).wf(),
            final(self).issued() == old(self).issued(),
            final(self)@ == released(old(self)@, ack.key@, ack.identity),
    {
        proof {
            waits_map_of(self.waits@);
        }
        if let Some(i) = self.position(ack.key.as_str()) {
            if self.waits[i].1 == ack.identity {
                self.remove_at(i);
            }
        }
    }
}

// ---------------------------------------------------------------------------
// Merging
// ---------------------------------------------------------------------------
/// The entries once those of `more` are set, one after the other.
pub open spec fn with_entries(
    o: Seq<(Seq<char>, JsonView)>,
    more: Seq<(Seq<char>, JsonView)>,
) -> Seq<(Seq<char>, JsonView)>
    decreases more.len(),
{
    if more.len() == 0 {
        o
    } else {
        json::with_entry(with_entries(o, more.drop_last()), more.last().0, more.last().1)
    }
}

fn set_all(o: &mut Fields, more: &Fields)
    ensures
        json::entries(final(o)@) == with_entries(
            json::entries(old(o)@),
            json::entries(more@),
        ),
{
    let ghost first = json::entries(o@);
    let ghost all = json::entries(more@);
    let mut i: usize = 0;
    while i < more.len()
        invariant
            i <= more@.len(),
            all == json::entries(more@),
            json::entries(o@) == with_entries(first, all.take(i as int)),
        decreases more@.len() - i,
    {
        assert(all.take(i + 1).drop_last() =~= all.take(i as int));
        json::set(o, more[i].0.as_str(), more[i].1.copy());
        i = i + 1;
    }
    assert(all.take(all.len() as int) =~= all);
}

/// The music status of an answer, where it is an object.
pub open spec fn music_in(ack: JsonView) -> Option<Seq<(Seq<char>, JsonView)>> {
    match ack.get("musicStatus"@) {
        Some(JsonView::Object(o)) => Some(o),
        _ => None,
    }
}

/// The window state of an answer, unless it is null.
pub open spec fn windows_in(ack: JsonView) -> Option<JsonView> {
    match ack.get("windowState"@) {
        Some(w) if !(w is Null) => Some(w),
        _ => None,
    }
}

pub open spec fn with_music(
    capability_id: Seq<char>,
    output: JsonView,
    music: Seq<(Seq<char>, JsonView)>,
) -> JsonView {
    match output {
        JsonView::Object(o) if capability_id == "music.status"@ => JsonView::Object(
            json::with_entry(with_entries(o, music), "available"@, JsonView::Bool(true)),
        ),
        _ => output,
    }
}

pub open spec fn copied(
    o: Seq<(Seq<char>, JsonView)>,
    from: JsonView,
    key: Seq<char>,
) -> Seq<(Seq<char>, JsonView)> {
    match from.get(key) {
        Some(v) => json::with_entry(o, key, v),
        None => o,
    }
}

pub open spec fn windows_available(windows: JsonView) -> bool {
    match windows.bool_at("available"@) {
        Some(b) => b,
        None => true,
    }
}

pub open spec fn with_windows(
    capability_id: Seq<char>,
    output: JsonView,
    windows: JsonView,
) -> JsonView {
    match output {
        JsonView::Object(o) if capability_id == "tapp.windows"@ => {
            let available = windows_available(windows);
            let o = json::with_entry(o, "available"@, JsonView::Bool(available));
            if available {
                let o = copied(o, windows, "windows"@);
                let o = copied(o, windows, "activeWindowId"@);
                let o = copied(o, windows, "windowCount"@);
                JsonView::Object(json::with_entry(o, "message"@, JsonView::Null))
            } else {
                JsonView::Object(o)
            }
        },
        _ => output,
    }
}

/// The output of a step once the browser has answered.
pub open spec fn merged_output(
    capability_id: Seq<char>,
    output: JsonView,
    ack: JsonView,
) -> JsonView {
    let output = match music_in(ack) {
        Some(music) => with_music(capability_id, output, music),
        None => output,
    };
    match windows_in(ack) {
        Some(windows) => with_windows(capability_id, output, windows),
        None => output,
    }
}

/// The variables of a run once the browser has answered.
pub open spec fn merged_variables(
    variables: Seq<(Seq<char>, JsonView)>,
    ack: JsonView,
) -> Seq<(Seq<char>, JsonView)> {
    let variables = match music_in(ack) {
        Some(music) => json::with_entry(variables, "_music_status"@, JsonView::Object(music)),
        None => variables,
    };
    match windows_in(ack) {
        Some(windows) => json::with_entry(variables, "_window_state"@, windows),
        None => variables,
    }
}

fn copy_over(o: &mut Fields, from: &Json, key: &str)
    ensures
        json::entries(final(o)@) == copied(json::entries(old(o)@), from@, key@),
{
    if let Some(v) = from.get(key) {
        json::set(o, key, v.copy());
    }
}

fn merge_music(capability_id: &str, output: Json, music: &Fields) -> (r: Json)
    ensures
        r@ == with_music(capability_id@, output@, json::entries(music@)),
{
    broadcast use json::group_json;

    if !text::eq(capability_id, "music.status") {
        return output;
    }
    match output {
        Json::Object(o) => {
            let mut o = o;
            assert(output@ == JsonView::Object(json::entries(o@)));
            set_all(&mut o, music);
            json::set(&mut o, "available", Json::Bool(true));
            let r = Json::Object(o);
            assert(r@ == JsonView::Object(json::entries(o@)));
            r
        },
        other => other,
    }
}

fn merge_windows(capability_id: &str, output: Json, windows: &Json) -> (r: Json)
    ensures
        r@ == with_windows(capability_id@, output@, windows@),
{
    broadcast use json::group_json;

    if !text::eq(capability_id, "tapp.windows") {
        return output;
    }
    let available = match windows.bool_at("available") {
        Some(b) => b,
        None => true,
    };
    match output {
        Json::Object(o) => {
            let mut o = o;
            assert(output@ == JsonView::Object(json::entries(o@)));
            json::set(&mut o, "available", Json::Bool(available));
            if available {
                copy_over(&mut o, windows, "windows");
                copy_over(&mut o, windows, "activeWindowId");
                copy_over(&mut o, windows, "windowCount");
                json::set(&mut o, "message", Json::Null);
            }
            let r = Json::Object(o);
            assert(r@ == JsonView::Object(json::entries(o@)));
            r
        },
        other => other,
    }
}

/// Merges the browser's answer into the output of the step that asked for it
/// and into the variables of the run.
pub fn merge_ack(capability_id: &str, output: Json, ack: &Json, variables: &mut Fields) -> (r: Json)
    ensures
        r@ == merged_output(capability_id@, output@, ack@),
        json::entries(final(variables)@) == merged_variables(
            json::entries(old(variables)@),
            ack@,
        ),
{
    broadcast use json::group_json;

    let mut merged = output;
    if let Some(Json::Object(music)) = ack.get("musicStatus") {
        assert(music_in(ack@) == Some(json::entries(music@)));
        let status = Json::Object(json::copy_fields(music));
        assert(status@ == JsonView::Object(json::entries(music@)));
        json::set(variables, "_music_status", status);
        merged = merge_music(capability_id, merged, music);
    }
    if let Some(windows) = ack.get("windowState") {
        if !windows.is_null() {
            json::set(variables, "_window_state", windows.copy());
            merged = merge_windows(capability_id, merged, windows);
        }
    }
    merged
}

/// The output of a step when its wait is over: merged with the answer if one
/// came, as it was if none did.
pub fn finish(
    capability_id: &str,
    output: Json,
    answer: &Option<Json>,
    variables: &mut Fields,
) -> (r: Json)
    ensures
        match answer {
            Some(ack) => r@ == merged_output(capability_id@, output@, ack@) && json::entries(
                final(variables)@,
            ) == merged_variables(json::entries(old(variables)@), ack@),
            None => r == output && *final(variables) == *old(variables),
        },
{
    match answer {
        Some(ack) => merge_ack(capability_id, output, ack, variables),
        None => output,
    }
}

/// Whether the output of a step may ask anything of the browser, and be waited
/// for. What an outside server sends is data and no command of the platform; and
/// where nobody listens there is nothing to wait for.
pub fn may_wait(capability_id: &str, live: bool) -> (r: bool)
    ensures
        r == (live && !(capability::name_of(capability_id@) is Mcp)),
{
    live && !CapabilityRef::parse(capability_id).is_mcp()
}

// ---------------------------------------------------------------------------
// Laws
// ---------------------------------------------------------------------------
/// A wait that has been replaced cannot take the newer registration away: giving
/// back the older wait changes nothing, and giving back the newer one leaves none.
pub proof fn a_replaced_wait_leaves_the_newer_one(
    open: Map<Seq<char>, u64>,
    key: Seq<char>,
    older: u64,
    newer: u64,
)
    requires
        older != newer,
    ensures
        ({
            let registered = open.insert(key, older).insert(key, newer);
            &&& released(registered, key, older) == registered
            &&& !released(registered, key, newer).contains_key(key)
        }),
{
}

/// A wait that is over leaves no registration behind, however it ended: not when
/// it is given back at once, and not when an answer had taken it out before.
pub proof fn a_wait_that_is_over_leaves_nothing(
    open: Map<Seq<char>, u64>,
    key: Seq<char>,
    identity: u64,
)
    ensures
        !released(open.insert(key, identity), key, identity).contains_key(key),
        !released(open.insert(key, identity).remove(key), key, identity).contains_key(key),
        forall|other: Seq<char>|
            other != key ==> (#[trigger] released(
                open.insert(key, identity),
                key,
                identity,
            ).contains_key(other) <==> open.contains_key(other)),
{
}

proof fn later_entries_win(
    o: Seq<(Seq<char>, JsonView)>,
    more: Seq<(Seq<char>, JsonView)>,
    key: Seq<char>,
)
    requires
        forall|i: int, j: int|
            0 <= i < j < more.len() ==> (#[trigger] more[i]).0 != (#[trigger] more[j]).0,
    ensures
        json::entry(with_entries(o, more), key) == match json::entry(more, key) {
            Some(v) => Some(v),
            None => json::entry(o, key),
        },
    decreases more.len(),
{
    if more.len() > 0 {
        let last = more.last();
        let rest = more.drop_last();
        later_entries_win(o, rest, key);
        json::lookup_after_set(with_entries(o, rest), last.0, last.1, key);
        json::key_from_is_first(rest, last.0, 0);
        assert(json::entry(rest, last.0) is None) by {
            if let Some(k) = json::key_from(rest, last.0, 0) {
                assert(more[k] == rest[k]);
                assert(more[more.len() - 1] == last);
            }
        }
        assert(rest.push(last) =~= more);
        json::lookup_after_put(rest, last.0, last.1, key);
    }
}

/// Only the steps that asked the browser take its answer.
pub proof fn answers_are_for_those_who_asked(
    capability_id: Seq<char>,
    output: JsonView,
    ack: JsonView,
    variables: Seq<(Seq<char>, JsonView)>,
)
    ensures
        capability_id != "music.status"@ && capability_id != "tapp.windows"@ ==> merged_output(
            capability_id,
            output,
            ack,
        ) == output,
        ack.get("musicStatus"@) is None && ack.get("windowState"@) is None ==> merged_output(
            capability_id,
            output,
            ack,
        ) == output && merged_variables(variables, ack) == variables,
{
}

/// What the browser says of the music stands in the output of the step that
/// asked, over what stood there before; the rest of the output stays. The
/// output says that the music can be told of.
pub proof fn the_music_is_told(
    o: Seq<(Seq<char>, JsonView)>,
    ack: JsonView,
    music: Seq<(Seq<char>, JsonView)>,
    key: Seq<char>,
)
    requires
        ack.get("musicStatus"@) == Some(JsonView::Object(music)),
        forall|i: int, j: int|
            0 <= i < j < music.len() ==> (#[trigger] music[i]).0 != (#[trigger] music[j]).0,
    ensures
        ({
            let told = merged_output("music.status"@, JsonView::Object(o), ack);
            &&& told.get("available"@) == Some(JsonView::Bool(true))
            &&& key != "available"@ ==> told.get(key) == match json::entry(music, key) {
                Some(v) => Some(v),
                None => json::entry(o, key),
            }
        }),
{
    reveal_strlit("music.status");
    reveal_strlit("tapp.windows");
    assert("music.status"@[0] == 'm' && "tapp.windows"@[0] == 't');
    later_entries_win(o, music, key);
    json::lookup_after_set(with_entries(o, music), "available"@, JsonView::Bool(true), key);
}

/// What the browser says of the windows stands in the output of the step that
/// asked, with the message taken back; where it says that it cannot tell of
/// them, the output says that too and is otherwise as it was.
pub proof fn the_windows_are_told(
    o: Seq<(Seq<char>, JsonView)>,
    ack: JsonView,
    windows: JsonView,
    key: Seq<char>,
)
    requires
        ack.get("windowState"@) == Some(windows),
        windows is Object,
        key != "available"@,
    ensures
        ({
            let told = merged_output("tapp.windows"@, JsonView::Object(o), ack);
            if windows.get("available"@) == Some(JsonView::Bool(false)) {
                &&& told.get("available"@) == Some(JsonView::Bool(false))
                &&& told.get(key) == json::entry(o, key)
            } else {
                &&& told.get("available"@) == Some(JsonView::Bool(true))
                &&& told.get("message"@) == Some(JsonView::Null)
                &&& key == "windows"@ || key == "activeWindowId"@ || key == "windowCount"@
                    ==> told.get(key) == match windows.get(key) {
                    Some(v) => Some(v),
                    None => json::entry(o, key),
                }
                &&& key != "windows"@ && key != "activeWindowId"@ && key != "windowCount"@ && key
                    != "message"@ ==> told.get(key) == json::entry(o, key)
            }
        }),
{
    reveal_strlit("music.status");
    reveal_strlit("tapp.windows");
    assert("music.status"@[0] == 'm' && "tapp.windows"@[0] == 't');
    reveal_strlit("available");
    reveal_strlit("windows");
    reveal_strlit("activeWindowId");
    reveal_strlit("windowCount");
    reveal_strlit("message");
    assert("available"@.len() == 9 && "windows"@.len() == 7 && "activeWindowId"@.len() == 14
        && "windowCount"@.len() == 11 && "message"@.len() == 7 && "windows"@[0] == 'w'
        && "message"@[0] == 'm');
    let available = windows_available(windows);
    let o1 = json::with_entry(o, "available"@, JsonView::Bool(available));
    copying_a_key(o, "available"@, JsonView::Bool(available), key);
    if available {
        let o2 = copied(o1, windows, "windows"@);
        let o3 = copied(o2, windows, "activeWindowId"@);
        let o4 = copied(o3, windows, "windowCount"@);
        if let Some(v) = windows.get("windows"@) {
            copying_a_key(o1, "windows"@, v, key);
        }
        if let Some(v) = windows.get("activeWindowId"@) {
            copying_a_key(o2, "activeWindowId"@, v, key);
        }
        if let Some(v) = windows.get("windowCount"@) {
            copying_a_key(o3, "windowCount"@, v, key);
        }
        copying_a_key(o4, "message"@, JsonView::Null, key);
    }
}

proof fn copying_a_key(
    o: Seq<(Seq<char>, JsonView)>,
    set: Seq<char>,
    v: JsonView,
    key: Seq<char>,
)
    ensures
        json::entry(json::with_entry(o, set, v), set) == Some(v),
        key != set ==> json::entry(json::with_entry(o, set, v), key) == json::entry(o, key),
        "available"@ != set ==> json::entry(json::with_entry(o, set, v), "available"@)
            == json::entry(o, "available"@),
{
    json::lookup_after_set(o, set, v, key);
    json::lookup_after_set(o, set, v, "available"@);
}

/// The steps that follow are told what the browser said, and everything else
/// that they were told before.
pub proof fn later_steps_are_told_the_answer(
    variables: Seq<(Seq<char>, JsonView)>,
    ack: JsonView,
    key: Seq<char>,
)
    ensures
        ack.get("musicStatus"@) matches Some(JsonView::Object(music)) ==> json::entry(
            merged_variables(variables, ack),
            "_music_status"@,
        ) == Some(JsonView::Object(music)),
        ack.get("windowState"@) matches Some(windows) ==> !(windows is Null) ==> json::entry(
            merged_variables(variables, ack),
            "_window_state"@,
        ) == Some(windows),
        key != "_music_status"@ && key != "_window_state"@ ==> json::entry(
            merged_variables(variables, ack),
            key,
        ) == json::entry(variables, key),
{
    reveal_strlit("_music_status");
    reveal_strlit("_window_state");
    assert("_music_status"@[1] == 'm' && "_window_state"@[1] == 'w');
    let first = match music_in(ack) {
        Some(music) => {
            let v = JsonView::Object(music);
            json::lookup_after_set(variables, "_music_status"@, v, key);
            json::with_entry(variables, "_music_status"@, v)
        },
        None => variables,
    };
    if let Some(windows) = windows_in(ack) {
        json::lookup_after_set(first, "_window_state"@, windows, key);
        json::lookup_after_set(first, "_window_state"@, windows, "_music_status"@);
    }
}

/// A step whose output asks the browser how its windows or its music stand
/// waits for the answer.
pub proof fn questions_are_waited_for(output: JsonView, list: Seq<JsonView>, i: int)
    requires
        output.get("frontendActions"@) == Some(JsonView::Array(list)),
        0 <= i < list.len(),
        list[i] is Object,
        list[i].text_at("type"@) == Some("query_windows"@) || list[i].text_at("type"@) == Some(
            "music_get_status"@,
        ),
    ensures
        needs_ack(output),
{
    reveal_strlit("query_windows");
    reveal_strlit("music_get_status");
    list.lemma_filter_contains(|v: JsonView| frontend::is_action(v), i);
    let actions = frontend::actions_of(output);
    assert(frontend::is_action(list[i]));
    assert(actions.contains(list[i]));
    let k = choose|k: int| 0 <= k < actions.len() && actions[k] == list[i];
    assert(asks_snapshot(actions[k]));
}

/// Two waits have the same key only where they are for the same step of the same
/// task.
pub proof fn waits_are_told_apart(
    task: Seq<char>,
    step: Seq<char>,
    other_task: Seq<char>,
    other_step: Seq<char>,
)
    requires
        !text::has_char(task, '\0'),
        !text::has_char(other_task, '\0'),
        key_of(task, step) == key_of(other_task, other_step),
    ensures
        task == other_task && step == other_step,
{
    reveal_strlit("\0");
    let a = key_of(task, step);
    let b = key_of(other_task, other_step);
    assert(a[task.len() as int] == '\0');
    assert(b[other_task.len() as int] == '\0');
    if task.len() < other_task.len() {
        assert(b[task.len() as int] == other_task[task.len() as int]);
    }
    if other_task.len() < task.len() {
        assert(a[other_task.len() as int] == task[other_task.len() as int]);
    }
    assert(a.take(task.len() as int) =~= task);
    assert(b.take(task.len() as int) =~= other_task);
    assert(a.skip(task.len() + 1int) =~= step);
    assert(b.skip(task.len() + 1int) =~= other_step);
}

} // verus!
