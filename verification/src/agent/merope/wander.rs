//! A mind that wanders while someone is here and quiet. What was thought of is
//! not thought of again for days.
use crate::text;
use vstd::prelude::*;

verus! {

/// How long it is quiet before the mind drifts.
pub const QUIET_SECS: i64 = 180;

/// How long it is between two thoughts about one person.
pub const BETWEEN_THOUGHTS_SECS: i64 = 1_200;

/// How long a thought is not had again.
pub const NOT_AGAIN_MS: i64 = 259_200_000;

/// How many thoughts are remembered.
pub const THOUGHTS_KEPT: usize = 64;

/// Whether enough time has passed; what never was is no hindrance.
pub open spec fn long_ago(since: Option<i64>, secs: i64) -> bool {
    match since {
        Some(s) => s >= secs,
        None => true,
    }
}

fn is_long_ago(since: Option<i64>, secs: i64) -> (r: bool)
    ensures
        r == long_ago(since, secs),
{
    match since {
        Some(s) => s >= secs,
        None => true,
    }
}

/// Whether it has been quiet long enough: since the person spoke, since the
/// persona last spoke up, and since its last thought, each in seconds.
pub fn quiet_enough(
    since_message: Option<i64>,
    since_proactive: Option<i64>,
    since_thought: Option<i64>,
    cooldown_secs: i64,
) -> (r: bool)
    ensures
        r == (long_ago(since_message, QUIET_SECS) && long_ago(since_proactive, cooldown_secs)
            && long_ago(since_thought, BETWEEN_THOUGHTS_SECS)),
        r <==> (since_message matches Some(s) ==> s >= 180) && (since_proactive matches Some(s)
            ==> s >= cooldown_secs) && (since_thought matches Some(s) ==> s >= 1200),
{
    is_long_ago(since_message, QUIET_SECS) && is_long_ago(since_proactive, cooldown_secs)
        && is_long_ago(since_thought, BETWEEN_THOUGHTS_SECS)
}

/// What is seen of a person who has the site open.
pub struct Presence {
    pub user_id: i32,
    /// Whether the person is logged in and spoken to.
    pub addressee: bool,
    pub page_visible: bool,
    pub face_visible: bool,
    pub speaking: bool,
    pub do_not_disturb: bool,
    /// Whether the persona is idle toward the person.
    pub idle: bool,
}

/// Whether a thought about the person has somewhere to go.
pub fn may_drift(p: &Presence) -> (r: bool)
    ensures
        r == (p.user_id > 0 && p.addressee && p.page_visible && p.face_visible && !p.speaking
            && !p.do_not_disturb && p.idle),
{
    p.user_id > 0 && p.addressee && p.page_visible && p.face_visible && !p.speaking
        && !p.do_not_disturb && p.idle
}

/// A memory that was thought of.
pub struct Thought {
    pub at_ms: i64,
    pub memory_id: String,
}

/// What was thought of about one person.
pub struct Wandering {
    pub last: Option<i64>,
    pub thoughts: Vec<Thought>,
}

pub open spec fn is_recent(t: Thought, now_ms: i64) -> bool {
    now_ms - t.at_ms < NOT_AGAIN_MS
}

pub open spec fn recent(thoughts: Seq<Thought>, now_ms: i64) -> Seq<Thought> {
    thoughts.filter(|t: Thought| is_recent(t, now_ms))
}

pub open spec fn ids(thoughts: Seq<Thought>) -> Seq<Seq<char>> {
    Seq::new(thoughts.len(), |i: int| thoughts[i].memory_id@)
}

impl Wandering {
    pub fn new() -> (r: Self)
        ensures
            r.last is None,
            r.thoughts@.len() == 0,
    {
        Wandering { last: None, thoughts: Vec::new() }
    }

    /// Forgets what was thought of long ago. The result is when the last thought
    /// was, and which memories are not to be thought of again.
    pub fn recently_thought(&mut self, now_ms: i64) -> (r: (Option<i64>, Vec<String>))
        ensures
            final(self).last == old(self).last,
            final(self).thoughts@ == recent(old(self).thoughts@, now_ms),
            r.0 == old(self).last,
            text::views(r.1@) == ids(recent(old(self).thoughts@, now_ms)),
    {
        let ghost all = self.thoughts@;
        let ghost mut seen: int = 0;
        let mut i: usize = 0;
        proof {
            reveal(Seq::filter);
            assert(all.skip(0) =~= all);
            assert(recent(all.take(0), now_ms) + all.skip(0) =~= all);
        }
        while i < self.thoughts.len()
            invariant
                0 <= seen <= all.len(),
                self.last == old(self).last,
                i == recent(all.take(seen), now_ms).len(),
                self.thoughts@ == recent(all.take(seen), now_ms) + all.skip(seen),
            decreases all.len() - seen,
        {
            proof {
                reveal(Seq::filter);
                assert(all.take(seen + 1).drop_last() =~= all.take(seen));
                assert(all.skip(seen)[0] == all[seen]);
                assert(self.thoughts@[i as int] == all[seen]);
                assert(all.take(seen + 1).last() == all[seen]);
            }
            let ago: i128 = now_ms as i128 - self.thoughts[i].at_ms as i128;
            if ago < NOT_AGAIN_MS as i128 {
                assert(recent(all.take(seen + 1), now_ms) + all.skip(seen + 1)
                    =~= self.thoughts@);
                i = i + 1;
            } else {
                self.thoughts.remove(i);
                assert(self.thoughts@ =~= recent(all.take(seen + 1), now_ms) + all.skip(
                    seen + 1,
                ));
            }
            proof {
                seen = seen + 1;
            }
        }
        proof {
            assert(all.skip(seen).len() == 0);
            assert(all.take(seen) =~= all);
            assert(self.thoughts@ =~= recent(all, now_ms));
        }
        let mut avoid: Vec<String> = Vec::new();
        let mut k: usize = 0;
        while k < self.thoughts.len()
            invariant
                k <= self.thoughts@.len(),
                avoid@.len() == k,
                forall|m: int|
                    0 <= m < k ==> (#[trigger] avoid@[m])@ == self.thoughts@[m].memory_id@,
            decreases self.thoughts@.len() - k,
        {
            avoid.push(self.thoughts[k].memory_id.clone());
            k = k + 1;
        }
        assert(text::views(avoid@) =~= ids(self.thoughts@));
        (self.last, avoid)
    }

    /// Remembers a thought. The oldest goes when there are too many.
    pub fn note_thought(&mut self, memory_id: String, now_ms: i64)
        ensures
            final(self).last == Some(now_ms),
            ({
                let all = old(self).thoughts@.push(Thought { at_ms: now_ms, memory_id });
                final(self).thoughts@ == (if all.len() > THOUGHTS_KEPT {
                    all.skip(1)
                } else {
                    all
                })
            }),
    {
        self.last = Some(now_ms);
        self.thoughts.push(Thought { at_ms: now_ms, memory_id });
        if self.thoughts.len() > THOUGHTS_KEPT {
            let ghost all = self.thoughts@;
            self.thoughts.remove(0);
            assert(self.thoughts@ =~= all.skip(1));
        }
    }
}

pub open spec fn thought_told(content: Seq<char>, gap: Option<(Seq<char>, int)>) -> Seq<char> {
    match gap {
        Some(g) => "你忽然想起关于对方的一件事："@ + content + "。关于「"@ + g.0 + "」，你只记得"@
            + (if g.1 <= 1 {
            "这一件事"@
        } else {
            "两件事"@
        }) + "。"@,
        None => "你忽然想起关于对方的一件事："@ + content,
    }
}

pub open spec fn gap_view(gap: Option<(String, usize)>) -> Option<(Seq<char>, int)> {
    match gap {
        Some(g) => Some((g.0@, g.1 as int)),
        None => None,
    }
}

/// What a thought is. Where it lands on something of which little is known, that
/// comes with it: its name, and how many memories there are of it.
pub fn thought_summary(content: &str, gap: &Option<(String, usize)>) -> (r: String)
    ensures
        r@ == thought_told(content@, gap_view(*gap)),
{
    let mut out = "你忽然想起关于对方的一件事：".to_owned();
    out.append(content);
    if let Some(g) = gap {
        out.append("。关于「");
        out.append(g.0.as_str());
        out.append("」，你只记得");
        if g.1 <= 1 {
            out.append("这一件事");
        } else {
            out.append("两件事");
        }
        out.append("。");
    }
    out
}

/// What was just thought of is not thought of again until the time is over.
pub proof fn a_thought_is_not_had_again(thoughts: Seq<Thought>, i: int, now_ms: i64)
    requires
        0 <= i < thoughts.len(),
        now_ms - thoughts[i].at_ms < 259_200_000,
    ensures
        ids(recent(thoughts, now_ms)).contains(thoughts[i].memory_id@),
    decreases thoughts.len(),
{
    reveal(Seq::filter);
    let before = recent(thoughts.drop_last(), now_ms);
    let all = recent(thoughts, now_ms);
    if i < thoughts.len() - 1 {
        a_thought_is_not_had_again(thoughts.drop_last(), i, now_ms);
        let k = choose|k: int|
            0 <= k < ids(before).len() && ids(before)[k] == thoughts[i].memory_id@;
        assert(all[k] == before[k]);
        assert(ids(all)[k] == thoughts[i].memory_id@);
    } else {
        assert(ids(all)[before.len() as int] == thoughts[i].memory_id@);
    }
}

/// A thought that is three days old or older is no longer held back.
pub proof fn old_thoughts_may_come_again(thoughts: Seq<Thought>, now_ms: i64, i: int)
    requires
        0 <= i < recent(thoughts, now_ms).len(),
    ensures
        now_ms - recent(thoughts, now_ms)[i].at_ms < 259_200_000,
        thoughts.contains(recent(thoughts, now_ms)[i]),
    decreases thoughts.len(),
{
    reveal(Seq::filter);
    let all = recent(thoughts, now_ms);
    let before = recent(thoughts.drop_last(), now_ms);
    if i < before.len() {
        old_thoughts_may_come_again(thoughts.drop_last(), now_ms, i);
        assert(all[i] == before[i]);
        let k = choose|k: int|
            0 <= k < thoughts.drop_last().len() && thoughts.drop_last()[k] == before[i];
        assert(thoughts[k] == before[i]);
    } else {
        assert(all[i] == thoughts.last());
    }
}

/// A thought is told as it was remembered, with what little is known beside it
/// where there is a gap.
pub proof fn thoughts_are_told_as_remembered(content: Seq<char>, gap: Option<(Seq<char>, int)>)
    ensures
        text::starts(thought_told(content, gap), "你忽然想起关于对方的一件事："@ + content),
        gap is None ==> thought_told(content, gap) == "你忽然想起关于对方的一件事："@ + content,
        gap matches Some(g) ==> thought_told(content, gap) == "你忽然想起关于对方的一件事："@ + content
            + "。关于「"@ + g.0 + "」，你只记得"@ + (if g.1 >= 2 {
            "两件事"@
        } else {
            "这一件事"@
        }) + "。"@,
{
    let head = "你忽然想起关于对方的一件事："@ + content;
    assert(thought_told(content, gap).take(head.len() as int) =~= head);
}

} // verus!
