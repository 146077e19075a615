//! Memories: who may hear them, which are kept, and which come to mind.
//!
//! A memory is one thing that was said, kept with those who were there when it
//! was learned. It is told again only where everyone present was there then.
use crate::ids;
use crate::json;
use crate::json::{Json, JsonView};
use crate::sort;
use crate::text;
use vstd::prelude::*;

verus! {

/// How many memories are kept of one person. Past this the least important and
/// least recently used fade.
pub const MAX_ACTIVE_PER_USER: u64 = 1000;

/// A memory is a single fact, not a transcript.
pub const MAX_CONTENT_CHARS: usize = 400;

pub const MAX_EVIDENCE_CHARS: usize = 400;

#[derive(Clone, Copy, Debug, PartialEq, Eq, Structural)]
pub enum MemoryKind {
    /// Something true of the person.
    Fact,
    /// What the person likes, or wants done a certain way.
    Preference,
    /// What failed, and how.
    Lesson,
    /// What worked, and can be done again.
    Pattern,
}

impl MemoryKind {
    pub open spec fn name(self) -> Seq<char> {
        match self {
            MemoryKind::Fact => "fact"@,
            MemoryKind::Preference => "preference"@,
            MemoryKind::Lesson => "lesson"@,
            MemoryKind::Pattern => "pattern"@,
        }
    }

    pub fn as_str(self) -> (r: &'static str)
        ensures
            r@ == self.name(),
    {
        match self {
            MemoryKind::Fact => "fact",
            MemoryKind::Preference => "preference",
            MemoryKind::Lesson => "lesson",
            MemoryKind::Pattern => "pattern",
        }
    }
}

#[derive(Clone, Copy, Debug, PartialEq, Eq, Structural)]
pub enum Speaker {
    User,
    Agent,
}

impl Speaker {
    pub open spec fn name(self) -> Seq<char> {
        match self {
            Speaker::User => "user"@,
            Speaker::Agent => "agent"@,
        }
    }

    pub fn as_str(self) -> (r: &'static str)
        ensures
            r@ == self.name(),
    {
        match self {
            Speaker::User => "user",
            Speaker::Agent => "agent",
        }
    }
}

// ---------------------------------------------------------------------------
// Audiences
// ---------------------------------------------------------------------------
/// Who is present when something is said.
#[derive(Debug, PartialEq, Eq)]
pub struct Audience {
    pub members: Vec<i32>,
}

impl Audience {
    /// A conversation with one person.
    pub fn private(user_id: i32) -> (r: Self)
        ensures
            r.members@ == seq![user_id],
    {
        let members: Vec<i32> = vec![user_id];
        assert(members@ =~= seq![user_id]);
        Audience { members }
    }

    pub fn members(&self) -> (r: &[i32])
        ensures
            r@ == self.members@,
    {
        self.members.as_slice()
    }

    pub fn venue(&self) -> (r: &'static str)
        ensures
            r@ == "private"@,
    {
        "private"
    }
}

/// Whether everyone who is present was there. In front of nobody nothing is
/// said.
pub open spec fn admits(original: Seq<i32>, present: Seq<i32>) -> bool {
    &&& present.len() > 0
    &&& forall|i: int| 0 <= i < present.len() ==> original.contains(#[trigger] present[i])
}

fn was_there(original: &[i32], id: i32) -> (r: bool)
    ensures
        r == original@.contains(id),
{
    let mut i: usize = 0;
    while i < original.len()
        invariant
            i <= original@.len(),
            forall|k: int| 0 <= k < i ==> #[trigger] original@[k] != id,
        decreases original@.len() - i,
    {
        if original[i] == id {
            return true;
        }
        i = i + 1;
    }
    false
}

/// Whether a memory that was learned before `original` may be said in front of
/// `present`.
pub fn audience_admits(original: &[i32], present: &Audience) -> (r: bool)
    ensures
        r == admits(original@, present.members@),
{
    if present.members.len() == 0 {
        return false;
    }
    let mut i: usize = 0;
    while i < present.members.len()
        invariant
            i <= present.members@.len(),
            forall|k: int|
                0 <= k < i ==> original@.contains(#[trigger] present.members@[k]),
        decreases present.members@.len() - i,
    {
        if !was_there(original, present.members[i]) {
            assert(!original@.contains(present.members@[i as int]));
            return false;
        }
        i = i + 1;
    }
    true
}

/// The numbers of a list, cut to the width of identifiers.
pub open spec fn member_ids(list: Seq<JsonView>) -> Seq<i32>
    decreases list.len(),
{
    if list.len() == 0 {
        Seq::empty()
    } else {
        match list.last().as_int() {
            Some(n) => member_ids(list.drop_last()).push(n as i64 as i32),
            None => member_ids(list.drop_last()),
        }
    }
}

/// Who was there when a memory was learned. One without a recorded audience was
/// private to its person.
pub open spec fn original_audience(user_id: Option<i32>, audience: JsonView) -> Seq<i32> {
    let members = match audience {
        JsonView::Array(list) => member_ids(list),
        _ => Seq::empty(),
    };
    if members.len() > 0 {
        members
    } else {
        match user_id {
            Some(id) => seq![id],
            None => Seq::empty(),
        }
    }
}

pub fn audience_of(user_id: Option<i32>, audience: &Json) -> (r: Vec<i32>)
    ensures
        r@ == original_audience(user_id, audience@),
{
    broadcast use json::group_json;

    let mut members: Vec<i32> = Vec::new();
    if let Json::Array(list) = audience {
        let ghost all = json::items(list@);
        assert(audience@ == JsonView::Array(all));
        let mut i: usize = 0;
        assert(all.take(0) =~= Seq::empty());
        while i < list.len()
            invariant
                i <= list@.len(),
                all == json::items(list@),
                members@ == member_ids(all.take(i as int)),
            decreases list@.len() - i,
        {
            assert(all.take(i + 1).drop_last() =~= all.take(i as int));
            assert(all.take(i + 1).last() == list@[i as int]@);
            if let Some(n) = list[i].as_i64() {
                members.push(n as i32);
            }
            i = i + 1;
        }
        assert(all.take(all.len() as int) =~= all);
    }
    if members.len() == 0 {
        if let Some(id) = user_id {
            members.push(id);
            assert(members@ =~= seq![id]);
        }
    }
    members
}

// ---------------------------------------------------------------------------
// Keeping
// ---------------------------------------------------------------------------
/// The text of a memory as it is stored: white space collapsed, and cut.
pub open spec fn normalized(content: Seq<char>) -> Seq<char> {
    text::at_most(text::collapsed(content), MAX_CONTENT_CHARS as nat)
}

pub fn normalize_content(content: &str) -> (r: String)
    ensures
        r@ == normalized(content@),
{
    let one_line = text::collapse(content);
    text::take_chars(one_line.as_str(), MAX_CONTENT_CHARS)
}

/// What a memory says, as it is compared. A text that has been cut can end with a
/// space; once more normalised it does not, so that a text and what was stored of it
/// say the same.
pub open spec fn gist(content: Seq<char>) -> Seq<char> {
    normalized(normalized(content))
}

fn gist_of(content: &str) -> (r: String)
    ensures
        r@ == gist(content@),
{
    let stored = normalize_content(content);
    normalize_content(stored.as_str())
}

/// Whether one of the contents says the same.
pub open spec fn said_by(contents: Seq<Seq<char>>, content: Seq<char>) -> bool {
    exists|i: int| 0 <= i < contents.len() && gist(#[trigger] contents[i]) == gist(content)
}

pub fn already_said(contents: &Vec<String>, content: &str) -> (r: bool)
    ensures
        r == said_by(text::views(contents@), content@),
{
    let ghost all = text::views(contents@);
    let said = gist_of(content);
    let mut i: usize = 0;
    while i < contents.len()
        invariant
            i <= contents@.len(),
            all == text::views(contents@),
            said@ == gist(content@),
            forall|k: int| 0 <= k < i ==> gist(#[trigger] all[k]) != gist(content@),
        decreases contents@.len() - i,
    {
        let other = gist_of(contents[i].as_str());
        if text::eq(other.as_str(), said.as_str()) {
            assert(gist(all[i as int]) == gist(content@));
            return true;
        }
        i = i + 1;
    }
    false
}

/// Whether the person took this back: `retired` are the memories that they
/// corrected or deleted. What has faded does not count.
pub fn retracted_by_person(retired: &Vec<String>, content: &str) -> (r: bool)
    ensures
        r == said_by(text::views(retired@), content@),
{
    already_said(retired, content)
}

/// What is to be remembered.
pub struct NewMemory {
    pub user_id: i32,
    pub kind: MemoryKind,
    pub content: String,
    pub evidence: Option<String>,
    pub speaker: Speaker,
    /// Where it comes from: `chat`, `work`, `event`, `steering`, `import` or `bit`.
    pub source: &'static str,
    pub audience: Audience,
}

/// What is stored of a new memory, but for its times and its importance.
pub struct StoredMemory {
    pub id: String,
    pub user_id: i32,
    pub kind: &'static str,
    pub speaker: &'static str,
    pub source: &'static str,
    pub content: String,
    pub evidence: Option<String>,
    pub venue: &'static str,
    pub audience: Json,
}

pub open spec fn kept_evidence(evidence: Option<Seq<char>>) -> Option<Seq<char>> {
    match evidence {
        Some(e) => Some(text::at_most(e, MAX_EVIDENCE_CHARS as nat)),
        None => None,
    }
}

pub open spec fn members_json(members: Seq<i32>) -> JsonView {
    JsonView::Array(members.map_values(|m: i32| json::int_json(m as int)))
}

fn show_members(members: &Vec<i32>) -> (r: Json)
    ensures
        r@ == members_json(members@),
{
    let mut out: Vec<Json> = Vec::new();
    let mut i: usize = 0;
    while i < members.len()
        invariant
            i <= members@.len(),
            out@.len() == i,
            forall|k: int| 0 <= k < i ==> #[trigger] out@[k]@ == json::int_json(members@[k] as int),
        decreases members@.len() - i,
    {
        out.push(json::number(members[i] as i64));
        i = i + 1;
    }
    assert(json::items(out@) =~= members_json(members@)->Array_0);
    json::array(out)
}

/// Whether `stored` is what to store of a new memory, under an identifier made of
/// `fresh`: nothing for nobody, nothing empty, and nothing that one of the
/// person's active memories says already.
pub open spec fn stored_as(
    memory: NewMemory,
    active: Seq<Seq<char>>,
    fresh: Seq<char>,
    stored: Option<StoredMemory>,
) -> bool {
    let content = normalized(memory.content@);
    if memory.user_id <= 0 || content.len() == 0 || said_by(active, memory.content@) {
        stored is None
    } else {
        &&& stored matches Some(row)
        &&& row.id@ == "mem_"@ + fresh
        &&& row.user_id == memory.user_id
        &&& row.kind@ == memory.kind.name()
        &&& row.speaker@ == memory.speaker.name()
        &&& row.source == memory.source
        &&& row.content@ == content
        &&& text::opt_view(row.evidence) == kept_evidence(text::opt_view(memory.evidence))
        &&& row.venue@ == "private"@
        &&& row.audience@ == members_json(memory.audience.members@)
    }
}

/// What to store of a new memory, under an identifier made of `fresh`.
pub fn remember_as(memory: &NewMemory, active: &Vec<String>, fresh: &str) -> (r: Option<
    StoredMemory,
>)
    ensures
        stored_as(*memory, text::views(active@), fresh@, r),
{
    let content = normalize_content(memory.content.as_str());
    if memory.user_id <= 0 || content.as_str().is_empty() {
        return None;
    }
    if already_said(active, memory.content.as_str()) {
        return None;
    }
    let evidence = match &memory.evidence {
        Some(e) => Some(text::take_chars(e.as_str(), MAX_EVIDENCE_CHARS)),
        None => None,
    };
    let mut id = "mem_".to_owned();
    id.append(fresh);
    Some(
        StoredMemory {
            id,
            user_id: memory.user_id,
            kind: memory.kind.as_str(),
            speaker: memory.speaker.as_str(),
            source: memory.source,
            content,
            evidence,
            venue: memory.audience.venue(),
            audience: show_members(&memory.audience.members),
        },
    )
}

/// What to store of a new memory, under an identifier of its own.
pub fn remember(memory: &NewMemory, active: &Vec<String>) -> (r: Option<StoredMemory>)
    ensures
        exists|fresh: Seq<char>|
            fresh.len() == 32 && ids::all_hex(fresh) && #[trigger] stored_as(
                *memory,
                text::views(active@),
                fresh,
                r,
            ),
{
    let fresh = ids::random_simple();
    let r = remember_as(memory, active, fresh.as_str());
    assert(stored_as(*memory, text::views(active@), fresh@, r));
    r
}

/// The reason for which memories are retired, as it is stored.
pub fn retire_reason(reason: &str) -> (r: String)
    ensures
        r@ == text::at_most(reason@, 16),
{
    text::take_chars(reason, 16)
}

// ---------------------------------------------------------------------------
// Fading
// ---------------------------------------------------------------------------
/// What decides when a memory fades. `importance` orders memories as their
/// importance does; `last_used` is when it was last recalled, or else learned.
#[derive(Clone, Copy)]
pub struct FadeKey {
    pub importance: u64,
    pub last_used: i64,
}

pub open spec fn fade_keys(rows: Seq<FadeKey>) -> Seq<(u64, i64)> {
    Seq::new(rows.len(), |i: int| (rows[i].importance, rows[i].last_used))
}

/// The positions of the memories to let fade: as many as there are too many,
/// beginning with the least important, and among equals with the least recently
/// used.
pub fn fade_excess(rows: &Vec<FadeKey>) -> (r: Vec<usize>)
    ensures
        rows@.len() <= MAX_ACTIVE_PER_USER ==> r@.len() == 0,
        rows@.len() > MAX_ACTIVE_PER_USER ==> exists|order: Seq<usize>|
            sort::in_order(fade_keys(rows@), order) && r@ == #[trigger] order.take(
                rows@.len() - MAX_ACTIVE_PER_USER,
            ),
{
    let mut out: Vec<usize> = Vec::new();
    if rows.len() <= MAX_ACTIVE_PER_USER as usize {
        return out;
    }
    let mut keys: Vec<(u64, i64)> = Vec::new();
    let mut i: usize = 0;
    while i < rows.len()
        invariant
            i <= rows@.len(),
            keys@ == fade_keys(rows@).take(i as int),
        decreases rows@.len() - i,
    {
        keys.push((rows[i].importance, rows[i].last_used));
        assert(fade_keys(rows@).take(i + 1) =~= fade_keys(rows@).take(i as int).push(
            fade_keys(rows@)[i as int],
        ));
        i = i + 1;
    }
    assert(fade_keys(rows@).take(rows@.len() as int) =~= fade_keys(rows@));
    let order = sort::order_of(&keys);
    let excess = rows.len() - MAX_ACTIVE_PER_USER as usize;
    let mut k: usize = 0;
    while k < excess
        invariant
            k <= excess <= order@.len(),
            out@ == order@.take(k as int),
        decreases excess - k,
    {
        out.push(order[k]);
        assert(order@.take(k + 1) =~= order@.take(k as int).push(order@[k as int]));
        k = k + 1;
    }
    out
}

// ---------------------------------------------------------------------------
// Recalling
// ---------------------------------------------------------------------------
/// The tokens so far, and the word that is still open.
#[verifier::ext_equal]
pub struct Tokens {
    pub done: Seq<Seq<char>>,
    pub word: Seq<char>,
}

pub open spec fn closed_word(t: Tokens) -> Seq<Seq<char>> {
    if t.word.len() > 0 {
        t.done.push(t.word)
    } else {
        t.done
    }
}

pub open spec fn token_char(t: Tokens, c: char) -> Tokens {
    if text::cjk(c) {
        Tokens { done: closed_word(t).push(seq![c]), word: Seq::empty() }
    } else if text::alphanumeric(c) {
        Tokens { done: t.done, word: t.word + text::lower_char(c) }
    } else {
        Tokens { done: closed_word(t), word: Seq::empty() }
    }
}

pub open spec fn tokenizing(s: Seq<char>) -> Tokens
    decreases s.len(),
{
    if s.len() == 0 {
        Tokens { done: Seq::empty(), word: Seq::empty() }
    } else {
        token_char(tokenizing(s.drop_last()), s.last())
    }
}

/// The words of a text in lower case; of a script without spaces, each character.
pub open spec fn tokens_of(s: Seq<char>) -> Seq<Seq<char>> {
    closed_word(tokenizing(s))
}

fn close_word(done: &mut Vec<String>, word: String)
    ensures
        text::views(final(done)@) == closed_word(
            Tokens { done: text::views(old(done)@), word: word@ },
        ),
{
    if !word.as_str().is_empty() {
        proof {
            text::views_push(done@, word);
        }
        done.push(word);
    }
}

pub fn tokens(s: &str) -> (r: Vec<String>)
    ensures
        text::views(r@) == tokens_of(s@),
{
    let v = text::chars_of(s);
    let mut done: Vec<String> = Vec::new();
    let mut word = String::new();
    let mut i: usize = 0;
    assert(v@.take(0) =~= Seq::empty());
    assert(text::views(done@) =~= Seq::empty());
    assert(word@ =~= Seq::empty());
    while i < v.len()
        invariant
            i <= v@.len(),
            text::views(done@) == tokenizing(v@.take(i as int)).done,
            word@ == tokenizing(v@.take(i as int)).word,
        decreases v@.len() - i,
    {
        assert(v@.take(i + 1).drop_last() =~= v@.take(i as int));
        let c = v[i];
        if text::is_cjk(c) {
            close_word(&mut done, word);
            word = String::new();
            let mut one = String::new();
            one.push(c);
            assert(one@ =~= seq![c]);
            proof {
                text::views_push(done@, one);
            }
            done.push(one);
        } else if text::is_alphanumeric(c) {
            let lower = text::lowercase_char(c);
            word.append(lower.as_str());
        } else {
            close_word(&mut done, word);
            word = String::new();
        }
        i = i + 1;
    }
    assert(v@.take(v@.len() as int) =~= v@);
    close_word(&mut done, word);
    done
}

/// How many different tokens of the query the row has.
pub open spec fn overlap(query: Seq<Seq<char>>, row: Seq<Seq<char>>) -> nat
    decreases query.len(),
{
    if query.len() == 0 {
        0
    } else {
        let before = query.drop_last();
        overlap(before, row) + if row.contains(query.last()) && !before.contains(query.last()) {
            1nat
        } else {
            0nat
        }
    }
}

fn count_overlap(query: &Vec<String>, row: &Vec<String>) -> (r: usize)
    ensures
        r == overlap(text::views(query@), text::views(row@)),
        r <= query@.len(),
{
    let ghost all = text::views(query@);
    let mut count: usize = 0;
    let mut i: usize = 0;
    assert(all.take(0) =~= Seq::empty());
    while i < query.len()
        invariant
            i <= query@.len(),
            all == text::views(query@),
            count <= i,
            count == overlap(all.take(i as int), text::views(row@)),
        decreases query@.len() - i,
    {
        assert(all.take(i + 1).drop_last() =~= all.take(i as int));
        assert(all.take(i + 1).last() == query@[i as int]@);
        let mut repeated = false;
        let mut k: usize = 0;
        while k < i
            invariant
                k <= i < query@.len(),
                all == text::views(query@),
                repeated == exists|m: int| 0 <= m < k && #[trigger] all[m] == all[i as int],
            decreases i - k,
        {
            if text::eq(query[k].as_str(), query[i].as_str()) {
                repeated = true;
                assert(all[k as int] == all[i as int]);
            }
            k = k + 1;
        }
        proof {
            if repeated {
                let m = choose|m: int| 0 <= m < i && #[trigger] all[m] == all[i as int];
                assert(all.take(i as int)[m] == all[i as int]);
            } else if all.take(i as int).contains(all[i as int]) {
                let m = choose|m: int|
                    0 <= m < all.take(i as int).len() && all.take(i as int)[m] == all[i as int];
                assert(all[m] == all[i as int]);
            }
        }
        if !repeated && text::list_contains(row, query[i].as_str()) {
            count = count + 1;
        }
        i = i + 1;
    }
    assert(all.take(all.len() as int) =~= all);
    count
}

/// Whether the content at `i` says something that none before it says.
pub open spec fn is_first_said(contents: Seq<Seq<char>>, i: int) -> bool {
    &&& normalized(contents[i]).len() > 0
    &&& forall|j: int| 0 <= j < i ==> normalized(#[trigger] contents[j]) != normalized(contents[i])
}

pub open spec fn score_of(query: Seq<char>, content: Seq<char>) -> nat {
    overlap(tokens_of(query), tokens_of(content))
}

/// Whether anything that is said shares a word with the query.
pub open spec fn any_match(query: Seq<char>, contents: Seq<Seq<char>>) -> bool {
    exists|i: int|
        0 <= i < contents.len() && is_first_said(contents, i) && score_of(
            query,
            #[trigger] contents[i],
        ) > 0
}

/// Whether a content is a candidate: it says something new, and shares a word
/// with the query if any does.
pub open spec fn is_candidate(query: Seq<char>, contents: Seq<Seq<char>>, i: int) -> bool {
    &&& is_first_said(contents, i)
    &&& any_match(query, contents) ==> score_of(query, contents[i]) > 0
}

/// The positions of the candidates, in order.
pub open spec fn candidates(query: Seq<char>, contents: Seq<Seq<char>>, n: int) -> Seq<int>
    decreases n,
{
    if n <= 0 {
        Seq::empty()
    } else if is_candidate(query, contents, n - 1) {
        candidates(query, contents, n - 1).push(n - 1)
    } else {
        candidates(query, contents, n - 1)
    }
}

/// The keys by which candidates are ranked: the more words they share with the
/// query the earlier.
pub open spec fn rank_keys(query: Seq<char>, contents: Seq<Seq<char>>, found: Seq<int>) -> Seq<
    (u64, i64),
> {
    Seq::new(
        found.len(),
        |i: int| ((u64::MAX - score_of(query, contents[found[i]])) as u64, 0i64),
    )
}

/// Whether the positions are the best candidates in the order of their rank, and
/// otherwise in their own order.
pub open spec fn is_ranking(
    query: Seq<char>,
    contents: Seq<Seq<char>>,
    limit: int,
    r: Seq<usize>,
) -> bool {
    let found = candidates(query, contents, contents.len() as int);
    exists|order: Seq<usize>|
        #![trigger sort::in_order(rank_keys(query, contents, found), order)]
        sort::in_order(rank_keys(query, contents, found), order) && r.len() == (
        if limit < found.len() {
            limit
        } else {
            found.len() as int
        }) && (forall|i: int| 0 <= i < r.len() ==> (#[trigger] r[i]) == found[order[i] as int])
}

fn scores(query: &str, contents: &Vec<String>) -> (r: Vec<usize>)
    ensures
        r@.len() == contents@.len(),
        forall|i: int| 0 <= i < r@.len() ==> (#[trigger] r@[i]) == score_of(query@, contents@[i]@),
{
    let asked = tokens(query);
    let mut out: Vec<usize> = Vec::new();
    let mut i: usize = 0;
    while i < contents.len()
        invariant
            i <= contents@.len(),
            text::views(asked@) == tokens_of(query@),
            out@.len() == i,
            forall|k: int|
                0 <= k < i ==> (#[trigger] out@[k]) == score_of(query@, contents@[k]@),
        decreases contents@.len() - i,
    {
        let row = tokens(contents[i].as_str());
        out.push(count_overlap(&asked, &row));
        i = i + 1;
    }
    out
}

fn first_said(contents: &Vec<String>) -> (r: Vec<bool>)
    ensures
        r@.len() == contents@.len(),
        forall|i: int|
            0 <= i < r@.len() ==> (#[trigger] r@[i]) == is_first_said(text::views(contents@), i),
{
    let ghost all = text::views(contents@);
    let mut texts: Vec<String> = Vec::new();
    let mut out: Vec<bool> = Vec::new();
    let mut i: usize = 0;
    while i < contents.len()
        invariant
            i <= contents@.len(),
            all == text::views(contents@),
            texts@.len() == i,
            out@.len() == i,
            forall|k: int| 0 <= k < i ==> (#[trigger] texts@[k])@ == normalized(all[k]),
            forall|k: int| 0 <= k < i ==> (#[trigger] out@[k]) == is_first_said(all, k),
        decreases contents@.len() - i,
    {
        let own = normalize_content(contents[i].as_str());
        assert(own@ == normalized(all[i as int]));
        let mut fresh = !own.as_str().is_empty();
        let mut k: usize = 0;
        while k < i
            invariant
                k <= i < contents@.len(),
                all == text::views(contents@),
                texts@.len() == i,
                own@ == normalized(all[i as int]),
                forall|m: int| 0 <= m < i ==> (#[trigger] texts@[m])@ == normalized(all[m]),
                fresh == (normalized(all[i as int]).len() > 0 && forall|m: int|
                    0 <= m < k ==> normalized(#[trigger] all[m]) != normalized(all[i as int])),
            decreases i - k,
        {
            assert(texts@[k as int]@ == normalized(all[k as int]));
            if text::eq(texts[k].as_str(), own.as_str()) {
                fresh = false;
            }
            k = k + 1;
        }
        out.push(fresh);
        texts.push(own);
        i = i + 1;
    }
    out
}

/// The positions of the memories that come to mind, best first. Empty and
/// repeated ones do not count; with a query, those that share words with it come
/// first, and only they where there are any.
pub fn rank(contents: &Vec<String>, query: &str, limit: usize) -> (r: Vec<usize>)
    ensures
        is_ranking(query@, text::views(contents@), limit as int, r@),
{
    let ghost all = text::views(contents@);
    let ghost q = query@;
    let score = scores(query, contents);
    let fresh = first_said(contents);
    let mut any = false;
    let mut i: usize = 0;
    while i < contents.len()
        invariant
            i <= contents@.len(),
            all == text::views(contents@),
            q == query@,
            score@.len() == contents@.len(),
            fresh@.len() == contents@.len(),
            forall|k: int|
                0 <= k < score@.len() ==> (#[trigger] score@[k]) == score_of(q, contents@[k]@),
            forall|k: int|
                0 <= k < fresh@.len() ==> (#[trigger] fresh@[k]) == is_first_said(all, k),
            any == exists|k: int|
                0 <= k < i && is_first_said(all, k) && score_of(q, #[trigger] all[k]) > 0,
        decreases contents@.len() - i,
    {
        assert(all[i as int] == contents@[i as int]@);
        assert(fresh@[i as int] == is_first_said(all, i as int));
        assert(score@[i as int] == score_of(q, all[i as int]));
        if fresh[i] && score[i] > 0 {
            any = true;
        }
        i = i + 1;
    }
    assert(any == any_match(q, all));
    let mut found: Vec<usize> = Vec::new();
    let mut keys: Vec<(u64, i64)> = Vec::new();
    let ghost mut at: Seq<int> = Seq::empty();
    let mut k: usize = 0;
    while k < contents.len()
        invariant
            k <= contents@.len(),
            all == text::views(contents@),
            q == query@,
            any == any_match(q, all),
            score@.len() == contents@.len(),
            fresh@.len() == contents@.len(),
            forall|m: int|
                0 <= m < score@.len() ==> (#[trigger] score@[m]) == score_of(q, contents@[m]@),
            forall|m: int|
                0 <= m < fresh@.len() ==> (#[trigger] fresh@[m]) == is_first_said(all, m),
            at == candidates(q, all, k as int),
            found@.len() == at.len(),
            forall|m: int| 0 <= m < at.len() ==> (#[trigger] found@[m]) == at[m],
            forall|m: int| 0 <= m < at.len() ==> 0 <= (#[trigger] at[m]) < k,
            keys@ =~= rank_keys(q, all, at),
        decreases contents@.len() - k,
    {
        assert(all[k as int] == contents@[k as int]@);
        assert(fresh@[k as int] == is_first_said(all, k as int));
        assert(score@[k as int] == score_of(q, all[k as int]));
        if fresh[k] && (!any || score[k] > 0) {
            let ghost before = at;
            found.push(k);
            keys.push((u64::MAX - score[k] as u64, 0));
            proof {
                at = at.push(k as int);
                assert forall|m: int| 0 <= m < at.len() implies keys@[m] == rank_keys(
                    q,
                    all,
                    at,
                )[m] by {
                    if m < before.len() {
                        assert(rank_keys(q, all, before)[m] == rank_keys(q, all, at)[m]);
                    }
                }
            }
        }
        k = k + 1;
    }
    let order = sort::order_of(&keys);
    let mut out: Vec<usize> = Vec::new();
    let mut n: usize = 0;
    while n < order.len() && n < limit
        invariant
            n <= order@.len(),
            n <= limit,
            order@.len() == at.len(),
            found@.len() == at.len(),
            forall|m: int| 0 <= m < order@.len() ==> (#[trigger] order@[m]) < at.len(),
            forall|m: int| 0 <= m < at.len() ==> (#[trigger] found@[m]) == at[m],
            out@.len() == n,
            forall|m: int| 0 <= m < n ==> (#[trigger] out@[m]) == at[order@[m] as int],
        decreases order@.len() - n,
    {
        assert(order@[n as int] < at.len());
        assert(found@[order@[n as int] as int] == at[order@[n as int] as int]);
        out.push(found[order[n]]);
        n = n + 1;
    }
    proof {
        let all_found = candidates(q, all, all.len() as int);
        assert(at == all_found);
        assert(sort::in_order(rank_keys(q, all, all_found), order@));
    }
    out
}

/// A memory with who was there when it was learned.
pub struct MemoryRow {
    pub content: String,
    pub original: Vec<i32>,
}

/// The positions of the memories that may be heard.
pub open spec fn audible(rows: Seq<MemoryRow>, present: Seq<i32>, n: int) -> Seq<int>
    decreases n,
{
    if n <= 0 {
        Seq::empty()
    } else if admits(rows[n - 1].original@, present) {
        audible(rows, present, n - 1).push(n - 1)
    } else {
        audible(rows, present, n - 1)
    }
}

pub open spec fn contents_at(rows: Seq<MemoryRow>, at: Seq<int>) -> Seq<Seq<char>> {
    Seq::new(at.len(), |i: int| rows[at[i]].content@)
}

/// The positions of the memories that are told, best first: only such as may be
/// heard by everyone present.
pub fn recall(
    user_id: i32,
    rows: &Vec<MemoryRow>,
    present: &Audience,
    query: &str,
    limit: usize,
) -> (r: Vec<usize>)
    ensures
        if user_id <= 0 || limit == 0 {
            r@.len() == 0
        } else {
            let heard = audible(rows@, present.members@, rows@.len() as int);
            exists|best: Seq<usize>|
                #![trigger is_ranking(query@, contents_at(rows@, heard), limit as int, best)]
                is_ranking(query@, contents_at(rows@, heard), limit as int, best) && r@.len()
                    == best.len() && (forall|i: int|
                    0 <= i < r@.len() ==> (#[trigger] r@[i]) == heard[best[i] as int])
        },
        forall|i: int|
            0 <= i < r@.len() ==> (#[trigger] r@[i]) < rows@.len() && admits(
                rows@[r@[i] as int].original@,
                present.members@,
            ),
{
    let mut out: Vec<usize> = Vec::new();
    if user_id <= 0 || limit == 0 {
        return out;
    }
    let ghost who = present.members@;
    let mut heard: Vec<usize> = Vec::new();
    let mut contents: Vec<String> = Vec::new();
    let ghost mut at: Seq<int> = Seq::empty();
    let mut i: usize = 0;
    while i < rows.len()
        invariant
            i <= rows@.len(),
            who == present.members@,
            at == audible(rows@, who, i as int),
            heard@.len() == at.len(),
            contents@.len() == at.len(),
            forall|k: int| 0 <= k < at.len() ==> (#[trigger] heard@[k]) == at[k],
            forall|k: int|
                0 <= k < at.len() ==> 0 <= (#[trigger] at[k]) < i && admits(
                    rows@[at[k]].original@,
                    who,
                ),
            forall|k: int|
                0 <= k < at.len() ==> (#[trigger] contents@[k])@ == rows@[at[k]].content@,
        decreases rows@.len() - i,
    {
        if audience_admits(rows[i].original.as_slice(), present) {
            heard.push(i);
            contents.push(rows[i].content.clone());
            proof {
                at = at.push(i as int);
            }
        }
        i = i + 1;
    }
    assert(text::views(contents@) =~= contents_at(rows@, at));
    let best = rank(&contents, query, limit);
    proof {
        ranked_are_candidates(query@, text::views(contents@), limit as int, best@);
    }
    let mut n: usize = 0;
    while n < best.len()
        invariant
            n <= best@.len(),
            who == present.members@,
            heard@.len() == at.len(),
            forall|k: int| 0 <= k < at.len() ==> (#[trigger] heard@[k]) == at[k],
            forall|k: int|
                0 <= k < at.len() ==> 0 <= (#[trigger] at[k]) < rows@.len() && admits(
                    rows@[at[k]].original@,
                    who,
                ),
            forall|k: int| 0 <= k < best@.len() ==> (#[trigger] best@[k]) < at.len(),
            out@.len() == n,
            forall|k: int| 0 <= k < n ==> (#[trigger] out@[k]) == at[best@[k] as int],
        decreases best@.len() - n,
    {
        assert(best@[n as int] < at.len());
        assert(heard@[best@[n as int] as int] == at[best@[n as int] as int]);
        out.push(heard[best[n]]);
        n = n + 1;
    }
    proof {
        assert(is_ranking(query@, contents_at(rows@, at), limit as int, best@));
        assert forall|k: int| 0 <= k < out@.len() implies (#[trigger] out@[k]) < rows@.len()
            && admits(rows@[out@[k] as int].original@, who) by {
            let m = best@[k] as int;
            assert(0 <= at[m] < rows@.len());
        }
    }
    out
}

proof fn candidates_are_inside(query: Seq<char>, contents: Seq<Seq<char>>, n: int)
    requires
        0 <= n <= contents.len(),
    ensures
        forall|i: int|
            0 <= i < candidates(query, contents, n).len() ==> 0 <= #[trigger] candidates(
                query,
                contents,
                n,
            )[i] < n && is_candidate(query, contents, candidates(query, contents, n)[i]),
    decreases n,
{
    if n > 0 {
        candidates_are_inside(query, contents, n - 1);
        let before = candidates(query, contents, n - 1);
        let all = candidates(query, contents, n);
        assert forall|i: int| 0 <= i < all.len() implies 0 <= #[trigger] all[i] < n
            && is_candidate(query, contents, all[i]) by {
            if i < before.len() {
                assert(all[i] == before[i]);
            }
        }
    }
}

/// What comes to mind says something, says nothing that an earlier memory says,
/// and shares a word with the query where any memory does.
pub proof fn ranked_are_candidates(
    query: Seq<char>,
    contents: Seq<Seq<char>>,
    limit: int,
    r: Seq<usize>,
)
    requires
        is_ranking(query, contents, limit, r),
    ensures
        forall|i: int|
            0 <= i < r.len() ==> (#[trigger] r[i]) < contents.len() && is_candidate(
                query,
                contents,
                r[i] as int,
            ),
{
    let found = candidates(query, contents, contents.len() as int);
    candidates_are_inside(query, contents, contents.len() as int);
    let order = choose|order: Seq<usize>|
        #![trigger sort::in_order(rank_keys(query, contents, found), order)]
        sort::in_order(rank_keys(query, contents, found), order) && r.len() == (
        if limit < found.len() {
            limit
        } else {
            found.len() as int
        }) && (forall|i: int| 0 <= i < r.len() ==> (#[trigger] r[i]) == found[order[i] as int]);
    assert forall|i: int| 0 <= i < r.len() implies (#[trigger] r[i]) < contents.len()
        && is_candidate(query, contents, r[i] as int) by {
        assert(order[i] < found.len());
        assert(0 <= found[order[i] as int] < contents.len());
    }
}

/// A private memory stays with its person: in front of anyone else it is not
/// told.
pub proof fn private_memories_stay_private(person: i32, present: Seq<i32>, other: i32)
    requires
        present.contains(other),
        other != person,
    ensures
        !admits(seq![person], present),
{
    let i = choose|i: int| 0 <= i < present.len() && present[i] == other;
    if admits(seq![person], present) {
        assert(seq![person].contains(present[i]));
    }
}

/// Cutting and collapsing a third time changes nothing.
proof fn gist_is_settled(content: Seq<char>)
    ensures
        normalized(gist(content)) == gist(content),
{
    let tidy = text::collapsed(content);
    text::collapsed_text_is_spaced(content);
    let stored = normalized(content);
    assert forall|i: int| 0 <= i < stored.len() implies stored[i] == #[trigger] tidy[i] by {}
    assert forall|i: int| 0 <= i < stored.len() - 1 && text::white(#[trigger] stored[i]) implies
        !text::white(stored[i + 1]) by {
        assert(text::white(tidy[i]));
    }
    assert(text::spaced(stored));
    text::spaced_text_collapses_to_itself(stored);
    let said = text::collapsed(stored);
    text::collapsed_text_is_spaced(stored);
    assert(said.len() <= MAX_CONTENT_CHARS);
    assert(gist(content) == said);
    text::spaced_text_collapses_to_itself(said);
}

/// What is stored of a text says what the text says.
pub proof fn stored_text_says_the_same(content: Seq<char>)
    ensures
        gist(normalized(content)) == gist(content),
{
    gist_is_settled(content);
}

/// What was stored is found again: while the person's memory is active, the same
/// words are not stored a second time, whatever the white space between them and
/// whatever else is said of them. And once the person has taken it back, the words
/// are known as taken back.
pub proof fn what_was_stored_is_found_again(
    first: NewMemory,
    before: Seq<Seq<char>>,
    fresh: Seq<char>,
    row: StoredMemory,
    again: NewMemory,
    active: Seq<Seq<char>>,
    other: Seq<char>,
    stored: Option<StoredMemory>,
)
    requires
        stored_as(first, before, fresh, Some(row)),
        text::words_of(again.content@) == text::words_of(first.content@),
        active.contains(row.content@),
        stored_as(again, active, other, stored),
    ensures
        stored is None,
        said_by(active, again.content@),
{
    stored_text_says_the_same(first.content@);
    assert(normalized(again.content@) == normalized(first.content@));
    let i = choose|i: int| 0 <= i < active.len() && active[i] == row.content@;
    assert(gist(active[i]) == gist(again.content@));
}

// ---------------------------------------------------------------------------
// Laws of recalling
// ---------------------------------------------------------------------------
/// The different words and characters that a memory has in common with a query.
pub open spec fn shared(query: Seq<char>, content: Seq<char>) -> Set<Seq<char>> {
    tokens_of(query).to_set().intersect(tokens_of(content).to_set())
}

proof fn overlap_counts_shared(query: Seq<Seq<char>>, row: Seq<Seq<char>>)
    ensures
        overlap(query, row) == query.to_set().intersect(row.to_set()).len(),
        overlap(query, row) <= query.len(),
        query.to_set().intersect(row.to_set()).finite(),
    decreases query.len(),
{
    broadcast use vstd::seq_lib::seq_to_set_is_finite;

    let both = query.to_set().intersect(row.to_set());
    if query.len() == 0 {
        assert(both =~= Set::empty());
    } else {
        let before = query.drop_last();
        let x = query.last();
        overlap_counts_shared(before, row);
        let had = before.to_set().intersect(row.to_set());
        assert forall|t: Seq<char>| query.to_set().contains(t) implies before.to_set().contains(t)
            || t == x by {
            let i = choose|i: int| 0 <= i < query.len() && query[i] == t;
            if i < before.len() {
                assert(before[i] == t);
            }
        }
        assert forall|t: Seq<char>| before.to_set().contains(t) implies query.to_set().contains(
            t,
        ) by {
            let i = choose|i: int| 0 <= i < before.len() && before[i] == t;
            assert(query[i] == t);
        }
        assert(query[query.len() - 1] == x);
        if row.contains(x) && !before.contains(x) {
            assert(both =~= had.insert(x));
            assert(!had.contains(x));
        } else {
            assert(both =~= had);
        }
    }
}

proof fn tokens_are_no_more_than_characters(s: Seq<char>)
    ensures
        closed_word(tokenizing(s)).len() <= s.len(),
    decreases s.len(),
{
    if s.len() > 0 {
        tokens_are_no_more_than_characters(s.drop_last());
    }
}

proof fn score_counts_shared(query: Seq<char>, content: Seq<char>)
    ensures
        score_of(query, content) == shared(query, content).len(),
        score_of(query, content) <= query.len(),
{
    overlap_counts_shared(tokens_of(query), tokens_of(content));
    tokens_are_no_more_than_characters(query);
}

proof fn candidates_are_all_there(query: Seq<char>, contents: Seq<Seq<char>>, n: int, a: int)
    requires
        0 <= a < n <= contents.len(),
        is_candidate(query, contents, a),
    ensures
        exists|p: int|
            0 <= p < candidates(query, contents, n).len() && #[trigger] candidates(
                query,
                contents,
                n,
            )[p] == a,
    decreases n,
{
    let all = candidates(query, contents, n);
    if a == n - 1 {
        assert(all[all.len() - 1] == a);
    } else {
        candidates_are_all_there(query, contents, n - 1, a);
        let before = candidates(query, contents, n - 1);
        let p = choose|p: int| 0 <= p < before.len() && #[trigger] before[p] == a;
        assert(all[p] == a);
    }
}

proof fn candidates_ascend(query: Seq<char>, contents: Seq<Seq<char>>, n: int, p: int, q: int)
    requires
        0 <= n <= contents.len(),
        0 <= p < q < candidates(query, contents, n).len(),
    ensures
        candidates(query, contents, n)[p] < candidates(query, contents, n)[q],
    decreases n,
{
    if n > 0 {
        let before = candidates(query, contents, n - 1);
        candidates_are_inside(query, contents, n - 1);
        if q < before.len() {
            candidates_ascend(query, contents, n - 1, p, q);
        } else {
            assert(candidates(query, contents, n)[p] == before[p]);
        }
    }
}

/// The order behind a ranking.
spec fn order_behind(query: Seq<char>, contents: Seq<Seq<char>>, limit: int, r: Seq<usize>) -> Seq<
    usize,
> {
    let found = candidates(query, contents, contents.len() as int);
    choose|order: Seq<usize>|
        #![trigger sort::in_order(rank_keys(query, contents, found), order)]
        sort::in_order(rank_keys(query, contents, found), order) && r.len() == (
        if limit < found.len() {
            limit
        } else {
            found.len() as int
        }) && (forall|i: int| 0 <= i < r.len() ==> (#[trigger] r[i]) == found[order[i] as int])
}

/// Where a candidate would stand if nothing were cut off.
proof fn place_of(
    query: Seq<char>,
    contents: Seq<Seq<char>>,
    limit: int,
    r: Seq<usize>,
    a: int,
) -> (i: int)
    requires
        is_ranking(query, contents, limit, r),
        0 <= a < contents.len(),
        is_candidate(query, contents, a),
    ensures
        ({
            let found = candidates(query, contents, contents.len() as int);
            let order = order_behind(query, contents, limit, r);
            0 <= i < order.len() && order[i] < found.len() && found[order[i] as int] == a
        }),
{
    let found = candidates(query, contents, contents.len() as int);
    let keys = rank_keys(query, contents, found);
    let order = order_behind(query, contents, limit, r);
    candidates_are_all_there(query, contents, contents.len() as int, a);
    let p = choose|p: int| 0 <= p < found.len() && #[trigger] found[p] == a;
    sort::every_position_is_listed(keys, order, p);
    choose|i: int| 0 <= i < order.len() && #[trigger] order[i] == p
}

proof fn places_follow_shares(
    query: Seq<char>,
    contents: Seq<Seq<char>>,
    limit: int,
    r: Seq<usize>,
    a: int,
    j: int,
) -> (i: int)
    requires
        query.len() <= usize::MAX,
        is_ranking(query, contents, limit, r),
        0 <= a < contents.len(),
        is_candidate(query, contents, a),
        0 <= j < r.len(),
        score_of(query, contents[a]) > score_of(query, contents[r[j] as int]) || (score_of(
            query,
            contents[a],
        ) == score_of(query, contents[r[j] as int]) && a < r[j]),
    ensures
        0 <= i < j,
        r[i] == a,
{
    let found = candidates(query, contents, contents.len() as int);
    let keys = rank_keys(query, contents, found);
    let order = order_behind(query, contents, limit, r);
    let i = place_of(query, contents, limit, r, a);
    ranked_are_candidates(query, contents, limit, r);
    score_counts_shared(query, contents[a]);
    score_counts_shared(query, contents[r[j] as int]);
    assert(order[j] < found.len());
    assert(r[j] == found[order[j] as int]);
    if a < r[j] {
        if order[j] < order[i] {
            candidates_ascend(
                query,
                contents,
                contents.len() as int,
                order[j] as int,
                order[i] as int,
            );
        }
        assert(order[i] != order[j]);
    }
    sort::smaller_keys_come_first(keys, order, i, j);
    i
}

/// Of two memories, the one that has more different words in common with the query
/// stands first, and is not left out while the other is told. Among those with
/// equally many, the one that is listed first does.
pub proof fn better_matches_come_first(
    query: Seq<char>,
    contents: Seq<Seq<char>>,
    limit: int,
    r: Seq<usize>,
    a: int,
    j: int,
)
    requires
        query.len() <= usize::MAX,
        is_ranking(query, contents, limit, r),
        0 <= a < contents.len(),
        normalized(contents[a]).len() > 0,
        forall|k: int| 0 <= k < a ==> normalized(#[trigger] contents[k]) != normalized(contents[a]),
        0 <= j < r.len(),
        shared(query, contents[a]).len() > shared(query, contents[r[j] as int]).len() || (shared(
            query,
            contents[a],
        ).len() == shared(query, contents[r[j] as int]).len() && a < r[j]),
    ensures
        exists|i: int| 0 <= i < j && #[trigger] r[i] == a,
{
    ranked_are_candidates(query, contents, limit, r);
    score_counts_shared(query, contents[a]);
    score_counts_shared(query, contents[r[j] as int]);
    assert(is_candidate(query, contents, r[j] as int));
    let i = places_follow_shares(query, contents, limit, r, a, j);
    assert(r[i] == a);
}

/// A memory with words in common with the query is left out only where as many
/// memories are told as were asked for. Without any such memory, that holds of every
/// memory that says something new. Nothing is told twice, and never more than was
/// asked for.
pub proof fn what_fits_is_told(
    query: Seq<char>,
    contents: Seq<Seq<char>>,
    limit: int,
    r: Seq<usize>,
    a: int,
)
    requires
        is_ranking(query, contents, limit, r),
        0 <= limit,
        0 <= a < contents.len(),
        normalized(contents[a]).len() > 0,
        forall|k: int| 0 <= k < a ==> normalized(#[trigger] contents[k]) != normalized(contents[a]),
        shared(query, contents[a]).len() > 0 || forall|k: int|
            0 <= k < contents.len() ==> shared(query, #[trigger] contents[k]).len() == 0,
    ensures
        r.no_duplicates(),
        r.len() <= limit,
        r.len() < limit ==> exists|i: int| 0 <= i < r.len() && #[trigger] r[i] == a,
{
    let found = candidates(query, contents, contents.len() as int);
    let order = order_behind(query, contents, limit, r);
    score_counts_shared(query, contents[a]);
    if any_match(query, contents) {
        let k = choose|k: int|
            0 <= k < contents.len() && is_first_said(contents, k) && score_of(
                query,
                #[trigger] contents[k],
            ) > 0;
        score_counts_shared(query, contents[k]);
        assert(shared(query, contents[k]).len() > 0);
    }
    let i = place_of(query, contents, limit, r, a);
    if r.len() < limit {
        assert(r[i] == a);
    }
    let p = order[i] as int;
    sort::every_position_is_listed(rank_keys(query, contents, found), order, p);
    assert forall|x: int, y: int| 0 <= x < r.len() && 0 <= y < r.len() && x != y implies r[x]
        != r[y] by {
        assert(order[x] != order[y]);
        assert(order[x] < found.len() && order[y] < found.len());
        assert(r[x] == found[order[x] as int] && r[y] == found[order[y] as int]);
        if order[x] < order[y] {
            candidates_ascend(
                query,
                contents,
                contents.len() as int,
                order[x] as int,
                order[y] as int,
            );
        } else {
            candidates_ascend(
                query,
                contents,
                contents.len() as int,
                order[y] as int,
                order[x] as int,
            );
        }
    }
}

/// What is told says something, and as the first to say it. Where anything that is
/// said has a word in common with the query, all that is told has.
pub proof fn what_is_told_fits(
    query: Seq<char>,
    contents: Seq<Seq<char>>,
    limit: int,
    r: Seq<usize>,
    j: int,
    a: int,
)
    requires
        is_ranking(query, contents, limit, r),
        0 <= j < r.len(),
        0 <= a < contents.len(),
        normalized(contents[a]).len() > 0,
        forall|k: int| 0 <= k < a ==> normalized(#[trigger] contents[k]) != normalized(contents[a]),
    ensures
        r[j] < contents.len(),
        normalized(contents[r[j] as int]).len() > 0,
        forall|k: int|
            0 <= k < r[j] ==> normalized(#[trigger] contents[k]) != normalized(
                contents[r[j] as int],
            ),
        shared(query, contents[a]).len() > 0 ==> shared(query, contents[r[j] as int]).len() > 0,
{
    ranked_are_candidates(query, contents, limit, r);
    assert(is_candidate(query, contents, r[j] as int));
    score_counts_shared(query, contents[a]);
    score_counts_shared(query, contents[r[j] as int]);
}

proof fn audible_are_heard(rows: Seq<MemoryRow>, present: Seq<i32>, n: int, i: int)
    requires
        0 <= i < n <= rows.len(),
    ensures
        audible(rows, present, n).contains(i) <==> admits(rows[i].original@, present),
    decreases n,
{
    let all = audible(rows, present, n);
    let before = audible(rows, present, n - 1);
    if i == n - 1 {
        if admits(rows[i].original@, present) {
            assert(all[all.len() - 1] == i);
        } else if all.contains(i) {
            audible_are_inside(rows, present, n - 1);
            let k = choose|k: int| 0 <= k < all.len() && all[k] == i;
            assert(before[k] < n - 1);
        }
    } else {
        audible_are_heard(rows, present, n - 1, i);
        if before.contains(i) {
            let k = choose|k: int| 0 <= k < before.len() && before[k] == i;
            assert(all[k] == i);
        }
        if all.contains(i) {
            let k = choose|k: int| 0 <= k < all.len() && all[k] == i;
            assert(before[k] == i);
        }
    }
}

proof fn audible_are_inside(rows: Seq<MemoryRow>, present: Seq<i32>, n: int)
    requires
        0 <= n <= rows.len(),
    ensures
        forall|k: int|
            0 <= k < audible(rows, present, n).len() ==> 0 <= #[trigger] audible(
                rows,
                present,
                n,
            )[k] < n,
    decreases n,
{
    if n > 0 {
        audible_are_inside(rows, present, n - 1);
        let before = audible(rows, present, n - 1);
        let all = audible(rows, present, n);
        assert forall|k: int| 0 <= k < all.len() implies 0 <= #[trigger] all[k] < n by {
            if k < before.len() {
                assert(all[k] == before[k]);
            }
        }
    }
}

/// A memory is among those that can be recalled exactly when everyone present was
/// there when it was learned, and somebody is present.
pub proof fn memories_are_for_those_who_were_there(
    rows: Seq<MemoryRow>,
    present: Seq<i32>,
    i: int,
)
    requires
        0 <= i < rows.len(),
    ensures
        audible(rows, present, rows.len() as int).contains(i) <==> (present.len() > 0 && forall|
            who: i32,
        |
            present.contains(who) ==> #[trigger] rows[i].original@.contains(who)),
{
    audible_are_heard(rows, present, rows.len() as int, i);
    if present.len() > 0 && (forall|who: i32|
        present.contains(who) ==> #[trigger] rows[i].original@.contains(who)) {
        assert forall|k: int| 0 <= k < present.len() implies rows[i].original@.contains(
            #[trigger] present[k],
        ) by {
            assert(present.contains(present[k]));
        }
    }
    if admits(rows[i].original@, present) {
        assert forall|who: i32| present.contains(who) implies #[trigger] rows[i].original@.contains(
            who,
        ) by {
            let k = choose|k: int| 0 <= k < present.len() && present[k] == who;
            assert(rows[i].original@.contains(present[k]));
        }
    }
}

// ---------------------------------------------------------------------------
// Laws of words
// ---------------------------------------------------------------------------
proof fn tokens_after_a_gap(a: Seq<char>, c: char, b: Seq<char>)
    requires
        !text::cjk(c),
        !text::alphanumeric(c),
    ensures
        tokenizing(a + seq![c] + b) == (Tokens {
            done: tokens_of(a) + tokenizing(b).done,
            word: tokenizing(b).word,
        }),
    decreases b.len(),
{
    let whole = a + seq![c] + b;
    if b.len() == 0 {
        assert(whole.drop_last() =~= a);
        assert(whole.last() == c);
        assert(tokens_of(a) + tokenizing(b).done =~= tokens_of(a));
        assert(tokenizing(whole) =~= Tokens { done: tokens_of(a), word: Seq::empty() });
    } else {
        tokens_after_a_gap(a, c, b.drop_last());
        assert(whole.drop_last() =~= a + seq![c] + b.drop_last());
        assert(whole.last() == b.last());
        let t = tokenizing(b.drop_last());
        let joined = Tokens { done: tokens_of(a) + t.done, word: t.word };
        assert(closed_word(joined) =~= tokens_of(a) + closed_word(t));
        assert(tokenizing(whole) =~= Tokens {
            done: tokens_of(a) + tokenizing(b).done,
            word: tokenizing(b).word,
        });
    }
}

/// What is neither a letter nor a digit parts words.
pub proof fn gaps_part_words(a: Seq<char>, c: char, b: Seq<char>)
    requires
        !text::cjk(c),
        !text::alphanumeric(c),
    ensures
        tokens_of(a + seq![c] + b) == tokens_of(a) + tokens_of(b),
{
    tokens_after_a_gap(a, c, b);
    assert(tokens_of(a + seq![c] + b) =~= tokens_of(a) + tokens_of(b));
}

/// A character of a script without spaces is a word of its own.
pub proof fn such_characters_are_words(a: Seq<char>, c: char)
    requires
        text::cjk(c),
    ensures
        tokens_of(a.push(c)) == tokens_of(a).push(seq![c]),
{
    assert(a.push(c).drop_last() =~= a);
}

/// Letters and digits in a row are one word, whatever the case of the letters.
pub proof fn letters_in_a_row_are_one_word(s: Seq<char>)
    requires
        s.len() > 0,
        forall|i: int|
            0 <= i < s.len() ==> ('a' <= (#[trigger] s[i]) <= 'z' || 'A' <= s[i] <= 'Z' || '0'
                <= s[i] <= '9'),
    ensures
        tokens_of(s) == seq![text::ascii_lower(s)],
{
    letters_stay_open(s);
    assert(tokens_of(s) =~= seq![text::ascii_lower(s)]);
}

proof fn letters_stay_open(s: Seq<char>)
    requires
        forall|i: int|
            0 <= i < s.len() ==> ('a' <= (#[trigger] s[i]) <= 'z' || 'A' <= s[i] <= 'Z' || '0'
                <= s[i] <= '9'),
    ensures
        tokenizing(s) == (Tokens { done: Seq::empty(), word: text::ascii_lower(s) }),
    decreases s.len(),
{
    if s.len() == 0 {
        assert(text::ascii_lower(s) =~= Seq::empty());
    } else {
        letters_stay_open(s.drop_last());
        let c = s[s.len() - 1];
        assert(text::ascii_lower(s) =~= text::ascii_lower(s.drop_last()) + seq![
            text::ascii_lower_char(c),
        ]);
    }
}

/// The memories that fade are as many as there are over a thousand; each of them is
/// less important than every memory that stays, or as important and not used more
/// recently. None fades twice.
pub proof fn the_least_important_fade(
    rows: Seq<FadeKey>,
    order: Seq<usize>,
    gone: Seq<usize>,
    i: int,
    k: int,
)
    requires
        rows.len() > MAX_ACTIVE_PER_USER,
        sort::in_order(fade_keys(rows), order),
        gone == order.take(rows.len() - MAX_ACTIVE_PER_USER),
        0 <= i < gone.len(),
        0 <= k < rows.len(),
        !gone.contains(k as usize),
    ensures
        gone.len() == rows.len() - 1000,
        gone.no_duplicates(),
        ({
            let faded = rows[gone[i] as int];
            faded.importance < rows[k].importance || (faded.importance == rows[k].importance
                && faded.last_used <= rows[k].last_used)
        }),
{
    let keys = fade_keys(rows);
    sort::every_position_is_listed(keys, order, k);
    let j = choose|j: int| 0 <= j < order.len() && #[trigger] order[j] == k;
    if j < gone.len() {
        assert(gone[j] == k as usize);
    }
    assert(sort::comes_before(keys, order[i] as int, order[j] as int));
    assert forall|x: int, y: int| 0 <= x < gone.len() && 0 <= y < gone.len() && x != y implies
        gone[x] != gone[y] by {
        assert(order[x] != order[y]);
    }
}

/// Nothing is stored that is nobody's, that is empty, or that is said already; and
/// all else is, at most as long as a memory may be, for its person.
pub proof fn new_memories_are_stored(
    memory: NewMemory,
    active: Seq<Seq<char>>,
    fresh: Seq<char>,
    stored: Option<StoredMemory>,
)
    requires
        stored_as(memory, active, fresh, stored),
    ensures
        stored matches Some(row) ==> row.user_id == memory.user_id && memory.user_id > 0
            && 0 < row.content@.len() <= 400 && row.content@ == text::collapsed(
            memory.content@,
        ).take(row.content@.len() as int) && (row.content@.len() < 400 ==> row.content@
            == text::collapsed(memory.content@)),
        stored is None ==> memory.user_id <= 0 || text::collapsed(memory.content@).len() == 0 || (
        exists|i: int|
            0 <= i < active.len() && gist(#[trigger] active[i]) == gist(memory.content@)),
{
    let tidy = text::collapsed(memory.content@);
    assert(tidy.take(tidy.len() as int) =~= tidy);
    if let Some(row) = stored {
        assert(row.content@ =~= tidy.take(row.content@.len() as int));
        if row.content@.len() < 400 {
            assert(row.content@ =~= tidy);
        }
    } else if memory.user_id > 0 && tidy.len() > 0 {
        assert(said_by(active, memory.content@));
    }
}

/// An audience that was stored is read back as it was, and a memory for which
/// none was stored is for the one whose memory it is.
pub proof fn audiences_are_read_back(members: Seq<i32>, owner: Option<i32>, stored: JsonView)
    ensures
        members.len() > 0 ==> original_audience(owner, members_json(members)) == members,
        owner matches Some(id) ==> original_audience(owner, members_json(Seq::empty())) == seq![id]
            && (!(stored is Array) ==> original_audience(owner, stored) == seq![id]),
        owner is None && !(stored is Array) ==> original_audience(owner, stored).len() == 0,
{
    members_are_read_back(members);
    members_are_read_back(Seq::empty());
}

proof fn members_are_read_back(members: Seq<i32>)
    ensures
        member_ids(members_json(members)->Array_0) == members,
    decreases members.len(),
{
    let list = members_json(members)->Array_0;
    if members.len() > 0 {
        members_are_read_back(members.drop_last());
        assert(list.drop_last() =~= members_json(members.drop_last())->Array_0);
        assert(list.last() == json::int_json(members.last() as int));
        assert(members.drop_last().push(members.last()) =~= members);
    } else {
        assert(members =~= Seq::empty());
    }
}

} // verus!
