//! Words and terms in texts, and how texts match by them.
//!
//! Scripts without spaces have no words to go by, and single characters are
//! mostly noise as evidence. A run of such characters is read as overlapping
//! pairs; its single characters count too, but only as weak evidence, unless the
//! run is one character long. Repeating a word is no further evidence.
use crate::text;
use vstd::prelude::*;

verus! {

/// Something that a text is about, with the other names that it goes by.
pub struct Concept {
    pub name: String,
    pub aliases: Vec<String>,
}

/// A text with what it is about.
pub struct Document<'a> {
    pub text: &'a str,
    pub concepts: &'a [Concept],
}

/// A term of a text. A weak one is a single character inside a longer run.
pub struct Term {
    pub text: String,
    pub weak: bool,
}

pub struct TermView {
    pub text: Seq<char>,
    pub weak: bool,
}

impl View for Term {
    type V = TermView;

    open spec fn view(&self) -> TermView {
        TermView { text: self.text@, weak: self.weak }
    }
}

pub open spec fn term_views(terms: Seq<Term>) -> Seq<TermView> {
    Seq::new(terms.len(), |i: int| terms[i]@)
}

proof fn term_views_push(terms: Seq<Term>, t: Term)
    ensures
        term_views(terms.push(t)) == term_views(terms).push(t@),
{
    assert(term_views(terms.push(t)) =~= term_views(terms).push(t@));
}

// ---------------------------------------------------------------------------
// Terms
// ---------------------------------------------------------------------------
/// The term that a finished word is: one letter or digit alone says nothing.
pub open spec fn word_terms(word: Seq<char>) -> Seq<TermView> {
    if word.len() >= 2 {
        seq![TermView { text: word, weak: false }]
    } else {
        Seq::empty()
    }
}

pub open spec fn single_terms(run: Seq<char>) -> Seq<TermView> {
    Seq::new(run.len(), |i: int| TermView { text: seq![run[i]], weak: run.len() != 1 })
}

pub open spec fn pair_terms(run: Seq<char>) -> Seq<TermView> {
    Seq::new(
        if run.len() > 0 {
            (run.len() - 1) as nat
        } else {
            0
        },
        |i: int| TermView { text: seq![run[i]].push(run[i + 1]), weak: false },
    )
}

/// The terms that a finished run is: its characters, then its pairs.
pub open spec fn run_terms(run: Seq<char>) -> Seq<TermView> {
    single_terms(run) + pair_terms(run)
}

/// The terms so far, with the word and the run that are still open.
#[verifier::ext_equal]
pub struct Reading {
    pub done: Seq<TermView>,
    pub word: Seq<char>,
    pub run: Seq<char>,
}

pub open spec fn read_char(r: Reading, c: char) -> Reading {
    if text::cjk(c) {
        Reading { done: r.done + word_terms(r.word), word: Seq::empty(), run: r.run.push(c) }
    } else if text::alphanumeric(c) {
        Reading {
            done: r.done + run_terms(r.run),
            word: r.word + text::lower_char(c),
            run: Seq::empty(),
        }
    } else {
        Reading {
            done: r.done + word_terms(r.word) + run_terms(r.run),
            word: Seq::empty(),
            run: Seq::empty(),
        }
    }
}

pub open spec fn reading(s: Seq<char>) -> Reading
    decreases s.len(),
{
    if s.len() == 0 {
        Reading { done: Seq::empty(), word: Seq::empty(), run: Seq::empty() }
    } else {
        read_char(reading(s.drop_last()), s.last())
    }
}

/// The terms of a text.
pub open spec fn terms_of(s: Seq<char>) -> Seq<TermView> {
    let end = reading(s);
    end.done + word_terms(end.word) + run_terms(end.run)
}

fn flush_word(word: String, out: &mut Vec<Term>)
    ensures
        term_views(final(out)@) == term_views(old(out)@) + word_terms(word@),
{
    if text::char_count(word.as_str()) >= 2 {
        let t = Term { text: word, weak: false };
        proof {
            term_views_push(out@, t);
        }
        out.push(t);
        assert(term_views(out@) =~= term_views(old(out)@) + word_terms(word@));
    } else {
        assert(term_views(out@) =~= term_views(old(out)@) + word_terms(word@));
    }
}

fn flush_run(run: &Vec<char>, out: &mut Vec<Term>)
    ensures
        term_views(final(out)@) == term_views(old(out)@) + run_terms(run@),
{
    let ghost first = term_views(out@);
    let weak = run.len() != 1;
    let mut i: usize = 0;
    assert(first + single_terms(run@).take(0) =~= first);
    while i < run.len()
        invariant
            i <= run@.len(),
            weak == (run@.len() != 1),
            term_views(out@) == first + single_terms(run@).take(i as int),
        decreases run@.len() - i,
    {
        let mut s = String::new();
        s.push(run[i]);
        assert(s@ =~= seq![run@[i as int]]);
        let t = Term { text: s, weak };
        proof {
            term_views_push(out@, t);
            assert(first + single_terms(run@).take(i + 1) =~= (first + single_terms(run@).take(
                i as int,
            )).push(t@));
        }
        out.push(t);
        i = i + 1;
    }
    assert(single_terms(run@).take(run@.len() as int) =~= single_terms(run@));
    let ghost second = first + single_terms(run@);
    if run.len() > 1 {
        let mut k: usize = 0;
        assert(second + pair_terms(run@).take(0) =~= second);
        while k < run.len() - 1
            invariant
                run@.len() > 1,
                k <= run@.len() - 1,
                term_views(out@) == second + pair_terms(run@).take(k as int),
            decreases run@.len() - k,
        {
            let mut s = String::new();
            s.push(run[k]);
            s.push(run[k + 1]);
            assert(s@ =~= seq![run@[k as int]].push(run@[k + 1]));
            let t = Term { text: s, weak: false };
            proof {
                term_views_push(out@, t);
                assert(second + pair_terms(run@).take(k + 1) =~= (second + pair_terms(run@).take(
                    k as int,
                )).push(t@));
            }
            out.push(t);
            k = k + 1;
        }
        assert(pair_terms(run@).take(run@.len() - 1) =~= pair_terms(run@));
    } else {
        assert(pair_terms(run@) =~= Seq::empty());
        assert(second + pair_terms(run@) =~= second);
    }
    assert(term_views(out@) =~= first + run_terms(run@));
}

pub fn terms(s: &str) -> (r: Vec<Term>)
    ensures
        term_views(r@) == terms_of(s@),
{
    let v = text::chars_of(s);
    let mut out: Vec<Term> = Vec::new();
    let mut word = String::new();
    let mut run: Vec<char> = Vec::new();
    let mut i: usize = 0;
    assert(v@.take(0) =~= Seq::empty());
    assert(term_views(out@) =~= Seq::empty());
    assert(word@ =~= Seq::empty());
    assert(run@ =~= Seq::empty());
    while i < v.len()
        invariant
            i <= v@.len(),
            term_views(out@) == reading(v@.take(i as int)).done,
            word@ == reading(v@.take(i as int)).word,
            run@ == reading(v@.take(i as int)).run,
        decreases v@.len() - i,
    {
        assert(v@.take(i + 1).drop_last() =~= v@.take(i as int));
        let c = v[i];
        if text::is_cjk(c) {
            flush_word(word, &mut out);
            word = String::new();
            run.push(c);
        } else if text::is_alphanumeric(c) {
            flush_run(&run, &mut out);
            run.clear();
            let lower = text::lowercase_char(c);
            word.append(lower.as_str());
        } else {
            flush_word(word, &mut out);
            word = String::new();
            flush_run(&run, &mut out);
            run.clear();
        }
        i = i + 1;
    }
    assert(v@.take(v@.len() as int) =~= v@);
    flush_word(word, &mut out);
    flush_run(&run, &mut out);
    out
}

// ---------------------------------------------------------------------------
// Concepts
// ---------------------------------------------------------------------------
/// The term of a concept. No text yields it: it begins with a control
/// character.
pub open spec fn concept_text(name: Seq<char>) -> Seq<char> {
    "\u{1}"@ + text::lowercased(name)
}

fn concept_term(name: &str) -> (r: String)
    ensures
        r@ == concept_text(name@),
{
    let mut out = "\u{1}".to_owned();
    let lower = text::to_lowercase(name);
    out.append(lower.as_str());
    out
}

pub open spec fn has_cjk(s: Seq<char>) -> bool {
    exists|i: int| 0 <= i < s.len() && text::cjk(#[trigger] s[i])
}

/// Whether a word can end at position `i` of the text, or begin there.
pub open spec fn open_at(s: Seq<char>, i: int) -> bool {
    i < 0 || i >= s.len() || !text::alphanumeric(s[i]) || text::cjk(s[i])
}

/// Whether `form` stands as its own word at position `k` of the text.
pub open spec fn stands_at(s: Seq<char>, form: Seq<char>, k: int) -> bool {
    text::occurs_at(s, form, k) && open_at(s, k - 1) && open_at(s, k + form.len())
}

/// Whether a text mentions a form. Where the form is of a script without spaces
/// any occurrence counts; else it has to stand as its own word.
pub open spec fn mentioned(s: Seq<char>, form: Seq<char>) -> bool {
    form.len() > 0 && (if has_cjk(form) {
        text::contains_text(s, form)
    } else {
        exists|k: int| #[trigger] stands_at(s, form, k)
    })
}

fn any_cjk(v: &Vec<char>) -> (r: bool)
    ensures
        r == has_cjk(v@),
{
    let mut i: usize = 0;
    while i < v.len()
        invariant
            i <= v@.len(),
            forall|k: int| 0 <= k < i ==> !text::cjk(#[trigger] v@[k]),
        decreases v@.len() - i,
    {
        if text::is_cjk(v[i]) {
            return true;
        }
        i = i + 1;
    }
    false
}

pub fn mentions(s: &str, form: &str) -> (r: bool)
    ensures
        r == mentioned(s@, form@),
{
    let f = text::chars_of(form);
    if f.len() == 0 {
        return false;
    }
    if any_cjk(&f) {
        return text::contains(s, form);
    }
    let v = text::chars_of(s);
    let n = v.len();
    let mut from: usize = 0;
    loop
        invariant
            v@ == s@,
            f@ == form@,
            n == v@.len(),
            f@.len() > 0,
            from <= n,
            !has_cjk(form@),
            forall|j: int| j < from ==> !#[trigger] stands_at(s@, form@, j),
        decreases n - from,
    {
        proof {
            text::find_from_is_first(s@, form@, from as int);
        }
        match text::find_chars(&v, &f, from) {
            Some(k) => {
                let before = k == 0 || !text::is_alphanumeric(v[k - 1]) || text::is_cjk(v[k - 1]);
                let end = k + f.len();
                let after = end >= n || !text::is_alphanumeric(v[end]) || text::is_cjk(v[end]);
                if before && after {
                    assert(stands_at(s@, form@, k as int));
                    return true;
                }
                assert forall|j: int| j < k + 1 implies !#[trigger] stands_at(s@, form@, j) by {
                    if from <= j < k {
                        assert(!text::occurs_at(s@, form@, j));
                    }
                }
                from = k + 1;
            },
            None => {
                assert forall|j: int| !#[trigger] stands_at(s@, form@, j) by {
                    if from <= j {
                        assert(!text::occurs_at(s@, form@, j));
                    }
                }
                return false;
            },
        }
    }
}

/// Whether the text mentions the concept by one of its names.
pub open spec fn names_concept(s: Seq<char>, concept: Concept) -> bool {
    ||| mentioned(s, text::lowercased(concept.name@))
    ||| exists|i: int|
        0 <= i < concept.aliases@.len() && mentioned(
            s,
            text::lowercased((#[trigger] concept.aliases@[i])@),
        )
}

fn is_named(s: &str, concept: &Concept) -> (r: bool)
    ensures
        r == names_concept(s@, *concept),
{
    let name = text::to_lowercase(concept.name.as_str());
    if mentions(s, name.as_str()) {
        return true;
    }
    let mut i: usize = 0;
    while i < concept.aliases.len()
        invariant
            i <= concept.aliases@.len(),
            !mentioned(s@, text::lowercased(concept.name@)),
            forall|k: int|
                0 <= k < i ==> !mentioned(
                    s@,
                    text::lowercased((#[trigger] concept.aliases@[k])@),
                ),
        decreases concept.aliases@.len() - i,
    {
        let alias = text::to_lowercase(concept.aliases[i].as_str());
        if mentions(s, alias.as_str()) {
            return true;
        }
        i = i + 1;
    }
    false
}

pub open spec fn concept_terms(concepts: Seq<Concept>) -> Seq<TermView> {
    Seq::new(
        concepts.len(),
        |i: int| TermView { text: concept_text(concepts[i].name@), weak: false },
    )
}

/// The terms of a document: those of its text and those of its concepts.
pub open spec fn document_terms_of(document: Document) -> Seq<TermView> {
    terms_of(document.text@) + concept_terms(document.concepts@)
}

pub fn document_terms(document: &Document) -> (r: Vec<Term>)
    ensures
        term_views(r@) == document_terms_of(*document),
{
    let mut out = terms(document.text);
    let ghost own = term_views(out@);
    let ghost all = concept_terms(document.concepts@);
    let mut i: usize = 0;
    assert(own + all.take(0) =~= own);
    while i < document.concepts.len()
        invariant
            i <= document.concepts@.len(),
            all == concept_terms(document.concepts@),
            term_views(out@) == own + all.take(i as int),
        decreases document.concepts@.len() - i,
    {
        let t = Term { text: concept_term(document.concepts[i].name.as_str()), weak: false };
        proof {
            term_views_push(out@, t);
            assert(own + all.take(i + 1) =~= (own + all.take(i as int)).push(t@));
        }
        out.push(t);
        i = i + 1;
    }
    assert(all.take(all.len() as int) =~= all);
    out
}

// ---------------------------------------------------------------------------
// Queries
// ---------------------------------------------------------------------------
/// The terms of the concepts that the query names.
pub open spec fn named_terms(query: Seq<char>, concepts: Seq<Concept>) -> Seq<TermView>
    decreases concepts.len(),
{
    if concepts.len() == 0 {
        Seq::empty()
    } else {
        let before = named_terms(query, concepts.drop_last());
        if names_concept(query, concepts.last()) {
            before.push(TermView { text: concept_text(concepts.last().name@), weak: false })
        } else {
            before
        }
    }
}

pub open spec fn all_named_terms(query: Seq<char>, documents: Seq<Document>) -> Seq<TermView>
    decreases documents.len(),
{
    if documents.len() == 0 {
        Seq::empty()
    } else {
        all_named_terms(query, documents.drop_last()) + named_terms(
            query,
            documents.last().concepts@,
        )
    }
}

/// The evidence in a query: the concepts that it names, and its own terms.
pub open spec fn evidence(query: Seq<char>, documents: Seq<Document>) -> Seq<TermView> {
    all_named_terms(text::lowercased(query), documents) + terms_of(query)
}

pub open spec fn has_term(terms: Seq<TermView>, t: Seq<char>) -> bool {
    exists|k: int| 0 <= k < terms.len() && (#[trigger] terms[k]).text == t
}

pub open spec fn has_full_term(terms: Seq<TermView>, t: Seq<char>) -> bool {
    exists|k: int| 0 <= k < terms.len() && (#[trigger] terms[k]).text == t && !terms[k].weak
}

/// Whether `distinct` are the terms of `all`, each once, in the order of texts,
/// and weak only where none of its kind is full.
pub open spec fn distinct_terms(all: Seq<TermView>, distinct: Seq<TermView>) -> bool {
    &&& forall|i: int, j: int|
        0 <= i < j < distinct.len() ==> text::precedes(
            (#[trigger] distinct[i]).text,
            (#[trigger] distinct[j]).text,
        )
    &&& forall|t: Seq<char>| #[trigger] has_term(all, t) <==> has_term(distinct, t)
    &&& forall|i: int|
        0 <= i < distinct.len() ==> (#[trigger] distinct[i]).weak == !has_full_term(
            all,
            distinct[i].text,
        )
}

/// Adds a term to the distinct terms.
fn add_term(distinct: &mut Vec<Term>, t: Term, Ghost(all): Ghost<Seq<TermView>>)
    requires
        distinct_terms(all, term_views(old(distinct)@)),
    ensures
        distinct_terms(all.push(t@), term_views(final(distinct)@)),
{
    let ghost before = term_views(distinct@);
    let ghost added = t@;
    let mut at: usize = 0;
    while at < distinct.len() && text::is_before(distinct[at].text.as_str(), t.text.as_str())
        invariant
            at <= distinct@.len(),
            before == term_views(distinct@),
            forall|k: int| 0 <= k < at ==> text::precedes((#[trigger] before[k]).text, t.text@),
        decreases distinct@.len() - at,
    {
        at = at + 1;
    }
    if at < distinct.len() && text::eq(distinct[at].text.as_str(), t.text.as_str()) {
        let weak = distinct[at].weak && t.weak;
        let ghost old_terms = distinct@;
        distinct[at] = Term { text: t.text, weak };
        proof {
            let after = term_views(distinct@);
            assert(after =~= before.update(at as int, TermView { text: added.text, weak }));
            merged_term(all, before, after, added, at as int);
        }
        return ;
    }
    proof {
        texts_split(before, added.text, at as int);
    }
    distinct.insert(at, t);
    proof {
        let after = term_views(distinct@);
        assert(after =~= before.insert(at as int, added));
        inserted_term(all, before, after, added, at as int);
    }
}

/// Behind the position at which the order stops, all texts come after.
proof fn texts_split(terms: Seq<TermView>, t: Seq<char>, at: int)
    requires
        0 <= at <= terms.len(),
        forall|i: int, j: int|
            0 <= i < j < terms.len() ==> text::precedes(
                (#[trigger] terms[i]).text,
                (#[trigger] terms[j]).text,
            ),
        at < terms.len() ==> !text::precedes(terms[at].text, t) && terms[at].text != t,
    ensures
        forall|k: int| at <= k < terms.len() ==> text::precedes(t, (#[trigger] terms[k]).text),
{
    if at < terms.len() {
        text::texts_are_ordered(terms[at].text, t);
        assert forall|k: int| at <= k < terms.len() implies text::precedes(
            t,
            (#[trigger] terms[k]).text,
        ) by {
            if k > at {
                text::order_of_texts_chains(t, terms[at].text, terms[k].text);
            }
        }
    }
}

proof fn pushed_terms(all: Seq<TermView>, t: TermView)
    ensures
        forall|x: Seq<char>| #[trigger]
            has_term(all.push(t), x) <==> has_term(all, x) || x == t.text,
        forall|x: Seq<char>| #[trigger]
            has_full_term(all.push(t), x) <==> has_full_term(all, x) || (x == t.text && !t.weak),
{
    let after = all.push(t);
    assert(after[all.len() as int] == t);
    assert forall|x: Seq<char>| #[trigger] has_term(after, x) <==> has_term(all, x) || x
        == t.text by {
        if has_term(all, x) {
            let k = choose|k: int| 0 <= k < all.len() && (#[trigger] all[k]).text == x;
            assert(after[k].text == x);
        }
        if has_term(after, x) {
            let k = choose|k: int| 0 <= k < after.len() && (#[trigger] after[k]).text == x;
            if k < all.len() {
                assert(all[k].text == x);
            }
        }
    }
    assert forall|x: Seq<char>| #[trigger]
        has_full_term(after, x) <==> has_full_term(all, x) || (x == t.text && !t.weak) by {
        if has_full_term(all, x) {
            let k = choose|k: int|
                0 <= k < all.len() && (#[trigger] all[k]).text == x && !all[k].weak;
            assert(after[k].text == x);
        }
        if has_full_term(after, x) {
            let k = choose|k: int|
                0 <= k < after.len() && (#[trigger] after[k]).text == x && !after[k].weak;
            if k < all.len() {
                assert(all[k].text == x);
            }
        }
    }
}

proof fn merged_term(
    all: Seq<TermView>,
    before: Seq<TermView>,
    after: Seq<TermView>,
    t: TermView,
    at: int,
)
    requires
        distinct_terms(all, before),
        0 <= at < before.len(),
        before[at].text == t.text,
        after == before.update(at, TermView { text: t.text, weak: before[at].weak && t.weak }),
    ensures
        distinct_terms(all.push(t), after),
{
    pushed_terms(all, t);
    assert(forall|k: int| 0 <= k < after.len() ==> (#[trigger] after[k]).text == before[k].text);
    assert forall|x: Seq<char>| #[trigger] has_term(all.push(t), x) <==> has_term(after, x) by {
        assert(has_term(all, x) <==> has_term(before, x));
        if has_term(before, x) {
            let k = choose|k: int| 0 <= k < before.len() && (#[trigger] before[k]).text == x;
            assert(after[k].text == x);
        }
        if has_term(after, x) {
            let k = choose|k: int| 0 <= k < after.len() && (#[trigger] after[k]).text == x;
            assert(before[k].text == x);
        }
        assert(after[at].text == t.text);
    }
    assert forall|i: int| 0 <= i < after.len() implies (#[trigger] after[i]).weak
        == !has_full_term(all.push(t), after[i].text) by {
        assert(before[i].weak == !has_full_term(all, before[i].text));
        if i != at {
            if i < at {
                assert(text::precedes(before[i].text, before[at].text));
                text::texts_are_ordered(before[i].text, before[at].text);
            } else {
                assert(text::precedes(before[at].text, before[i].text));
                text::texts_are_ordered(before[at].text, before[i].text);
            }
        }
    }
    assert forall|i: int, j: int| 0 <= i < j < after.len() implies text::precedes(
        (#[trigger] after[i]).text,
        (#[trigger] after[j]).text,
    ) by {
        assert(text::precedes(before[i].text, before[j].text));
    }
}

proof fn inserted_term(
    all: Seq<TermView>,
    before: Seq<TermView>,
    after: Seq<TermView>,
    t: TermView,
    at: int,
)
    requires
        distinct_terms(all, before),
        0 <= at <= before.len(),
        after == before.insert(at, t),
        forall|k: int| 0 <= k < at ==> text::precedes((#[trigger] before[k]).text, t.text),
        forall|k: int|
            at <= k < before.len() ==> text::precedes(t.text, (#[trigger] before[k]).text),
    ensures
        distinct_terms(all.push(t), after),
{
    pushed_terms(all, t);
    assert forall|k: int| 0 <= k < before.len() implies (#[trigger] before[k]).text != t.text by {
        text::texts_are_ordered(before[k].text, t.text);
        text::texts_are_ordered(t.text, before[k].text);
    }
    assert(after[at] == t);
    assert(!has_term(before, t.text));
    assert(!has_term(all, t.text));
    assert(!has_full_term(all, t.text)) by {
        if has_full_term(all, t.text) {
            let k = choose|k: int|
                0 <= k < all.len() && (#[trigger] all[k]).text == t.text && !all[k].weak;
            assert(all[k].text == t.text);
        }
    }
    assert forall|x: Seq<char>| #[trigger] has_term(all.push(t), x) <==> has_term(after, x) by {
        assert(has_term(all, x) <==> has_term(before, x));
        if has_term(before, x) {
            let k = choose|k: int| 0 <= k < before.len() && (#[trigger] before[k]).text == x;
            let m = if k < at {
                k
            } else {
                k + 1
            };
            assert(after[m].text == x);
        }
        if has_term(after, x) {
            let m = choose|m: int| 0 <= m < after.len() && (#[trigger] after[m]).text == x;
            if m != at {
                let k = if m < at {
                    m
                } else {
                    m - 1
                };
                assert(before[k].text == x);
            }
        }
    }
    assert forall|i: int| 0 <= i < after.len() implies (#[trigger] after[i]).weak
        == !has_full_term(all.push(t), after[i].text) by {
        if i != at {
            let k = if i < at {
                i
            } else {
                i - 1
            };
            assert(after[i] == before[k]);
            assert(before[k].weak == !has_full_term(all, before[k].text));
        }
    }
    assert forall|i: int, j: int| 0 <= i < j < after.len() implies text::precedes(
        (#[trigger] after[i]).text,
        (#[trigger] after[j]).text,
    ) by {
        let x = if i < at {
            i
        } else {
            i - 1
        };
        let y = if j < at {
            j
        } else {
            j - 1
        };
        if i == at {
            assert(after[j] == before[y]);
        } else if j == at {
            assert(after[i] == before[x]);
        } else {
            assert(after[i] == before[x]);
            assert(after[j] == before[y]);
            assert(text::precedes(before[x].text, before[y].text));
        }
    }
}

/// The distinct terms of a query, in the order of their texts.
pub fn query_terms(query: &str, documents: &Vec<Document>) -> (r: Vec<Term>)
    ensures
        distinct_terms(evidence(query@, documents@), term_views(r@)),
{
    let lower = text::to_lowercase(query);
    let mut out: Vec<Term> = Vec::new();
    let ghost mut seen: Seq<TermView> = Seq::empty();
    let mut i: usize = 0;
    assert(documents@.take(0) =~= Seq::empty());
    assert(distinct_terms(seen, term_views(out@)));
    while i < documents.len()
        invariant
            i <= documents@.len(),
            lower@ == text::lowercased(query@),
            seen == all_named_terms(lower@, documents@.take(i as int)),
            distinct_terms(seen, term_views(out@)),
        decreases documents@.len() - i,
    {
        let concepts = documents[i].concepts;
        let ghost first = seen;
        let mut k: usize = 0;
        assert(documents@.take(i + 1).drop_last() =~= documents@.take(i as int));
        assert(concepts@.take(0) =~= Seq::empty());
        assert(first + named_terms(lower@, concepts@.take(0)) =~= first);
        while k < concepts.len()
            invariant
                k <= concepts@.len(),
                seen == first + named_terms(lower@, concepts@.take(k as int)),
                distinct_terms(seen, term_views(out@)),
            decreases concepts@.len() - k,
        {
            assert(concepts@.take(k + 1).drop_last() =~= concepts@.take(k as int));
            if is_named(lower.as_str(), &concepts[k]) {
                let t = Term { text: concept_term(concepts[k].name.as_str()), weak: false };
                let ghost next = seen.push(t@);
                add_term(&mut out, t, Ghost(seen));
                proof {
                    seen = next;
                    assert(seen =~= first + named_terms(lower@, concepts@.take(k + 1)));
                }
            }
            k = k + 1;
        }
        assert(concepts@.take(concepts@.len() as int) =~= concepts@);
        i = i + 1;
    }
    assert(documents@.take(documents@.len() as int) =~= documents@);
    let ghost named = seen;
    let mut own = terms(query);
    let ghost all = term_views(own@);
    let ghost mut done: int = 0;
    assert(named + all.take(0) =~= named);
    assert(own@ =~= own@.skip(0));
    let ghost given = own@;
    while own.len() > 0
        invariant
            0 <= done <= given.len(),
            own@ == given.skip(done),
            all == term_views(given),
            seen == named + all.take(done),
            distinct_terms(seen, term_views(out@)),
        decreases own@.len(),
    {
        let t = own.remove(0);
        let ghost next = seen.push(t@);
        add_term(&mut out, t, Ghost(seen));
        proof {
            assert(own@ =~= given.skip(done + 1));
            seen = next;
            assert(seen =~= named + all.take(done + 1));
            done = done + 1;
        }
    }
    assert(all.take(all.len() as int) =~= all);
    out
}

// ---------------------------------------------------------------------------
// Matching
// ---------------------------------------------------------------------------
/// How a document matches a query.
pub struct DocumentMatch {
    /// How many terms the document has.
    pub len: usize,
    /// How often each term of the query occurs in it.
    pub counts: Vec<usize>,
    /// Whether a full term of the query occurs in it. Weak terms alone never make
    /// a match.
    pub strong: bool,
}

/// How documents match a query: its terms, in how many documents each occurs,
/// and what each document has of them.
pub struct Matches {
    pub query: Vec<Term>,
    pub frequency: Vec<usize>,
    pub documents: Vec<DocumentMatch>,
}

/// How often a term occurs.
pub open spec fn occurrences(terms: Seq<TermView>, t: Seq<char>) -> nat
    decreases terms.len(),
{
    if terms.len() == 0 {
        0
    } else {
        occurrences(terms.drop_last(), t) + if terms.last().text == t {
            1nat
        } else {
            0nat
        }
    }
}

/// In how many documents a term occurs.
pub open spec fn document_frequency(documents: Seq<Document>, t: Seq<char>) -> nat
    decreases documents.len(),
{
    if documents.len() == 0 {
        0
    } else {
        document_frequency(documents.drop_last(), t) + if occurrences(
            document_terms_of(documents.last()),
            t,
        ) > 0 {
            1nat
        } else {
            0nat
        }
    }
}

pub open spec fn document_matches(
    m: DocumentMatch,
    document: Document,
    query: Seq<TermView>,
) -> bool {
    &&& m.len == document_terms_of(document).len()
    &&& m.counts@.len() == query.len()
    &&& forall|k: int|
        0 <= k < query.len() ==> (#[trigger] m.counts@[k]) == occurrences(
            document_terms_of(document),
            query[k].text,
        )
    &&& m.strong == exists|k: int|
        0 <= k < query.len() && !(#[trigger] query[k]).weak && occurrences(
            document_terms_of(document),
            query[k].text,
        ) > 0
}

fn count_term(terms: &Vec<Term>, t: &str) -> (r: usize)
    ensures
        r == occurrences(term_views(terms@), t@),
{
    let ghost all = term_views(terms@);
    let mut count: usize = 0;
    let mut i: usize = 0;
    assert(all.take(0) =~= Seq::empty());
    while i < terms.len()
        invariant
            i <= terms@.len(),
            all == term_views(terms@),
            count <= i,
            count == occurrences(all.take(i as int), t@),
        decreases terms@.len() - i,
    {
        assert(all.take(i + 1).drop_last() =~= all.take(i as int));
        if text::eq(terms[i].text.as_str(), t) {
            count = count + 1;
        }
        i = i + 1;
    }
    assert(all.take(all.len() as int) =~= all);
    count
}

fn match_document(document: &Document, query: &Vec<Term>) -> (r: DocumentMatch)
    ensures
        document_matches(r, *document, term_views(query@)),
{
    let own = document_terms(document);
    let ghost all = document_terms_of(*document);
    let ghost asked = term_views(query@);
    let mut counts: Vec<usize> = Vec::new();
    let mut strong = false;
    let mut k: usize = 0;
    while k < query.len()
        invariant
            k <= query@.len(),
            all == term_views(own@),
            asked == term_views(query@),
            counts@.len() == k,
            forall|m: int|
                0 <= m < k ==> (#[trigger] counts@[m]) == occurrences(all, asked[m].text),
            strong == exists|m: int|
                0 <= m < k && !(#[trigger] asked[m]).weak && occurrences(all, asked[m].text) > 0,
        decreases query@.len() - k,
    {
        let count = count_term(&own, query[k].text.as_str());
        assert(asked[k as int] == query@[k as int]@);
        if count > 0 && !query[k].weak {
            strong = true;
        }
        counts.push(count);
        k = k + 1;
    }
    DocumentMatch { len: own.len(), counts, strong }
}

/// Matches documents with a query.
pub fn match_all(query: &str, documents: &Vec<Document>) -> (r: Matches)
    ensures
        distinct_terms(evidence(query@, documents@), term_views(r.query@)),
        r.frequency@.len() == r.query@.len(),
        forall|k: int|
            0 <= k < r.query@.len() ==> (#[trigger] r.frequency@[k]) == document_frequency(
                documents@,
                r.query@[k].text@,
            ),
        r.documents@.len() == documents@.len(),
        forall|i: int|
            0 <= i < documents@.len() ==> document_matches(
                #[trigger] r.documents@[i],
                documents@[i],
                term_views(r.query@),
            ),
{
    let asked = query_terms(query, documents);
    let ghost views = term_views(asked@);
    let mut matched: Vec<DocumentMatch> = Vec::new();
    let mut i: usize = 0;
    while i < documents.len()
        invariant
            i <= documents@.len(),
            views == term_views(asked@),
            matched@.len() == i,
            forall|k: int|
                0 <= k < i ==> document_matches(#[trigger] matched@[k], documents@[k], views),
        decreases documents@.len() - i,
    {
        matched.push(match_document(&documents[i], &asked));
        i = i + 1;
    }
    let mut frequency: Vec<usize> = Vec::new();
    let mut k: usize = 0;
    while k < asked.len()
        invariant
            k <= asked@.len(),
            views == term_views(asked@),
            matched@.len() == documents@.len(),
            forall|m: int|
                0 <= m < documents@.len() ==> document_matches(
                    #[trigger] matched@[m],
                    documents@[m],
                    views,
                ),
            frequency@.len() == k,
            forall|m: int|
                0 <= m < k ==> (#[trigger] frequency@[m]) == document_frequency(
                    documents@,
                    asked@[m].text@,
                ),
        decreases asked@.len() - k,
    {
        let mut n: usize = 0;
        let mut d: usize = 0;
        let ghost t = asked@[k as int].text@;
        assert(documents@.take(0) =~= Seq::empty());
        while d < matched.len()
            invariant
                k < asked@.len(),
                d <= documents@.len(),
                n <= d,
                views == term_views(asked@),
                t == asked@[k as int].text@,
                matched@.len() == documents@.len(),
                forall|m: int|
                    0 <= m < documents@.len() ==> document_matches(
                        #[trigger] matched@[m],
                        documents@[m],
                        views,
                    ),
                n == document_frequency(documents@.take(d as int), t),
            decreases matched@.len() - d,
        {
            assert(documents@.take(d + 1).drop_last() =~= documents@.take(d as int));
            assert(document_matches(matched@[d as int], documents@[d as int], views));
            assert(views[k as int].text == t);
            if matched[d].counts[k] > 0 {
                n = n + 1;
            }
            d = d + 1;
        }
        assert(documents@.take(documents@.len() as int) =~= documents@);
        frequency.push(n);
        k = k + 1;
    }
    Matches { query: asked, frequency, documents: matched }
}

// ---------------------------------------------------------------------------
// Laws
// ---------------------------------------------------------------------------
/// The distinct terms of doubled evidence are those of the evidence.
proof fn doubled_evidence(all: Seq<TermView>, distinct: Seq<TermView>)
    requires
        distinct_terms(all, distinct),
    ensures
        distinct_terms(all + all, distinct),
{
    let twice = all + all;
    assert forall|t: Seq<char>| #[trigger] has_term(twice, t) <==> has_term(all, t) by {
        if has_term(all, t) {
            let k = choose|k: int| 0 <= k < all.len() && (#[trigger] all[k]).text == t;
            assert(twice[k].text == t);
        }
        if has_term(twice, t) {
            let k = choose|k: int| 0 <= k < twice.len() && (#[trigger] twice[k]).text == t;
            let m = if k < all.len() {
                k
            } else {
                k - all.len()
            };
            assert(all[m].text == t);
        }
    }
    assert forall|t: Seq<char>| #[trigger] has_full_term(twice, t) <==> has_full_term(all, t) by {
        if has_full_term(all, t) {
            let k = choose|k: int|
                0 <= k < all.len() && (#[trigger] all[k]).text == t && !all[k].weak;
            assert(twice[k].text == t);
        }
        if has_full_term(twice, t) {
            let k = choose|k: int|
                0 <= k < twice.len() && (#[trigger] twice[k]).text == t && !twice[k].weak;
            let m = if k < all.len() {
                k
            } else {
                k - all.len()
            };
            assert(all[m].text == t);
        }
    }
    assert forall|t: Seq<char>| #[trigger] has_term(twice, t) <==> has_term(distinct, t) by {
        assert(has_term(all, t) <==> has_term(distinct, t));
    }
    assert forall|i: int| 0 <= i < distinct.len() implies (#[trigger] distinct[i]).weak
        == !has_full_term(twice, distinct[i].text) by {
        assert(distinct[i].weak == !has_full_term(all, distinct[i].text));
    }
}

proof fn a_space_ends_words(s: Seq<char>)
    ensures
        reading(s.push(' ')) == (Reading {
            done: terms_of(s),
            word: Seq::empty(),
            run: Seq::empty(),
        }),
{
    assert(s.push(' ').drop_last() =~= s);
    assert(!text::cjk(' ') && !text::alphanumeric(' '));
}

proof fn reading_goes_on(s: Seq<char>, t: Seq<char>)
    requires
        reading(s).word.len() == 0,
        reading(s).run.len() == 0,
    ensures
        reading(s + t) == (Reading {
            done: reading(s).done + reading(t).done,
            word: reading(t).word,
            run: reading(t).run,
        }),
    decreases t.len(),
{
    if t.len() == 0 {
        assert(s + t =~= s);
        assert(reading(s).word =~= Seq::empty());
        assert(reading(s).run =~= Seq::empty());
        assert(reading(s).done + reading(t).done =~= reading(s).done);
    } else {
        reading_goes_on(s, t.drop_last());
        assert((s + t).drop_last() =~= s + t.drop_last());
        assert((s + t).last() == t.last());
        let first = reading(s).done;
        let r = reading(t.drop_last());
        assert(first + (r.done + word_terms(r.word)) =~= (first + r.done) + word_terms(r.word));
        assert(first + (r.done + run_terms(r.run)) =~= (first + r.done) + run_terms(r.run));
        assert(first + (r.done + word_terms(r.word) + run_terms(r.run)) =~= (first + r.done)
            + word_terms(r.word) + run_terms(r.run));
    }
}

/// The terms of two texts with a space between are those of the one and then those
/// of the other.
pub proof fn a_space_parts_terms(s: Seq<char>, t: Seq<char>)
    ensures
        terms_of(s + " "@ + t) == terms_of(s) + terms_of(t),
{
    reveal_strlit(" ");
    assert(s + " "@ =~= s.push(' '));
    a_space_ends_words(s);
    reading_goes_on(s + " "@, t);
    let end = reading(t);
    assert((terms_of(s) + end.done) + word_terms(end.word) + run_terms(end.run) =~= terms_of(s)
        + (end.done + word_terms(end.word) + run_terms(end.run)));
}

/// Evidence has one list of distinct terms.
proof fn distinct_terms_are_one_list(all: Seq<TermView>, a: Seq<TermView>, b: Seq<TermView>)
    requires
        distinct_terms(all, a),
        distinct_terms(all, b),
    ensures
        a == b,
{
    assert forall|t: Seq<char>| #[trigger] has_term(a, t) <==> has_term(b, t) by {
        assert(has_term(all, t) <==> has_term(a, t));
        assert(has_term(all, t) <==> has_term(b, t));
    }
    sorted_texts_are_one_list(a, b);
    assert forall|i: int| 0 <= i < a.len() implies a[i] == b[i] by {
        assert(a[i].text == b[i].text);
        assert(a[i].weak == !has_full_term(all, a[i].text));
        assert(b[i].weak == !has_full_term(all, b[i].text));
    }
    assert(a =~= b);
}

pub open spec fn in_text_order(terms: Seq<TermView>) -> bool {
    forall|i: int, j: int|
        0 <= i < j < terms.len() ==> text::precedes(
            (#[trigger] terms[i]).text,
            (#[trigger] terms[j]).text,
        )
}

proof fn last_text_is_last(terms: Seq<TermView>, other: Seq<TermView>)
    requires
        in_text_order(terms),
        in_text_order(other),
        terms.len() > 0,
        other.len() > 0,
        has_term(other, terms.last().text),
        has_term(terms, other.last().text),
    ensures
        terms.last().text == other.last().text,
{
    let x = terms.last().text;
    let y = other.last().text;
    let j = choose|j: int| 0 <= j < other.len() && (#[trigger] other[j]).text == x;
    let i = choose|i: int| 0 <= i < terms.len() && (#[trigger] terms[i]).text == y;
    if x != y {
        assert(other[other.len() - 1].text == y);
        assert(terms[terms.len() - 1].text == x);
        assert(text::precedes(other[j].text, other[other.len() - 1].text));
        assert(text::precedes(terms[i].text, terms[terms.len() - 1].text));
        text::texts_are_ordered(x, y);
    }
}

proof fn sorted_texts_are_one_list(a: Seq<TermView>, b: Seq<TermView>)
    requires
        in_text_order(a),
        in_text_order(b),
        forall|t: Seq<char>| #[trigger] has_term(a, t) <==> has_term(b, t),
    ensures
        a.len() == b.len(),
        forall|i: int| 0 <= i < a.len() ==> (#[trigger] a[i]).text == b[i].text,
    decreases a.len(),
{
    if a.len() == 0 {
        if b.len() > 0 {
            assert(b[0].text == b[0].text);
            assert(has_term(b, b[0].text));
            assert(has_term(a, b[0].text));
        }
    } else {
        assert(a[a.len() - 1].text == a.last().text);
        assert(has_term(a, a.last().text));
        assert(has_term(b, a.last().text));
        assert(b.len() > 0);
        assert(b[b.len() - 1].text == b.last().text);
        assert(has_term(b, b.last().text));
        last_text_is_last(a, b);
        let c = a.drop_last();
        let d = b.drop_last();
        assert forall|t: Seq<char>| #[trigger] has_term(c, t) <==> has_term(d, t) by {
            shorter_list(a, t);
            shorter_list(b, t);
            assert(has_term(a, t) <==> has_term(b, t));
        }
        assert forall|i: int, j: int| 0 <= i < j < c.len() implies text::precedes(
            (#[trigger] c[i]).text,
            (#[trigger] c[j]).text,
        ) by {
            assert(c[i] == a[i] && c[j] == a[j]);
        }
        assert forall|i: int, j: int| 0 <= i < j < d.len() implies text::precedes(
            (#[trigger] d[i]).text,
            (#[trigger] d[j]).text,
        ) by {
            assert(d[i] == b[i] && d[j] == b[j]);
        }
        sorted_texts_are_one_list(c, d);
        assert forall|i: int| 0 <= i < a.len() implies (#[trigger] a[i]).text == b[i].text by {
            if i < c.len() {
                assert(c[i] == a[i] && d[i] == b[i]);
            }
        }
    }
}

/// Without its last text a list in order has all the others.
proof fn shorter_list(terms: Seq<TermView>, t: Seq<char>)
    requires
        in_text_order(terms),
        terms.len() > 0,
    ensures
        has_term(terms.drop_last(), t) <==> has_term(terms, t) && t != terms.last().text,
{
    let short = terms.drop_last();
    if has_term(short, t) {
        let k = choose|k: int| 0 <= k < short.len() && (#[trigger] short[k]).text == t;
        assert(terms[k].text == t);
        assert(text::precedes(terms[k].text, terms[terms.len() - 1].text));
        text::texts_are_ordered(t, terms.last().text);
    }
    if has_term(terms, t) && t != terms.last().text {
        let k = choose|k: int| 0 <= k < terms.len() && (#[trigger] terms[k]).text == t;
        assert(short[k].text == t);
    }
}

proof fn nothing_is_named(query: Seq<char>, documents: Seq<Document>)
    requires
        forall|i: int| 0 <= i < documents.len() ==> (#[trigger] documents[i]).concepts@.len() == 0,
    ensures
        all_named_terms(query, documents).len() == 0,
    decreases documents.len(),
{
    if documents.len() > 0 {
        let before = documents.drop_last();
        assert forall|i: int| 0 <= i < before.len() implies (#[trigger] before[i]).concepts@.len()
            == 0 by {
            assert(before[i] == documents[i]);
        }
        nothing_is_named(query, before);
        assert(documents[documents.len() - 1].concepts@.len() == 0);
    }
}

/// A query that says everything twice is no more evidence than one that says it
/// once: `once` and `twice`, the terms of a query and of that query repeated, are
/// the same, where no document names a concept.
pub proof fn repeating_is_no_evidence(
    query: Seq<char>,
    documents: Seq<Document>,
    once: Seq<TermView>,
    twice: Seq<TermView>,
)
    requires
        forall|i: int| 0 <= i < documents.len() ==> (#[trigger] documents[i]).concepts@.len() == 0,
        distinct_terms(evidence(query, documents), once),
        distinct_terms(evidence(query + " "@ + query, documents), twice),
    ensures
        once == twice,
{
    let said = query + " "@ + query;
    a_space_parts_terms(query, query);
    nothing_is_named(text::lowercased(query), documents);
    nothing_is_named(text::lowercased(said), documents);
    let all = evidence(query, documents);
    assert(all =~= terms_of(query));
    assert(evidence(said, documents) =~= all + all);
    doubled_evidence(all, once);
    distinct_terms_are_one_list(all + all, once, twice);
}

// ---------------------------------------------------------------------------
// Laws of matching
// ---------------------------------------------------------------------------
/// A run of a script without spaces has as terms each of its characters, and each
/// pair of neighbours. A character in a longer run is weak; all else is full.
pub proof fn runs_are_their_characters_and_pairs(s: Seq<char>, i: int)
    requires
        forall|k: int| 0 <= k < s.len() ==> text::cjk(#[trigger] s[k]),
        0 <= i < s.len(),
    ensures
        terms_of(s).len() == 2 * s.len() - 1,
        terms_of(s).contains(TermView { text: seq![s[i]], weak: s.len() > 1 }),
        i + 1 < s.len() ==> terms_of(s).contains(
            TermView { text: s.subrange(i, i + 2), weak: false },
        ),
{
    runs_stay_open(s);
    let all = terms_of(s);
    assert(all =~= single_terms(s) + pair_terms(s));
    assert(all[i] == TermView { text: seq![s[i]], weak: s.len() > 1 });
    if i + 1 < s.len() {
        assert(seq![s[i]].push(s[i + 1]) =~= s.subrange(i, i + 2));
        assert(all[s.len() + i] == TermView { text: s.subrange(i, i + 2), weak: false });
    }
}

proof fn runs_stay_open(s: Seq<char>)
    requires
        forall|k: int| 0 <= k < s.len() ==> text::cjk(#[trigger] s[k]),
    ensures
        reading(s) == (Reading { done: Seq::empty(), word: Seq::empty(), run: s }),
    decreases s.len(),
{
    if s.len() > 0 {
        runs_stay_open(s.drop_last());
        assert(text::cjk(s[s.len() - 1]));
        assert(s.drop_last().push(s.last()) =~= s);
        assert(reading(s) =~= Reading { done: Seq::empty(), word: Seq::empty(), run: s });
    } else {
        assert(reading(s) =~= Reading { done: Seq::empty(), word: Seq::empty(), run: s });
    }
}

/// Letters and digits in a row are one full term, in lower case. A single one is
/// none.
pub proof fn words_are_terms(s: Seq<char>)
    requires
        s.len() > 0,
        forall|i: int|
            0 <= i < s.len() ==> ('a' <= (#[trigger] s[i]) <= 'z' || 'A' <= s[i] <= 'Z' || '0'
                <= s[i] <= '9'),
    ensures
        s.len() == 1 ==> terms_of(s).len() == 0,
        s.len() >= 2 ==> terms_of(s) == seq![TermView { text: text::ascii_lower(s), weak: false }],
{
    words_stay_open(s);
    assert(run_terms(Seq::empty()) =~= Seq::empty());
    if s.len() >= 2 {
        assert(terms_of(s) =~= seq![TermView { text: text::ascii_lower(s), weak: false }]);
    }
}

proof fn words_stay_open(s: Seq<char>)
    requires
        forall|i: int|
            0 <= i < s.len() ==> ('a' <= (#[trigger] s[i]) <= 'z' || 'A' <= s[i] <= 'Z' || '0'
                <= s[i] <= '9'),
    ensures
        reading(s) == (Reading {
            done: Seq::empty(),
            word: text::ascii_lower(s),
            run: Seq::empty(),
        }),
    decreases s.len(),
{
    if s.len() == 0 {
        assert(text::ascii_lower(s) =~= Seq::empty());
    } else {
        words_stay_open(s.drop_last());
        let c = s[s.len() - 1];
        assert(text::ascii_lower(s) =~= text::ascii_lower(s.drop_last()) + seq![
            text::ascii_lower_char(c),
        ]);
        assert(run_terms(Seq::empty()) =~= Seq::empty());
        assert(reading(s) =~= Reading {
            done: Seq::empty(),
            word: text::ascii_lower(s),
            run: Seq::empty(),
        });
    }
}

/// A name is mentioned wherever it stands between other signs than letters and
/// digits, or at an end. One in a script without spaces is mentioned wherever it
/// occurs. Nothing is mentioned that does not occur.
pub proof fn names_stand_apart(a: Seq<char>, form: Seq<char>, b: Seq<char>)
    requires
        form.len() > 0,
    ensures
        (a.len() == 0 || !text::alphanumeric(a.last()) || text::cjk(a.last())) && (b.len() == 0
            || !text::alphanumeric(b[0]) || text::cjk(b[0])) ==> mentioned(a + form + b, form),
        has_cjk(form) ==> mentioned(a + form + b, form),
        mentioned(a, form) ==> text::contains_text(a, form),
        !mentioned(a, Seq::empty()),
{
    let s = a + form + b;
    let k = a.len() as int;
    assert(s.subrange(k, k + form.len()) =~= form);
    assert(text::occurs_at(s, form, k));
    if (a.len() == 0 || !text::alphanumeric(a.last()) || text::cjk(a.last())) && (b.len() == 0
        || !text::alphanumeric(b[0]) || text::cjk(b[0])) {
        if a.len() > 0 {
            assert(s[k - 1] == a.last());
        }
        if b.len() > 0 {
            assert(s[k + form.len()] == b[0]);
        }
        assert(stands_at(s, form, k));
    }
    if mentioned(a, form) && !has_cjk(form) {
        let k = choose|k: int| #[trigger] stands_at(a, form, k);
        assert(text::occurs_at(a, form, k));
    }
}

/// A name inside a longer word is not mentioned.
pub proof fn names_inside_words_are_not_mentioned(s: Seq<char>, form: Seq<char>)
    requires
        forall|i: int|
            0 <= i < s.len() ==> text::alphanumeric(#[trigger] s[i]) && !text::cjk(s[i]),
        !has_cjk(form),
        form.len() != s.len(),
    ensures
        !mentioned(s, form),
{
    if mentioned(s, form) {
        let k = choose|k: int| #[trigger] stands_at(s, form, k);
        assert(text::occurs_at(s, form, k));
        if k > 0 {
            assert(text::alphanumeric(s[k - 1]) && !text::cjk(s[k - 1]));
        } else {
            assert(text::alphanumeric(s[form.len() as int]) && !text::cjk(s[form.len() as int]));
        }
    }
}

/// A concept is named by its name and by each of its other names, whatever their
/// case, and by nothing else.
pub proof fn concepts_are_named_by_any_name(s: Seq<char>, concept: Concept, i: int)
    ensures
        mentioned(s, text::lowercased(concept.name@)) ==> names_concept(s, concept),
        0 <= i < concept.aliases@.len() && mentioned(
            s,
            text::lowercased(concept.aliases@[i]@),
        ) ==> names_concept(s, concept),
        names_concept(s, concept) ==> mentioned(s, text::lowercased(concept.name@)) || exists|
            k: int,
        |
            0 <= k < concept.aliases@.len() && mentioned(
                s,
                text::lowercased((#[trigger] concept.aliases@[k])@),
            ),
{
    if 0 <= i < concept.aliases@.len() {
        assert(concept.aliases@[i] == concept.aliases@[i]);
    }
}

proof fn occurrences_are_had(terms: Seq<TermView>, t: Seq<char>)
    ensures
        occurrences(terms, t) > 0 <==> has_term(terms, t),
        occurrences(terms, t) <= terms.len(),
    decreases terms.len(),
{
    if terms.len() > 0 {
        let front = terms.drop_last();
        occurrences_are_had(front, t);
        if has_term(front, t) {
            let k = choose|k: int| 0 <= k < front.len() && (#[trigger] front[k]).text == t;
            assert(terms[k].text == t);
        }
        if terms.last().text == t {
            assert(terms[terms.len() - 1].text == t);
        }
        if has_term(terms, t) && terms.last().text != t {
            let k = choose|k: int| 0 <= k < terms.len() && (#[trigger] terms[k]).text == t;
            assert(front[k].text == t);
        }
    }
}

/// A term is counted each time that it occurs: as often as in the parts of a text
/// together, once where it is the text, and not at all where it is not there.
pub proof fn terms_are_counted(a: Seq<TermView>, b: Seq<TermView>, t: Seq<char>)
    ensures
        occurrences(a + b, t) == occurrences(a, t) + occurrences(b, t),
        occurrences(seq![TermView { text: t, weak: false }], t) == 1,
        occurrences(seq![TermView { text: t, weak: true }], t) == 1,
        occurrences(a, t) > 0 <==> has_term(a, t),
    decreases b.len(),
{
    occurrences_are_had(a, t);
    reveal_with_fuel(occurrences, 2);
    if b.len() == 0 {
        assert(a + b =~= a);
    } else {
        terms_are_counted(a, b.drop_last(), t);
        assert((a + b).drop_last() =~= a + b.drop_last());
        assert((a + b).last() == b.last());
    }
}

/// In how many documents a term occurs: in one more for each document that has it.
pub proof fn documents_are_counted_once(documents: Seq<Document>, last: Document, t: Seq<char>)
    ensures
        document_frequency(documents.push(last), t) == document_frequency(documents, t) + (
        if has_term(document_terms_of(last), t) {
            1nat
        } else {
            0nat
        }),
        document_frequency(Seq::empty(), t) == 0,
{
    assert(documents.push(last).drop_last() =~= documents);
    occurrences_are_had(document_terms_of(last), t);
}

/// A document matches where it has a full term of the query, and only there: terms
/// that are weak in the query never make a match by themselves.
pub proof fn documents_match_by_full_terms(
    query: Seq<char>,
    documents: Seq<Document>,
    distinct: Seq<TermView>,
    m: DocumentMatch,
    document: Document,
    t: Seq<char>,
)
    requires
        distinct_terms(evidence(query, documents), distinct),
        document_matches(m, document, distinct),
    ensures
        has_full_term(terms_of(query), t) && has_term(document_terms_of(document), t) ==> m.strong,
        m.strong ==> exists|u: Seq<char>|
            #[trigger] has_full_term(evidence(query, documents), u) && has_term(
                document_terms_of(document),
                u,
            ),
{
    let all = evidence(query, documents);
    let named = all_named_terms(text::lowercased(query), documents);
    let own = terms_of(query);
    if has_full_term(own, t) && has_term(document_terms_of(document), t) {
        let k = choose|k: int| 0 <= k < own.len() && (#[trigger] own[k]).text == t && !own[k].weak;
        assert(all[named.len() + k] == own[k]);
        full_terms_match(all, distinct, m, document, t);
    }
    if m.strong {
        let k = choose|k: int|
            0 <= k < distinct.len() && !(#[trigger] distinct[k]).weak && occurrences(
                document_terms_of(document),
                distinct[k].text,
            ) > 0;
        occurrences_are_had(document_terms_of(document), distinct[k].text);
        assert(has_full_term(all, distinct[k].text));
    }
}

proof fn full_terms_match(
    all: Seq<TermView>,
    distinct: Seq<TermView>,
    m: DocumentMatch,
    document: Document,
    t: Seq<char>,
)
    requires
        distinct_terms(all, distinct),
        document_matches(m, document, distinct),
        has_full_term(all, t),
        has_term(document_terms_of(document), t),
    ensures
        m.strong,
{
    let k = choose|k: int| 0 <= k < all.len() && (#[trigger] all[k]).text == t && !all[k].weak;
    assert(has_term(all, t));
    assert(has_term(distinct, t));
    let j = choose|j: int| 0 <= j < distinct.len() && (#[trigger] distinct[j]).text == t;
    assert(!distinct[j].weak);
    occurrences_are_had(document_terms_of(document), t);
}

/// Naming a concept finds every document about it, whatever words the document
/// itself uses.
pub proof fn naming_a_concept_finds_its_documents(
    query: Seq<char>,
    documents: Seq<Document>,
    distinct: Seq<TermView>,
    m: DocumentMatch,
    d: int,
    c: int,
)
    requires
        distinct_terms(evidence(query, documents), distinct),
        0 <= d < documents.len(),
        document_matches(m, documents[d], distinct),
        0 <= c < documents[d].concepts@.len(),
        names_concept(text::lowercased(query), documents[d].concepts@[c]),
    ensures
        m.strong,
{
    let all = evidence(query, documents);
    let q = text::lowercased(query);
    let t = concept_text(documents[d].concepts@[c].name@);
    concepts_are_named_in_documents(q, documents, d, c);
    let named = all_named_terms(q, documents);
    let k = choose|k: int| 0 <= k < named.len() && (#[trigger] named[k]).text == t && !named[k].weak;
    assert(all[k] == named[k]);
    let own = document_terms_of(documents[d]);
    assert(own[terms_of(documents[d].text@).len() + c].text == t);
    full_terms_match(all, distinct, m, documents[d], t);
}

proof fn concept_is_among_the_named(query: Seq<char>, concepts: Seq<Concept>, c: int)
    requires
        0 <= c < concepts.len(),
        names_concept(query, concepts[c]),
    ensures
        has_full_term(named_terms(query, concepts), concept_text(concepts[c].name@)),
    decreases concepts.len(),
{
    let all = named_terms(query, concepts);
    let t = concept_text(concepts[c].name@);
    if c == concepts.len() - 1 {
        assert(all[all.len() - 1].text == t);
    } else {
        concept_is_among_the_named(query, concepts.drop_last(), c);
        let before = named_terms(query, concepts.drop_last());
        let k = choose|k: int|
            0 <= k < before.len() && (#[trigger] before[k]).text == t && !before[k].weak;
        assert(all[k] == before[k]);
    }
}

proof fn concepts_are_named_in_documents(
    query: Seq<char>,
    documents: Seq<Document>,
    d: int,
    c: int,
)
    requires
        0 <= d < documents.len(),
        0 <= c < documents[d].concepts@.len(),
        names_concept(query, documents[d].concepts@[c]),
    ensures
        has_full_term(
            all_named_terms(query, documents),
            concept_text(documents[d].concepts@[c].name@),
        ),
    decreases documents.len(),
{
    let t = concept_text(documents[d].concepts@[c].name@);
    let all = all_named_terms(query, documents);
    let before = all_named_terms(query, documents.drop_last());
    let own = named_terms(query, documents.last().concepts@);
    if d == documents.len() - 1 {
        concept_is_among_the_named(query, documents[d].concepts@, c);
        let k = choose|k: int|
            0 <= k < own.len() && (#[trigger] own[k]).text == t && !own[k].weak;
        assert(all[before.len() + k] == own[k]);
    } else {
        concepts_are_named_in_documents(query, documents.drop_last(), d, c);
        let k = choose|k: int|
            0 <= k < before.len() && (#[trigger] before[k]).text == t && !before[k].weak;
        assert(all[k] == before[k]);
    }
}

} // verus!
