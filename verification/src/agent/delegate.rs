//! Handing work off from a private conversation: a line of the form
//! `[[work: …]]` is taken out of a reply and becomes an instruction.
use crate::text;
use vstd::prelude::*;

verus! {

pub const MAX_INSTRUCTION_CHARS: usize = 500;

/// The first finished hand-off line: where it begins, where its inside ends.
pub open spec fn hand_off_in(s: Seq<char>) -> Option<(int, int)> {
    match text::find_from(s, "[[work:"@, 0) {
        Some(start) => match text::find_from(s, "]]"@, start + 7) {
            Some(close) => Some((start, close)),
            None => None,
        },
        None => None,
    }
}

/// What a hand-off line says.
pub open spec fn instruction_of(s: Seq<char>, start: int, close: int) -> Seq<char> {
    text::at_most(text::trimmed(s.subrange(start + 7, close)), MAX_INSTRUCTION_CHARS as nat)
}

/// The text without its finished hand-off lines, and what the last of them that
/// says something says.
pub open spec fn taken_out(s: Seq<char>, last: Option<Seq<char>>) -> (Seq<char>, Option<Seq<char>>)
    decreases s.len(),
{
    match hand_off_in(s) {
        Some(at) => {
            let rest = s.take(at.0) + s.skip(at.1 + 2);
            let said = instruction_of(s, at.0, at.1);
            if rest.len() < s.len() {
                taken_out(
                    rest,
                    if said.len() > 0 {
                        Some(said)
                    } else {
                        last
                    },
                )
            } else {
                (s, last)
            }
        },
        None => (s, last),
    }
}

proof fn hand_off_is_inside(s: Seq<char>)
    ensures
        hand_off_in(s) matches Some(at) ==> 0 <= at.0 && at.0 + 7 <= at.1 && at.1 + 2 <= s.len(),
{
    reveal_strlit("[[work:");
    reveal_strlit("]]");
    text::find_from_is_first(s, "[[work:"@, 0);
    if let Some(start) = text::find_from(s, "[[work:"@, 0) {
        text::find_from_is_first(s, "]]"@, start + 7);
    }
}

/// Takes hand-off lines out of a reply.
pub fn split(raw: &str) -> (r: (String, Option<String>))
    ensures
        r.0@ == text::trim_end_of(taken_out(raw@, None).0),
        text::opt_view(r.1) == taken_out(raw@, None).1,
{
    let open = text::chars_of("[[work:");
    let close = text::chars_of("]]");
    let mut rest: Vec<char> = text::chars_of(raw);
    let mut instruction: Option<String> = None;
    proof {
        reveal_strlit("[[work:");
        reveal_strlit("]]");
    }
    loop
        invariant_except_break
            taken_out(raw@, None) == taken_out(rest@, text::opt_view(instruction)),
        invariant
            open@ == "[[work:"@,
            close@ == "]]"@,
            open@.len() == 7,
            close@.len() == 2,
        ensures
            taken_out(raw@, None) == (rest@, text::opt_view(instruction)),
        decreases rest@.len(),
    {
        proof {
            hand_off_is_inside(rest@);
        }
        let len = rest.len();
        let start = match text::find_chars(&rest, &open, 0) {
            Some(start) => start,
            None => break ,
        };
        let end = match text::find_chars(&rest, &close, start + 7) {
            Some(end) => end,
            None => break ,
        };
        proof {
            assert(hand_off_in(rest@) == Some((start as int, end as int)));
        }
        let inner = text::string_of(&rest, start + 7, end);
        let said = text::trim(inner.as_str());
        let said = text::take_chars(said.as_str(), MAX_INSTRUCTION_CHARS);
        let ghost before = rest@;
        let mut left: Vec<char> = Vec::new();
        let mut i: usize = 0;
        while i < start
            invariant
                i <= start <= rest@.len(),
                left@ == rest@.take(i as int),
            decreases start - i,
        {
            left.push(rest[i]);
            assert(rest@.take(i + 1) =~= rest@.take(i as int).push(rest@[i as int]));
            i = i + 1;
        }
        let mut k: usize = end + 2;
        assert(rest@.take(start as int) + rest@.subrange(k as int, k as int) =~= rest@.take(
            start as int,
        ));
        while k < len
            invariant
                end + 2 <= k <= rest@.len(),
                len == rest@.len(),
                left@ == rest@.take(start as int) + rest@.subrange(end + 2, k as int),
            decreases rest@.len() - k,
        {
            left.push(rest[k]);
            assert(rest@.subrange(end + 2, k + 1) =~= rest@.subrange(end + 2, k as int).push(
                rest@[k as int],
            ));
            assert(rest@.take(start as int) + rest@.subrange(end + 2, k + 1) =~= (rest@.take(
                start as int,
            ) + rest@.subrange(end + 2, k as int)).push(rest@[k as int]));
            k = k + 1;
        }
        assert(left@ =~= before.take(start as int) + before.skip(end + 2));
        if !said.as_str().is_empty() {
            instruction = Some(said);
        }
        rest = left;
    }
    let spoken = text::string_of(&rest, 0, rest.len());
    assert(spoken@ =~= rest@);
    (text::trim_end(spoken.as_str()), instruction)
}

/// No finished hand-off line is left in what is said.
pub proof fn nothing_handed_off_is_said(s: Seq<char>, last: Option<Seq<char>>)
    ensures
        hand_off_in(taken_out(s, last).0) is None,
    decreases s.len(),
{
    hand_off_is_inside(s);
    if let Some(at) = hand_off_in(s) {
        let rest = s.take(at.0) + s.skip(at.1 + 2);
        let said = instruction_of(s, at.0, at.1);
        nothing_handed_off_is_said(
            rest,
            if said.len() > 0 {
                Some(said)
            } else {
                last
            },
        );
    }
}

/// A conversation in which work can be handed off.
pub struct ChannelChat {
    /// Whether something handed off is still being done.
    pub busy: bool,
    /// What was handed off, fenced off as untrusted text.
    pub handed_off: Option<String>,
}

pub open spec fn section_lines(chat: ChannelChat) -> Seq<Seq<char>> {
    let lines = seq!["## Getting things done"@].push(helper_rule()@);
    let lines = if chat.busy {
        lines.push(busy_rule()@)
    } else {
        lines
    };
    match chat.handed_off {
        Some(block) => lines.push(block@),
        None => lines,
    }
}

pub open spec fn helper_rule() -> &'static str {
    "You cannot use tools yourself in this chat, but a helper can: looking things up on the web, working with their data on this site, making or changing things for them. When they ask you to get something like that done, say in a few words that you are on it, and put [[work: what exactly to do, in one line, keeping their own words]] on its own last line. The helper does it with their permissions; any question or confirmation it needs goes to them directly, and the result comes back to them. If it is your own idea, ask first and hand it off only after they say yes. Do not hand off plain conversation. Do not read that line aloud."
}

pub open spec fn busy_rule() -> &'static str {
    "Something you handed off is still being done: do not hand off anything new until it is back; say it is still on it."
}

/// What a speaker in such a conversation knows about handing work off.
pub fn section(chat: &ChannelChat) -> (r: String)
    ensures
        r@ == text::joined(section_lines(*chat), "\n"@),
{
    let mut lines: Vec<String> = Vec::new();
    lines.push("## Getting things done".to_owned());
    lines.push(
        "You cannot use tools yourself in this chat, but a helper can: looking things up on the web, working with their data on this site, making or changing things for them. When they ask you to get something like that done, say in a few words that you are on it, and put [[work: what exactly to do, in one line, keeping their own words]] on its own last line. The helper does it with their permissions; any question or confirmation it needs goes to them directly, and the result comes back to them. If it is your own idea, ask first and hand it off only after they say yes. Do not hand off plain conversation. Do not read that line aloud.".to_owned(),
    );
    if chat.busy {
        lines.push(
            "Something you handed off is still being done: do not hand off anything new until it is back; say it is still on it.".to_owned(),
        );
    }
    if let Some(block) = &chat.handed_off {
        lines.push(block.clone());
    }
    assert(text::views(lines@) =~= section_lines(*chat));
    text::join(&lines, "\n")
}

/// A reply that hands work off is said without the hand-off, and what was handed
/// off, without the space around it, is the instruction. A reply that hands
/// nothing off is said as it is.
pub proof fn work_is_handed_off(a: Seq<char>, inner: Seq<char>, b: Seq<char>)
    requires
        !text::has_char(a, '['),
        !text::has_char(b, '['),
        !text::has_char(inner, ']'),
        0 < text::trimmed(inner).len() <= 500,
    ensures
        taken_out(a + "[[work:"@ + inner + "]]"@ + b, None) == (a + b, Some(text::trimmed(inner))),
        taken_out(a, None) == (a, None::<Seq<char>>),
{
    reveal_strlit("[[work:");
    reveal_strlit("]]");
    let s = a + "[[work:"@ + inner + "]]"@ + b;
    let n = a.len() as int;
    let close = n + 7 + inner.len();
    nothing_is_handed_off(a);
    nothing_is_handed_off(a + b);
    assert(s.subrange(n, n + 7) =~= "[[work:"@);
    assert(text::occurs_at(s, "[[work:"@, n));
    text::find_from_is_first(s, "[[work:"@, 0);
    let k = text::find_from(s, "[[work:"@, 0)->0;
    if k < n {
        assert(s.subrange(k, k + 7)[0] == s[k]);
        assert(s[k] == a[k]);
    }
    assert(s.subrange(close, close + 2) =~= "]]"@);
    assert(text::occurs_at(s, "]]"@, close));
    text::find_from_is_first(s, "]]"@, n + 7);
    let c = text::find_from(s, "]]"@, n + 7)->0;
    if c < close {
        assert(s.subrange(c, c + 2)[0] == s[c]);
        assert(s[c] == inner[c - n - 7]);
    }
    assert(hand_off_in(s) == Some((n, close)));
    assert(s.take(n) + s.skip(close + 2) =~= a + b);
    assert(s.subrange(n + 7, close) =~= inner);
    assert(text::at_most(text::trimmed(inner), 500) =~= text::trimmed(inner));
    assert(taken_out(a + b, Some(text::trimmed(inner))) == (a + b, Some(text::trimmed(inner))));
}

proof fn nothing_is_handed_off(s: Seq<char>)
    requires
        forall|i: int| 0 <= i < s.len() ==> s[i] != '[',
    ensures
        hand_off_in(s) is None,
{
    reveal_strlit("[[work:");
    text::find_from_is_first(s, "[[work:"@, 0);
    if let Some(k) = text::find_from(s, "[[work:"@, 0) {
        assert(s.subrange(k, k + 7)[0] == s[k]);
    }
}

} // verus!
