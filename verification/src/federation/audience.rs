//! Who an activity is addressed to and how far it is carried.
use crate::federation::urls;
use crate::text;
use vstd::prelude::*;

verus! {

#[derive(Clone, Copy, Debug, PartialEq, Eq, Structural)]
pub enum Visibility {
    Public,
    Followers,
    Direct,
}

/// Whose inboxes an activity is carried to.
#[derive(Clone, Copy, Debug, PartialEq, Eq, Structural)]
pub enum FanOutScope {
    AllFollowers,
    ExplicitRecipientsOnly,
}

impl Visibility {
    pub open spec fn name(self) -> Seq<char> {
        match self {
            Visibility::Public => "public"@,
            Visibility::Followers => "followers"@,
            Visibility::Direct => "direct"@,
        }
    }

    pub fn as_str(self) -> (r: &'static str)
        ensures
            r@ == self.name(),
    {
        match self {
            Visibility::Public => "public",
            Visibility::Followers => "followers",
            Visibility::Direct => "direct",
        }
    }
}

/// The visibility that a requested value names. Whatever is not for everyone
/// is at most for the followers; a value that is not modelled names none.
pub open spec fn visibility_of(raw: Seq<char>) -> Option<Visibility> {
    if raw == "public"@ {
        Some(Visibility::Public)
    } else if raw == "followers"@ || raw == "unlisted"@ || raw == "private"@ {
        Some(Visibility::Followers)
    } else if raw == "direct"@ || raw == "mentioned"@ {
        Some(Visibility::Direct)
    } else {
        None
    }
}

/// Reads a requested visibility; the value itself comes back when it is not
/// modelled.
pub fn parse_visibility(raw: &str) -> (r: Result<Visibility, String>)
    ensures
        match r {
            Ok(v) => visibility_of(raw@) == Some(v),
            Err(bad) => visibility_of(raw@) is None && bad@ == raw@,
        },
{
    if text::eq(raw, "public") {
        Ok(Visibility::Public)
    } else if text::eq(raw, "followers") || text::eq(raw, "unlisted") || text::eq(raw, "private") {
        Ok(Visibility::Followers)
    } else if text::eq(raw, "direct") || text::eq(raw, "mentioned") {
        Ok(Visibility::Direct)
    } else {
        Err(raw.to_owned())
    }
}

/// The name of a visibility is read back as that visibility.
pub proof fn visibility_name_reads_back(v: Visibility)
    ensures
        visibility_of(v.name()) == Some(v),
{
    reveal_strlit("public");
    reveal_strlit("followers");
    reveal_strlit("unlisted");
    reveal_strlit("private");
    reveal_strlit("direct");
    assert("public"@.len() == 6 && "direct"@.len() == 6 && "followers"@.len() == 9
        && "unlisted"@.len() == 8 && "private"@.len() == 7);
    assert("public"@[0] == 'p' && "direct"@[0] == 'd');
}

pub fn fan_out_scope(visibility: Visibility) -> (r: FanOutScope)
    ensures
        r == scope_of(visibility),
{
    match visibility {
        Visibility::Public | Visibility::Followers => FanOutScope::AllFollowers,
        Visibility::Direct => FanOutScope::ExplicitRecipientsOnly,
    }
}

pub open spec fn scope_of(visibility: Visibility) -> FanOutScope {
    if visibility is Direct {
        FanOutScope::ExplicitRecipientsOnly
    } else {
        FanOutScope::AllFollowers
    }
}

pub open spec fn to_of(v: Visibility, base_url: Seq<char>, username: Seq<char>) -> Seq<Seq<char>> {
    match v {
        Visibility::Public => seq![urls::AP_PUBLIC@],
        Visibility::Followers => seq![urls::followers_url_of(base_url, username)],
        Visibility::Direct => seq![urls::actor_url_of(base_url, username)],
    }
}

pub open spec fn cc_of(v: Visibility, base_url: Seq<char>, username: Seq<char>) -> Seq<Seq<char>> {
    match v {
        Visibility::Public => seq![urls::followers_url_of(base_url, username)],
        _ => Seq::empty(),
    }
}

/// The `to` and `cc` of an activity by a local user.
///
/// A direct activity has no recipients of its own, so it is addressed to its
/// author: nobody else sees it.
pub fn resolve_audience(visibility: Visibility, base_url: &str, username: &str) -> (r: (
    Vec<String>,
    Vec<String>,
))
    ensures
        text::views(r.0@) == to_of(visibility, base_url@, username@),
        text::views(r.1@) == cc_of(visibility, base_url@, username@),
{
    let mut to: Vec<String> = Vec::new();
    let mut cc: Vec<String> = Vec::new();
    match visibility {
        Visibility::Public => {
            to.push(urls::AP_PUBLIC.to_owned());
            cc.push(urls::followers_url(base_url, username));
        },
        Visibility::Followers => {
            to.push(urls::followers_url(base_url, username));
        },
        Visibility::Direct => {
            to.push(urls::actor_url(base_url, username));
        },
    }
    assert(text::views(to@) =~= to_of(visibility, base_url@, username@));
    assert(text::views(cc@) =~= cc_of(visibility, base_url@, username@));
    (to, cc)
}

/// Every activity is addressed to someone, and a direct one to nobody but its
/// author.
pub proof fn audience_is_never_empty(v: Visibility, base_url: Seq<char>, username: Seq<char>)
    ensures
        to_of(v, base_url, username).len() == 1,
        v is Direct ==> to_of(v, base_url, username)[0] == urls::actor_url_of(base_url, username)
            && cc_of(v, base_url, username).len() == 0,
{
}

/// Whom an activity is for is whom it is addressed to: a public one to everyone and
/// to the followers; one for the followers to them alone; a direct one to neither.
pub proof fn activities_are_addressed_to_their_audience(
    v: Visibility,
    base_url: Seq<char>,
    username: Seq<char>,
    who: Seq<char>,
)
    ensures
        ({
            let all = to_of(v, base_url, username) + cc_of(v, base_url, username);
            let everyone = "https://www.w3.org/ns/activitystreams#Public"@;
            let followers = base_url + "/users/"@ + username + "/followers"@;
            let author = base_url + "/users/"@ + username;
            &&& v is Public ==> (all.contains(who) <==> who == everyone || who == followers)
            &&& v is Public ==> to_of(v, base_url, username).contains(everyone)
            &&& v is Followers ==> (all.contains(who) <==> who == followers)
            &&& v is Direct ==> (all.contains(who) <==> who == author)
        }),
{
    let to = to_of(v, base_url, username);
    let cc = cc_of(v, base_url, username);
    let all = to + cc;
    assert(all[0] == to[0]);
    assert(to.contains(to[0]));
    if cc.len() > 0 {
        assert(all[1] == cc[0]);
    }
}

/// A request for less than everyone is never taken for more: what is public was
/// asked for as public, and what is direct reaches no follower.
pub proof fn visibility_is_never_widened(raw: Seq<char>)
    ensures
        visibility_of(raw) == Some(Visibility::Public) <==> raw == "public"@,
        raw == "unlisted"@ || raw == "private"@ || raw == "followers"@ ==> visibility_of(raw)
            == Some(Visibility::Followers),
        raw == "mentioned"@ || raw == "direct"@ ==> visibility_of(raw) == Some(Visibility::Direct),
        visibility_of(raw) matches Some(v) ==> (scope_of(v) is ExplicitRecipientsOnly <==> v
            is Direct),
{
    visibility_name_reads_back(Visibility::Public);
    visibility_name_reads_back(Visibility::Followers);
    visibility_name_reads_back(Visibility::Direct);
    reveal_strlit("public");
    reveal_strlit("unlisted");
    reveal_strlit("private");
    reveal_strlit("followers");
    reveal_strlit("direct");
    reveal_strlit("mentioned");
    assert("public"@.len() == 6 && "unlisted"@.len() == 8 && "private"@.len() == 7
        && "followers"@.len() == 9 && "direct"@.len() == 6 && "mentioned"@.len() == 9);
    assert("public"@[0] == 'p' && "direct"@[0] == 'd' && "followers"@[0] == 'f' && "mentioned"@[0]
        == 'm');
}

} // verus!
