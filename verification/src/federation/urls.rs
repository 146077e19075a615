//! Addresses of local actors and of the objects they publish.
use crate::text;
use vstd::prelude::*;

verus! {

/// The ActivityStreams name of everyone.
pub const AP_PUBLIC: &'static str = "https://www.w3.org/ns/activitystreams#Public";

/// What kind of local content is published.
#[derive(Clone, Copy, Debug, PartialEq, Eq, Structural)]
pub enum ContentKind {
    Note,
    Report,
    PhantasiArticle,
    Tapp,
    Library,
}

impl ContentKind {
    /// The name under which content of this kind is stored.
    pub open spec fn name(self) -> Seq<char> {
        match self {
            ContentKind::Note => "note"@,
            ContentKind::Report => "report"@,
            ContentKind::PhantasiArticle => "phantasi-article"@,
            ContentKind::Tapp => "tapp"@,
            ContentKind::Library => "library"@,
        }
    }

    /// The path between the site and the identifier of an object.
    pub open spec fn path(self) -> Seq<char> {
        match self {
            ContentKind::Note => "/notes/"@,
            ContentKind::Report => "/reports/"@,
            ContentKind::PhantasiArticle => "/phantasi/articles/"@,
            ContentKind::Tapp => "/tapps/"@,
            ContentKind::Library => "/library/"@,
        }
    }

    pub open spec fn object_url_of(self, base_url: Seq<char>, id: Seq<char>) -> Seq<char> {
        base_url + self.path() + id
    }

    pub fn as_str(self) -> (r: &'static str)
        ensures
            r@ == self.name(),
    {
        match self {
            ContentKind::Note => "note",
            ContentKind::Report => "report",
            ContentKind::PhantasiArticle => "phantasi-article",
            ContentKind::Tapp => "tapp",
            ContentKind::Library => "library",
        }
    }

    /// The kind with this name.
    pub fn parse(name: &str) -> (r: Option<ContentKind>)
        ensures
            r == kind_named(name@),
    {
        if text::eq(name, "note") {
            Some(ContentKind::Note)
        } else if text::eq(name, "report") {
            Some(ContentKind::Report)
        } else if text::eq(name, "phantasi-article") {
            Some(ContentKind::PhantasiArticle)
        } else if text::eq(name, "tapp") {
            Some(ContentKind::Tapp)
        } else if text::eq(name, "library") {
            Some(ContentKind::Library)
        } else {
            None
        }
    }

    /// The address of the object with identifier `id`.
    pub fn object_url(self, base_url: &str, id: &str) -> (r: String)
        ensures
            r@ == self.object_url_of(base_url@, id@),
    {
        let mut out = base_url.to_owned();
        out.append(
            match self {
                ContentKind::Note => "/notes/",
                ContentKind::Report => "/reports/",
                ContentKind::PhantasiArticle => "/phantasi/articles/",
                ContentKind::Tapp => "/tapps/",
                ContentKind::Library => "/library/",
            },
        );
        out.append(id);
        out
    }
}

pub open spec fn kind_named(name: Seq<char>) -> Option<ContentKind> {
    if name == ContentKind::Note.name() {
        Some(ContentKind::Note)
    } else if name == ContentKind::Report.name() {
        Some(ContentKind::Report)
    } else if name == ContentKind::PhantasiArticle.name() {
        Some(ContentKind::PhantasiArticle)
    } else if name == ContentKind::Tapp.name() {
        Some(ContentKind::Tapp)
    } else if name == ContentKind::Library.name() {
        Some(ContentKind::Library)
    } else {
        None
    }
}

/// Reading the name of a kind gives the kind back.
pub proof fn kind_name_reads_back(kind: ContentKind)
    ensures
        kind_named(kind.name()) == Some(kind),
{
    reveal_strlit("note");
    reveal_strlit("report");
    reveal_strlit("phantasi-article");
    reveal_strlit("tapp");
    reveal_strlit("library");
    assert("note"@.len() == 4 && "report"@.len() == 6 && "phantasi-article"@.len() == 16
        && "tapp"@.len() == 4 && "library"@.len() == 7);
    assert("note"@[0] == 'n' && "tapp"@[0] == 't');
}

pub open spec fn actor_url_of(base_url: Seq<char>, username: Seq<char>) -> Seq<char> {
    base_url + "/users/"@ + username
}

pub open spec fn followers_url_of(base_url: Seq<char>, username: Seq<char>) -> Seq<char> {
    actor_url_of(base_url, username) + "/followers"@
}

pub open spec fn inbox_url_of(base_url: Seq<char>, username: Seq<char>) -> Seq<char> {
    actor_url_of(base_url, username) + "/inbox"@
}

pub fn actor_url(base_url: &str, username: &str) -> (r: String)
    ensures
        r@ == actor_url_of(base_url@, username@),
{
    let mut out = base_url.to_owned();
    out.append("/users/");
    out.append(username);
    out
}

pub fn followers_url(base_url: &str, username: &str) -> (r: String)
    ensures
        r@ == followers_url_of(base_url@, username@),
{
    let mut out = actor_url(base_url, username);
    out.append("/followers");
    out
}

/// The user whose actor address this is: one path segment behind `/users/` on
/// this site.
pub open spec fn username_of_actor(base_url: Seq<char>, actor: Seq<char>) -> Option<Seq<char>> {
    match text::after_prefix(actor, base_url + "/users/"@) {
        Some(name) if name.len() > 0 && !text::has_char(name, '/') => Some(name),
        _ => None,
    }
}

pub fn local_username_from_actor_url(base_url: &str, actor: &str) -> (r: Option<String>)
    ensures
        text::opt_view(r) == username_of_actor(base_url@, actor@),
{
    let mut prefix = base_url.to_owned();
    prefix.append("/users/");
    match text::strip_prefix(actor, prefix.as_str()) {
        Some(name) => {
            if name.as_str().is_empty() || text::contains_char(name.as_str(), '/') {
                None
            } else {
                Some(name)
            }
        },
        None => None,
    }
}

/// The user whose inbox address this is; slashes at the end do not matter.
pub open spec fn username_of_inbox(base_url: Seq<char>, inbox: Seq<char>) -> Option<Seq<char>> {
    match text::before_suffix(text::trim_end_char_of(text::trimmed(inbox), '/'), "/inbox"@) {
        Some(actor) => username_of_actor(base_url, actor),
        None => None,
    }
}

/// If the inbox is `{base}/users/{username}/inbox`, the username.
pub fn local_username_from_inbox_url(base_url: &str, inbox_url: &str) -> (r: Option<String>)
    ensures
        text::opt_view(r) == username_of_inbox(base_url@, inbox_url@),
{
    let inbox = text::trim(inbox_url);
    let inbox = text::trim_end_char(inbox.as_str(), '/');
    match text::strip_suffix(inbox.as_str(), "/inbox") {
        Some(actor) => local_username_from_actor_url(base_url, actor.as_str()),
        None => None,
    }
}

/// The actor address of a local user leads back to that user.
pub proof fn actor_url_names_its_user(base_url: Seq<char>, username: Seq<char>)
    requires
        username.len() > 0,
        !text::has_char(username, '/'),
    ensures
        username_of_actor(base_url, actor_url_of(base_url, username)) == Some(username),
{
    let actor = actor_url_of(base_url, username);
    let prefix = base_url + "/users/"@;
    assert(actor.take(prefix.len() as int) =~= prefix);
    assert(actor.skip(prefix.len() as int) =~= username);
}

/// The inbox address of a local user leads back to that user.
pub proof fn inbox_url_names_its_user(base_url: Seq<char>, username: Seq<char>)
    requires
        username.len() > 0,
        !text::has_char(username, '/'),
        base_url.len() > 0,
        !text::white(base_url[0]),
    ensures
        username_of_inbox(base_url, inbox_url_of(base_url, username)) == Some(username),
{
    reveal_strlit("/inbox");
    let actor = actor_url_of(base_url, username);
    let inbox = inbox_url_of(base_url, username);
    assert(inbox.last() == 'x');
    assert(inbox[0] == base_url[0]);
    assert(text::trim_start_of(inbox) == inbox);
    assert(text::trim_end_of(inbox) == inbox);
    assert(text::trim_end_char_of(inbox, '/') == inbox);
    assert(inbox.skip(inbox.len() - "/inbox"@.len()) =~= "/inbox"@);
    assert(inbox.take(inbox.len() - "/inbox"@.len()) =~= actor);
    actor_url_names_its_user(base_url, username);
}

} // verus!
