//! Login providers: how a new list of them is checked and saved, and how the
//! list is shown.
use crate::json;
use crate::json::{Json, JsonView};
use crate::text;
use vstd::prelude::*;

verus! {

broadcast use crate::json::group_json;

pub const MAX_SLUG_CHARS: usize = 32;

/// A login provider.
pub struct OAuthProviderEntry {
    pub slug: String,
    pub kind: String,
    pub display_name: String,
    pub enabled: bool,
    pub client_id: String,
    pub client_secret: String,
    pub scopes: Vec<String>,
    pub discovery_url: Option<String>,
    pub icon_url: Option<String>,
}

/// What a provider is.
pub struct Provider {
    pub slug: Seq<char>,
    pub kind: Seq<char>,
    pub display_name: Seq<char>,
    pub enabled: bool,
    pub client_id: Seq<char>,
    pub client_secret: Seq<char>,
    pub scopes: Seq<Seq<char>>,
    pub discovery_url: Option<Seq<char>>,
    pub icon_url: Option<Seq<char>>,
}

impl View for OAuthProviderEntry {
    type V = Provider;

    open spec fn view(&self) -> Provider {
        Provider {
            slug: self.slug@,
            kind: self.kind@,
            display_name: self.display_name@,
            enabled: self.enabled,
            client_id: self.client_id@,
            client_secret: self.client_secret@,
            scopes: text::views(self.scopes@),
            discovery_url: text::opt_view(self.discovery_url),
            icon_url: text::opt_view(self.icon_url),
        }
    }
}

pub open spec fn providers(v: Seq<OAuthProviderEntry>) -> Seq<Provider> {
    Seq::new(v.len(), |i: int| v[i]@)
}

/// A new list of providers, with the settings that are saved beside it. A
/// setting that is left out stays as it is.
pub struct UpdateOAuthProvidersPayload {
    pub providers: Vec<OAuthProviderEntry>,
    pub allow_local_registration: bool,
    pub tapp_private_install_cleanup: Option<String>,
    pub tapp_private_install_inactivity_days: Option<i32>,
}

/// Why a list of providers is not saved.
#[derive(Clone, Copy, Debug, PartialEq, Eq, Structural)]
pub enum ProviderError {
    SlugRequired,
    SlugInvalid,
    SlugReserved,
    SlugDuplicate,
    ClientIdRequired,
    DiscoveryRequired,
    KindUnsupported,
    ClientSecretRequired,
}

impl ProviderError {
    pub open spec fn label(self) -> Seq<char> {
        match self {
            ProviderError::SlugRequired => "Provider slug is required"@,
            ProviderError::SlugInvalid => "Invalid provider slug"@,
            ProviderError::SlugReserved => "Provider slug is reserved for channel pairing"@,
            ProviderError::SlugDuplicate => "Duplicate provider slug"@,
            ProviderError::ClientIdRequired => "Provider client_id is required"@,
            ProviderError::DiscoveryRequired => "OIDC discovery URL is required"@,
            ProviderError::KindUnsupported => "Unsupported provider kind"@,
            ProviderError::ClientSecretRequired => "Provider client_secret is required"@,
        }
    }

    pub open spec fn code_text(self) -> Seq<char> {
        match self {
            ProviderError::SlugRequired => "oauth_slug_required"@,
            ProviderError::SlugInvalid => "oauth_slug_invalid"@,
            ProviderError::SlugReserved => "oauth_slug_reserved"@,
            ProviderError::SlugDuplicate => "oauth_slug_duplicate"@,
            ProviderError::ClientIdRequired => "oauth_client_id_required"@,
            ProviderError::DiscoveryRequired => "oauth_discovery_required"@,
            ProviderError::KindUnsupported => "oauth_kind_unsupported"@,
            ProviderError::ClientSecretRequired => "oauth_client_secret_required"@,
        }
    }

    pub fn error(self) -> (r: &'static str)
        ensures
            r@ == self.label(),
    {
        match self {
            ProviderError::SlugRequired => "Provider slug is required",
            ProviderError::SlugInvalid => "Invalid provider slug",
            ProviderError::SlugReserved => "Provider slug is reserved for channel pairing",
            ProviderError::SlugDuplicate => "Duplicate provider slug",
            ProviderError::ClientIdRequired => "Provider client_id is required",
            ProviderError::DiscoveryRequired => "OIDC discovery URL is required",
            ProviderError::KindUnsupported => "Unsupported provider kind",
            ProviderError::ClientSecretRequired => "Provider client_secret is required",
        }
    }

    pub fn code(self) -> (r: &'static str)
        ensures
            r@ == self.code_text(),
    {
        match self {
            ProviderError::SlugRequired => "oauth_slug_required",
            ProviderError::SlugInvalid => "oauth_slug_invalid",
            ProviderError::SlugReserved => "oauth_slug_reserved",
            ProviderError::SlugDuplicate => "oauth_slug_duplicate",
            ProviderError::ClientIdRequired => "oauth_client_id_required",
            ProviderError::DiscoveryRequired => "oauth_discovery_required",
            ProviderError::KindUnsupported => "oauth_kind_unsupported",
            ProviderError::ClientSecretRequired => "oauth_client_secret_required",
        }
    }

    /// The body of the answer, which has status 400.
    pub fn body(self) -> (r: Json)
        ensures
            r@ == json::empty().with("error"@, json::text_json(self.label())).with(
                "code"@,
                json::text_json(self.code_text()),
            ),
    {
        json::object().with("error", json::string(self.error())).with(
            "code",
            json::string(self.code()),
        )
    }
}

// ---------------------------------------------------------------------------
// Slugs
// ---------------------------------------------------------------------------
pub open spec fn slug_char(c: char) -> bool {
    text::ascii_alphanumeric(c) || c == '-' || c == '_'
}

/// Whether a slug can stand in a URL.
pub open spec fn url_safe_slug(s: Seq<char>) -> bool {
    s.len() <= MAX_SLUG_CHARS && forall|i: int| 0 <= i < s.len() ==> slug_char(#[trigger] s[i])
}

/// The names of the channels that are paired rather than logged in with.
pub open spec fn reserved_slug(s: Seq<char>) -> bool {
    s == "qq"@ || s == "telegram"@
}

pub fn is_pairing_provider(slug: &str) -> (r: bool)
    ensures
        r == reserved_slug(slug@),
{
    text::eq(slug, "qq") || text::eq(slug, "telegram")
}

fn is_url_safe_slug(slug: &str) -> (r: bool)
    ensures
        r == url_safe_slug(slug@),
{
    let v = text::chars_of(slug);
    if v.len() > MAX_SLUG_CHARS {
        return false;
    }
    let mut i: usize = 0;
    while i < v.len()
        invariant
            i <= v@.len(),
            v@ == slug@,
            forall|j: int| 0 <= j < i ==> slug_char(#[trigger] slug@[j]),
        decreases v@.len() - i,
    {
        let c = v[i];
        if !(text::is_ascii_alphanumeric(c) || c == '-' || c == '_') {
            assert(!slug_char(slug@[i as int]));
            return false;
        }
        i = i + 1;
    }
    true
}

// ---------------------------------------------------------------------------
// One provider
// ---------------------------------------------------------------------------
/// The mark that stands for a secret that is set.
pub open spec fn mask() -> Seq<char> {
    "***"@
}

/// The first provider with the slug.
pub open spec fn find_slug(list: Seq<Provider>, slug: Seq<char>, i: int) -> Option<Provider>
    decreases list.len() - i,
{
    if i < 0 || i >= list.len() {
        None
    } else if list[i].slug == slug {
        Some(list[i])
    } else {
        find_slug(list, slug, i + 1)
    }
}

/// The secret that is saved: a new one as it is given; the stored one where
/// the mark or nothing is given.
pub open spec fn saved_secret(p: Provider, slug: Seq<char>, current: Seq<Provider>) -> Seq<char> {
    if p.client_secret == mask() || p.client_secret.len() == 0 {
        match find_slug(current, slug, 0) {
            Some(stored) => stored.client_secret,
            None => Seq::empty(),
        }
    } else {
        p.client_secret
    }
}

pub open spec fn opt_or_empty(s: Option<Seq<char>>) -> Seq<char> {
    match s {
        Some(t) => t,
        None => Seq::empty(),
    }
}

/// What is wrong with the kind of a provider.
pub open spec fn kind_error(p: Provider) -> Option<ProviderError> {
    if p.kind == "github"@ {
        None
    } else if p.kind == "oidc"@ {
        if text::blank(opt_or_empty(p.discovery_url)) {
            Some(ProviderError::DiscoveryRequired)
        } else {
            None
        }
    } else {
        Some(ProviderError::KindUnsupported)
    }
}

/// A provider as it is saved, or what is wrong with it; `before` are the
/// providers that come before it in the list.
pub open spec fn checked(p: Provider, current: Seq<Provider>, before: Seq<Provider>) -> Result<
    Provider,
    ProviderError,
> {
    let slug = text::trimmed(p.slug);
    let secret = saved_secret(p, slug, current);
    if slug.len() == 0 {
        Err(ProviderError::SlugRequired)
    } else if !url_safe_slug(slug) {
        Err(ProviderError::SlugInvalid)
    } else if reserved_slug(slug) {
        Err(ProviderError::SlugReserved)
    } else if find_slug(before, slug, 0) is Some {
        Err(ProviderError::SlugDuplicate)
    } else if p.enabled && text::blank(p.client_id) {
        Err(ProviderError::ClientIdRequired)
    } else if kind_error(p) is Some {
        Err(kind_error(p)->0)
    } else if p.enabled && secret.len() == 0 {
        Err(ProviderError::ClientSecretRequired)
    } else {
        Ok(Provider { slug, client_secret: secret, ..p })
    }
}

/// The providers as they are saved, or what is wrong with the first bad one.
pub open spec fn checked_all(list: Seq<Provider>, current: Seq<Provider>) -> Result<
    Seq<Provider>,
    ProviderError,
>
    decreases list.len(),
{
    if list.len() == 0 {
        Ok(Seq::empty())
    } else {
        match checked_all(list.drop_last(), current) {
            Err(e) => Err(e),
            Ok(before) => match checked(list.last(), current, before) {
                Err(e) => Err(e),
                Ok(p) => Ok(before.push(p)),
            },
        }
    }
}

proof fn first_error_decides(list: Seq<Provider>, current: Seq<Provider>, i: int)
    requires
        0 <= i <= list.len(),
        checked_all(list.take(i), current) is Err,
    ensures
        checked_all(list, current) == checked_all(list.take(i), current),
    decreases list.len() - i,
{
    if i < list.len() {
        assert(list.take(i + 1).drop_last() =~= list.take(i));
        first_error_decides(list, current, i + 1);
    } else {
        assert(list.take(i) =~= list);
    }
}

fn position_of_slug(list: &Vec<OAuthProviderEntry>, slug: &str) -> (r: Option<usize>)
    ensures
        match r {
            Some(k) => k < list@.len() && find_slug(providers(list@), slug@, 0) == Some(
                list@[k as int]@,
            ),
            None => find_slug(providers(list@), slug@, 0) is None,
        },
{
    let mut i: usize = 0;
    while i < list.len()
        invariant
            i <= list@.len(),
            find_slug(providers(list@), slug@, 0) == find_slug(providers(list@), slug@, i as int),
        decreases list@.len() - i,
    {
        if text::eq(list[i].slug.as_str(), slug) {
            return Some(i);
        }
        i = i + 1;
    }
    None
}

fn check_provider(
    p: OAuthProviderEntry,
    current: &Vec<OAuthProviderEntry>,
    before: &Vec<OAuthProviderEntry>,
) -> (r: Result<OAuthProviderEntry, ProviderError>)
    ensures
        match r {
            Ok(saved) => checked(p@, providers(current@), providers(before@)) == Ok::<
                Provider,
                ProviderError,
            >(saved@),
            Err(e) => checked(p@, providers(current@), providers(before@)) == Err::<
                Provider,
                ProviderError,
            >(e),
        },
{
    let slug = text::trim(p.slug.as_str());
    if slug.as_str().is_empty() {
        return Err(ProviderError::SlugRequired);
    }
    if !is_url_safe_slug(slug.as_str()) {
        return Err(ProviderError::SlugInvalid);
    }
    if is_pairing_provider(slug.as_str()) {
        return Err(ProviderError::SlugReserved);
    }
    if position_of_slug(before, slug.as_str()).is_some() {
        return Err(ProviderError::SlugDuplicate);
    }
    if p.enabled && text::is_blank(p.client_id.as_str()) {
        return Err(ProviderError::ClientIdRequired);
    }
    if !text::eq(p.kind.as_str(), "github") {
        if !text::eq(p.kind.as_str(), "oidc") {
            return Err(ProviderError::KindUnsupported);
        }
        let blank = match &p.discovery_url {
            Some(url) => text::is_blank(url.as_str()),
            None => true,
        };
        assert(text::blank(Seq::empty()));
        if blank {
            return Err(ProviderError::DiscoveryRequired);
        }
    }
    let secret = if text::eq(p.client_secret.as_str(), "***") || p.client_secret.as_str().is_empty() {
        match position_of_slug(current, slug.as_str()) {
            Some(k) => current[k].client_secret.clone(),
            None => String::new(),
        }
    } else {
        p.client_secret.clone()
    };
    if p.enabled && secret.as_str().is_empty() {
        return Err(ProviderError::ClientSecretRequired);
    }
    Ok(
        OAuthProviderEntry {
            slug,
            kind: p.kind,
            display_name: p.display_name,
            enabled: p.enabled,
            client_id: p.client_id,
            client_secret: secret,
            scopes: p.scopes,
            discovery_url: p.discovery_url,
            icon_url: p.icon_url,
        },
    )
}

/// Checks a new list of providers against the stored one.
pub fn check_providers(
    list: Vec<OAuthProviderEntry>,
    current: &Vec<OAuthProviderEntry>,
) -> (r: Result<Vec<OAuthProviderEntry>, ProviderError>)
    ensures
        match r {
            Ok(saved) => checked_all(providers(list@), providers(current@)) == Ok::<
                Seq<Provider>,
                ProviderError,
            >(providers(saved@)),
            Err(e) => checked_all(providers(list@), providers(current@)) == Err::<
                Seq<Provider>,
                ProviderError,
            >(e),
        },
{
    let ghost all = providers(list@);
    let mut rest = list;
    let mut saved: Vec<OAuthProviderEntry> = Vec::new();
    let ghost mut i: int = 0;
    assert(all.take(0) =~= Seq::empty());
    assert(providers(saved@) =~= Seq::empty());
    assert(list@.skip(0) =~= list@);
    while rest.len() > 0
        invariant
            0 <= i <= list@.len(),
            all == providers(list@),
            rest@ == list@.skip(i),
            checked_all(all.take(i), providers(current@)) == Ok::<Seq<Provider>, ProviderError>(
                providers(saved@),
            ),
        decreases rest@.len(),
    {
        let p = rest.remove(0);
        assert(p == list@[i]);
        assert(all.take(i + 1).drop_last() =~= all.take(i));
        assert(all.take(i + 1).last() == p@);
        match check_provider(p, current, &saved) {
            Ok(entry) => {
                assert(providers(saved@.push(entry)) =~= providers(saved@).push(entry@));
                saved.push(entry);
            },
            Err(e) => {
                proof {
                    first_error_decides(all, providers(current@), i + 1);
                }
                return Err(e);
            },
        }
        proof {
            i = i + 1;
        }
        assert(rest@ =~= list@.skip(i));
    }
    assert(all.take(i) =~= all);
    Ok(saved)
}

// ---------------------------------------------------------------------------
// The settings
// ---------------------------------------------------------------------------
/// The modes in which private installs are cleaned up.
pub open spec fn cleanup_mode(raw: Option<Seq<char>>) -> Option<Seq<char>> {
    match raw {
        Some(r) => {
            let mode = text::ascii_lower(text::trimmed(r));
            if mode == "logout"@ || mode == "inactivity"@ {
                Some(mode)
            } else {
                None
            }
        },
        None => None,
    }
}

pub open spec fn clamped_days(days: int) -> int {
    if days < 1 {
        1
    } else if days > 365 {
        365
    } else {
        days
    }
}

/// What is written to the configuration; a setting that is `None` is not
/// written.
pub struct OAuthUpdates {
    pub providers: Vec<OAuthProviderEntry>,
    pub allow_local_registration: bool,
    pub tapp_private_install_cleanup: Option<String>,
    pub tapp_private_install_inactivity_days: Option<i32>,
}

/// What a new list of providers and its settings come to.
pub fn plan_update(
    payload: UpdateOAuthProvidersPayload,
    current: &Vec<OAuthProviderEntry>,
) -> (r: Result<OAuthUpdates, ProviderError>)
    ensures
        match r {
            Ok(u) => {
                &&& checked_all(providers(payload.providers@), providers(current@)) == Ok::<
                    Seq<Provider>,
                    ProviderError,
                >(providers(u.providers@))
                &&& u.allow_local_registration == payload.allow_local_registration
                &&& text::opt_view(u.tapp_private_install_cleanup) == cleanup_mode(
                    text::opt_view(payload.tapp_private_install_cleanup),
                )
                &&& match payload.tapp_private_install_inactivity_days {
                    Some(d) => u.tapp_private_install_inactivity_days == Some(
                        clamped_days(d as int) as i32,
                    ),
                    None => u.tapp_private_install_inactivity_days is None,
                }
            },
            Err(e) => checked_all(providers(payload.providers@), providers(current@)) == Err::<
                Seq<Provider>,
                ProviderError,
            >(e),
        },
{
    let saved = match check_providers(payload.providers, current) {
        Ok(saved) => saved,
        Err(e) => return Err(e),
    };
    let cleanup = match &payload.tapp_private_install_cleanup {
        Some(raw) => {
            let mode = text::trim(raw.as_str());
            let mode = text::to_ascii_lowercase(mode.as_str());
            if text::eq(mode.as_str(), "logout") || text::eq(mode.as_str(), "inactivity") {
                Some(mode)
            } else {
                None
            }
        },
        None => None,
    };
    let days = match payload.tapp_private_install_inactivity_days {
        Some(d) => Some(
            if d < 1 {
                1
            } else if d > 365 {
                365
            } else {
                d
            },
        ),
        None => None,
    };
    Ok(
        OAuthUpdates {
            providers: saved,
            allow_local_registration: payload.allow_local_registration,
            tapp_private_install_cleanup: cleanup,
            tapp_private_install_inactivity_days: days,
        },
    )
}

/// What is answered once the providers have been saved.
pub fn update_response(
    providers_count: usize,
    allow_local_registration: bool,
    cleanup: &str,
    inactivity_days: i32,
) -> (r: Json)
    ensures
        r@ == json::empty().with("success"@, JsonView::Bool(true)).with(
            "providers_count"@,
            json::int_json(providers_count as int),
        ).with("allow_local_registration"@, JsonView::Bool(allow_local_registration)).with(
            "tapp_private_install_cleanup"@,
            json::text_json(cleanup@),
        ).with(
            "tapp_private_install_inactivity_days"@,
            json::int_json(inactivity_days as int),
        ),
{
    json::object()
        .with("success", Json::Bool(true))
        .with("providers_count", json::unsigned(providers_count as u64))
        .with("allow_local_registration", Json::Bool(allow_local_registration))
        .with("tapp_private_install_cleanup", json::string(cleanup))
        .with("tapp_private_install_inactivity_days", json::number(inactivity_days as i64))
}

// ---------------------------------------------------------------------------
// Showing the providers
// ---------------------------------------------------------------------------
/// A provider as it is shown: a secret that is set shows as the mark.
pub open spec fn masked(p: Provider) -> Provider {
    Provider {
        client_secret: if p.client_secret.len() == 0 {
            Seq::empty()
        } else {
            mask()
        },
        ..p
    }
}

pub open spec fn provider_json(p: Provider) -> JsonView {
    json::empty()
        .with("slug"@, json::text_json(p.slug))
        .with("kind"@, json::text_json(p.kind))
        .with("display_name"@, json::text_json(p.display_name))
        .with("enabled"@, JsonView::Bool(p.enabled))
        .with("client_id"@, json::text_json(p.client_id))
        .with("client_secret"@, json::text_json(p.client_secret))
        .with("scopes"@, json::texts_json(p.scopes))
        .with("discovery_url"@, json::opt_text_json(p.discovery_url))
        .with("icon_url"@, json::opt_text_json(p.icon_url))
}

fn show_provider(p: &OAuthProviderEntry) -> (r: Json)
    ensures
        r@ == provider_json(masked(p@)),
{
    let secret = if p.client_secret.as_str().is_empty() {
        String::new()
    } else {
        "***".to_owned()
    };
    json::object()
        .with("slug", json::string(p.slug.as_str()))
        .with("kind", json::string(p.kind.as_str()))
        .with("display_name", json::string(p.display_name.as_str()))
        .with("enabled", Json::Bool(p.enabled))
        .with("client_id", json::string(p.client_id.as_str()))
        .with("client_secret", json::string(secret.as_str()))
        .with("scopes", json::strings(&p.scopes))
        .with("discovery_url", json::opt_string(&p.discovery_url))
        .with("icon_url", json::opt_string(&p.icon_url))
}

pub open spec fn shown(list: Seq<Provider>) -> Seq<JsonView> {
    Seq::new(list.len(), |i: int| provider_json(masked(list[i])))
}

/// The providers as an administrator sees them.
pub fn show_providers(
    list: &Vec<OAuthProviderEntry>,
    allow_local_registration: bool,
    cleanup: &str,
    inactivity_days: i32,
) -> (r: Json)
    ensures
        r@ == json::empty().with("providers"@, JsonView::Array(shown(providers(list@)))).with(
            "allow_local_registration"@,
            JsonView::Bool(allow_local_registration),
        ).with("tapp_private_install_cleanup"@, json::text_json(cleanup@)).with(
            "tapp_private_install_inactivity_days"@,
            json::int_json(inactivity_days as int),
        ),
{
    let mut out: Vec<Json> = Vec::new();
    let mut i: usize = 0;
    while i < list.len()
        invariant
            i <= list@.len(),
            out@.len() == i,
            forall|k: int|
                0 <= k < i ==> #[trigger] out@[k]@ == provider_json(masked(list@[k]@)),
        decreases list@.len() - i,
    {
        out.push(show_provider(&list[i]));
        i = i + 1;
    }
    assert(json::items(out@) =~= shown(providers(list@)));
    json::object()
        .with("providers", json::array(out))
        .with("allow_local_registration", Json::Bool(allow_local_registration))
        .with("tapp_private_install_cleanup", json::string(cleanup))
        .with("tapp_private_install_inactivity_days", json::number(inactivity_days as i64))
}

// ---------------------------------------------------------------------------
// Laws
// ---------------------------------------------------------------------------
/// What every saved provider is: it has a slug of its own that can stand in a
/// URL and is not reserved, a supported kind and, where it is enabled, a client
/// and its secret.
pub open spec fn sound_provider(p: Provider) -> bool {
    &&& p.slug.len() > 0
    &&& text::trimmed(p.slug) == p.slug
    &&& url_safe_slug(p.slug)
    &&& !reserved_slug(p.slug)
    &&& kind_error(p) is None
    &&& p.enabled ==> !text::blank(p.client_id) && p.client_secret.len() > 0
}

pub open spec fn sound(list: Seq<Provider>) -> bool {
    &&& forall|i: int| 0 <= i < list.len() ==> sound_provider(#[trigger] list[i])
    &&& forall|i: int, j: int|
        0 <= i < j < list.len() ==> (#[trigger] list[i]).slug != (#[trigger] list[j]).slug
}

proof fn find_slug_finds(list: Seq<Provider>, slug: Seq<char>, i: int)
    requires
        0 <= i,
    ensures
        find_slug(list, slug, i) is None ==> forall|k: int|
            i <= k < list.len() ==> (#[trigger] list[k]).slug != slug,
        find_slug(list, slug, i) matches Some(p) ==> p.slug == slug && exists|k: int|
            i <= k < list.len() && #[trigger] list[k] == p,
    decreases list.len() - i,
{
    if i < list.len() && list[i].slug != slug {
        find_slug_finds(list, slug, i + 1);
    }
}

proof fn trim_is_idempotent(s: Seq<char>)
    ensures
        text::trimmed(text::trimmed(s)) == text::trimmed(s),
{
    text::trimmed_has_no_white_ends(s);
}

/// A list that is saved is sound.
pub proof fn saved_providers_are_sound(list: Seq<Provider>, current: Seq<Provider>)
    ensures
        checked_all(list, current) matches Ok(saved) ==> sound(saved),
    decreases list.len(),
{
    if list.len() > 0 {
        saved_providers_are_sound(list.drop_last(), current);
        if let Ok(before) = checked_all(list.drop_last(), current) {
            if let Ok(p) = checked(list.last(), current, before) {
                trim_is_idempotent(list.last().slug);
                find_slug_finds(before, p.slug, 0);
                let saved = before.push(p);
                assert forall|i: int| 0 <= i < saved.len() implies sound_provider(
                    #[trigger] saved[i],
                ) by {
                    if i < before.len() {
                        assert(saved[i] == before[i]);
                    }
                }
            }
        }
    }
}

proof fn find_slug_at(list: Seq<Provider>, k: int, i: int)
    requires
        0 <= i <= k < list.len(),
        forall|a: int, b: int|
            0 <= a < b < list.len() ==> (#[trigger] list[a]).slug != (#[trigger] list[b]).slug,
    ensures
        find_slug(list, list[k].slug, i) == Some(list[k]),
    decreases k - i,
{
    if i < k {
        assert(list[i].slug != list[k].slug);
        find_slug_at(list, k, i + 1);
    }
}

/// Saving a list as it is shown changes nothing: every secret that shows as the
/// mark is kept.
pub proof fn saving_what_is_shown_keeps_secrets(stored: Seq<Provider>)
    requires
        sound(stored),
    ensures
        checked_all(Seq::new(stored.len(), |i: int| masked(stored[i])), stored) == Ok::<
            Seq<Provider>,
            ProviderError,
        >(stored),
{
    let list = Seq::new(stored.len(), |i: int| masked(stored[i]));
    kept_up_to(stored, list, stored.len() as int);
    assert(list.take(stored.len() as int) =~= list);
    assert(stored.take(stored.len() as int) =~= stored);
}

proof fn kept_up_to(stored: Seq<Provider>, list: Seq<Provider>, n: int)
    requires
        sound(stored),
        list == Seq::new(stored.len(), |i: int| masked(stored[i])),
        0 <= n <= stored.len(),
    ensures
        checked_all(list.take(n), stored) == Ok::<Seq<Provider>, ProviderError>(stored.take(n)),
    decreases n,
{
    if n == 0 {
        assert(list.take(0) =~= Seq::empty());
        assert(stored.take(0) =~= Seq::empty());
    } else {
        kept_up_to(stored, list, n - 1);
        assert(list.take(n).drop_last() =~= list.take(n - 1));
        let p = masked(stored[n - 1]);
        assert(list.take(n).last() == p);
        assert(sound_provider(stored[n - 1]));
        find_slug_at(stored, n - 1, 0);
        find_slug_finds(stored.take(n - 1), p.slug, 0);
        if find_slug(stored.take(n - 1), p.slug, 0) is Some {
            let k = choose|k: int|
                0 <= k < n - 1 && #[trigger] stored.take(n - 1)[k] == find_slug(
                    stored.take(n - 1),
                    p.slug,
                    0,
                )->0;
            assert(stored[k].slug != stored[n - 1].slug);
        }
        reveal_strlit("***");
        assert(kind_error(p) == kind_error(stored[n - 1]));
        assert(saved_secret(p, p.slug, stored) == stored[n - 1].client_secret);
        assert(checked(p, stored, stored.take(n - 1)) == Ok::<Provider, ProviderError>(
            stored[n - 1],
        ));
        assert(stored.take(n - 1).push(stored[n - 1]) =~= stored.take(n));
    }
}

/// What is saved is what was given, in its order, each under its name without the
/// space around it. A secret that is given is saved; where none is, or the mark
/// stands in its place, the one that was stored under the name is kept.
pub proof fn providers_are_saved_as_given(list: Seq<Provider>, current: Seq<Provider>, i: int)
    requires
        checked_all(list, current) is Ok,
        0 <= i < list.len(),
    ensures
        ({
            let saved = checked_all(list, current)->Ok_0;
            let slug = text::trimmed(list[i].slug);
            &&& saved.len() == list.len()
            &&& saved[i].slug == slug
            &&& saved[i].kind == list[i].kind
            &&& saved[i].display_name == list[i].display_name
            &&& saved[i].enabled == list[i].enabled
            &&& saved[i].client_id == list[i].client_id
            &&& saved[i].scopes == list[i].scopes
            &&& saved[i].discovery_url == list[i].discovery_url
            &&& saved[i].icon_url == list[i].icon_url
            &&& list[i].client_secret.len() > 0 && list[i].client_secret != "***"@
                ==> saved[i].client_secret == list[i].client_secret
            &&& list[i].client_secret.len() == 0 || list[i].client_secret == "***"@ ==> (if exists|
                k: int,
            |
                0 <= k < current.len() && (#[trigger] current[k]).slug == slug {
                exists|k: int|
                    0 <= k < current.len() && (#[trigger] current[k]).slug == slug
                        && saved[i].client_secret == current[k].client_secret
            } else {
                saved[i].client_secret.len() == 0
            })
            &&& 0 < slug.len() <= 32 && slug != "qq"@ && slug != "telegram"@
        }),
    decreases list.len(),
{
    let rest = list.drop_last();
    let before = checked_all(rest, current)->Ok_0;
    let saved = checked_all(list, current)->Ok_0;
    let slug = text::trimmed(list[i].slug);
    if rest.len() > 0 {
        providers_are_saved_as_given(rest, current, 0);
    } else {
        assert(before.len() == 0);
    }
    if i < rest.len() {
        providers_are_saved_as_given(rest, current, i);
        assert(rest[i] == list[i]);
        assert(saved[i] == before[i]);
    } else {
        assert(saved[i] == checked(list[i], current, before)->Ok_0);
        find_slug_finds(current, slug, 0);
        no_slug_is_passed_over(current, slug, 0);
    }
}

proof fn no_slug_is_passed_over(list: Seq<Provider>, slug: Seq<char>, from: int)
    requires
        0 <= from,
    ensures
        match find_slug(list, slug, from) {
            Some(p) => exists|k: int| from <= k < list.len() && #[trigger] list[k] == p && p.slug == slug,
            None => forall|k: int| from <= k < list.len() ==> (#[trigger] list[k]).slug != slug,
        },
    decreases list.len() - from,
{
    if from < list.len() && list[from].slug != slug {
        no_slug_is_passed_over(list, slug, from + 1);
        if let Some(p) = find_slug(list, slug, from + 1) {
            let k = choose|k: int|
                from < k < list.len() && #[trigger] list[k] == p && p.slug == slug;
            assert(list[k] == p);
        }
    }
}

/// A list in which everything is in order is saved as it is.
pub proof fn sound_providers_are_saved(list: Seq<Provider>, current: Seq<Provider>)
    requires
        sound(list),
        forall|i: int|
            0 <= i < list.len() ==> (#[trigger] list[i]).client_secret.len() > 0
                && list[i].client_secret != "***"@,
    ensures
        checked_all(list, current) == Ok::<Seq<Provider>, ProviderError>(list),
    decreases list.len(),
{
    if list.len() > 0 {
        let rest = list.drop_last();
        assert forall|i: int| 0 <= i < rest.len() implies sound_provider(#[trigger] rest[i])
            && rest[i].client_secret.len() > 0 && rest[i].client_secret != "***"@ by {
            assert(rest[i] == list[i]);
        }
        assert forall|i: int, j: int| 0 <= i < j < rest.len() implies (#[trigger] rest[i]).slug != (
        #[trigger] rest[j]).slug by {
            assert(rest[i] == list[i] && rest[j] == list[j]);
        }
        sound_providers_are_saved(rest, current);
        let last = list[list.len() - 1];
        assert(sound_provider(last));
        no_slug_is_passed_over(rest, last.slug, 0);
        if find_slug(rest, last.slug, 0) is Some {
            let p = find_slug(rest, last.slug, 0)->0;
            let k = choose|k: int| 0 <= k < rest.len() && #[trigger] rest[k] == p && p.slug == last.slug;
            assert(list[k].slug != list[list.len() - 1].slug);
        }
        assert(saved_secret(last, last.slug, current) == last.client_secret);
        assert(checked(last, current, rest) == Ok::<Provider, ProviderError>(last));
        assert(rest.push(last) =~= list);
    } else {
        assert(list =~= Seq::empty());
    }
}

/// A secret is never shown: only whether there is one.
pub proof fn secrets_are_not_shown(p: Provider, other: Provider)
    requires
        other == (Provider { client_secret: other.client_secret, ..p }),
        p.client_secret.len() > 0 <==> other.client_secret.len() > 0,
    ensures
        provider_json(masked(p)) == provider_json(masked(other)),
        provider_json(masked(p)).text_at("client_secret"@) == Some(
            if p.client_secret.len() > 0 {
                "***"@
            } else {
                ""@
            },
        ),
{
    reveal_strlit("slug");
    reveal_strlit("kind");
    reveal_strlit("display_name");
    reveal_strlit("enabled");
    reveal_strlit("client_id");
    reveal_strlit("client_secret");
    reveal_strlit("");
    assert("slug"@.len() == 4 && "kind"@.len() == 4 && "display_name"@.len() == 12 && "enabled"@.len()
        == 7 && "client_id"@.len() == 9 && "client_secret"@.len() == 13);
    reveal_with_fuel(json::key_from, 7);
    assert(""@ =~= Seq::<char>::empty());
}

/// Days are taken as they are given, between one and a year of them.
pub proof fn days_are_kept_within_a_year(days: int, more: int)
    requires
        days <= more,
    ensures
        1 <= clamped_days(days) <= 365,
        1 <= days <= 365 ==> clamped_days(days) == days,
        clamped_days(days) <= clamped_days(more),
{
}

/// Only the two ways to clean up are taken, however they are written.
pub proof fn only_known_ways_to_clean_up_are_taken(raw: Option<Seq<char>>)
    ensures
        cleanup_mode(raw) matches Some(mode) ==> (mode == "logout"@ || mode == "inactivity"@) && raw
            is Some && text::ascii_lower(text::trimmed(raw->0)) == mode,
        raw matches Some(r) ==> text::ascii_lower(text::trimmed(r)) == "logout"@ || text::ascii_lower(
            text::trimmed(r),
        ) == "inactivity"@ ==> cleanup_mode(raw) is Some,
{
}

} // verus!
