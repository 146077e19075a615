//! Which capabilities are handed down to users and guests.
use crate::json;
use crate::json::{Fields, Json, JsonView};
use crate::text;
use vstd::prelude::*;

verus! {

broadcast use crate::json::group_json;

// ---------------------------------------------------------------------------
// Roles
// ---------------------------------------------------------------------------
#[derive(Clone, Copy, Debug, PartialEq, Eq, Structural)]
pub enum UserRole {
    Admin,
    User,
    Guest,
}

impl UserRole {
    pub open spec fn name(self) -> Seq<char> {
        match self {
            UserRole::Admin => "admin"@,
            UserRole::User => "user"@,
            UserRole::Guest => "guest"@,
        }
    }

    pub fn as_str(self) -> (r: &'static str)
        ensures
            r@ == self.name(),
    {
        match self {
            UserRole::Admin => "admin",
            UserRole::User => "user",
            UserRole::Guest => "guest",
        }
    }
}

/// Who a request comes from: the subject of its token and whether it is an
/// administrator.
pub struct Claims {
    pub sub: String,
    pub is_admin: bool,
}

impl Claims {
    /// The number that the subject denotes.
    pub open spec fn subject(self) -> Option<int> {
        text::number_in(self.sub@, i32::MIN as int, i32::MAX as int)
    }

    pub fn subject_id(&self) -> (r: Option<i32>)
        ensures
            match r {
                Some(n) => self.subject() == Some(n as int),
                None => self.subject() is None,
            },
    {
        text::parse_i32(self.sub.as_str())
    }
}

/// The role of a requester. Accounts have positive numbers and guest sessions
/// negative ones; whatever is neither is a guest.
pub open spec fn role_of(claims: Option<Claims>) -> UserRole {
    match claims {
        None => UserRole::Guest,
        Some(c) => if c.is_admin {
            UserRole::Admin
        } else {
            match c.subject() {
                Some(n) if n > 0 => UserRole::User,
                _ => UserRole::Guest,
            }
        },
    }
}

pub fn permission_role(claims: &Option<Claims>) -> (r: UserRole)
    ensures
        r == role_of(*claims),
{
    match claims {
        None => UserRole::Guest,
        Some(c) => {
            if c.is_admin {
                return UserRole::Admin;
            }
            match c.subject_id() {
                Some(n) => {
                    if n > 0 {
                        UserRole::User
                    } else {
                        UserRole::Guest
                    }
                },
                None => UserRole::Guest,
            }
        },
    }
}

pub open spec fn lowered(list: Seq<Seq<char>>) -> Seq<Seq<char>> {
    list.map_values(|s: Seq<char>| text::lowercased(s))
}

/// What a requester is told of the permissions.
pub fn permissions_response(role: UserRole, allowed_levels: &Vec<String>, config: &Json) -> (r: Json)
    ensures
        r@ == json::empty().with("success"@, JsonView::Bool(true)).with(
            "role"@,
            json::text_json(role.name()),
        ).with("allowed_levels"@, json::texts_json(lowered(text::views(allowed_levels@)))).with(
            "config"@,
            config@,
        ),
{
    let mut levels: Vec<String> = Vec::new();
    let mut i: usize = 0;
    while i < allowed_levels.len()
        invariant
            i <= allowed_levels@.len(),
            levels@.len() == i,
            forall|k: int|
                0 <= k < i ==> #[trigger] levels@[k]@ == text::lowercased(allowed_levels@[k]@),
        decreases allowed_levels@.len() - i,
    {
        levels.push(text::to_lowercase(allowed_levels[i].as_str()));
        i = i + 1;
    }
    assert(text::views(levels@) =~= lowered(text::views(allowed_levels@)));
    json::object()
        .with("success", Json::Bool(true))
        .with("role", json::string(role.as_str()))
        .with("allowed_levels", json::strings(&levels))
        .with("config", config.copy())
}

// ---------------------------------------------------------------------------
// Delegation
// ---------------------------------------------------------------------------
/// One capability that can be handed down: the setting for users and, where a
/// guest may ever have it, the setting for guests.
pub struct Delegation {
    pub user_key: String,
    pub guest_key: Option<String>,
}

pub open spec fn delegates(row: Delegation, key: Seq<char>) -> bool {
    row.user_key@ == key || text::opt_view(row.guest_key) == Some(key)
}

/// Whether a key is a setting of the table.
pub open spec fn in_table(table: Seq<Delegation>, key: Seq<char>) -> bool {
    exists|i: int| 0 <= i < table.len() && delegates(#[trigger] table[i], key)
}

/// The switch that a request gives for a key.
pub open spec fn switch_of(body: Seq<(Seq<char>, JsonView)>, key: Seq<char>) -> Option<JsonView> {
    match json::entry(body, key) {
        Some(JsonView::Bool(b)) => Some(JsonView::Bool(b)),
        _ => None,
    }
}

fn copy_switch(updates: &mut Fields, body: &Fields, key: &str)
    ensures
        json::entry(json::entries(final(updates)@), key@) == (match switch_of(
            json::entries(body@),
            key@,
        ) {
            Some(v) => Some(v),
            None => json::entry(json::entries(old(updates)@), key@),
        }),
        forall|other: Seq<char>|
            other != key@ ==> #[trigger] json::entry(json::entries(final(updates)@), other)
                == json::entry(json::entries(old(updates)@), other),
        final(updates)@.len() > 0 <==> old(updates)@.len() > 0 || switch_of(
            json::entries(body@),
            key@,
        ) is Some,
{
    if let Some(Json::Bool(value)) = json::field(body, key) {
        let ghost before = json::entries(updates@);
        proof {
            assert forall|other: Seq<char>| other != key@ implies #[trigger] json::entry(
                json::with_entry(before, key@, JsonView::Bool(*value)),
                other,
            ) == json::entry(before, other) by {
                json::lookup_after_set(before, key@, JsonView::Bool(*value), other);
            }
            json::lookup_after_set(before, key@, JsonView::Bool(*value), key@);
        }
        json::set(updates, key, Json::Bool(*value));
        assert(json::entries(updates@).len() == updates@.len());
        assert(json::with_entry(before, key@, JsonView::Bool(*value)).len() > 0);
    }
}

pub open spec fn table_before(table: Seq<Delegation>, n: int, key: Seq<char>) -> bool {
    exists|i: int| 0 <= i < n && delegates(#[trigger] table[i], key)
}

/// The switches of a request, as far as the table knows them. A key outside the
/// table is never written, a capability that is not for guests among them.
pub fn delegation_updates(table: &Vec<Delegation>, body: &Fields) -> (r: Fields)
    ensures
        forall|key: Seq<char>| #[trigger]
            json::entry(json::entries(r@), key) == (if in_table(table@, key) {
                switch_of(json::entries(body@), key)
            } else {
                None
            }),
        r@.len() == 0 <==> (forall|key: Seq<char>| #[trigger]
            in_table(table@, key) ==> switch_of(json::entries(body@), key) is None),
{
    let mut updates: Fields = Vec::new();
    let ghost given = json::entries(body@);
    let mut i: usize = 0;
    assert(json::entries(updates@) =~= Seq::empty());
    while i < table.len()
        invariant
            i <= table@.len(),
            given == json::entries(body@),
            forall|key: Seq<char>| #[trigger]
                json::entry(json::entries(updates@), key) == (if table_before(
                    table@,
                    i as int,
                    key,
                ) {
                    switch_of(given, key)
                } else {
                    None
                }),
            updates@.len() > 0 <==> (exists|key: Seq<char>| #[trigger]
                table_before(table@, i as int, key) && switch_of(given, key) is Some),
        decreases table@.len() - i,
    {
        let row = &table[i];
        let ghost before = json::entries(updates@);
        let ghost had = updates@.len() > 0;
        copy_switch(&mut updates, body, row.user_key.as_str());
        let ghost middle = json::entries(updates@);
        if let Some(guest) = &row.guest_key {
            copy_switch(&mut updates, body, guest.as_str());
        }
        proof {
            assert(delegates(table@[i as int], row.user_key@));
            assert forall|key: Seq<char>| #[trigger]
                json::entry(json::entries(updates@), key) == (if table_before(
                    table@,
                    i + 1,
                    key,
                ) {
                    switch_of(given, key)
                } else {
                    None
                }) by {
                step_of_table(table@, i as int, key);
                assert(json::entry(before, key) == json::entry(before, key));
                assert(json::entry(middle, key) == json::entry(middle, key));
            }
            assert forall|key: Seq<char>| #[trigger]
                table_before(table@, i + 1, key) && switch_of(given, key) is Some implies
                updates@.len() > 0 by {
                step_of_table(table@, i as int, key);
            }
            if updates@.len() > 0 {
                if had {
                    let key = choose|key: Seq<char>| #[trigger]
                        table_before(table@, i as int, key) && switch_of(given, key) is Some;
                    step_of_table(table@, i as int, key);
                    assert(table_before(table@, i + 1, key));
                } else if switch_of(given, row.user_key@) is Some {
                    step_of_table(table@, i as int, row.user_key@);
                    assert(table_before(table@, i + 1, row.user_key@));
                } else {
                    let key = row.guest_key->0@;
                    step_of_table(table@, i as int, key);
                    assert(table_before(table@, i + 1, key));
                }
            }
        }
        i = i + 1;
    }
    assert(forall|key: Seq<char>| #[trigger]
        table_before(table@, table@.len() as int, key) == in_table(table@, key));
    proof {
        if updates@.len() > 0 {
            let key = choose|key: Seq<char>| #[trigger]
                table_before(table@, table@.len() as int, key) && switch_of(given, key) is Some;
            assert(in_table(table@, key));
        } else {
            assert forall|key: Seq<char>| #[trigger] in_table(table@, key) implies switch_of(
                given,
                key,
            ) is None by {
                assert(table_before(table@, table@.len() as int, key));
            }
        }
    }
    updates
}

proof fn step_of_table(table: Seq<Delegation>, i: int, key: Seq<char>)
    requires
        0 <= i < table.len(),
    ensures
        table_before(table, i + 1, key) == (table_before(table, i, key) || delegates(table[i], key)),
{
    if table_before(table, i + 1, key) {
        let k = choose|k: int| 0 <= k < i + 1 && delegates(#[trigger] table[k], key);
        if k < i {
            assert(table_before(table, i, key));
        }
    }
    if table_before(table, i, key) {
        let k = choose|k: int| 0 <= k < i && delegates(#[trigger] table[k], key);
        assert(delegates(table[k], key));
    }
    if delegates(table[i], key) {
        assert(table_before(table, i + 1, key));
    }
}

/// Switches by their keys, and the limits on the use of models.
pub struct UpdatePermissionsPayload {
    pub delegations: Fields,
    pub user_ai_daily_calls: Option<i32>,
    pub user_ai_daily_tokens: Option<i32>,
    pub user_ai_cooldown_seconds: Option<i32>,
    pub guest_ai_daily_calls: Option<i32>,
    pub guest_ai_daily_tokens: Option<i32>,
    pub guest_ai_cooldown_seconds: Option<i32>,
}

pub open spec fn with_limit(
    o: Seq<(Seq<char>, JsonView)>,
    key: Seq<char>,
    value: Option<i32>,
) -> Seq<(Seq<char>, JsonView)> {
    match value {
        Some(n) => json::with_entry(o, key, json::int_json(n as int)),
        None => o,
    }
}

pub open spec fn with_limits(
    o: Seq<(Seq<char>, JsonView)>,
    p: UpdatePermissionsPayload,
) -> Seq<(Seq<char>, JsonView)> {
    let o = with_limit(o, "user_ai_daily_calls"@, p.user_ai_daily_calls);
    let o = with_limit(o, "user_ai_daily_tokens"@, p.user_ai_daily_tokens);
    let o = with_limit(o, "user_ai_cooldown_seconds"@, p.user_ai_cooldown_seconds);
    let o = with_limit(o, "guest_ai_daily_calls"@, p.guest_ai_daily_calls);
    let o = with_limit(o, "guest_ai_daily_tokens"@, p.guest_ai_daily_tokens);
    with_limit(o, "guest_ai_cooldown_seconds"@, p.guest_ai_cooldown_seconds)
}

proof fn limit_adds_an_entry(o: Seq<(Seq<char>, JsonView)>, key: Seq<char>, value: Option<i32>)
    ensures
        with_limit(o, key, value).len() >= o.len(),
        value is Some ==> with_limit(o, key, value).len() > 0,
        value is None ==> with_limit(o, key, value) == o,
{
    if value is Some {
        json::key_from_is_first(o, key, 0);
    }
}

proof fn limits_add_entries(o: Seq<(Seq<char>, JsonView)>, p: UpdatePermissionsPayload)
    ensures
        with_limits(o, p).len() == 0 <==> o.len() == 0 && no_limits(p),
{
    let a = with_limit(o, "user_ai_daily_calls"@, p.user_ai_daily_calls);
    let b = with_limit(a, "user_ai_daily_tokens"@, p.user_ai_daily_tokens);
    let c = with_limit(b, "user_ai_cooldown_seconds"@, p.user_ai_cooldown_seconds);
    let d = with_limit(c, "guest_ai_daily_calls"@, p.guest_ai_daily_calls);
    let e = with_limit(d, "guest_ai_daily_tokens"@, p.guest_ai_daily_tokens);
    limit_adds_an_entry(o, "user_ai_daily_calls"@, p.user_ai_daily_calls);
    limit_adds_an_entry(a, "user_ai_daily_tokens"@, p.user_ai_daily_tokens);
    limit_adds_an_entry(b, "user_ai_cooldown_seconds"@, p.user_ai_cooldown_seconds);
    limit_adds_an_entry(c, "guest_ai_daily_calls"@, p.guest_ai_daily_calls);
    limit_adds_an_entry(d, "guest_ai_daily_tokens"@, p.guest_ai_daily_tokens);
    limit_adds_an_entry(e, "guest_ai_cooldown_seconds"@, p.guest_ai_cooldown_seconds);
}

fn set_limit(updates: &mut Fields, key: &str, value: Option<i32>)
    ensures
        json::entries(final(updates)@) == with_limit(json::entries(old(updates)@), key@, value),
{
    if let Some(n) = value {
        json::set(updates, key, json::number(n as i64));
    }
}

pub open spec fn no_limits(p: UpdatePermissionsPayload) -> bool {
    &&& p.user_ai_daily_calls is None
    &&& p.user_ai_daily_tokens is None
    &&& p.user_ai_cooldown_seconds is None
    &&& p.guest_ai_daily_calls is None
    &&& p.guest_ai_daily_tokens is None
    &&& p.guest_ai_cooldown_seconds is None
}

/// Whether a request sets anything that is stored.
pub open spec fn sets_nothing(table: Seq<Delegation>, p: UpdatePermissionsPayload) -> bool {
    &&& no_limits(p)
    &&& forall|key: Seq<char>| #[trigger]
        in_table(table, key) ==> switch_of(json::entries(p.delegations@), key) is None
}

/// The settings that a request writes; `None` when it sets nothing.
pub fn plan_permission_updates(table: &Vec<Delegation>, payload: &UpdatePermissionsPayload) -> (r:
    Option<Fields>)
    ensures
        match r {
            None => sets_nothing(table@, *payload),
            Some(updates) => !sets_nothing(table@, *payload) && exists|switches: Fields|
                #![trigger json::entries(switches@)]
                {
                    &&& json::entries(updates@) == with_limits(
                        json::entries(switches@),
                        *payload,
                    )
                    &&& forall|key: Seq<char>| #[trigger]
                        json::entry(json::entries(switches@), key) == (if in_table(table@, key) {
                            switch_of(json::entries(payload.delegations@), key)
                        } else {
                            None
                        })
                },
        },
{
    let mut updates = delegation_updates(table, &payload.delegations);
    let ghost switches = updates;
    set_limit(&mut updates, "user_ai_daily_calls", payload.user_ai_daily_calls);
    set_limit(&mut updates, "user_ai_daily_tokens", payload.user_ai_daily_tokens);
    set_limit(&mut updates, "user_ai_cooldown_seconds", payload.user_ai_cooldown_seconds);
    set_limit(&mut updates, "guest_ai_daily_calls", payload.guest_ai_daily_calls);
    set_limit(&mut updates, "guest_ai_daily_tokens", payload.guest_ai_daily_tokens);
    set_limit(&mut updates, "guest_ai_cooldown_seconds", payload.guest_ai_cooldown_seconds);
    assert(json::entries(updates@) == with_limits(json::entries(switches@), *payload));
    assert(json::entries(updates@).len() == updates@.len());
    assert(json::entries(switches@).len() == switches@.len());
    proof {
        limits_add_entries(json::entries(switches@), *payload);
    }
    if updates.len() == 0 {
        None
    } else {
        Some(updates)
    }
}

/// What is answered to a request that sets nothing; the status is 400.
pub fn no_settings_body() -> (r: Json)
    ensures
        r@ == json::empty().with("success"@, JsonView::Bool(false)).with(
            "message"@,
            json::text_json("No permission settings provided"@),
        ).with("code"@, json::text_json("no_permission_settings"@)),
{
    json::object()
        .with("success", Json::Bool(false))
        .with("message", json::string("No permission settings provided"))
        .with("code", json::string("no_permission_settings"))
}

/// A limit that is given is set to what is given; nothing else is touched.
pub proof fn limits_are_set_as_given(
    o: Seq<(Seq<char>, JsonView)>,
    p: UpdatePermissionsPayload,
    key: Seq<char>,
)
    ensures
        json::entry(with_limits(o, p), key) == ({
            let given = if key == "user_ai_daily_calls"@ {
                p.user_ai_daily_calls
            } else if key == "user_ai_daily_tokens"@ {
                p.user_ai_daily_tokens
            } else if key == "user_ai_cooldown_seconds"@ {
                p.user_ai_cooldown_seconds
            } else if key == "guest_ai_daily_calls"@ {
                p.guest_ai_daily_calls
            } else if key == "guest_ai_daily_tokens"@ {
                p.guest_ai_daily_tokens
            } else if key == "guest_ai_cooldown_seconds"@ {
                p.guest_ai_cooldown_seconds
            } else {
                None
            };
            match given {
                Some(n) => Some(json::int_json(n as int)),
                None => json::entry(o, key),
            }
        }),
{
    reveal_strlit("user_ai_daily_calls");
    reveal_strlit("user_ai_daily_tokens");
    reveal_strlit("user_ai_cooldown_seconds");
    reveal_strlit("guest_ai_daily_calls");
    reveal_strlit("guest_ai_daily_tokens");
    reveal_strlit("guest_ai_cooldown_seconds");
    assert("user_ai_daily_calls"@.len() == 19 && "user_ai_daily_tokens"@.len() == 20
        && "user_ai_cooldown_seconds"@.len() == 24 && "guest_ai_daily_calls"@.len() == 20
        && "guest_ai_daily_tokens"@.len() == 21 && "guest_ai_cooldown_seconds"@.len() == 25);
    assert("user_ai_daily_tokens"@[0] == 'u' && "guest_ai_daily_calls"@[0] == 'g');
    let a = with_limit(o, "user_ai_daily_calls"@, p.user_ai_daily_calls);
    limit_is_set(o, "user_ai_daily_calls"@, p.user_ai_daily_calls, key);
    let b = with_limit(a, "user_ai_daily_tokens"@, p.user_ai_daily_tokens);
    limit_is_set(a, "user_ai_daily_tokens"@, p.user_ai_daily_tokens, key);
    let c = with_limit(b, "user_ai_cooldown_seconds"@, p.user_ai_cooldown_seconds);
    limit_is_set(b, "user_ai_cooldown_seconds"@, p.user_ai_cooldown_seconds, key);
    let d = with_limit(c, "guest_ai_daily_calls"@, p.guest_ai_daily_calls);
    limit_is_set(c, "guest_ai_daily_calls"@, p.guest_ai_daily_calls, key);
    let e = with_limit(d, "guest_ai_daily_tokens"@, p.guest_ai_daily_tokens);
    limit_is_set(d, "guest_ai_daily_tokens"@, p.guest_ai_daily_tokens, key);
    limit_is_set(e, "guest_ai_cooldown_seconds"@, p.guest_ai_cooldown_seconds, key);
}

proof fn limit_is_set(
    o: Seq<(Seq<char>, JsonView)>,
    set: Seq<char>,
    value: Option<i32>,
    key: Seq<char>,
)
    ensures
        json::entry(with_limit(o, set, value), key) == (if key == set && value is Some {
            Some(json::int_json(value->0 as int))
        } else {
            json::entry(o, key)
        }),
{
    if let Some(n) = value {
        json::lookup_after_set(o, set, json::int_json(n as int), key);
    }
}

/// Nobody is an administrator whose claims do not say so, and nobody is a user
/// whose claims name no account.
pub proof fn roles_are_not_made_up(claims: Option<Claims>)
    ensures
        role_of(claims) is Admin <==> (claims matches Some(c) && c.is_admin),
        role_of(claims) is User ==> (claims matches Some(c) && (c.subject() matches Some(n) && n > 0)),
        claims matches Some(c) ==> c.subject() matches Some(n) ==> n > 0 ==> !(role_of(claims)
            is Guest),
{
}

/// What may be delegated is what the table names, for users and for guests, and
/// it is switched on or off only by a plain yes or no.
pub proof fn the_table_says_what_is_delegated(
    table: Seq<Delegation>,
    i: int,
    key: Seq<char>,
    body: Seq<(Seq<char>, JsonView)>,
)
    requires
        0 <= i < table.len(),
    ensures
        in_table(table, table[i].user_key@),
        table[i].guest_key matches Some(guest) ==> in_table(table, guest@),
        in_table(table, key) ==> exists|k: int|
            0 <= k < table.len() && ((#[trigger] table[k]).user_key@ == key || (
            table[k].guest_key matches Some(guest) && guest@ == key)),
        switch_of(body, key) is Some <==> (json::entry(body, key) matches Some(JsonView::Bool(_))),
        switch_of(body, key) is Some ==> switch_of(body, key) == json::entry(body, key),
{
    assert(delegates(table[i], table[i].user_key@));
    if let Some(guest) = table[i].guest_key {
        assert(delegates(table[i], guest@));
    }
}

} // verus!
