//! The grammar of capability identifiers, and what may run unattended.
use crate::text;
use vstd::prelude::*;

verus! {

// ---------------------------------------------------------------------------
// Identifiers
// ---------------------------------------------------------------------------
/// What a capability identifier names.
#[derive(Clone, Copy, Debug, PartialEq, Eq)]
pub enum CapabilityRef<'a> {
    /// A capability of the platform, such as `phantasi.search`.
    Builtin(&'a str),
    /// `skill:{skill_id}`.
    Skill(&'a str),
    /// `mcp.{server_id}.{tool}`. Server identifiers may contain dots, so the
    /// pair is only known once it is matched against the advertised tools.
    Mcp(&'a str),
}

pub enum CapabilityName {
    Builtin(Seq<char>),
    Skill(Seq<char>),
    Mcp(Seq<char>),
}

impl<'a> View for CapabilityRef<'a> {
    type V = CapabilityName;

    open spec fn view(&self) -> CapabilityName {
        match self {
            CapabilityRef::Builtin(s) => CapabilityName::Builtin(s@),
            CapabilityRef::Skill(s) => CapabilityName::Skill(s@),
            CapabilityRef::Mcp(s) => CapabilityName::Mcp(s@),
        }
    }
}

pub open spec fn name_of(id: Seq<char>) -> CapabilityName {
    match text::after_prefix(id, "skill:"@) {
        Some(skill) => CapabilityName::Skill(skill),
        None => match text::after_prefix(id, "mcp."@) {
            Some(tool) => CapabilityName::Mcp(tool),
            None => CapabilityName::Builtin(id),
        },
    }
}

impl<'a> CapabilityRef<'a> {
    pub fn parse(id: &'a str) -> (r: Self)
        ensures
            r@ == name_of(id@),
    {
        if let Some(skill) = text::after(id, "skill:") {
            CapabilityRef::Skill(skill)
        } else if let Some(tool) = text::after(id, "mcp.") {
            CapabilityRef::Mcp(tool)
        } else {
            CapabilityRef::Builtin(id)
        }
    }

    pub fn is_skill(self) -> (r: bool)
        ensures
            r == (self@ is Skill),
    {
        matches!(self, CapabilityRef::Skill(_))
    }

    pub fn is_mcp(self) -> (r: bool)
        ensures
            r == (self@ is Mcp),
    {
        matches!(self, CapabilityRef::Mcp(_))
    }

    pub fn skill_id(self) -> (r: Option<&'a str>)
        ensures
            match r {
                Some(s) => self@ == CapabilityName::Skill(s@),
                None => !(self@ is Skill),
            },
    {
        match self {
            CapabilityRef::Skill(s) => Some(s),
            _ => None,
        }
    }
}

pub open spec fn skill_id_text(skill_id: Seq<char>) -> Seq<char> {
    "skill:"@ + skill_id
}

pub open spec fn mcp_id_text(server_id: Seq<char>, tool: Seq<char>) -> Seq<char> {
    "mcp."@ + server_id + "."@ + tool
}

pub fn skill_capability_id(skill_id: &str) -> (r: String)
    ensures
        r@ == skill_id_text(skill_id@),
{
    let mut out = "skill:".to_owned();
    out.append(skill_id);
    out
}

pub fn mcp_capability_id(server_id: &str, tool: &str) -> (r: String)
    ensures
        r@ == mcp_id_text(server_id@, tool@),
{
    let mut out = "mcp.".to_owned();
    out.append(server_id);
    out.append(".");
    out.append(tool);
    out
}

/// The identifier of a skill names that skill, and that of a tool names that
/// tool of its server.
pub proof fn identifiers_name_what_they_were_made_of(
    skill_id: Seq<char>,
    server_id: Seq<char>,
    tool: Seq<char>,
)
    ensures
        name_of(skill_id_text(skill_id)) == CapabilityName::Skill(skill_id),
        name_of(mcp_id_text(server_id, tool)) == CapabilityName::Mcp(server_id + "."@ + tool),
{
    let s = skill_id_text(skill_id);
    reveal_strlit("skill:");
    reveal_strlit("mcp.");
    assert(s.take(6) =~= "skill:"@);
    assert(s.skip(6) =~= skill_id);
    let m = mcp_id_text(server_id, tool);
    assert(m[0] == 'm');
    if text::starts(m, "skill:"@) {
        assert(m.take(6)[0] == 's');
    }
    assert(m.take(4) =~= "mcp."@);
    assert(m.skip(4) =~= server_id + "."@ + tool);
}

// ---------------------------------------------------------------------------
// Risk
// ---------------------------------------------------------------------------
#[derive(Clone, Copy, Debug, PartialEq, Eq, Structural)]
pub enum RiskLevel {
    Low,
    Medium,
    High,
    Critical,
}

/// What never runs unattended: it would create, change or start new automatic
/// work, so that one injected line could spread by itself.
pub open spec fn spreads_itself(id: Seq<char>) -> bool {
    ||| id == "heartbeat.create"@
    ||| id == "heartbeat.update"@
    ||| id == "heartbeat.delete"@
    ||| id == "heartbeat.toggle"@
    ||| id == "scheduler.create"@
    ||| id == "scheduler.trigger"@
    ||| id == "task.submit"@
    ||| id == "tapp.install"@
}

/// Whether the heartbeat may run a capability that needs confirmation without
/// one.
pub fn unattended_may_auto_run(capability_id: &str, risk: RiskLevel) -> (r: bool)
    ensures
        r == ((risk is Low || risk is Medium) && !spreads_itself(capability_id@)),
        r ==> !(seq![
            "heartbeat.create"@,
            "heartbeat.update"@,
            "heartbeat.delete"@,
            "heartbeat.toggle"@,
            "scheduler.create"@,
            "scheduler.trigger"@,
            "task.submit"@,
            "tapp.install"@,
        ].contains(capability_id@)),
{
    let safe = match risk {
        RiskLevel::Low | RiskLevel::Medium => true,
        RiskLevel::High | RiskLevel::Critical => false,
    };
    let spreads = text::eq(capability_id, "heartbeat.create") || text::eq(
        capability_id,
        "heartbeat.update",
    ) || text::eq(capability_id, "heartbeat.delete") || text::eq(
        capability_id,
        "heartbeat.toggle",
    ) || text::eq(capability_id, "scheduler.create") || text::eq(
        capability_id,
        "scheduler.trigger",
    ) || text::eq(capability_id, "task.submit") || text::eq(capability_id, "tapp.install");
    safe && !spreads
}

/// Whether a step that was not part of the confirmed plan has to wait for a
/// confirmation: everything but low risk does, whoever runs it.
pub fn should_block_unconfirmed_dynamic_step(risk: RiskLevel) -> (r: bool)
    ensures
        r == !(risk is Low),
{
    match risk {
        RiskLevel::Low => false,
        RiskLevel::Medium | RiskLevel::High | RiskLevel::Critical => true,
    }
}

// ---------------------------------------------------------------------------
// Models
// ---------------------------------------------------------------------------
#[derive(Clone, Copy, Debug, PartialEq, Eq, Structural)]
pub enum ModelTier {
    Lite,
    Standard,
    Pro,
}

/// The model that stands in for a tier: the professional one for its own tier,
/// the standard one for the others, and the other of the two where that is
/// missing.
pub fn get_analyzer_for_tier(tier: ModelTier, has_pro: bool, has_standard: bool) -> (r: Option<
    ModelTier,
>)
    ensures
        r == (if tier is Pro && has_pro {
            Some(ModelTier::Pro)
        } else if has_standard {
            Some(ModelTier::Standard)
        } else if has_pro {
            Some(ModelTier::Pro)
        } else {
            None
        }),
        r is Some <==> has_pro || has_standard,
        r == Some(ModelTier::Pro) ==> has_pro,
        r == Some(ModelTier::Standard) ==> has_standard,
        tier is Pro && has_pro ==> r == Some(ModelTier::Pro),
        !(tier is Pro) && has_standard ==> r == Some(ModelTier::Standard),
{
    match tier {
        ModelTier::Pro => {
            if has_pro {
                Some(ModelTier::Pro)
            } else if has_standard {
                Some(ModelTier::Standard)
            } else {
                None
            }
        },
        ModelTier::Standard | ModelTier::Lite => {
            if has_standard {
                Some(ModelTier::Standard)
            } else if has_pro {
                Some(ModelTier::Pro)
            } else {
                None
            }
        },
    }
}

/// The tier of a step: what the circuit breaker leaves, else what it would have
/// been.
pub fn resolve_tier_with_breaker(left: Option<ModelTier>, usual: ModelTier) -> (r: ModelTier)
    ensures
        r == (match left {
            Some(t) => t,
            None => usual,
        }),
{
    match left {
        Some(t) => t,
        None => usual,
    }
}

/// What is neither a skill nor a tool of a server is built in, under its own
/// name. Two identifiers never name the same capability.
pub proof fn identifiers_are_told_apart(id: Seq<char>, other: Seq<char>)
    ensures
        !text::starts(id, "skill:"@) && !text::starts(id, "mcp."@) ==> name_of(id)
            == CapabilityName::Builtin(id),
        name_of(id) is Skill <==> text::starts(id, "skill:"@),
        name_of(id) is Mcp <==> text::starts(id, "mcp."@),
        name_of(id) == name_of(other) ==> id == other,
{
    reveal_strlit("skill:");
    reveal_strlit("mcp.");
    assert("skill:"@.len() == 6 && "mcp."@.len() == 4 && "skill:"@[0] == 's' && "mcp."@[0] == 'm');
    if text::starts(id, "skill:"@) {
        assert(id.take(6)[0] == id[0]);
        assert("skill:"@ + id.skip(6) =~= id);
    }
    if text::starts(id, "mcp."@) {
        assert(id.take(4)[0] == id[0]);
        assert("mcp."@ + id.skip(4) =~= id);
    }
    if text::starts(other, "skill:"@) {
        assert("skill:"@ + other.skip(6) =~= other);
    }
    if text::starts(other, "mcp."@) {
        assert(other.take(4)[0] == other[0]);
        assert("mcp."@ + other.skip(4) =~= other);
    }
}

} // verus!
