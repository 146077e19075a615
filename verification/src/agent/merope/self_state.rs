//! How the persona itself is, toward nobody in particular. Its levels are told
//! only in words.
use crate::text;
use vstd::prelude::*;

verus! {

/// The energy of an hour of the day, of a hundred, before anyone has tired the
/// persona.
pub open spec fn hour_energy(hour: int) -> u32 {
    if 0 <= hour <= 5 {
        25
    } else if hour == 6 {
        40
    } else if 7 <= hour <= 8 {
        55
    } else if 9 <= hour <= 17 {
        75
    } else if 18 <= hour <= 21 {
        65
    } else if hour == 22 {
        50
    } else {
        35
    }
}

pub fn day_energy(hour: u32) -> (r: u32)
    ensures
        r == hour_energy(hour as int),
{
    match hour {
        0..=5 => 25,
        6 => 40,
        7..=8 => 55,
        9..=17 => 75,
        18..=21 => 65,
        22 => 50,
        _ => 35,
    }
}

/// Where the levels stand.
#[derive(Clone, Copy, Debug, PartialEq, Eq, Structural)]
pub struct SelfLevels {
    pub tired: bool,
    pub lively: bool,
    pub lonely: bool,
    pub curious: bool,
}

/// The levels in words, for a model that sees no numbers.
#[derive(Clone, Copy, Debug, PartialEq, Eq)]
pub struct SelfBands {
    pub energy: &'static str,
    pub company: &'static str,
    pub curiosity: &'static str,
}

pub fn bands(levels: SelfLevels) -> (r: SelfBands)
    ensures
        r.energy@ == (if levels.tired {
            "low"@
        } else if levels.lively {
            "high"@
        } else {
            "normal"@
        }),
        r.company@ == (if levels.lonely {
            "wanted"@
        } else {
            "content"@
        }),
        r.curiosity@ == (if levels.curious {
            "high"@
        } else {
            "normal"@
        }),
{
    let energy = if levels.tired {
        "low"
    } else if levels.lively {
        "high"
    } else {
        "normal"
    };
    let company = if levels.lonely {
        "wanted"
    } else {
        "content"
    };
    let curiosity = if levels.curious {
        "high"
    } else {
        "normal"
    };
    SelfBands { energy, company, curiosity }
}

pub open spec fn self_told(levels: SelfLevels) -> Option<Seq<char>> {
    if levels.tired {
        Some(
            "## Yourself\n"@
                + "You are low on energy right now: shorter replies, fewer tangents. It is tiredness, not coldness toward them."@,
        )
    } else if levels.lively && levels.lonely {
        Some(
            "## Yourself\n"@
                + "Nobody has talked with you for a while and you have energy: you are glad of the company and may say a little more."@,
        )
    } else {
        None
    }
}

/// What the speaker is told of itself, where there is something worth saying.
pub fn format_self_section(levels: SelfLevels) -> (r: Option<String>)
    ensures
        text::opt_view(r) == self_told(levels),
{
    let line = if levels.tired {
        "You are low on energy right now: shorter replies, fewer tangents. It is tiredness, not coldness toward them."
    } else if levels.lively && levels.lonely {
        "Nobody has talked with you for a while and you have energy: you are glad of the company and may say a little more."
    } else {
        return None;
    };
    let mut out = "## Yourself\n".to_owned();
    out.append(line);
    Some(out)
}

/// There is never more energy than in the working day and never less than in the
/// dead of night; it grows through the morning and goes through the evening.
pub proof fn energy_follows_the_day(hour: int, other: int)
    requires
        0 <= hour < 24,
        0 <= other < 24,
    ensures
        hour <= 5 ==> hour_energy(hour) == 25,
        hour == 6 ==> hour_energy(hour) == 40,
        7 <= hour <= 8 ==> hour_energy(hour) == 55,
        9 <= hour <= 17 ==> hour_energy(hour) == 75,
        18 <= hour <= 21 ==> hour_energy(hour) == 65,
        hour == 22 ==> hour_energy(hour) == 50,
        hour == 23 ==> hour_energy(hour) == 35,
        9 <= other <= 17 ==> hour_energy(hour) <= hour_energy(other),
        other <= 5 ==> hour_energy(other) <= hour_energy(hour),
        hour <= other <= 17 ==> hour_energy(hour) <= hour_energy(other),
        9 <= hour <= other ==> hour_energy(other) <= hour_energy(hour),
        hour_energy(5) < hour_energy(6) < hour_energy(7) < hour_energy(9),
        hour_energy(17) > hour_energy(18) > hour_energy(22) > hour_energy(23),
{
}

/// What is told of oneself is told of what is felt: tiredness before all else,
/// and being glad of company only where one is neither tired nor listless.
pub proof fn only_what_is_felt_is_told(levels: SelfLevels)
    ensures
        self_told(levels) is Some <==> levels.tired || (levels.lively && levels.lonely),
        self_told(levels) is Some && levels.tired ==> self_told(levels) == self_told(
            (SelfLevels { lively: false, lonely: false, ..levels }),
        ),
{
}

} // verus!
