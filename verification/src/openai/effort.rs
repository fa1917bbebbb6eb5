//! Reasoning-effort levels and the cap that a caller may put on them.
use vstd::prelude::*;

use crate::text::{eq_str, lower, lower_chars, owned, trim, trim_chars, trim_str};

verus! {

/// A reasoning-effort level, ordered from least to most effort.
#[derive(Clone, Copy, Debug, PartialEq, Eq)]
pub enum ReasoningEffortRank {
    Off,
    Low,
    Medium,
    High,
}

/// The position of a level in the order `Off < Low < Medium < High`.
pub open spec fn rank_value(r: ReasoningEffortRank) -> nat {
    match r {
        ReasoningEffortRank::Off => 0,
        ReasoningEffortRank::Low => 1,
        ReasoningEffortRank::Medium => 2,
        ReasoningEffortRank::High => 3,
    }
}

/// The level a (trimmed, case-insensitive) name denotes; the empty name is `none`.
pub open spec fn parse_rank(s: Seq<char>) -> Option<ReasoningEffortRank> {
    let t = lower(trim(s));
    if t == ""@ || t == "none"@ {
        Some(ReasoningEffortRank::Off)
    } else if t == "low"@ {
        Some(ReasoningEffortRank::Low)
    } else if t == "medium"@ {
        Some(ReasoningEffortRank::Medium)
    } else if t == "high"@ {
        Some(ReasoningEffortRank::High)
    } else {
        None
    }
}

/// The canonical name of a level.
pub open spec fn rank_name(r: ReasoningEffortRank) -> Seq<char> {
    match r {
        ReasoningEffortRank::Off => "none"@,
        ReasoningEffortRank::Low => "low"@,
        ReasoningEffortRank::Medium => "medium"@,
        ReasoningEffortRank::High => "high"@,
    }
}

/// The lesser of two levels.
pub open spec fn min_rank(a: ReasoningEffortRank, b: ReasoningEffortRank) -> ReasoningEffortRank {
    if rank_value(a) <= rank_value(b) {
        a
    } else {
        b
    }
}

/// What `cap_reasoning_effort` returns: the configured effort, trimmed, unless
/// both it and the cap name a level, in which case the lesser level's name.
pub open spec fn capped_effort(config: Seq<char>, cap: Seq<char>) -> Seq<char> {
    let c = trim(config);
    match (parse_rank(c), parse_rank(cap)) {
        (Some(a), Some(b)) => rank_name(min_rank(a, b)),
        _ => c,
    }
}

/// Reads a reasoning-effort name.
pub fn parse_reasoning_effort_rank(value: &str) -> (r: Option<ReasoningEffortRank>)
    ensures
        r == parse_rank(value@),
{
    let t = trim_chars(value);
    let t = lower_chars(&t);
    if eq_str(&t, "") || eq_str(&t, "none") {
        Some(ReasoningEffortRank::Off)
    } else if eq_str(&t, "low") {
        Some(ReasoningEffortRank::Low)
    } else if eq_str(&t, "medium") {
        Some(ReasoningEffortRank::Medium)
    } else if eq_str(&t, "high") {
        Some(ReasoningEffortRank::High)
    } else {
        None
    }
}

/// The canonical name of a level.
pub fn rank_to_reasoning_effort(rank: ReasoningEffortRank) -> (s: &'static str)
    ensures
        s@ == rank_name(rank),
{
    match rank {
        ReasoningEffortRank::Off => "none",
        ReasoningEffortRank::Low => "low",
        ReasoningEffortRank::Medium => "medium",
        ReasoningEffortRank::High => "high",
    }
}

fn min_reasoning_effort_rank(a: ReasoningEffortRank, b: ReasoningEffortRank) -> (r:
    ReasoningEffortRank)
    ensures
        r == min_rank(a, b),
{
    let va: u8 = match a {
        ReasoningEffortRank::Off => 0,
        ReasoningEffortRank::Low => 1,
        ReasoningEffortRank::Medium => 2,
        ReasoningEffortRank::High => 3,
    };
    let vb: u8 = match b {
        ReasoningEffortRank::Off => 0,
        ReasoningEffortRank::Low => 1,
        ReasoningEffortRank::Medium => 2,
        ReasoningEffortRank::High => 3,
    };
    if va <= vb {
        a
    } else {
        b
    }
}

/// Limits the configured reasoning effort to at most `cap`. When either name
/// is not a known level, the configured effort is returned trimmed.
pub fn cap_reasoning_effort(config_effort: &str, cap: &str) -> (out: String)
    ensures
        out@ == capped_effort(config_effort@, cap@),
{
    let config_trim = trim_str(config_effort);
    let Some(config_rank) = parse_reasoning_effort_rank(config_trim.as_str()) else {
        return config_trim;
    };
    let Some(cap_rank) = parse_reasoning_effort_rank(cap) else {
        return config_trim;
    };
    owned(rank_to_reasoning_effort(min_reasoning_effort_rank(config_rank, cap_rank)))
}

/// A capped effort never names a level above the cap or above the configured
/// level: when both name levels, the result names exactly the lesser one.
pub proof fn lemma_cap_never_exceeds(config: Seq<char>, cap: Seq<char>)
    requires
        parse_rank(trim(config)) is Some,
        parse_rank(cap) is Some,
    ensures
        parse_rank(capped_effort(config, cap)) == Some(
            min_rank(parse_rank(trim(config))->0, parse_rank(cap)->0),
        ),
        rank_value(parse_rank(capped_effort(config, cap))->0) <= rank_value(parse_rank(cap)->0),
        rank_value(parse_rank(capped_effort(config, cap))->0) <= rank_value(
            parse_rank(trim(config))->0,
        ),
{
    let r = min_rank(parse_rank(trim(config))->0, parse_rank(cap)->0);
    lemma_rank_name_parses(r);
}

/// The canonical name of a level reads back as that level.
pub proof fn lemma_rank_name_parses(r: ReasoningEffortRank)
    ensures
        parse_rank(rank_name(r)) == Some(r),
{
    reveal_strlit("none");
    reveal_strlit("low");
    reveal_strlit("medium");
    reveal_strlit("high");
    reveal_strlit("");
    let n = rank_name(r);
    crate::text::lemma_trim_no_ws(n);
    crate::text::lemma_lower_no_upper(n);
}

} // verus!
