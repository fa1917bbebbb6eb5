//! Severity levels of motion checks, and the target level a joint rest-bias
//! repair aims for.
use vstd::prelude::*;

use crate::parse::documents::{distinct_trimmed, normalize_explicit_motion_channels};
use crate::text::{
    decimal, eq_str, lower, lower_chars, owned, push_decimal, push_str, sort_distinct_strings, sorted_set,
    strings_view, trim, trim_chars,
};

verus! {

/// The level below which a rest-bias repair should bring a joint.
#[derive(Clone, Copy, Debug, PartialEq, Eq, Structural)]
pub enum RestBiasTarget {
    Warn,
    Error,
}

/// The target named by a (trimmed, lower-cased) word: empty, `warn` or
/// `warning` for `Warn`, `error` for `Error`.
pub open spec fn rest_bias_target(k: Seq<char>) -> Option<RestBiasTarget> {
    if k == ""@ || k == "warn"@ || k == "warning"@ {
        Some(RestBiasTarget::Warn)
    } else if k == "error"@ {
        Some(RestBiasTarget::Error)
    } else {
        None
    }
}

impl RestBiasTarget {
    /// Reads a target, ignoring surrounding whitespace and ASCII case; an
    /// empty value means `Warn`.
    pub fn from_str(value: &str) -> (r: Option<Self>)
        ensures
            r == rest_bias_target(lower(trim(value@))),
    {
        let k = lower_chars(&trim_chars(value));
        if eq_str(&k, "") || eq_str(&k, "warn") || eq_str(&k, "warning") {
            Some(RestBiasTarget::Warn)
        } else if eq_str(&k, "error") {
            Some(RestBiasTarget::Error)
        } else {
            None
        }
    }
}

/// How far a joint's rest pose is biased away from neutral.
#[derive(Clone, Copy, Debug, PartialEq, Eq, Structural)]
pub enum JointRestBiasSeverity {
    Warn,
    Error,
}

impl JointRestBiasSeverity {
    /// `warn` or `error`.
    pub fn as_str(self) -> (s: &'static str)
        ensures
            s@ == (match self {
                JointRestBiasSeverity::Warn => "warn"@,
                JointRestBiasSeverity::Error => "error"@,
            }),
    {
        match self {
            JointRestBiasSeverity::Warn => "warn",
            JointRestBiasSeverity::Error => "error",
        }
    }

    /// 1 for `Warn`, 2 for `Error`: higher is worse.
    pub fn rank(self) -> (r: u8)
        ensures
            r == (match self {
                JointRestBiasSeverity::Warn => 1u8,
                JointRestBiasSeverity::Error => 2u8,
            }),
    {
        match self {
            JointRestBiasSeverity::Warn => 1,
            JointRestBiasSeverity::Error => 2,
        }
    }
}

/// The severity of a motion validation issue.
#[derive(Clone, Copy, Debug, PartialEq, Eq, Structural)]
pub enum MotionSeverity {
    Warn,
    Error,
}

impl MotionSeverity {
    /// `warn` or `error`.
    pub fn as_str(self) -> (s: &'static str)
        ensures
            s@ == (match self {
                MotionSeverity::Warn => "warn"@,
                MotionSeverity::Error => "error"@,
            }),
    {
        match self {
            MotionSeverity::Warn => "warn",
            MotionSeverity::Error => "error",
        }
    }

    /// 0 for `Error`, 1 for `Warn`: errors sort first.
    pub fn sort_key(self) -> (k: u8)
        ensures
            k == (match self {
                MotionSeverity::Error => 0u8,
                MotionSeverity::Warn => 1u8,
            }),
    {
        match self {
            MotionSeverity::Error => 0,
            MotionSeverity::Warn => 1,
        }
    }
}

/// The arguments of a request to recenter attachment motion, as far as
/// their checks read them: the version (0 when absent), the number of child
/// components named, the channels to consider (when given) and the target.
#[derive(Clone, Debug, PartialEq, Eq)]
pub struct RecenterArgs {
    pub version: u32,
    pub child_count: usize,
    pub channels: Option<Vec<String>>,
    pub target: Option<String>,
}

/// What the checked arguments settle: the target level (`Warn` when absent
/// or unknown) and the channels to consider (sorted, each once), if limited.
#[derive(Clone, Debug, PartialEq, Eq)]
pub struct RecenterSettings {
    pub target: RestBiasTarget,
    pub channels: Option<Vec<String>>,
}

/// The error for another version than 1.
pub open spec fn recenter_version_message(v: u32) -> Seq<char> {
    "Unsupported recenter_attachment_motion_v1 version "@ + decimal(v as nat) + " (expected 1)"@
}

/// The checks of recenter arguments: the version (0 read as 1) must be 1,
/// some child component must be named, and channels, when given, must hold
/// a non-blank name; the settings are the target and the set of trimmed
/// channel names.
pub open spec fn recenter_args_ok(
    version: u32,
    child_count: usize,
    channels: Option<Seq<Seq<char>>>,
    target: Option<Seq<char>>,
) -> Result<(RestBiasTarget, Option<Seq<Seq<char>>>), Seq<char>> {
    let v = if version == 0 {
        1u32
    } else {
        version
    };
    if v != 1 {
        Err(recenter_version_message(v))
    } else if child_count == 0 {
        Err("recenter_attachment_motion_v1 requires non-empty child_components"@)
    } else if channels is Some && distinct_trimmed(channels->0).len() == 0 {
        Err("recenter_attachment_motion_v1.channels must be non-empty when provided"@)
    } else {
        Ok((
            match target {
                Some(t) => match rest_bias_target(lower(trim(t))) {
                    Some(r) => r,
                    None => RestBiasTarget::Warn,
                },
                None => RestBiasTarget::Warn,
            },
            match channels {
                Some(c) => Some(sorted_set(distinct_trimmed(c).to_set())),
                None => None,
            },
        ))
    }
}

/// Checks recenter arguments (see `recenter_args_ok`).
pub fn check_recenter_args(args: &RecenterArgs) -> (r: Result<RecenterSettings, String>)
    ensures
        match r {
            Ok(st) => recenter_args_ok(
                args.version,
                args.child_count,
                match args.channels {
                    Some(c) => Some(strings_view(c@)),
                    None => None,
                },
                match args.target {
                    Some(t) => Some(t@),
                    None => None,
                },
            ) == Ok::<(RestBiasTarget, Option<Seq<Seq<char>>>), Seq<char>>((
                st.target,
                match st.channels {
                    Some(c) => Some(strings_view(c@)),
                    None => None,
                },
            )),
            Err(m) => recenter_args_ok(
                args.version,
                args.child_count,
                match args.channels {
                    Some(c) => Some(strings_view(c@)),
                    None => None,
                },
                match args.target {
                    Some(t) => Some(t@),
                    None => None,
                },
            ) == Err::<(RestBiasTarget, Option<Seq<Seq<char>>>), Seq<char>>(m@),
        },
{
    let v = if args.version == 0 {
        1
    } else {
        args.version
    };
    if v != 1 {
        let mut m = owned("Unsupported recenter_attachment_motion_v1 version ");
        push_decimal(&mut m, v as u64);
        push_str(&mut m, " (expected 1)");
        return Err(m);
    }
    if args.child_count == 0 {
        return Err(owned("recenter_attachment_motion_v1 requires non-empty child_components"));
    }
    let channels = match &args.channels {
        Some(c) => {
            let names = normalize_explicit_motion_channels(c);
            if names.len() == 0 {
                return Err(owned("recenter_attachment_motion_v1.channels must be non-empty when provided"));
            }
            Some(sort_distinct_strings(names))
        },
        None => None,
    };
    let target = match &args.target {
        Some(t) => match RestBiasTarget::from_str(t.as_str()) {
            Some(r) => r,
            None => RestBiasTarget::Warn,
        },
        None => RestBiasTarget::Warn,
    };
    Ok(RecenterSettings { target, channels })
}

} // verus!
