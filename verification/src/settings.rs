//! The auto-compact window used by the context gauge.
//!
//! `autoCompactWindow` in the agent's `settings.json` is the configured
//! setting; the model ceiling reported in the payload caps it, and
//! [`CompactLimit::denominator`] combines the two. A missing file or key
//! leaves the window unconfigured. A file that does not parse, or a key
//! present with a non-integer or zero value, is a broken configuration and
//! degrades loudly: [`CompactLimit::Unavailable`], which the renderer flags.
//! A denominator is never invented.

use vstd::prelude::*;
use crate::json::{
    json_from_str, model_as_u64, model_get, parse_value, value_as_u64, value_get,
};

verus! {

/// Window used by the gauge for reported ceilings below
/// [`LARGE_CONTEXT_CEILING`] when no setting is configured.
pub const DEFAULT_COMPACT_WINDOW: u64 = 200_000;

/// At or above this reported ceiling the gauge uses the model ceiling.
pub const LARGE_CONTEXT_CEILING: u64 = 1_000_000;

/// What `settings.json` says about the auto-compact window.
#[derive(Debug, Clone, Copy, PartialEq, Eq, Structural)]
pub enum CompactLimit {
    /// `autoCompactWindow` is present and is a usable value.
    Configured(u64),
    /// No settings file, or no `autoCompactWindow` key: nothing is
    /// configured and the ceiling decides.
    Default,
    /// The settings file exists but is unreadable or corrupt: the render
    /// must flag it.
    Unavailable,
}

/// The window against which the gauge measures, given the model ceiling.
pub open spec fn denominator_spec(limit: CompactLimit, ceiling: Option<u64>) -> Option<u64> {
    match ceiling {
        None => None,
        Some(g) => Some(
            match limit {
                CompactLimit::Configured(n) => if n <= g {
                    n
                } else {
                    g
                },
                CompactLimit::Default => if g >= LARGE_CONTEXT_CEILING {
                    g
                } else if g <= DEFAULT_COMPACT_WINDOW {
                    g
                } else {
                    DEFAULT_COMPACT_WINDOW
                },
                CompactLimit::Unavailable => g,
            },
        ),
    }
}

impl CompactLimit {
    /// Resolves a window from the setting and a reported model ceiling.
    /// Without the ceiling, neither the default nor a configured value can
    /// be confirmed as the effective limit.
    ///
    /// `ceiling` is `context_window.context_window_size` from the payload,
    /// already filtered to a non-zero value; `None` means the payload did
    /// not report one.
    pub fn denominator(self, ceiling: Option<u64>) -> (r: Option<u64>)
        ensures
            r == denominator_spec(self, ceiling),
    {
        match ceiling {
            None => None,
            Some(g) => Some(
                match self {
                    CompactLimit::Configured(n) => if n <= g {
                        n
                    } else {
                        g
                    },
                    CompactLimit::Default => if g >= LARGE_CONTEXT_CEILING {
                        g
                    } else if g <= DEFAULT_COMPACT_WINDOW {
                        g
                    } else {
                        DEFAULT_COMPACT_WINDOW
                    },
                    CompactLimit::Unavailable => g,
                },
            ),
        }
    }
}

/// What the text of `settings.json` says: `Default` when it parses and has
/// no `autoCompactWindow`, `Configured(n)` when that key holds an integer
/// `n > 0` that fits in `u64`, `Unavailable` when the text is not JSON or
/// the key holds anything else.
pub open spec fn parse_limit_spec(raw: Seq<char>) -> CompactLimit {
    match json_from_str(raw) {
        None => CompactLimit::Unavailable,
        Some(v) => match model_get(v, "autoCompactWindow"@) {
            None => CompactLimit::Default,
            Some(x) => match model_as_u64(x) {
                Some(n) => if n > 0 {
                    CompactLimit::Configured(n)
                } else {
                    CompactLimit::Unavailable
                },
                None => CompactLimit::Unavailable,
            },
        },
    }
}

/// Reads the auto-compact setting from the text of `settings.json`.
pub fn parse_limit(raw: &str) -> (r: CompactLimit)
    ensures
        r == parse_limit_spec(raw@),
{
    match parse_value(raw) {
        None => CompactLimit::Unavailable,
        Some(v) => match value_get(&v, "autoCompactWindow") {
            None => CompactLimit::Default,
            Some(x) => match value_as_u64(x) {
                Some(n) => if n > 0 {
                    CompactLimit::Configured(n)
                } else {
                    CompactLimit::Unavailable
                },
                None => CompactLimit::Unavailable,
            },
        },
    }
}

/// A denominator is never invented: there is one exactly when the payload
/// reports a ceiling, and it never exceeds that ceiling.
pub proof fn law_denominator_within_ceiling(limit: CompactLimit, ceiling: Option<u64>)
    ensures
        denominator_spec(limit, ceiling) is Some <==> ceiling is Some,
        ceiling matches Some(g) ==> denominator_spec(limit, ceiling)->0 <= g,
{
}

/// A configured window is the window whenever it fits under the reported
/// ceiling, whatever the ceiling: the window is the smaller of the setting
/// and the ceiling.
pub proof fn law_configured_window_is_the_minimum(n: u64, g: u64)
    requires
        n > 0,
        g > 0,
    ensures
        denominator_spec(CompactLimit::Configured(n), Some(g)) matches Some(r) && r <= n && r <= g
            && (r == n || r == g),
{
}

/// A broken configuration measures against the real model ceiling.
pub proof fn law_broken_config_uses_ceiling(ceiling: Option<u64>)
    ensures
        denominator_spec(CompactLimit::Unavailable, ceiling) == ceiling,
{
}

/// Unconfigured, a ceiling of at least one million tokens is its own
/// window, and a smaller ceiling takes the documented default, clamped to
/// the ceiling.
pub proof fn law_unconfigured_window(g: u64)
    ensures
        g >= LARGE_CONTEXT_CEILING ==> denominator_spec(CompactLimit::Default, Some(g)) == Some(
            g,
        ),
        g < LARGE_CONTEXT_CEILING ==> denominator_spec(CompactLimit::Default, Some(g)) == Some(
            if g <= DEFAULT_COMPACT_WINDOW {
                g
            } else {
                DEFAULT_COMPACT_WINDOW
            },
        ),
{
}

} // verus!
