//! Per-invocation configuration: the window length and the report
//! threshold, each read from a raw environment value with a safe
//! fallback. The fallback policy is a pure function, so it is testable
//! apart from logging.

use crate::text::spec_parse_i64;
use vstd::prelude::*;

verus! {

/// Default window length: six hours, in seconds.
pub const DEFAULT_TTL_SECONDS: u64 = 21600;

/// Default report threshold.
pub const DEFAULT_REPORT_THRESHOLD: i64 = 5;

/// Largest minute count whose length in seconds is still representable.
pub const MAX_TTL_MINUTES: i64 = 153722867280912930;

/// The view of an optional borrowed string.
pub open spec fn opt_view(raw: Option<&str>) -> Option<Seq<char>> {
    match raw {
        Some(s) => Some(s@),
        None => None,
    }
}

/// The window length in seconds and whether the fallback was used: a
/// present value that parses as a non-negative, representable number of
/// minutes is taken; anything else falls back to the default.
pub open spec fn spec_ttl_result(raw: Option<Seq<char>>) -> (u64, bool) {
    match raw {
        Some(s) => match spec_parse_i64(s) {
            Some(m) => if 0 <= m && m <= MAX_TTL_MINUTES {
                ((m * 60) as u64, false)
            } else {
                (DEFAULT_TTL_SECONDS, true)
            },
            None => (DEFAULT_TTL_SECONDS, true),
        },
        None => (DEFAULT_TTL_SECONDS, true),
    }
}

/// The report threshold and whether the fallback was used.
pub open spec fn spec_threshold_result(raw: Option<Seq<char>>) -> (i64, bool) {
    match raw {
        Some(s) => match spec_parse_i64(s) {
            Some(v) => (v, false),
            None => (DEFAULT_REPORT_THRESHOLD, true),
        },
        None => (DEFAULT_REPORT_THRESHOLD, true),
    }
}

/// Parses the configured window length in minutes into seconds, exactly
/// as `spec_ttl_result` states; the flag reports that the fallback was
/// used and is worth a warning in the host's log.
pub fn ttl_seconds(raw: Option<&str>) -> (r: (u64, bool))
    ensures
        r == spec_ttl_result(opt_view(raw)),
{
    match raw {
        None => (DEFAULT_TTL_SECONDS, true),
        Some(s) => match crate::text::parse_i64(s) {
            Some(m) => if 0 <= m && m <= MAX_TTL_MINUTES {
                ((m * 60) as u64, false)
            } else {
                (DEFAULT_TTL_SECONDS, true)
            },
            None => (DEFAULT_TTL_SECONDS, true),
        },
    }
}

/// Parses the configured report threshold, exactly as
/// `spec_threshold_result` states.
pub fn report_threshold(raw: Option<&str>) -> (r: (i64, bool))
    ensures
        r == spec_threshold_result(opt_view(raw)),
{
    match raw {
        None => (DEFAULT_REPORT_THRESHOLD, true),
        Some(s) => match crate::text::parse_i64(s) {
            Some(v) => (v, false),
            None => (DEFAULT_REPORT_THRESHOLD, true),
        },
    }
}

/// Immutable per-invocation configuration of the engine, built once from
/// the environment and passed along; there is no global mutable state.
pub struct AttributionConfig {
    /// Seconds a Counter Record lives after each write.
    pub ttl_seconds: u64,
    /// Pre-increment counts strictly below this are reported.
    pub threshold: i64,
}

/// Builds the configuration from the raw environment values; the two
/// flags report which fallbacks were used.
pub fn config_from_env(ttl_raw: Option<&str>, threshold_raw: Option<&str>) -> (r: (
    AttributionConfig,
    bool,
    bool,
))
    ensures
        r.0.ttl_seconds == spec_ttl_result(opt_view(ttl_raw)).0,
        r.1 == spec_ttl_result(opt_view(ttl_raw)).1,
        r.0.threshold == spec_threshold_result(opt_view(threshold_raw)).0,
        r.2 == spec_threshold_result(opt_view(threshold_raw)).1,
{
    let (ttl, ttl_warn) = ttl_seconds(ttl_raw);
    let (threshold, threshold_warn) = report_threshold(threshold_raw);
    (AttributionConfig { ttl_seconds: ttl, threshold }, ttl_warn, threshold_warn)
}

} // verus!
