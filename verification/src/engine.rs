//! The Attribution Engine: whether an incoming request is a new,
//! countable download, what to write back to the Counter Store, and
//! whether to forward a report upstream. All store and network calls are
//! the host's; the engine only decides.

use crate::extension::{is_counted, spec_is_counted};
use crate::ip::{parse_source_address, spec_normalized_source};
use crate::text::dec_seq_of;
use crate::text::u64_to_dec;
use vstd::prelude::*;

verus! {

/// The saturated counter value: a count this high is treated as an abuse
/// signal, re-asserted unchanged and never reported.
pub const COUNT_SATURATED: u32 = 0xffffffff;

/// What a read of the Counter Store yielded for a key.
#[derive(Clone, Copy, Debug, PartialEq, Eq)]
pub enum CounterRead {
    /// No record stored: none was ever written, or its TTL elapsed.
    Absent,
    /// A record too short to hold a counter value.
    Malformed,
    /// The decoded counter value.
    Present(u32),
}

/// The engine's verdict for one countable request.
#[derive(Clone, Copy, Debug, PartialEq, Eq)]
pub struct AttributionDecision {
    /// The value to write back under the key, with a refreshed TTL;
    /// nothing is written when `None`.
    pub write: Option<u32>,
    /// Whether to forward a report upstream.
    pub report: bool,
}

/// The count a read stands for: absence counts as zero.
pub open spec fn effective_count(read: CounterRead) -> u32 {
    match read {
        CounterRead::Absent => 0,
        CounterRead::Malformed => 0,
        CounterRead::Present(v) => v,
    }
}

/// What the engine writes back: nothing for a malformed record
/// (attribution is skipped), the saturated sentinel once saturation is
/// reached, otherwise the incremented count.
pub open spec fn spec_decision_write(read: CounterRead) -> Option<u32> {
    if read is Malformed {
        None
    } else if effective_count(read) == COUNT_SATURATED {
        Some(COUNT_SATURATED)
    } else {
        Some((effective_count(read) + 1) as u32)
    }
}

/// Whether the request is reported: only while the pre-increment count is
/// strictly below the threshold, and never once saturated or when the
/// record was malformed.
pub open spec fn spec_decision_report(read: CounterRead, threshold: i64) -> bool {
    &&& !(read is Malformed)
    &&& effective_count(read) != COUNT_SATURATED
    &&& (effective_count(read) as i64) < threshold
}

/// Decides what one countable request does to its Counter Record and
/// whether it is reported, exactly as `spec_decision_write` and
/// `spec_decision_report` state.
pub fn attribute(read: CounterRead, threshold: i64) -> (d: AttributionDecision)
    ensures
        d.write == spec_decision_write(read),
        d.report == spec_decision_report(read, threshold),
{
    match read {
        CounterRead::Malformed => AttributionDecision { write: None, report: false },
        _ => {
            let current: u32 = match read {
                CounterRead::Present(v) => v,
                _ => 0,
            };
            if current == COUNT_SATURATED {
                AttributionDecision { write: Some(COUNT_SATURATED), report: false }
            } else {
                AttributionDecision {
                    write: Some(current + 1),
                    report: (current as i64) < threshold,
                }
            }
        },
    }
}

/// Law: once the pre-increment count has reached the threshold, a request
/// is not reported — and every value written back stays at or above the
/// threshold, so within one window no later request reports either.
pub proof fn lemma_threshold_caps_reports(read: CounterRead, threshold: i64)
    requires
        effective_count(read) as i64 >= threshold,
    ensures
        !spec_decision_report(read, threshold),
        spec_decision_write(read) matches Some(v) ==> v as i64 >= threshold,
{
}

/// Law: the counter never decreases and never wraps: every value written
/// is at least the value read, and a saturated counter is re-asserted
/// unchanged rather than incremented.
pub proof fn lemma_counter_monotonic(read: CounterRead)
    ensures
        spec_decision_write(read) matches Some(v) ==> v >= effective_count(read),
        !(read is Malformed) && effective_count(read) == COUNT_SATURATED
            ==> spec_decision_write(read) == Some(COUNT_SATURATED),
{
}

/// Law: an absent record starts a fresh window: the decision is the one
/// for a record holding zero.
pub proof fn lemma_fresh_window(threshold: i64)
    ensures
        spec_decision_write(CounterRead::Absent) == spec_decision_write(CounterRead::Present(0)),
        spec_decision_report(CounterRead::Absent, threshold) == spec_decision_report(
            CounterRead::Present(0),
            threshold,
        ),
{
}

/// The Counter Store key for an artifact and a normalized source address:
/// the artifact identifier, a dash, and the address in decimal.
pub open spec fn spec_attribution_key(artifact: Seq<char>, ip: nat) -> Seq<char> {
    artifact + "-"@ + dec_seq_of(ip)
}

/// Builds the store key, exactly as `spec_attribution_key` states.
pub fn attribution_key(artifact: &str, ip: u64) -> (r: String)
    ensures
        r@ == spec_attribution_key(artifact@, ip as nat),
{
    let mut out = artifact.to_owned();
    out.append("-");
    let d = u64_to_dec(ip);
    out.append(d.as_str());
    proof {
        assert(out@ =~= spec_attribution_key(artifact@, ip as nat));
    }
    out
}

/// Why a request is exempt from attribution.
#[derive(Clone, Copy, Debug, PartialEq, Eq)]
pub enum SkipReason {
    /// No source-address header was present.
    NoSourceAddress,
    /// The file's extension is in the exclusion set.
    ExcludedExtension,
    /// The source address could not be parsed.
    UnusableSourceAddress,
}

/// Whether a request takes part in attribution at all, and under which
/// store key when it does. A skipped request never touches the store.
#[derive(Debug, PartialEq, Eq)]
pub enum AttributionPlan {
    Skip(SkipReason),
    Count(String),
}

/// Classifies a request before any store access, exactly as stated: a
/// request with no source address, an excluded extension, or an
/// unparseable source address is skipped (and so never mutates the
/// store); every other request is counted under its attribution key.
pub fn plan_request(artifact: &str, file: &str, raw_ip: Option<&str>) -> (p: AttributionPlan)
    ensures
        match raw_ip {
            None => p == AttributionPlan::Skip(SkipReason::NoSourceAddress),
            Some(ip) => if !spec_is_counted(file@) {
                p == AttributionPlan::Skip(SkipReason::ExcludedExtension)
            } else {
                match spec_normalized_source(ip@) {
                    None => p == AttributionPlan::Skip(SkipReason::UnusableSourceAddress),
                    Some(n) => p matches AttributionPlan::Count(k) && k@ == spec_attribution_key(
                        artifact@,
                        n,
                    ),
                }
            },
        },
{
    match raw_ip {
        None => AttributionPlan::Skip(SkipReason::NoSourceAddress),
        Some(ip) => {
            if !is_counted(file) {
                AttributionPlan::Skip(SkipReason::ExcludedExtension)
            } else {
                match parse_source_address(ip) {
                    None => AttributionPlan::Skip(SkipReason::UnusableSourceAddress),
                    Some(n) => AttributionPlan::Count(attribution_key(artifact, n)),
                }
            }
        },
    }
}

} // verus!
