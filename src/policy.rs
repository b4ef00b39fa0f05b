//! Per-camera privacy policies.
use vstd::prelude::*;
use crate::names::NameMap;
use crate::number::Rational;

verus! {

/// How long and how often one individual may appear in a camera's stream.
#[derive(Debug, PartialEq, Clone, Copy)]
pub enum PrivacyPolicy {
    /// `epsilon`-privacy for an individual who appears in at most `k_segments`
    /// non-contiguous segments, whose total duration within any window of
    /// `rho_ms` milliseconds is accounted for.
    ///
    /// For instance, an individual seen for at most a minute, twice a day,
    /// protected over a week: `k_segments = 14`, `rho_ms = 7 * 60_000`.
    Static { k_segments: u64, epsilon: Rational, rho_ms: u64 },
    /// A policy given by a mask; declared, not supported by the analysis.
    Mask {},
}

/// The privacy policy of each camera, by camera name.
pub type PolicyMap = NameMap<PrivacyPolicy>;

} // verus!
