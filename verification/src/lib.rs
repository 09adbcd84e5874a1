//! Forensic triage of a host audit trail: a bounds-checked decoder for the
//! binary record stream of the security audit channel, a positional field
//! mapper with per-field acceptance policies, a trailing-time-window scan
//! policy with a fixed event cap, an advisory risk classifier, and the
//! decision rules for the execution-cache fallback signal.
use vstd::prelude::*;

pub mod bytes;
pub mod classify;
pub mod fallback;
pub mod fields;
pub mod laws;
pub mod record;
pub mod scan;
pub mod strings;

verus! {

/// Advisory classification of an image path, for presentation only.
#[derive(Clone, Copy, PartialEq, Eq, Structural, Debug)]
pub enum RiskTier {
    High,
    Medium,
    Neutral,
}

} // verus!
