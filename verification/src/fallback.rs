//! The fallback signal: when the primary scan collects nothing, recently
//! modified execution-cache artifacts serve as a weak proxy for recent
//! execution. A directory entry qualifies only when its modification time
//! lies inside the trailing window and its name carries the artifact
//! suffix; a qualifying entry yields its filename and advisory tier only.
use vstd::prelude::*;
use crate::RiskTier;
use crate::classify::{classify, spec_risk};
use crate::scan::{EventCollector, WINDOW_SECS};

verus! {

/// An artifact modified at `modified` lies inside the trailing window.
pub open spec fn fallback_window(modified: u32, now: u32) -> bool {
    modified <= now && now - modified < WINDOW_SECS
}

/// The filename ends in the execution-cache artifact suffix.
pub open spec fn artifact_suffix(s: Seq<char>) -> bool {
    &&& s.len() >= 3
    &&& s[s.len() - 3] == '.'
    &&& s[s.len() - 2] == 'p'
    &&& s[s.len() - 1] == 'f'
}

/// One weak signal from the execution cache: a filename and its advisory
/// tier. This source carries no command line, pid or user.
pub struct FallbackSignal {
    /// Name of the recently modified artifact file.
    pub name: String,
    /// Advisory tier derived from the filename.
    pub tier: RiskTier,
}

/// The fallback scanner runs only when the primary scan collected nothing.
pub fn fallback_needed(collector: &EventCollector) -> (b: bool)
    ensures
        b == (collector.events@.len() == 0),
{
    !collector.found_any()
}

/// Judges one directory entry: a signal comes back exactly when the entry
/// was modified inside the trailing window and carries the artifact suffix.
pub fn fallback_signal(name: String, modified_secs: u32, now: u32) -> (r: Option<FallbackSignal>)
    ensures
        r is Some <==> (fallback_window(modified_secs, now) && artifact_suffix(name@)),
        r matches Some(sig) ==> sig.name@ == name@ && sig.tier == spec_risk(name@),
{
    if !(modified_secs <= now && now - modified_secs < WINDOW_SECS) {
        return None;
    }
    let n: usize = name.as_str().unicode_len();
    if n < 3 {
        return None;
    }
    let ok = name.as_str().get_char(n - 3) == '.' && name.as_str().get_char(n - 2) == 'p'
        && name.as_str().get_char(n - 1) == 'f';
    if !ok {
        return None;
    }
    let tier = classify(name.as_str());
    Some(FallbackSignal { name, tier })
}

} // verus!
