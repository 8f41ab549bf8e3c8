//! Adaptive heartbeat interval of a source: the expected interval between
//! heartbeats grows with the number of recently missed ones.

use vstd::prelude::*;

verus! {

/// Largest multiple of the base interval a source may be granted.
pub const MAX_INTERVAL_FACTOR: u64 = 3;

/// `base` scaled by `(window + misses) / window` (integer division, a zero
/// window counting as one), the factor capped at 3, saturating at
/// `u64::MAX`.
pub open spec fn adaptive_interval_spec(base: u64, misses: u32, window: u32) -> int {
    let w: int = if window == 0 { 1 } else { window as int };
    let f: int = (w + misses) / w;
    let capped: int = if f > 3 { 3 } else { f };
    if base * capped > u64::MAX { u64::MAX as int } else { base * capped }
}

/// The heartbeat interval expected of a source that missed `misses` of its
/// last `window` heartbeats.
pub fn compute_adaptive_interval(base: u64, misses: u32, window: u32) -> (r: u64)
    ensures
        r == adaptive_interval_spec(base, misses, window),
        r >= base || r == u64::MAX,
{
    let w: u64 = if window == 0 { 1 } else { window as u64 };
    let f: u64 = (w + misses as u64) / w;
    let capped: u64 = if f > MAX_INTERVAL_FACTOR { MAX_INTERVAL_FACTOR } else { f };
    assert(f >= 1) by (nonlinear_arith)
        requires f as int == (w as int + misses as int) / (w as int), w >= 1;
    assert(base * capped >= base) by (nonlinear_arith)
        requires capped >= 1;
    match base.checked_mul(capped) {
        Some(v) => v,
        None => u64::MAX,
    }
}

} // verus!
