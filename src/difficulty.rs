//! Periodic adjustment of the proof-of-work target.
use vstd::prelude::*;
use crate::u256::{minimum_target_value, w4, U256};

verus! {

/// The number of seconds a retarget period should take.
pub open spec fn period_seconds() -> nat {
    (crate::IDEAL_BLOCK_TIME * crate::DIFFICULTY_UPDATE_INTERVALS) as nat
}

/// The target after a period that took `elapsed` seconds, from target `t`: `t`
/// scaled by `elapsed / period_seconds()` (rounded down; a period that did not move forward
/// counts as zero), kept within `[t / 4, 4 t]`, then capped at the largest target.
pub open spec fn retarget_value(t: nat, elapsed: int) -> nat {
    let raw: int = if elapsed <= 0 { 0 } else { (t * elapsed) / (period_seconds() as int) };
    let lo: int = (t / 4) as int;
    let hi: int = (t * 4) as int;
    let c: int = if raw < lo { lo } else if raw > hi { hi } else { raw };
    if c <= minimum_target_value() { c as nat } else { minimum_target_value() }
}

proof fn lemma_scaled_bounds(t: nat, e: int)
    requires
        t <= minimum_target_value(),
    ensures
        e >= 2000 ==> (t * e) / (period_seconds() as int) >= t * 4,
        0 < e < 2000 ==> t * e < w4(),
{
    assert(period_seconds() == 500);
    if e >= 2000 {
        assert(t * e >= t * 2000) by (nonlinear_arith)
            requires e >= 2000;
        vstd::arithmetic::div_mod::lemma_div_is_ordered((t * 2000) as int, t * e, 500);
        assert((t * 2000) / 500 == t * 4);
    }
    if 0 < e < 2000 {
        assert(t * e <= minimum_target_value() * 2000) by (nonlinear_arith)
            requires t <= minimum_target_value(), 0 < e < 2000;
    }
}

/// The new target after a period of `elapsed` seconds, from `current`.
pub fn retarget(current: &U256, elapsed: i128) -> (r: U256)
    requires
        current.value() <= minimum_target_value(),
    ensures
        r.value() == retarget_value(current.value(), elapsed as int),
{
    let ghost t = current.value();
    proof {
        lemma_scaled_bounds(t, elapsed as int);
    }
    let lo = current.div_small(4);
    let hi = current.mul_small(4);
    let c = if elapsed <= 0 {
        lo
    } else if elapsed >= 4 * (crate::IDEAL_BLOCK_TIME * crate::DIFFICULTY_UPDATE_INTERVALS) as i128 {
        hi
    } else {
        let raw = current.mul_small(elapsed as u64).div_small(crate::IDEAL_BLOCK_TIME * crate::DIFFICULTY_UPDATE_INTERVALS);
        if raw.lt(&lo) {
            lo
        } else if hi.lt(&raw) {
            hi
        } else {
            raw
        }
    };
    c.min(&U256::minimum_target())
}

/// Retargeting keeps the new target within a factor of four of the old one and
/// never above the largest target.
pub proof fn lemma_retarget_clamped(t: nat, elapsed: int)
    requires
        t <= minimum_target_value(),
    ensures
        t / 4 <= retarget_value(t, elapsed) <= t * 4,
        retarget_value(t, elapsed) <= minimum_target_value(),
{
}

} // verus!
