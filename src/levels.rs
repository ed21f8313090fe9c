//! The geometric level rule (promotion probability one half): a value drawn
//! uniformly from `[0, lim(MAXLVL)]` picks a level in `[0, MAXLVL]`, each
//! level half as likely as the one below it.
use vstd::prelude::*;

verus! {

/// Highest level that the rule yields.
pub const MAXLVL: usize = 24;

/// Cumulative sampling limit of level `i`: `2^i - 1`.
pub open spec fn lim(i: nat) -> int
    decreases i,
{
    if i == 0 {
        0
    } else {
        2 * lim((i - 1) as nat) + 1
    }
}

/// The cumulative limit of level `i`, for `i <= MAXLVL`.
pub fn lims(i: usize) -> (r: u32)
    requires
        i <= MAXLVL,
    ensures
        r as int == lim(i as nat),
{
    let mut v: u32 = 0;
    let mut k: usize = 0;
    while k < i
        invariant
            k <= i <= MAXLVL,
            v as int == lim(k as nat),
            v <= 0x00ff_ffffu32 >> ((MAXLVL - k) as u32),
        decreases i - k,
    {
        assert(v * 2 + 1 <= 0x00ff_ffffu32 >> ((MAXLVL - k - 1) as u32)) by (bit_vector)
            requires v <= 0x00ff_ffffu32 >> ((MAXLVL - k) as u32), k < 24;
        v = v * 2 + 1;
        k = k + 1;
    }
    v
}

/// Level chosen for a sampled value `rval`: `MAXLVL - i` for the least `i`
/// whose cumulative limit `rval` does not exceed.
pub fn get_maxlvl(rval: u32) -> (r: usize)
    requires
        rval as int <= lim(MAXLVL as nat),
    ensures
        r <= MAXLVL,
        rval as int <= lim((MAXLVL - r) as nat),
        r == MAXLVL || lim((MAXLVL - r - 1) as nat) < rval as int,
{
    let mut i: usize = 0;
    while i < MAXLVL
        invariant
            i <= MAXLVL,
            rval as int <= lim(MAXLVL as nat),
            i == 0 || lim((i - 1) as nat) < rval as int,
        decreases MAXLVL - i,
    {
        let lim_i = lims(i);
        if rval <= lim_i {
            return MAXLVL - i;
        }
        i = i + 1;
    }
    0
}

} // verus!
