//! A small deterministic pseudo-random generator for the grid jitter.
//!
//! The host seeds the engine once; everything after that is a pure
//! function of the seed, so the whole construction is verified without
//! any appeal to an outside source of randomness.

use vstd::prelude::*;

verus! {

/// One xorshift step. A zero state is first nudged onto a fixed odd
/// constant so the generator never gets stuck at zero.
pub open spec fn next_state(state: u64) -> u64 {
    let s = if state == 0 { 0x9e37_79b9_7f4a_7c15u64 } else { state };
    let a = s ^ (s << 13);
    let b = a ^ (a >> 7);
    b ^ (b << 17)
}

pub(crate) fn rng_next(state: u64) -> (r: u64)
    ensures
        r == next_state(state),
{
    let s: u64 = if state == 0 { 0x9e37_79b9_7f4a_7c15 } else { state };
    let a: u64 = s ^ (s << 13u64);
    let b: u64 = a ^ (a >> 7u64);
    b ^ (b << 17u64)
}

/// Advances the generator and reduces the fresh state to `[0, bound)`.
/// Returns the new state and the drawn value.
pub(crate) fn draw(state: u64, bound: u64) -> (sv: (u64, u64))
    requires
        bound > 0,
    ensures
        sv.0 == next_state(state),
        sv.1 < bound,
{
    let s = rng_next(state);
    (s, s % bound)
}

} // verus!
