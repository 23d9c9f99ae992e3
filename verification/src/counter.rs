//! Counter arithmetic as release builds perform it: increments wrap.
use vstd::prelude::*;

verus! {

/// `x + 1`, wrapping to zero past `u64::MAX`.
pub open spec fn bump(x: u64) -> u64 {
    if x == u64::MAX { 0 } else { (x + 1) as u64 }
}

/// Increment a counter.
pub fn inc(x: u64) -> (r: u64)
    ensures
        r == bump(x),
{
    if x == u64::MAX { 0 } else { x + 1 }
}

/// `x - 1`, wrapping to `u64::MAX` below zero.
pub open spec fn unbump(x: u64) -> u64 {
    if x == 0 { u64::MAX } else { (x - 1) as u64 }
}

/// `x + 1`, wrapping to `i64::MIN` past `i64::MAX`.
pub open spec fn succ_i64(x: i64) -> i64 {
    if x == i64::MAX { i64::MIN } else { (x + 1) as i64 }
}

pub fn next_i64(x: i64) -> (r: i64)
    ensures
        r == succ_i64(x),
{
    if x == i64::MAX { i64::MIN } else { x + 1 }
}

/// `n` counter increments.
pub open spec fn bump_times(x: u64, n: nat) -> u64
    decreases n,
{
    if n == 0 { x } else { bump(bump_times(x, (n - 1) as nat)) }
}

} // verus!
