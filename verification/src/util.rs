//! Small arithmetic helpers shared by the other modules: the clamp used by
//! the zone layout computation, and saturating integer operations used by the
//! playback engine's time arithmetic.

use vstd::prelude::*;

verus! {

/// Mathematical clamp: raise `v` to at least `lo`, then cap the result at
/// `hi`. When `lo > hi` the cap wins, so the result is `hi`.
pub open spec fn clamp_spec(v: int, lo: int, hi: int) -> int {
    let raised = if v >= lo {
        v
    } else {
        lo
    };
    if raised <= hi {
        raised
    } else {
        hi
    }
}

/// Clamp `v` into `[lo, hi]`, the cap at `hi` applied last.
pub fn clamp(v: i32, lo: i32, hi: i32) -> (r: i32)
    ensures
        r == clamp_spec(v as int, lo as int, hi as int),
{
    let raised = if v >= lo {
        v
    } else {
        lo
    };
    if raised <= hi {
        raised
    } else {
        hi
    }
}

/// `a + b`, stopping at `u64::MAX` instead of overflowing.
pub fn sat_add_u64(a: u64, b: u64) -> (r: u64)
    ensures
        r == if a + b <= u64::MAX {
            a + b
        } else {
            u64::MAX as int
        },
{
    if a <= u64::MAX - b {
        a + b
    } else {
        u64::MAX
    }
}

/// `a - b`, stopping at zero instead of underflowing.
pub fn sat_sub_u64(a: u64, b: u64) -> (r: u64)
    ensures
        r == if a >= b {
            a - b
        } else {
            0
        },
{
    if a >= b {
        a - b
    } else {
        0
    }
}

} // verus!
