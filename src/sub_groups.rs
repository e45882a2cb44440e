//! Partition of a spawn group's index range into broad-phase sub-groups.
use vstd::prelude::*;

verus! {

/// Number of sub-groups a spawn group is split into for broad-phase culling
/// when there are enemies to collide against.
pub const NUM_SUB_GROUPS: usize = 9;

/// Bounds `(lo, hi)`, relative to the group's start, of sub-group `s` of a
/// group of `size` projectiles split into `n` parts: every part but the last
/// holds `size / n` projectiles, the last one also takes the remainder.
pub open spec fn sub_group_bounds(size: nat, n: nat, s: nat) -> (nat, nat) {
    let width = size / n;
    if s + 1 == n {
        (s * width, size)
    } else {
        (s * width, (s + 1) * width)
    }
}

/// Executable form of [`sub_group_bounds`].
pub fn sub_group_range(size: usize, n: usize, s: usize) -> (r: (usize, usize))
    requires
        0 < n,
        s < n,
    ensures
        r.0 as nat == sub_group_bounds(size as nat, n as nat, s as nat).0,
        r.1 as nat == sub_group_bounds(size as nat, n as nat, s as nat).1,
        r.0 <= r.1 <= size,
{
    let width = size / n;
    proof {
        lemma_sub_group_fits(size as nat, n as nat, s as nat);
    }
    if s + 1 == n {
        (s * width, size)
    } else {
        (s * width, (s + 1) * width)
    }
}

/// Each sub-group lies inside the group and starts where the previous one ends.
pub proof fn lemma_sub_group_fits(size: nat, n: nat, s: nat)
    requires
        0 < n,
        s < n,
    ensures
        sub_group_bounds(size, n, s).0 <= sub_group_bounds(size, n, s).1 <= size,
        s == 0 ==> sub_group_bounds(size, n, s).0 == 0,
        s + 1 == n ==> sub_group_bounds(size, n, s).1 == size,
        s + 1 < n ==> sub_group_bounds(size, n, s).1 == sub_group_bounds(size, n, s + 1).0,
{
    let width = size / n;
    assert(n * width <= size) by (nonlinear_arith)
        requires width == size / n, 0 < n;
    assert(s * width <= (s + 1) * width) by (nonlinear_arith);
    if s + 1 < n {
        assert((s + 1) * width <= n * width) by (nonlinear_arith)
            requires s + 1 < n;
    } else {
        assert(s * width <= n * width) by (nonlinear_arith)
            requires s < n;
    }
}

} // verus!
