//! The collision pass as a specification: which sub-groups of which groups
//! kill or spare an enemy, given the caller's broad-phase bound, containment
//! test and narrow-phase test.
use vstd::prelude::*;
use glam::Vec3;
use crate::bullet_store::{BatchView, BulletGroup, BulletStore};
use crate::enemy::Enemy;
use crate::sub_groups::{NUM_SUB_GROUPS, sub_group_bounds};

verus! {

/// Index span `[lo, hi)` of broad-phase sub-group `s` of group `g`.
pub open spec fn sub_group_span(groups: Seq<BulletGroup>, g: int, s: int) -> (int, int) {
    let grp = groups[g];
    let b = sub_group_bounds(grp.group_size as nat, NUM_SUB_GROUPS as nat, s as nat);
    (grp.start_index + b.0, grp.start_index + b.1)
}

/// The broad phase lets a point at `at` through for the projectiles
/// `[lo, hi)` of `store`: `bound` made a bound of them that `contains` found
/// the point in.
pub open spec fn admitted<X, B: Fn(&BulletStore, usize, usize) -> X, C: Fn(&X, Vec3) -> bool>(
    store: BulletStore,
    bound: B,
    contains: C,
    lo: int,
    hi: int,
    at: Vec3,
) -> bool {
    exists|b: X| #[trigger]
        bound.ensures((&store, lo as usize, hi as usize), b) && contains.ensures((&b, at), true)
}

/// The broad phase turns a point at `at` away from the projectiles
/// `[lo, hi)` of `store`.
pub open spec fn rejected<X, B: Fn(&BulletStore, usize, usize) -> X, C: Fn(&X, Vec3) -> bool>(
    store: BulletStore,
    bound: B,
    contains: C,
    lo: int,
    hi: int,
    at: Vec3,
) -> bool {
    exists|b: X| #[trigger]
        bound.ensures((&store, lo as usize, hi as usize), b) && contains.ensures((&b, at), false)
}

/// The narrow phase finds a projectile in `[lo, hi)` that hits enemy `e`.
pub open spec fn some_hit<H: Fn(Vec3, Vec3, Vec3, Vec3) -> bool>(
    v: BatchView,
    hits: H,
    lo: int,
    hi: int,
    e: Enemy,
) -> bool {
    exists|k: int|
        lo <= k < hi && #[trigger] hits.ensures(
            (v.positions[k], v.directions[k], e.position, e.dir),
            true,
        )
}

/// The narrow phase finds that no projectile in `[lo, hi)` hits enemy `e`.
pub open spec fn no_hit<H: Fn(Vec3, Vec3, Vec3, Vec3) -> bool>(
    v: BatchView,
    hits: H,
    lo: int,
    hi: int,
    e: Enemy,
) -> bool {
    forall|k: int|
        lo <= k < hi ==> #[trigger] hits.ensures(
            (v.positions[k], v.directions[k], e.position, e.dir),
            false,
        )
}

/// Sub-group `s` of group `g` kills enemy `e`: the broad phase admits it and
/// the narrow phase finds a hit.
pub open spec fn struck_by<
    X,
    B: Fn(&BulletStore, usize, usize) -> X,
    C: Fn(&X, Vec3) -> bool,
    H: Fn(Vec3, Vec3, Vec3, Vec3) -> bool,
>(store: BulletStore, bound: B, contains: C, hits: H, g: int, s: int, e: Enemy) -> bool {
    let (lo, hi) = sub_group_span(store@.groups, g, s);
    admitted(store, bound, contains, lo, hi, e.position) && some_hit(store@, hits, lo, hi, e)
}

/// Sub-group `s` of group `g` leaves enemy `e` alone: the broad phase turns
/// it away or the narrow phase finds no hit.
pub open spec fn spared_by<
    X,
    B: Fn(&BulletStore, usize, usize) -> X,
    C: Fn(&X, Vec3) -> bool,
    H: Fn(Vec3, Vec3, Vec3, Vec3) -> bool,
>(store: BulletStore, bound: B, contains: C, hits: H, g: int, s: int, e: Enemy) -> bool {
    let (lo, hi) = sub_group_span(store@.groups, g, s);
    rejected(store, bound, contains, lo, hi, e.position) || no_hit(store@, hits, lo, hi, e)
}

/// Sub-group `(g, s)` comes before `(cg, cs)` in processing order.
pub open spec fn before_sub_group(groups: Seq<BulletGroup>, g: int, s: int, cg: int, cs: int) -> bool {
    &&& 0 <= g < groups.len()
    &&& 0 <= s < NUM_SUB_GROUPS
    &&& (g < cg || (g == cg && s < cs))
}

/// Some sub-group before `(cg, cs)` kills enemy `e`.
pub open spec fn struck_before<
    X,
    B: Fn(&BulletStore, usize, usize) -> X,
    C: Fn(&X, Vec3) -> bool,
    H: Fn(Vec3, Vec3, Vec3, Vec3) -> bool,
>(store: BulletStore, bound: B, contains: C, hits: H, e: Enemy, cg: int, cs: int) -> bool {
    exists|g: int, s: int|
        before_sub_group(store@.groups, g, s, cg, cs) && #[trigger] struck_by(
            store,
            bound,
            contains,
            hits,
            g,
            s,
            e,
        )
}

/// Every sub-group before `(cg, cs)` leaves enemy `e` alone.
pub open spec fn spared_before<
    X,
    B: Fn(&BulletStore, usize, usize) -> X,
    C: Fn(&X, Vec3) -> bool,
    H: Fn(Vec3, Vec3, Vec3, Vec3) -> bool,
>(store: BulletStore, bound: B, contains: C, hits: H, e: Enemy, cg: int, cs: int) -> bool {
    forall|g: int, s: int|
        before_sub_group(store@.groups, g, s, cg, cs) ==> #[trigger] spared_by(
            store,
            bound,
            contains,
            hits,
            g,
            s,
            e,
        )
}

/// One enemy's state `a` after the sub-groups before `(cg, cs)` were tested
/// against its state `b`: position and facing stay, it dies only if it was
/// dead already or one of those sub-groups kills it, and if it lives it was
/// alive and spared by all of them.
pub open spec fn fate_upto<
    X,
    B: Fn(&BulletStore, usize, usize) -> X,
    C: Fn(&X, Vec3) -> bool,
    H: Fn(Vec3, Vec3, Vec3, Vec3) -> bool,
>(
    store: BulletStore,
    b: Enemy,
    a: Enemy,
    bound: B,
    contains: C,
    hits: H,
    cg: int,
    cs: int,
) -> bool {
    &&& a.position == b.position
    &&& a.dir == b.dir
    &&& !a.is_alive ==> !b.is_alive || struck_before(store, bound, contains, hits, b, cg, cs)
    &&& a.is_alive ==> b.is_alive && spared_before(store, bound, contains, hits, b, cg, cs)
}

/// [`fate_upto`] for each enemy of a population, index by index.
pub open spec fn fates_upto<
    X,
    B: Fn(&BulletStore, usize, usize) -> X,
    C: Fn(&X, Vec3) -> bool,
    H: Fn(Vec3, Vec3, Vec3, Vec3) -> bool,
>(
    store: BulletStore,
    before: Seq<Enemy>,
    after: Seq<Enemy>,
    bound: B,
    contains: C,
    hits: H,
    cg: int,
    cs: int,
) -> bool {
    &&& after.len() == before.len()
    &&& forall|i: int|
        0 <= i < after.len() ==> #[trigger] fate_upto(
            store,
            before[i],
            after[i],
            bound,
            contains,
            hits,
            cg,
            cs,
        )
}

/// Liveness of the enemies after every sub-group of every group of `store`
/// was tested against them.
pub open spec fn collided<
    X,
    B: Fn(&BulletStore, usize, usize) -> X,
    C: Fn(&X, Vec3) -> bool,
    H: Fn(Vec3, Vec3, Vec3, Vec3) -> bool,
>(
    store: BulletStore,
    before: Seq<Enemy>,
    after: Seq<Enemy>,
    bound: B,
    contains: C,
    hits: H,
) -> bool {
    fates_upto(store, before, after, bound, contains, hits, store@.groups.len() as int, 0)
}

/// Testing one more sub-group `(g, s)` against an enemy extends its fate by
/// that sub-group.
pub(crate) proof fn lemma_fate_next_sub_group<
    X,
    B: Fn(&BulletStore, usize, usize) -> X,
    C: Fn(&X, Vec3) -> bool,
    H: Fn(Vec3, Vec3, Vec3, Vec3) -> bool,
>(
    store: BulletStore,
    b: Enemy,
    m: Enemy,
    a: Enemy,
    bound: B,
    contains: C,
    hits: H,
    g: int,
    s: int,
)
    requires
        fate_upto(store, b, m, bound, contains, hits, g, s),
        0 <= g < store@.groups.len(),
        0 <= s < NUM_SUB_GROUPS,
        a.position == m.position,
        a.dir == m.dir,
        a.is_alive ==> m.is_alive && spared_by(store, bound, contains, hits, g, s, b),
        !a.is_alive ==> !m.is_alive || struck_by(store, bound, contains, hits, g, s, b),
    ensures
        fate_upto(store, b, a, bound, contains, hits, g, s + 1),
{
    if !a.is_alive {
        if struck_before(store, bound, contains, hits, b, g, s) {
            let (g1, s1) = choose|g1: int, s1: int|
                before_sub_group(store@.groups, g1, s1, g, s) && #[trigger] struck_by(
                    store,
                    bound,
                    contains,
                    hits,
                    g1,
                    s1,
                    b,
                );
            assert(before_sub_group(store@.groups, g1, s1, g, s + 1));
        } else if !b.is_alive {
        } else {
            assert(before_sub_group(store@.groups, g, s, g, s + 1));
        }
    } else {
        assert forall|g1: int, s1: int|
            before_sub_group(store@.groups, g1, s1, g, s + 1) implies #[trigger] spared_by(
            store,
            bound,
            contains,
            hits,
            g1,
            s1,
            b,
        ) by {
            if g1 != g || s1 != s {
                assert(before_sub_group(store@.groups, g1, s1, g, s));
            }
        }
    }
}

/// Having tested every sub-group of group `g` is having tested every
/// sub-group before group `g + 1`.
pub(crate) proof fn lemma_fate_next_group<
    X,
    B: Fn(&BulletStore, usize, usize) -> X,
    C: Fn(&X, Vec3) -> bool,
    H: Fn(Vec3, Vec3, Vec3, Vec3) -> bool,
>(
    store: BulletStore,
    b: Enemy,
    a: Enemy,
    bound: B,
    contains: C,
    hits: H,
    g: int,
)
    requires
        fate_upto(store, b, a, bound, contains, hits, g, NUM_SUB_GROUPS as int),
    ensures
        fate_upto(store, b, a, bound, contains, hits, g + 1, 0),
{
    if struck_before(store, bound, contains, hits, b, g, NUM_SUB_GROUPS as int) {
        let (g1, s1) = choose|g1: int, s1: int|
            before_sub_group(store@.groups, g1, s1, g, NUM_SUB_GROUPS as int) && #[trigger] struck_by(
                store,
                bound,
                contains,
                hits,
                g1,
                s1,
                b,
            );
        assert(before_sub_group(store@.groups, g1, s1, g + 1, 0));
    }
    if spared_before(store, bound, contains, hits, b, g, NUM_SUB_GROUPS as int) {
        assert forall|g1: int, s1: int|
            before_sub_group(store@.groups, g1, s1, g + 1, 0) implies #[trigger] spared_by(
            store,
            bound,
            contains,
            hits,
            g1,
            s1,
            b,
        ) by {
            assert(before_sub_group(store@.groups, g1, s1, g, NUM_SUB_GROUPS as int));
        }
    }
}

} // verus!
