//! Properties of the projectile store that hold across its operations.
use vstd::prelude::*;
use glam::Vec3;
use crate::bullet_store::{
    BatchView, BulletGroup, BulletStore, aged, lemma_group_in_bounds, lemma_total_size_take,
    moved, num_expired, num_removed, retired, total_size, well_formed,
};
use crate::collision::{before_sub_group, collided, fate_upto, struck_by, sub_group_span};
use crate::enemy::{Enemy, death_positions, survivors};

verus! {

/// The three projectile sequences always have one length, which is the
/// total size of the groups and the end of the last group.
pub proof fn lemma_lengths_agree(v: BatchView)
    requires
        well_formed(v),
    ensures
        v.directions.len() == v.positions.len(),
        v.orientations.len() == v.positions.len(),
        v.positions.len() == total_size(v.groups),
        v.groups.len() > 0 ==> v.groups.last().start_index + v.groups.last().group_size
            == v.positions.len(),
        v.groups.len() == 0 ==> v.positions.len() == 0,
{
    if v.groups.len() > 0 {
        let n = v.groups.len() - 1;
        lemma_total_size_take(v.groups, n, n);
        assert(v.groups.take(n + 1) =~= v.groups);
    }
}

/// Every group's range lies within the projectile sequences, and the ranges
/// of two distinct groups never overlap: an older group ends at or before
/// the start of a newer one.
pub proof fn lemma_groups_disjoint(v: BatchView, j: int, k: int)
    requires
        well_formed(v),
        0 <= j < k < v.groups.len(),
    ensures
        v.groups[j].start_index + v.groups[j].group_size <= v.groups[k].start_index,
        v.groups[k].start_index + v.groups[k].group_size <= v.positions.len(),
{
    lemma_total_size_take(v.groups, j, j);
    lemma_total_size_take(v.groups, j + 1, k);
    lemma_group_in_bounds(v, k);
}

/// Advancing by no time at all, with a movement rule that moves nothing in no
/// time, leaves the store exactly as it was.
pub proof fn lemma_zero_advance_keeps_batch<S: Fn(Vec3, Vec3, u64) -> Vec3>(
    pre: BatchView,
    post: BatchView,
    step: S,
)
    requires
        well_formed(pre),
        retired(pre, post, 0),
        moved(pre, post, 0, step),
        forall|p: Vec3, d: Vec3, r: Vec3| #[trigger] step.ensures((p, d, 0u64), r) ==> r == p,
    ensures
        post == pre,
{
    let n = num_expired(pre, post);
    if n > 0 {
        assert(pre.groups[0].time_to_live <= 0);
    }
    assert(n == 0);
    assert(pre.groups.take(0) =~= Seq::<BulletGroup>::empty());
    assert(num_removed(pre, post) == 0);
    assert(post.directions =~= pre.directions);
    assert(post.orientations =~= pre.orientations);
    assert(post.groups =~= pre.groups) by {
        assert forall|k: int| 0 <= k < post.groups.len() implies post.groups[k] == pre.groups[k] by {
            assert(post.groups[k] == aged(pre.groups[k], 0, 0));
        }
    }
    assert forall|k: int| 0 <= k < post.positions.len() implies post.positions[k]
        == pre.positions[k] by {
        assert(step.ensures((pre.positions[k], pre.directions[k], 0u64), post.positions[k]));
    }
    assert(post.positions =~= pre.positions);
}

/// Groups expire in creation order: a group is removed exactly when its
/// timer ran out, every group older than a removed one is removed too, and
/// every remaining group moves down by the combined size of the removed
/// ones, which is the start of the oldest remaining group (or the whole
/// batch when none remains). When only the oldest group expires, the others
/// move down by exactly its size.
pub proof fn lemma_expiry_in_creation_order(pre: BatchView, post: BatchView, dt: u64)
    requires
        well_formed(pre),
        retired(pre, post, dt),
    ensures
        forall|k: int|
            0 <= k < pre.groups.len() ==> (k < num_expired(pre, post)) == (
            #[trigger] pre.groups[k].time_to_live <= dt),
        forall|j: int, k: int|
            0 <= j <= k < pre.groups.len() && #[trigger] pre.groups[k].time_to_live <= dt
                ==> #[trigger] pre.groups[j].time_to_live <= dt,
        num_expired(pre, post) < pre.groups.len() ==> num_removed(pre, post)
            == pre.groups[num_expired(pre, post)].start_index,
        num_expired(pre, post) == pre.groups.len() ==> num_removed(pre, post)
            == pre.positions.len(),
        forall|k: int|
            num_expired(pre, post) <= k < pre.groups.len() ==> #[trigger] post.groups[k
                - num_expired(pre, post)].start_index == pre.groups[k].start_index - num_removed(
                pre,
                post,
            ),
        num_expired(pre, post) == 1 ==> num_removed(pre, post) == pre.groups[0].group_size,
{
    let n = num_expired(pre, post);
    assert(pre.groups.take(pre.groups.len() as int) =~= pre.groups);
    if n == 1 {
        lemma_total_size_take(pre.groups, 0, 0);
        assert(pre.groups.take(0) =~= Seq::<BulletGroup>::empty());
    }
    assert forall|k: int| n <= k < pre.groups.len() implies #[trigger] post.groups[k - n].start_index
        == pre.groups[k].start_index - num_removed(pre, post) by {
        assert(post.groups[k - n] == aged(pre.groups[k - n + n], dt, num_removed(pre, post)));
        lemma_total_size_take(pre.groups, n, k);
    }
}

/// The broad phase never lets a kill through that it culled: an enemy that
/// was alive, and that the bound of every sub-group puts outside, is still
/// alive after the collision pass.
pub proof fn lemma_broad_phase_culls<
    X,
    B: Fn(&BulletStore, usize, usize) -> X,
    C: Fn(&X, Vec3) -> bool,
    H: Fn(Vec3, Vec3, Vec3, Vec3) -> bool,
>(
    store: BulletStore,
    before: Seq<Enemy>,
    after: Seq<Enemy>,
    bound: B,
    contains: C,
    hits: H,
    i: int,
)
    requires
        collided(store, before, after, bound, contains, hits),
        0 <= i < before.len(),
        before[i].is_alive,
        forall|g: int, s: int, b: X, r: bool|
            0 <= g < store@.groups.len() && 0 <= s < crate::sub_groups::NUM_SUB_GROUPS
                && #[trigger] bound.ensures(
                (
                    &store,
                    sub_group_span(store@.groups, g, s).0 as usize,
                    sub_group_span(store@.groups, g, s).1 as usize,
                ),
                b,
            ) && #[trigger] contains.ensures((&b, before[i].position), r) ==> !r,
    ensures
        after[i].is_alive,
{
    assert(fate_upto(
        store,
        before[i],
        after[i],
        bound,
        contains,
        hits,
        store@.groups.len() as int,
        0,
    ));
    if !after[i].is_alive {
        let (g, s) = choose|g: int, s: int|
            before_sub_group(store@.groups, g, s, store@.groups.len() as int, 0) && #[trigger] struck_by(
                store,
                bound,
                contains,
                hits,
                g,
                s,
                before[i],
            );
        let span = sub_group_span(store@.groups, g, s);
        let b = choose|b: X| #[trigger]
            bound.ensures((&store, span.0 as usize, span.1 as usize), b) && contains.ensures(
                (&b, before[i].position),
                true,
            );
        assert(false);
    }
}

/// Each enemy removed as dead yields exactly one impact, and every enemy is
/// either kept or reported.
pub proof fn lemma_one_impact_per_death(enemies: Seq<Enemy>)
    ensures
        death_positions(enemies).len() + survivors(enemies).len() == enemies.len(),
    decreases enemies.len(),
{
    reveal(Seq::filter);
    if enemies.len() > 0 {
        lemma_one_impact_per_death(enemies.drop_last());
    }
}

} // verus!
