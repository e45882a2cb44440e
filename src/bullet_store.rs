//! The projectile batch store: every live projectile in three index-aligned
//! sequences, organised into contiguous, time-stamped spawn groups.
use vstd::prelude::*;
use glam::{Quat, Vec3};
use crate::enemy::{Enemy, remove_dead, survivors, death_positions};
use crate::sub_groups::{NUM_SUB_GROUPS, sub_group_range};
use crate::collision::{
    collided, fate_upto, fates_upto, lemma_fate_next_group, lemma_fate_next_sub_group, no_hit,
    rejected, some_hit, struck_by, sub_group_span,
};

verus! {

/// Lifetime of a spawn group, in microseconds of simulated time.
pub const BULLET_LIFETIME: u64 = 1_000_000;

/// One contiguous range of projectiles created by a single fire action,
/// sharing one countdown timer (microseconds).
#[derive(Clone, Copy)]
pub struct BulletGroup {
    pub start_index: usize,
    pub group_size: usize,
    pub time_to_live: u64,
}

impl BulletGroup {
    /// A group of `group_size` projectiles from `start_index` on, with
    /// `time_to_live` microseconds left.
    pub fn new(start_index: usize, group_size: usize, time_to_live: u64) -> (r: BulletGroup)
        ensures
            r == (BulletGroup { start_index, group_size, time_to_live }),
    {
        BulletGroup { start_index, group_size, time_to_live }
    }
}

/// Number of projectiles held by a sequence of groups.
pub open spec fn total_size(groups: Seq<BulletGroup>) -> nat
    decreases groups.len(),
{
    if groups.len() == 0 {
        0
    } else {
        total_size(groups.drop_last()) + groups.last().group_size as nat
    }
}

/// What a store holds, as mathematical sequences.
pub struct BatchView {
    pub positions: Seq<Vec3>,
    pub directions: Seq<Vec3>,
    pub orientations: Seq<Quat>,
    pub groups: Seq<BulletGroup>,
}

/// The store's invariant: the three sequences are index-aligned, the groups
/// tile them end to end in creation order, every group is still live, and
/// timers never decrease along the sequence (older groups expire first).
pub open spec fn well_formed(v: BatchView) -> bool {
    &&& v.directions.len() == v.positions.len()
    &&& v.orientations.len() == v.positions.len()
    &&& v.positions.len() == total_size(v.groups)
    &&& forall|k: int|
        0 <= k < v.groups.len() ==> #[trigger] v.groups[k].start_index == total_size(
            v.groups.take(k),
        )
    &&& forall|k: int|
        0 <= k < v.groups.len() ==> 0 < #[trigger] v.groups[k].time_to_live <= BULLET_LIFETIME
    &&& forall|j: int, k: int|
        0 <= j <= k < v.groups.len() ==> #[trigger] v.groups[j].time_to_live
            <= #[trigger] v.groups[k].time_to_live
}

/// Side of the square spread grid that a spread amount asks for: a negative
/// amount spawns nothing.
pub open spec fn spread_side(spread_amount: i32) -> nat {
    if spread_amount < 0 {
        0
    } else {
        spread_amount as nat
    }
}

/// Group `g` after `dt` microseconds, once `removed` projectiles ahead of it
/// have been compacted away.
pub open spec fn aged(g: BulletGroup, dt: u64, removed: nat) -> BulletGroup {
    BulletGroup {
        start_index: (g.start_index - removed) as usize,
        group_size: g.group_size,
        time_to_live: (g.time_to_live - dt) as u64,
    }
}

/// Number of leading groups of `pre` that `post` no longer holds.
pub open spec fn num_expired(pre: BatchView, post: BatchView) -> int {
    pre.groups.len() - post.groups.len()
}

/// Number of projectiles that left with the expired groups.
pub open spec fn num_removed(pre: BatchView, post: BatchView) -> nat {
    total_size(pre.groups.take(num_expired(pre, post)))
}

/// `post` is `pre` after `dt` microseconds, as far as lifetimes go: the
/// leading groups whose timers ran out are gone together with their
/// projectiles (one prefix of each sequence), and every other group keeps its
/// order and size, counts down by `dt` and starts that many places earlier.
pub open spec fn retired(pre: BatchView, post: BatchView, dt: u64) -> bool {
    let n = num_expired(pre, post);
    let removed = num_removed(pre, post);
    &&& post.groups.len() <= pre.groups.len()
    &&& forall|k: int| 0 <= k < n ==> #[trigger] pre.groups[k].time_to_live <= dt
    &&& forall|k: int| n <= k < pre.groups.len() ==> #[trigger] pre.groups[k].time_to_live > dt
    &&& forall|k: int|
        0 <= k < post.groups.len() ==> #[trigger] post.groups[k] == aged(pre.groups[k + n], dt, removed)
    &&& post.directions == pre.directions.skip(removed as int)
    &&& post.orientations == pre.orientations.skip(removed as int)
    &&& post.positions.len() == pre.positions.len() - removed
}

/// Every projectile of `post` moved from its place in `pre` by one call of
/// `step` on its old position, its direction and `dt`.
pub open spec fn moved<S: Fn(Vec3, Vec3, u64) -> Vec3>(
    pre: BatchView,
    post: BatchView,
    dt: u64,
    step: S,
) -> bool {
    let removed = num_removed(pre, post);
    forall|k: int|
        0 <= k < post.positions.len() ==> step.ensures(
            (pre.positions[k + removed], pre.directions[k + removed], dt),
            #[trigger] post.positions[k],
        )
}

/// All live projectiles as a structure of arrays, with the spawn groups that
/// partition them. Its invariant is [`well_formed`] of its view.
pub struct BulletStore {
    all_bullet_positions: Vec<Vec3>,
    all_bullet_quats: Vec<Quat>,
    all_bullet_directions: Vec<Vec3>,
    bullet_groups: Vec<BulletGroup>,
}

impl View for BulletStore {
    type V = BatchView;

    closed spec fn view(&self) -> BatchView {
        BatchView {
            positions: self.all_bullet_positions@,
            directions: self.all_bullet_directions@,
            orientations: self.all_bullet_quats@,
            groups: self.bullet_groups@,
        }
    }
}

/// Adding one group at the end adds its size to the total.
pub proof fn lemma_total_size_push(groups: Seq<BulletGroup>, g: BulletGroup)
    ensures
        total_size(groups.push(g)) == total_size(groups) + g.group_size,
{
    assert(groups.push(g).drop_last() =~= groups);
}

/// The total of a concatenation is the sum of the totals.
pub proof fn lemma_total_size_add(a: Seq<BulletGroup>, b: Seq<BulletGroup>)
    ensures
        total_size(a + b) == total_size(a) + total_size(b),
    decreases b.len(),
{
    if b.len() == 0 {
        assert(a + b =~= a);
    } else {
        assert((a + b).drop_last() =~= a + b.drop_last());
        lemma_total_size_add(a, b.drop_last());
    }
}

/// The total depends on the sizes alone.
pub proof fn lemma_total_size_same_sizes(a: Seq<BulletGroup>, b: Seq<BulletGroup>)
    requires
        a.len() == b.len(),
        forall|i: int| 0 <= i < a.len() ==> #[trigger] a[i].group_size == b[i].group_size,
    ensures
        total_size(a) == total_size(b),
    decreases a.len(),
{
    if a.len() > 0 {
        lemma_total_size_same_sizes(a.drop_last(), b.drop_last());
    }
}

/// Totals of prefixes grow with the prefix, one group at a time.
pub proof fn lemma_total_size_take(groups: Seq<BulletGroup>, j: int, k: int)
    requires
        0 <= j <= k <= groups.len(),
    ensures
        total_size(groups.take(j)) <= total_size(groups.take(k)),
        k < groups.len() ==> total_size(groups.take(k + 1)) == total_size(groups.take(k))
            + groups[k].group_size,
    decreases k - j,
{
    if k < groups.len() {
        assert(groups.take(k + 1).drop_last() =~= groups.take(k));
    }
    if j < k {
        lemma_total_size_take(groups, j, k - 1);
        assert(groups.take(k).drop_last() =~= groups.take(k - 1));
    }
}

/// Dropping the first `n` groups and keeping the sizes of the rest lowers
/// every prefix total by the total of those `n` groups.
pub proof fn lemma_shifted_totals(pre: Seq<BulletGroup>, post: Seq<BulletGroup>, n: int, j: int)
    requires
        0 <= n <= pre.len(),
        post.len() == pre.len() - n,
        forall|k: int| 0 <= k < post.len() ==> #[trigger] post[k].group_size == pre[k + n].group_size,
        0 <= j <= post.len(),
    ensures
        total_size(post.take(j)) + total_size(pre.take(n)) == total_size(pre.take(n + j)),
{
    assert(pre.take(n + j) =~= pre.take(n) + pre.subrange(n, n + j));
    lemma_total_size_add(pre.take(n), pre.subrange(n, n + j));
    lemma_total_size_same_sizes(post.take(j), pre.subrange(n, n + j));
}

/// Dropping the expired prefix and counting the rest down keeps the store's
/// invariant.
proof fn lemma_retired_well_formed(pre: BatchView, post: BatchView, n: int, dt: u64)
    requires
        well_formed(pre),
        0 <= n <= pre.groups.len(),
        post.groups.len() == pre.groups.len() - n,
        forall|k: int| n <= k < pre.groups.len() ==> #[trigger] pre.groups[k].time_to_live > dt,
        forall|j: int|
            0 <= j < post.groups.len() ==> #[trigger] post.groups[j] == aged(
                pre.groups[j + n],
                dt,
                total_size(pre.groups.take(n)),
            ),
        post.directions == pre.directions.skip(total_size(pre.groups.take(n)) as int),
        post.orientations == pre.orientations.skip(total_size(pre.groups.take(n)) as int),
        post.positions == pre.positions.skip(total_size(pre.groups.take(n)) as int),
    ensures
        well_formed(post),
{
    let removed = total_size(pre.groups.take(n));
    lemma_total_size_take(pre.groups, n, pre.groups.len() as int);
    assert(pre.groups.take(pre.groups.len() as int) =~= pre.groups);
    assert(post.groups.take(post.groups.len() as int) =~= post.groups);
    lemma_shifted_totals(pre.groups, post.groups, n, post.groups.len() as int);
    assert forall|j: int| 0 <= j < post.groups.len() implies #[trigger] post.groups[j].start_index
        == total_size(post.groups.take(j)) by {
        lemma_shifted_totals(pre.groups, post.groups, n, j);
        lemma_total_size_take(pre.groups, n, j + n);
        assert(pre.groups[j + n].start_index == total_size(pre.groups.take(j + n)));
    }
    assert forall|j: int| 0 <= j < post.groups.len() implies 0 < #[trigger] post.groups[j].time_to_live
        <= BULLET_LIFETIME by {
        assert(pre.groups[j + n].time_to_live <= BULLET_LIFETIME);
    }
    assert forall|i: int, j: int| 0 <= i <= j < post.groups.len() implies #[trigger] post.groups[i].time_to_live
        <= #[trigger] post.groups[j].time_to_live by {
        assert(pre.groups[i + n].time_to_live <= pre.groups[j + n].time_to_live);
    }
}

/// Every group's range lies inside the store's sequences.
pub proof fn lemma_group_in_bounds(v: BatchView, g: int)
    requires
        well_formed(v),
        0 <= g < v.groups.len(),
    ensures
        v.groups[g].start_index + v.groups[g].group_size <= v.positions.len(),
{
    lemma_total_size_take(v.groups, g, g);
    lemma_total_size_take(v.groups, g + 1, v.groups.len() as int);
    assert(v.groups.take(v.groups.len() as int) =~= v.groups);
}

impl BulletStore {
    /// The store's invariant holds.
    pub open spec fn wf(&self) -> bool {
        well_formed(self@)
    }

    /// An empty store.
    pub fn new() -> (r: BulletStore)
        ensures
            r.wf(),
            r@.positions.len() == 0,
            r@.groups.len() == 0,
    {
        BulletStore {
            all_bullet_positions: Vec::new(),
            all_bullet_quats: Vec::new(),
            all_bullet_directions: Vec::new(),
            bullet_groups: Vec::new(),
        }
    }

    /// Number of live projectiles.
    pub fn len(&self) -> (r: usize)
        ensures
            r == self@.positions.len(),
    {
        self.all_bullet_positions.len()
    }

    /// Positions of the live projectiles, index-aligned with the directions
    /// and orientations.
    pub fn positions(&self) -> (r: &Vec<Vec3>)
        ensures
            r@ == self@.positions,
    {
        &self.all_bullet_positions
    }

    /// Unit travel directions of the live projectiles.
    pub fn directions(&self) -> (r: &Vec<Vec3>)
        ensures
            r@ == self@.directions,
    {
        &self.all_bullet_directions
    }

    /// Orientations of the live projectiles.
    pub fn quats(&self) -> (r: &Vec<Quat>)
        ensures
            r@ == self@.orientations,
    {
        &self.all_bullet_quats
    }

    /// The spawn groups, oldest first.
    pub fn groups(&self) -> (r: &Vec<BulletGroup>)
        ensures
            r@ == self@.groups,
    {
        &self.bullet_groups
    }

    /// Counts every group down by `dt` and drops the leading groups whose
    /// timers ran out, with their projectiles, in one bulk removal per
    /// sequence. Returns how many projectiles were removed.
    fn retire_expired(&mut self, dt: u64) -> (removed: usize)
        requires
            old(self).wf(),
        ensures
            final(self).wf(),
            retired(old(self)@, final(self)@, dt),
            removed == num_removed(old(self)@, final(self)@),
            final(self)@.positions == old(self)@.positions.skip(removed as int),
    {
        let ghost pre = self@;
        let mut n: usize = 0;
        while n < self.bullet_groups.len() && self.bullet_groups[n].time_to_live <= dt
            invariant
                self@ == pre,
                well_formed(pre),
                n <= pre.groups.len(),
                forall|k: int| 0 <= k < n ==> #[trigger] pre.groups[k].time_to_live <= dt,
            decreases pre.groups.len() - n,
        {
            n += 1;
        }
        assert(forall|k: int| n <= k < pre.groups.len() ==> #[trigger] pre.groups[k].time_to_live > dt);
        let removed: usize = if n < self.bullet_groups.len() {
            self.bullet_groups[n].start_index
        } else {
            proof {
                assert(pre.groups.take(n as int) =~= pre.groups);
            }
            self.all_bullet_positions.len()
        };
        proof {
            lemma_total_size_take(pre.groups, n as int, pre.groups.len() as int);
            assert(pre.groups.take(pre.groups.len() as int) =~= pre.groups);
        }
        let live = self.bullet_groups.split_off(n);
        let mut groups: Vec<BulletGroup> = Vec::new();
        let mut k: usize = 0;
        while k < live.len()
            invariant
                well_formed(pre),
                n <= pre.groups.len(),
                live@ == pre.groups.subrange(n as int, pre.groups.len() as int),
                removed == total_size(pre.groups.take(n as int)),
                k <= live.len(),
                groups@.len() == k,
                forall|j: int| n <= j < pre.groups.len() ==> #[trigger] pre.groups[j].time_to_live > dt,
                forall|j: int|
                    0 <= j < k ==> #[trigger] groups@[j] == aged(pre.groups[j + n], dt, removed as nat),
            decreases live.len() - k,
        {
            let g = live[k];
            proof {
                lemma_total_size_take(pre.groups, n as int, k + n);
                assert(g == pre.groups[k + n]);
                assert(pre.groups[k + n].start_index == total_size(pre.groups.take(k + n)));
            }
            groups.push(
                BulletGroup::new(g.start_index - removed, g.group_size, g.time_to_live - dt),
            );
            k += 1;
        }
        self.bullet_groups = groups;
        let positions = self.all_bullet_positions.split_off(removed);
        self.all_bullet_positions = positions;
        let directions = self.all_bullet_directions.split_off(removed);
        self.all_bullet_directions = directions;
        let quats = self.all_bullet_quats.split_off(removed);
        self.all_bullet_quats = quats;
        proof {
            let post = self@;
            assert(post.directions =~= pre.directions.skip(removed as int));
            assert(post.orientations =~= pre.orientations.skip(removed as int));
            assert(post.positions =~= pre.positions.skip(removed as int));
            lemma_retired_well_formed(pre, post, n as int, dt);
        }
        removed
    }

    /// Tests every sub-group of every group against every enemy, oldest group
    /// first. For each sub-group, `bound` builds the broad-phase bound of its
    /// projectiles once; an enemy that `contains` finds outside it is
    /// skipped, and otherwise the sub-group's projectiles are tested with
    /// `hits` in index order until the first hit, which marks the enemy dead.
    fn collide<
        X,
        B: Fn(&BulletStore, usize, usize) -> X,
        C: Fn(&X, Vec3) -> bool,
        H: Fn(Vec3, Vec3, Vec3, Vec3) -> bool,
    >(&self, enemies: &mut Vec<Enemy>, bound: B, contains: C, hits: H)
        requires
            self.wf(),
            forall|st: &BulletStore, lo: usize, hi: usize| #[trigger] bound.requires((st, lo, hi)),
            forall|b: &X, at: Vec3| #[trigger] contains.requires((b, at)),
            forall|p: Vec3, d: Vec3, ep: Vec3, ed: Vec3| #[trigger] hits.requires((p, d, ep, ed)),
        ensures
            collided(*self, old(enemies)@, final(enemies)@, bound, contains, hits),
    {
        let ghost before = enemies@;
        let ghost groups = self@.groups;
        let total = self.all_bullet_positions.len();
        let mut g: usize = 0;
        while g < self.bullet_groups.len()
            invariant
                self.wf(),
                groups == self@.groups,
                g <= groups.len(),
                total == self@.positions.len(),
                forall|st: &BulletStore, lo: usize, hi: usize| #[trigger] bound.requires((st, lo, hi)),
                forall|b: &X, at: Vec3| #[trigger] contains.requires((b, at)),
                forall|p: Vec3, d: Vec3, ep: Vec3, ed: Vec3| #[trigger] hits.requires((p, d, ep, ed)),
                fates_upto(*self, before, enemies@, bound, contains, hits, g as int, 0),
            decreases groups.len() - g,
        {
            let group = self.bullet_groups[g];
            proof {
                lemma_group_in_bounds(self@, g as int);
            }
            let mut s: usize = 0;
            while s < NUM_SUB_GROUPS
                invariant
                    self.wf(),
                    groups == self@.groups,
                    g < groups.len(),
                    group == groups[g as int],
                    group.start_index + group.group_size <= self@.positions.len(),
                    total == self@.positions.len(),
                    s <= NUM_SUB_GROUPS,
                    forall|st: &BulletStore, lo: usize, hi: usize| #[trigger] bound.requires((st, lo, hi)),
                    forall|b: &X, at: Vec3| #[trigger] contains.requires((b, at)),
                    forall|p: Vec3, d: Vec3, ep: Vec3, ed: Vec3| #[trigger] hits.requires((p, d, ep, ed)),
                    fates_upto(*self, before, enemies@, bound, contains, hits, g as int, s as int),
                decreases NUM_SUB_GROUPS - s,
            {
                let (lo_rel, hi_rel) = sub_group_range(group.group_size, NUM_SUB_GROUPS, s);
                let lo = group.start_index + lo_rel;
                let hi = group.start_index + hi_rel;
                let ghost span = sub_group_span(groups, g as int, s as int);
                assert(span.0 == lo && span.1 == hi);
                let bx = bound(self, lo, hi);
                let ghost mid = enemies@;
                let mut i: usize = 0;
                while i < enemies.len()
                    invariant
                        self.wf(),
                        groups == self@.groups,
                        g < groups.len(),
                        s < NUM_SUB_GROUPS,
                        span == sub_group_span(groups, g as int, s as int),
                        span.0 == lo,
                        span.1 == hi,
                        lo <= hi <= self@.positions.len(),
                        bound.ensures((self, lo, hi), bx),
                        forall|b: &X, at: Vec3| #[trigger] contains.requires((b, at)),
                        forall|p: Vec3, d: Vec3, ep: Vec3, ed: Vec3| #[trigger] hits.requires((p, d, ep, ed)),
                        fates_upto(*self, before, mid, bound, contains, hits, g as int, s as int),
                        enemies@.len() == mid.len(),
                        i <= mid.len(),
                        forall|j: int| i <= j < mid.len() ==> #[trigger] enemies@[j] == mid[j],
                        forall|j: int|
                            0 <= j < i ==> #[trigger] fate_upto(
                                *self,
                                before[j],
                                enemies@[j],
                                bound,
                                contains,
                                hits,
                                g as int,
                                s as int + 1,
                            ),
                    decreases mid.len() - i,
                {
                    let e = enemies[i];
                    let ghost b = before[i as int];
                    assert(fate_upto(*self, b, mid[i as int], bound, contains, hits, g as int, s as int));
                    if contains(&bx, e.position) {
                        let mut k: usize = lo;
                        let mut hit = false;
                        while k < hi
                            invariant_except_break
                                !hit,
                            invariant
                                lo <= k <= hi,
                                hi <= self@.positions.len(),
                                self@.directions.len() == self@.positions.len(),
                                forall|p: Vec3, d: Vec3, ep: Vec3, ed: Vec3| #[trigger] hits.requires((p, d, ep, ed)),
                                forall|m: int| lo <= m < k ==> #[trigger] hits.ensures(
                                    (self@.positions[m], self@.directions[m], e.position, e.dir),
                                    false,
                                ),
                            ensures
                                hit ==> some_hit(self@, hits, lo as int, hi as int, e),
                                !hit ==> forall|m: int| lo <= m < hi ==> #[trigger] hits.ensures(
                                    (self@.positions[m], self@.directions[m], e.position, e.dir),
                                    false,
                                ),
                            decreases hi - k,
                        {
                            if hits(self.all_bullet_positions[k], self.all_bullet_directions[k], e.position, e.dir) {
                                hit = true;
                                break;
                            }
                            k += 1;
                        }
                        if hit {
                            let mut dead = e;
                            dead.is_alive = false;
                            enemies.set(i, dead);
                            assert(struck_by(*self, bound, contains, hits, g as int, s as int, b));
                        } else {
                            assert(no_hit(self@, hits, lo as int, hi as int, b));
                        }
                    } else {
                        assert(rejected(*self, bound, contains, lo as int, hi as int, b.position));
                    }
                    proof {
                        lemma_fate_next_sub_group(*self, b, mid[i as int], enemies@[i as int], bound, contains, hits, g as int, s as int);
                    }
                    i += 1;
                }
                proof {
                    assert forall|j: int| 0 <= j < enemies@.len() implies #[trigger] fate_upto(
                        *self, before[j], enemies@[j], bound, contains, hits, g as int, s as int + 1) by {}
                }
                s += 1;
            }
            proof {
                assert forall|j: int| 0 <= j < enemies@.len() implies #[trigger] fate_upto(
                    *self, before[j], enemies@[j], bound, contains, hits, g as int + 1, 0) by {
                    lemma_fate_next_group(*self, before[j], enemies@[j], bound, contains, hits, g as int);
                }
            }
            g += 1;
        }
    }

    /// Moves every projectile by `step` on its position, its direction and
    /// `dt`.
    fn move_bullets<S: Fn(Vec3, Vec3, u64) -> Vec3>(&mut self, dt: u64, step: S)
        requires
            old(self).wf(),
            forall|p: Vec3, d: Vec3, t: u64| #[trigger] step.requires((p, d, t)),
        ensures
            final(self).wf(),
            final(self)@.groups == old(self)@.groups,
            final(self)@.directions == old(self)@.directions,
            final(self)@.orientations == old(self)@.orientations,
            final(self)@.positions.len() == old(self)@.positions.len(),
            forall|k: int|
                0 <= k < final(self)@.positions.len() ==> step.ensures(
                    (old(self)@.positions[k], old(self)@.directions[k], dt),
                    #[trigger] final(self)@.positions[k],
                ),
    {
        let ghost pre = self@;
        let mut k: usize = 0;
        while k < self.all_bullet_positions.len()
            invariant
                well_formed(pre),
                self@.groups == pre.groups,
                self@.directions == pre.directions,
                self@.orientations == pre.orientations,
                self@.positions.len() == pre.positions.len(),
                k <= pre.positions.len(),
                forall|p: Vec3, d: Vec3, t: u64| #[trigger] step.requires((p, d, t)),
                forall|m: int| k <= m < pre.positions.len() ==> #[trigger] self@.positions[m] == pre.positions[m],
                forall|m: int|
                    0 <= m < k ==> step.ensures(
                        (pre.positions[m], pre.directions[m], dt),
                        #[trigger] self@.positions[m],
                    ),
            decreases pre.positions.len() - k,
        {
            let p = step(self.all_bullet_positions[k], self.all_bullet_directions[k], dt);
            self.all_bullet_positions.set(k, p);
            k += 1;
        }
    }

    /// Advances the simulation by `dt` microseconds against `enemies`:
    /// - every group counts down by `dt`; the leading groups whose timers ran
    ///   out are removed with their projectiles in one prefix compaction, and
    ///   the remaining groups are re-based;
    /// - every remaining projectile moves by `step` (its position, its
    ///   direction, `dt`);
    /// - when there are enemies, every sub-group of every remaining group is
    ///   tested against every enemy: `bound` builds the sub-group's
    ///   broad-phase bound, `contains` culls the enemies outside it, and
    ///   `hits` runs the narrow phase, projectile by projectile, up to the
    ///   first hit, which marks the enemy dead;
    /// - the dead enemies leave the population, and the position of each is
    ///   returned, in order.
    pub fn update_bullets<
        S: Fn(Vec3, Vec3, u64) -> Vec3,
        X,
        B: Fn(&BulletStore, usize, usize) -> X,
        C: Fn(&X, Vec3) -> bool,
        H: Fn(Vec3, Vec3, Vec3, Vec3) -> bool,
    >(
        &mut self,
        dt: u64,
        enemies: &mut Vec<Enemy>,
        step: S,
        bound: B,
        contains: C,
        hits: H,
    ) -> (impacts: Vec<Vec3>)
        requires
            old(self).wf(),
            forall|p: Vec3, d: Vec3, t: u64| #[trigger] step.requires((p, d, t)),
            forall|st: &BulletStore, lo: usize, hi: usize| #[trigger] bound.requires((st, lo, hi)),
            forall|b: &X, at: Vec3| #[trigger] contains.requires((b, at)),
            forall|p: Vec3, d: Vec3, ep: Vec3, ed: Vec3| #[trigger] hits.requires((p, d, ep, ed)),
        ensures
            final(self).wf(),
            retired(old(self)@, final(self)@, dt),
            moved(old(self)@, final(self)@, dt, step),
            exists|mid: Seq<Enemy>|
                #[trigger] collided(*final(self), old(enemies)@, mid, bound, contains, hits)
                    && final(enemies)@ == survivors(mid) && impacts@ == death_positions(mid),
    {
        let ghost pre = self@;
        let removed = self.retire_expired(dt);
        let ghost retired_view = self@;
        self.move_bullets(dt, step);
        proof {
            assert(num_removed(pre, self@) == num_removed(pre, retired_view));
            assert forall|k: int| 0 <= k < self@.positions.len() implies step.ensures(
                (pre.positions[k + removed], pre.directions[k + removed], dt),
                #[trigger] self@.positions[k],
            ) by {
                assert(retired_view.positions[k] == pre.positions[k + removed]);
                assert(retired_view.directions[k] == pre.directions[k + removed]);
            }
        }
        if enemies.len() > 0 {
            self.collide(enemies, bound, contains, hits);
        }
        let ghost mid = enemies@;
        let impacts = remove_dead(enemies);
        assert(collided(*self, old(enemies)@, mid, bound, contains, hits));
        impacts
    }

    /// Fires one spread: appends a new group of `n * n` projectiles, where `n`
    /// is `spread_amount` (nothing for a negative amount), all starting at
    /// `position`. Projectile `k` of the group is cell `(k / n, k % n)` of the
    /// spread grid; `aim` gives its travel direction and orientation.
    pub fn create_bullets<F: Fn(usize, usize) -> (Vec3, Quat)>(
        &mut self,
        position: Vec3,
        spread_amount: i32,
        aim: F,
    )
        requires
            old(self).wf(),
            old(self)@.positions.len() + spread_side(spread_amount) * spread_side(spread_amount)
                <= usize::MAX,
            forall|i: usize, j: usize| #[trigger] aim.requires((i, j)),
        ensures
            final(self).wf(),
            ({
                let start = old(self)@.positions.len();
                let n = spread_side(spread_amount);
                &&& final(self)@.groups == old(self)@.groups.push(
                    BulletGroup {
                        start_index: start as usize,
                        group_size: (n * n) as usize,
                        time_to_live: BULLET_LIFETIME,
                    },
                )
                &&& final(self)@.positions.len() == start + n * n
                &&& final(self)@.positions.take(start as int) == old(self)@.positions
                &&& final(self)@.directions.take(start as int) == old(self)@.directions
                &&& final(self)@.orientations.take(start as int) == old(self)@.orientations
                &&& forall|k: int|
                    start <= k < start + n * n ==> #[trigger] final(self)@.positions[k] == position
                &&& forall|k: int|
                    start <= k < start + n * n ==> aim.ensures(
                        (((k - start) / n as int) as usize, ((k - start) % n as int) as usize),
                        (#[trigger] final(self)@.directions[k], final(self)@.orientations[k]),
                    )
            }),
    {
        let ghost pre = self@;
        let start = self.all_bullet_positions.len();
        let n: usize = if spread_amount < 0 {
            0
        } else {
            spread_amount as usize
        };
        proof {
            assert(n * n >= 0) by (nonlinear_arith);
        }
        let count = n * n;
        let mut k: usize = 0;
        while k < count
            invariant
                pre == old(self)@,
                well_formed(pre),
                start == pre.positions.len(),
                n == spread_side(spread_amount),
                count == n * n,
                start + count <= usize::MAX,
                k <= count,
                forall|i: usize, j: usize| #[trigger] aim.requires((i, j)),
                self.bullet_groups@ == pre.groups,
                self.all_bullet_positions@.len() == start + k,
                self.all_bullet_directions@.len() == start + k,
                self.all_bullet_quats@.len() == start + k,
                self.all_bullet_positions@.take(start as int) == pre.positions,
                self.all_bullet_directions@.take(start as int) == pre.directions,
                self.all_bullet_quats@.take(start as int) == pre.orientations,
                forall|m: int|
                    start <= m < start + k ==> #[trigger] self.all_bullet_positions@[m]
                        == position,
                forall|m: int|
                    start <= m < start + k ==> aim.ensures(
                        (((m - start) / n as int) as usize, ((m - start) % n as int) as usize),
                        (#[trigger] self.all_bullet_directions@[m], self.all_bullet_quats@[m]),
                    ),
            decreases count - k,
        {
            proof {
                assert(0 < n) by (nonlinear_arith)
                    requires k < count, count == n * n;
            }
            let (dir, quat) = aim(k / n, k % n);
            self.all_bullet_positions.push(position);
            self.all_bullet_directions.push(dir);
            self.all_bullet_quats.push(quat);
            proof {
                assert(self.all_bullet_positions@.take(start as int) =~= pre.positions);
                assert(self.all_bullet_directions@.take(start as int) =~= pre.directions);
                assert(self.all_bullet_quats@.take(start as int) =~= pre.orientations);
            }
            k += 1;
        }
        let group = BulletGroup::new(start, count, BULLET_LIFETIME);
        self.bullet_groups.push(group);
        proof {
            let post = self@;
            lemma_total_size_push(pre.groups, group);
            assert forall|j: int| 0 <= j < post.groups.len() implies #[trigger] post.groups[j].start_index
                == total_size(post.groups.take(j)) by {
                if j < pre.groups.len() {
                    assert(post.groups.take(j) =~= pre.groups.take(j));
                } else {
                    assert(post.groups.take(j) =~= pre.groups);
                }
            }
            assert(forall|j: int| 0 <= j < pre.groups.len() ==> #[trigger] post.groups[j] == pre.groups[j]);
        }
    }
}

} // verus!
