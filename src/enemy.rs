//! The enemy population as the projectile store sees it: capsule-bodied
//! agents with a position, a facing direction and a liveness flag.
use vstd::prelude::*;
use glam::Vec3;

verus! {

/// One enemy. Its collision segment is centred on `position` along `dir`.
#[derive(Clone, Copy)]
pub struct Enemy {
    pub position: Vec3,
    pub dir: Vec3,
    pub is_alive: bool,
}

impl Enemy {
    /// A live enemy at `position`, facing `dir`.
    pub fn new(position: Vec3, dir: Vec3) -> (r: Enemy)
        ensures
            r.position == position,
            r.dir == dir,
            r.is_alive,
    {
        Enemy { position, dir, is_alive: true }
    }
}

/// The enemies that are still alive, in their order.
pub open spec fn survivors(enemies: Seq<Enemy>) -> Seq<Enemy> {
    enemies.filter(|e: Enemy| e.is_alive)
}

/// The positions of the dead enemies, in their order: one impact each.
pub open spec fn death_positions(enemies: Seq<Enemy>) -> Seq<Vec3> {
    enemies.filter(|e: Enemy| !e.is_alive).map_values(|e: Enemy| e.position)
}

/// Removes the dead enemies from the population, keeping the order of the
/// live ones, and returns the position of each removed enemy, in order.
pub fn remove_dead(enemies: &mut Vec<Enemy>) -> (impacts: Vec<Vec3>)
    ensures
        final(enemies)@ == survivors(old(enemies)@),
        impacts@ == death_positions(old(enemies)@),
{
    let mut kept: Vec<Enemy> = Vec::new();
    let mut dead: Vec<Enemy> = Vec::new();
    let mut impacts: Vec<Vec3> = Vec::new();
    let ghost all = enemies@;
    let mut i: usize = 0;
    while i < enemies.len()
        invariant
            enemies@ == all,
            0 <= i <= all.len(),
            kept@ == survivors(all.take(i as int)),
            dead@ == all.take(i as int).filter(|e: Enemy| !e.is_alive),
            impacts@ == dead@.map_values(|e: Enemy| e.position),
        decreases all.len() - i,
    {
        let e = enemies[i];
        proof {
            reveal(Seq::filter);
            assert(all.take(i + 1).drop_last() =~= all.take(i as int));
        }
        if e.is_alive {
            kept.push(e);
        } else {
            dead.push(e);
            impacts.push(e.position);
        }
        i += 1;
        proof {
            assert(impacts@ =~= dead@.map_values(|e: Enemy| e.position));
        }
    }
    proof {
        assert(all.take(i as int) =~= all);
    }
    *enemies = kept;
    impacts
}

} // verus!
