use angrygl::bullet_store::{BulletGroup, BulletStore, BULLET_LIFETIME};
use angrygl::enemy::{remove_dead, Enemy};
use angrygl::framebuffers::FrameBuffer;
use angrygl::sub_groups::{sub_group_range, NUM_SUB_GROUPS};
use glam::{vec3, Quat, Vec3};
use std::cell::Cell;

const SPEED: f32 = 15.0;

fn micros_to_secs(t: u64) -> f32 {
    t as f32 / 1_000_000.0
}

fn step(p: Vec3, d: Vec3, t: u64) -> Vec3 {
    p + d * (SPEED * micros_to_secs(t))
}

fn straight(d: Vec3) -> impl Fn(usize, usize) -> (Vec3, Quat) {
    move |_i: usize, _j: usize| (d, Quat::IDENTITY)
}

fn no_bound(_s: &BulletStore, _lo: usize, _hi: usize) -> u8 {
    0
}

fn always(_b: &u8, _p: Vec3) -> bool {
    true
}

fn near(p: Vec3, _d: Vec3, ep: Vec3, _ed: Vec3) -> bool {
    p.distance(ep) <= 0.5
}

fn advance(store: &mut BulletStore, dt: u64, enemies: &mut Vec<Enemy>) -> Vec<Vec3> {
    store.update_bullets(dt, enemies, step, no_bound, always, near)
}

fn assert_layout(store: &BulletStore) {
    let n = store.len();
    assert_eq!(store.positions().len(), n);
    assert_eq!(store.directions().len(), n);
    assert_eq!(store.quats().len(), n);
    let mut next = 0usize;
    for g in store.groups().iter() {
        assert_eq!(g.start_index, next);
        next += g.group_size;
    }
    assert_eq!(next, n);
}

#[test]
fn single_spawn_no_enemies_moves_then_expires() {
    let mut store = BulletStore::new();
    store.create_bullets(Vec3::ZERO, 1, straight(vec3(0.0, 0.0, 1.0)));
    assert_eq!(store.len(), 1);
    assert_eq!(store.groups()[0].time_to_live, BULLET_LIFETIME);
    let mut enemies = Vec::new();
    let impacts = advance(&mut store, 500_000, &mut enemies);
    assert!(impacts.is_empty());
    assert_eq!(store.len(), 1);
    assert_eq!(store.groups()[0].time_to_live, 500_000);
    assert!(store.positions()[0].distance(vec3(0.0, 0.0, 7.5)) < 1e-4);
}

#[test]
fn single_spawn_one_full_lifetime_empties_batch() {
    let mut store = BulletStore::new();
    store.create_bullets(Vec3::ZERO, 1, straight(vec3(0.0, 0.0, 1.0)));
    let mut enemies = Vec::new();
    advance(&mut store, 1_000_000, &mut enemies);
    assert_eq!(store.len(), 0);
    assert!(store.groups().is_empty());
    assert_layout(&store);
}

#[test]
fn single_spawn_just_short_of_lifetime_travels_full_speed() {
    let mut store = BulletStore::new();
    store.create_bullets(Vec3::ZERO, 1, straight(vec3(0.0, 0.0, 1.0)));
    let mut enemies = Vec::new();
    advance(&mut store, 999_999, &mut enemies);
    assert_eq!(store.len(), 1);
    assert_eq!(store.groups()[0].time_to_live, 1);
    assert!(store.positions()[0].distance(vec3(0.0, 0.0, 15.0)) < 1e-3);
}

#[test]
fn spread_of_five_appends_twenty_five_in_one_group() {
    let mut store = BulletStore::new();
    store.create_bullets(vec3(1.0, 2.0, 3.0), 2, straight(Vec3::X));
    store.create_bullets(vec3(1.0, 2.0, 3.0), 5, straight(Vec3::Z));
    assert_eq!(store.len(), 29);
    let g = store.groups()[1];
    assert_eq!(g.start_index, 4);
    assert_eq!(g.group_size, 25);
    assert_eq!(g.time_to_live, BULLET_LIFETIME);
    for k in 4..29 {
        assert_eq!(store.positions()[k], vec3(1.0, 2.0, 3.0));
        assert_eq!(store.directions()[k], Vec3::Z);
    }
    assert_layout(&store);
}

#[test]
fn spread_cells_are_laid_out_row_by_row() {
    let mut store = BulletStore::new();
    store.create_bullets(Vec3::ZERO, 3, |i: usize, j: usize| (vec3(i as f32, j as f32, 0.0), Quat::IDENTITY));
    assert_eq!(store.len(), 9);
    for k in 0..9 {
        assert_eq!(store.directions()[k], vec3((k / 3) as f32, (k % 3) as f32, 0.0));
    }
}

#[test]
fn negative_spread_spawns_an_empty_group() {
    let mut store = BulletStore::new();
    store.create_bullets(Vec3::ZERO, -3, straight(Vec3::Z));
    assert_eq!(store.len(), 0);
    assert_eq!(store.groups().len(), 1);
    assert_eq!(store.groups()[0].group_size, 0);
    assert_layout(&store);
}

#[test]
fn zero_advance_without_enemies_changes_nothing() {
    let mut store = BulletStore::new();
    store.create_bullets(vec3(0.5, 0.0, -1.0), 3, |i: usize, j: usize| {
        (vec3(i as f32, 1.0, j as f32).normalize(), Quat::from_rotation_y(i as f32))
    });
    let positions = store.positions().clone();
    let directions = store.directions().clone();
    let quats = store.quats().clone();
    let mut enemies = Vec::new();
    let impacts = advance(&mut store, 0, &mut enemies);
    assert!(impacts.is_empty());
    assert_eq!(store.positions(), &positions);
    assert_eq!(store.directions(), &directions);
    assert_eq!(store.quats(), &quats);
    assert_eq!(store.groups()[0].time_to_live, BULLET_LIFETIME);
}

#[test]
fn groups_expire_oldest_first_and_survivors_shift_down() {
    let mut store = BulletStore::new();
    let mut enemies = Vec::new();
    store.create_bullets(Vec3::ZERO, 1, straight(Vec3::Z));
    advance(&mut store, 300_000, &mut enemies);
    store.create_bullets(Vec3::ZERO, 2, straight(Vec3::X));
    advance(&mut store, 300_000, &mut enemies);
    store.create_bullets(Vec3::ZERO, 3, straight(Vec3::Y));
    assert_eq!(store.len(), 14);
    advance(&mut store, 500_000, &mut enemies);
    assert_eq!(store.len(), 13);
    let groups = store.groups();
    assert_eq!(groups.len(), 2);
    assert_eq!(groups[0].start_index, 0);
    assert_eq!(groups[0].group_size, 4);
    assert_eq!(groups[0].time_to_live, 200_000);
    assert_eq!(groups[1].start_index, 4);
    assert_eq!(groups[1].group_size, 9);
    assert_eq!(groups[1].time_to_live, 500_000);
    assert_eq!(store.directions()[0], Vec3::X);
    assert_eq!(store.directions()[4], Vec3::Y);
    assert_layout(&store);
}

#[test]
fn one_enemy_hit_by_three_projectiles_dies_once() {
    let mut store = BulletStore::new();
    // three of the four projectiles fly onto the enemy, one flies away
    store.create_bullets(Vec3::ZERO, 2, |i: usize, j: usize| {
        let d = if i == 1 && j == 1 { -Vec3::Z } else { Vec3::Z };
        (d, Quat::IDENTITY)
    });
    let mut enemies = vec![Enemy::new(vec3(0.0, 0.0, 1.5), Vec3::X)];
    let calls = Cell::new(0u32);
    let hits = |p: Vec3, d: Vec3, ep: Vec3, ed: Vec3| {
        calls.set(calls.get() + 1);
        near(p, d, ep, ed)
    };
    let impacts = store.update_bullets(100_000, &mut enemies, step, no_bound, always, hits);
    assert_eq!(impacts.len(), 1);
    assert_eq!(impacts[0], vec3(0.0, 0.0, 1.5));
    assert!(enemies.is_empty());
    assert_eq!(calls.get(), 1);
}

#[test]
fn enemy_culled_by_broad_phase_survives() {
    let mut store = BulletStore::new();
    store.create_bullets(Vec3::ZERO, 4, straight(Vec3::Z));
    let mut enemies = vec![Enemy::new(Vec3::ZERO, Vec3::X)];
    let calls = Cell::new(0u32);
    let hits = |_p: Vec3, _d: Vec3, _ep: Vec3, _ed: Vec3| {
        calls.set(calls.get() + 1);
        true
    };
    let impacts = store.update_bullets(1, &mut enemies, step, no_bound, |_b: &u8, _p: Vec3| false, hits);
    assert!(impacts.is_empty());
    assert_eq!(enemies.len(), 1);
    assert!(enemies[0].is_alive);
    assert_eq!(calls.get(), 0);
}

#[test]
fn broad_phase_bound_sees_each_sub_group() {
    let mut store = BulletStore::new();
    store.create_bullets(Vec3::ZERO, 5, straight(Vec3::Z));
    let mut enemies = vec![Enemy::new(vec3(100.0, 0.0, 0.0), Vec3::X)];
    let spans = std::cell::RefCell::new(Vec::new());
    let bound = |s: &BulletStore, lo: usize, hi: usize| {
        spans.borrow_mut().push((lo, hi));
        s.len()
    };
    let impacts = store.update_bullets(1, &mut enemies, step, bound, |_b: &usize, _p: Vec3| true, near);
    assert!(impacts.is_empty());
    let spans = spans.into_inner();
    assert_eq!(spans.len(), NUM_SUB_GROUPS);
    assert_eq!(spans[0], (0, 2));
    assert_eq!(spans[7], (14, 16));
    assert_eq!(spans[8], (16, 25));
}

#[test]
fn no_enemies_skips_the_collision_pass() {
    let mut store = BulletStore::new();
    store.create_bullets(Vec3::ZERO, 2, straight(Vec3::Z));
    let mut enemies: Vec<Enemy> = Vec::new();
    let calls = Cell::new(0u32);
    let bound = |_s: &BulletStore, _lo: usize, _hi: usize| {
        calls.set(calls.get() + 1);
        0u8
    };
    store.update_bullets(1, &mut enemies, step, bound, always, near);
    assert_eq!(calls.get(), 0);
}

#[test]
fn dead_enemies_from_earlier_are_reported_with_new_kills() {
    let mut store = BulletStore::new();
    store.create_bullets(Vec3::ZERO, 1, straight(Vec3::Z));
    let mut already = Enemy::new(vec3(9.0, 9.0, 9.0), Vec3::X);
    already.is_alive = false;
    let mut enemies = vec![
        Enemy::new(vec3(50.0, 0.0, 0.0), Vec3::X),
        already,
        Enemy::new(vec3(0.0, 0.0, 0.1), Vec3::X),
    ];
    let impacts = advance(&mut store, 10_000, &mut enemies);
    assert_eq!(impacts, vec![vec3(9.0, 9.0, 9.0), vec3(0.0, 0.0, 0.1)]);
    assert_eq!(enemies.len(), 1);
    assert_eq!(enemies[0].position, vec3(50.0, 0.0, 0.0));
}

#[test]
fn remove_dead_keeps_order_and_reports_each_death_once() {
    let mut a = Enemy::new(vec3(1.0, 0.0, 0.0), Vec3::X);
    let b = Enemy::new(vec3(2.0, 0.0, 0.0), Vec3::X);
    let mut c = Enemy::new(vec3(3.0, 0.0, 0.0), Vec3::X);
    let d = Enemy::new(vec3(4.0, 0.0, 0.0), Vec3::X);
    a.is_alive = false;
    c.is_alive = false;
    let mut enemies = vec![a, b, c, d];
    let impacts = remove_dead(&mut enemies);
    assert_eq!(impacts, vec![vec3(1.0, 0.0, 0.0), vec3(3.0, 0.0, 0.0)]);
    assert_eq!(enemies.len(), 2);
    assert_eq!(enemies[0].position, vec3(2.0, 0.0, 0.0));
    assert_eq!(enemies[1].position, vec3(4.0, 0.0, 0.0));
}

#[test]
fn remove_dead_on_empty_population() {
    let mut enemies: Vec<Enemy> = Vec::new();
    assert!(remove_dead(&mut enemies).is_empty());
    assert!(enemies.is_empty());
}

#[test]
fn sub_group_ranges_split_evenly_with_remainder_last() {
    assert_eq!(sub_group_range(20, 9, 0), (0, 2));
    assert_eq!(sub_group_range(20, 9, 3), (6, 8));
    assert_eq!(sub_group_range(20, 9, 8), (16, 20));
    assert_eq!(sub_group_range(4, 9, 0), (0, 0));
    assert_eq!(sub_group_range(4, 9, 8), (0, 4));
    assert_eq!(sub_group_range(0, 1, 0), (0, 0));
    assert_eq!(sub_group_range(7, 1, 0), (0, 7));
}

#[test]
fn layout_invariant_holds_over_a_session() {
    let mut store = BulletStore::new();
    let mut enemies = vec![Enemy::new(vec3(0.0, 0.0, 3.0), Vec3::X)];
    for round in 0..12 {
        store.create_bullets(Vec3::ZERO, (round % 4) as i32, straight(Vec3::Z));
        advance(&mut store, 150_000, &mut enemies);
        assert_layout(&store);
        let groups = store.groups();
        for w in groups.windows(2) {
            assert!(w[0].time_to_live <= w[1].time_to_live);
            assert!(w[0].start_index + w[0].group_size <= w[1].start_index);
        }
    }
}

#[test]
fn new_enemy_is_alive_and_group_new_keeps_fields() {
    let e = Enemy::new(vec3(1.0, 2.0, 3.0), Vec3::Y);
    assert!(e.is_alive);
    assert_eq!(e.position, vec3(1.0, 2.0, 3.0));
    assert_eq!(e.dir, Vec3::Y);
    let g = BulletGroup::new(3, 4, 5);
    assert_eq!((g.start_index, g.group_size, g.time_to_live), (3, 4, 5));
    let f = FrameBuffer { framebuffer_id: 1, texture_id: 2 };
    assert_eq!((f.framebuffer_id, f.texture_id), (1, 2));
}
