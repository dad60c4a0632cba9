use gwars::simulation::enemy::{plan_spawn, spawn_choices, spawn_type, EnemyType, MAX_ENEMIES, SPAWN_CHOICES};
use gwars::simulation::vertexgrid::{force_index, intersect_indices, GRID_COLUMNS};
use gwars::simulation::{
    explosion_frame_tick, modify_control_bit, not_listed, tally_hits, movement_direction, push_unique, shoot_direction, update_score, State,
    BIT_DOWN, BIT_LEFT, BIT_RIGHT, BIT_SHOOT_DOWN, BIT_SHOOT_LEFT, BIT_SHOOT_RIGHT, BIT_SHOOT_UP,
    BIT_UP, MOVEMENT_MASK,
};
use gwars::sound::Sfx;

#[test]
fn control_bits_set_and_clear() {
    let bits = modify_control_bit(0, &State::Running, BIT_UP, true);
    assert_eq!(bits, BIT_UP);
    let bits = modify_control_bit(bits, &State::Running, BIT_SHOOT_LEFT, true);
    assert_eq!(bits, BIT_UP | BIT_SHOOT_LEFT);
    let bits = modify_control_bit(bits, &State::Running, BIT_UP, false);
    assert_eq!(bits, BIT_SHOOT_LEFT);
}

#[test]
fn control_bits_frozen_when_lost() {
    assert_eq!(modify_control_bit(BIT_LEFT, &State::Lost, BIT_RIGHT, true), BIT_LEFT);
    assert_eq!(modify_control_bit(BIT_LEFT, &State::Lost, BIT_LEFT, false), BIT_LEFT);
}

#[test]
fn movement_mask_is_the_four_movement_bits() {
    assert_eq!(MOVEMENT_MASK, 0b1111);
}

#[test]
fn shoot_direction_sums_unit_vectors() {
    assert_eq!(shoot_direction(0), (0, 0));
    assert_eq!(shoot_direction(BIT_SHOOT_LEFT), (-1, 0));
    assert_eq!(shoot_direction(BIT_SHOOT_RIGHT | BIT_SHOOT_DOWN), (1, 1));
    assert_eq!(shoot_direction(BIT_SHOOT_LEFT | BIT_SHOOT_RIGHT | BIT_SHOOT_UP), (0, -1));
    // movement bits do not shoot
    assert_eq!(shoot_direction(BIT_LEFT | BIT_UP), (0, 0));
}

#[test]
fn movement_direction_none_without_movement_bits() {
    assert_eq!(movement_direction(0), None);
    assert_eq!(movement_direction(BIT_SHOOT_UP), None);
    assert_eq!(movement_direction(BIT_LEFT), Some((-1, 0)));
    assert_eq!(movement_direction(BIT_RIGHT | BIT_DOWN), Some((1, 1)));
    assert_eq!(movement_direction(BIT_LEFT | BIT_RIGHT), Some((0, 0)));
    assert_eq!(movement_direction(BIT_UP | BIT_SHOOT_DOWN), Some((0, -1)));
}

#[test]
fn update_score_levels() {
    assert_eq!(update_score(0, 100), (100, None));
    assert_eq!(update_score(4_900, 100), (5_000, None));
    assert_eq!(update_score(4_900, 200), (5_100, Some(1)));
    assert_eq!(update_score(5_000, 50), (5_050, Some(1)));
    assert_eq!(update_score(5_050, 50), (5_100, None));
    assert_eq!(update_score(9_950, 300), (10_250, Some(2)));
    assert_eq!(update_score(0, 20_000), (20_000, Some(3)));
    assert_eq!(update_score(15_000, 1), (15_001, Some(3)));
    assert_eq!(update_score(15_001, 1_000), (16_001, None));
}

#[test]
fn push_unique_skips_present_ids() {
    let mut v = vec![3, 5];
    push_unique(&mut v, 5);
    assert_eq!(v, vec![3, 5]);
    push_unique(&mut v, 4);
    assert_eq!(v, vec![3, 5, 4]);
}

#[test]
fn enemy_scores() {
    assert_eq!(EnemyType::Invalid.get_score(), 0);
    assert_eq!(EnemyType::Rombus.get_score(), 100);
    assert_eq!(EnemyType::Rect.get_score(), 300);
    assert_eq!(EnemyType::Wanderer.get_score(), 200);
    assert_eq!(EnemyType::SpawningRect.get_score(), 200);
    assert_eq!(EnemyType::MiniRect.get_score(), 50);
}

#[test]
fn spawn_types_by_choice() {
    assert!(spawn_type(0) == EnemyType::Rombus);
    assert!(spawn_type(1) == EnemyType::Rect);
    assert!(spawn_type(2) == EnemyType::Wanderer);
    assert!(spawn_type(3) == EnemyType::SpawningRect);
    assert!(spawn_type(4) == EnemyType::SpawningRect);
}

#[test]
fn spawn_choices_gate() {
    assert_eq!(spawn_choices(0, true, vec![1, 2]), vec![1, 2]);
    assert_eq!(spawn_choices(0, false, vec![1, 2]), Vec::<usize>::new());
    assert_eq!(spawn_choices(MAX_ENEMIES, true, vec![1, 2]), Vec::<usize>::new());
    assert_eq!(spawn_choices(MAX_ENEMIES - 1, true, vec![4]), vec![4]);
}

#[test]
fn plan_spawn_outcomes() {
    for _ in 0..2000 {
        let plan = plan_spawn(3);
        assert!(plan.is_empty() || (2..10).contains(&plan.len()));
        assert!(plan.iter().all(|c| *c < SPAWN_CHOICES));
    }
    for _ in 0..200 {
        assert!(plan_spawn(MAX_ENEMIES).is_empty());
        assert!(plan_spawn(MAX_ENEMIES + 7).is_empty());
    }
}

#[test]
fn intersect_indices_inner_cell() {
    // row 2, column 3 of a 61-wide grid of 2806 vertices
    let idx = 2 * 61 + 3;
    assert_eq!(
        intersect_indices(3, 2, GRID_COLUMNS, 2806),
        vec![idx, idx - 61, idx + 61, idx + 1, idx - 1]
    );
}

#[test]
fn intersect_indices_edges() {
    // the first vertex: no row above, starts a row
    assert_eq!(intersect_indices(0, 0, 61, 2806), vec![0, 61]);
    // index equal to the row length is not "past the first row"
    assert_eq!(intersect_indices(0, 1, 61, 2806), vec![61, 122]);
    // the last vertex: no row below; its right neighbour lies past the grid
    assert_eq!(intersect_indices(60, 45, 61, 2806), vec![2805, 2744, 2806, 2804]);
}

#[test]
fn force_index_cases() {
    assert_eq!(force_index(0, 0, 2806), Some(0));
    assert_eq!(force_index(45, 25, 2806), Some(61 + 2));
    // negative positions truncate towards zero, so -19 still lands in cell 0
    assert_eq!(force_index(-19, 0, 2806), Some(0));
    assert_eq!(force_index(-20, 0, 2806), None);
    assert_eq!(force_index(0, -40, 2806), None);
    // far outside the grid but inside the unit bounds: index past the grid
    assert_eq!(force_index(20 * 100, 20 * 100, 2806), None);
    assert_eq!(force_index(1200 * 20 + 20, 0, 100_000), None);
    assert_eq!(force_index(20 * 60, 20 * 45, 2806), Some(2805));
}

#[test]
fn sfx_holds_bytes() {
    let s = Sfx::new(vec![1, 2, 3]);
    assert_eq!(s.len(), 3);
    assert_eq!(s.as_bytes(), &[1, 2, 3]);
    let t = s.share();
    assert_eq!(t.as_bytes(), &[1, 2, 3]);
    let r: &[u8] = t.as_ref();
    assert_eq!(r, &[1, 2, 3]);
}

#[test]
fn explosion_frames() {
    assert_eq!(explosion_frame_tick(0), Some(2));
    assert_eq!(explosion_frame_tick(46), Some(48));
    assert_eq!(explosion_frame_tick(47), Some(49));
    assert_eq!(explosion_frame_tick(48), None);
}

#[test]
fn tally_hits_bookkeeping() {
    let enemies = vec![
        (10, EnemyType::Rect),
        (11, EnemyType::SpawningRect),
        (12, EnemyType::MiniRect),
    ];
    let missiles = vec![20, 21];
    // missile 21 hits enemies 10 and 11, missile 20 hits enemy 11
    let hits = vec![(0, 1), (1, 0), (1, 1)];
    let out = tally_hits(&enemies, &missiles, &hits);
    assert_eq!(out.enemies_to_delete, vec![10, 11, 11]);
    assert_eq!(out.missiles_to_delete, vec![21, 20]);
    assert_eq!(out.minirect_spawns, vec![20, 21]);
    assert_eq!(out.hit_points, 300 + 200 + 200);
}

#[test]
fn tally_no_hits() {
    let out = tally_hits(&vec![(1, EnemyType::Rombus)], &vec![2], &vec![]);
    assert!(out.enemies_to_delete.is_empty());
    assert!(out.missiles_to_delete.is_empty());
    assert!(out.minirect_spawns.is_empty());
    assert_eq!(out.hit_points, 0);
}

#[test]
fn not_listed_flags() {
    assert_eq!(not_listed(&vec![1, 2, 3, 2], &vec![2, 9]), vec![true, false, true, false]);
    assert_eq!(not_listed(&vec![], &vec![2]), Vec::<bool>::new());
    assert_eq!(not_listed(&vec![4], &vec![]), vec![true]);
}
