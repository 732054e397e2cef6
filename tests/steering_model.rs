use rts_units::geom::{ceil_sqrt, clamp_length, normalize, Vec2};
use rts_units::spatial::{CellGrid, UnitQuadTree};
use rts_units::steering::{
    compute_repulsion, integrate_position, integrate_velocity, unit_move, SteeringConfig, Unit,
};

// The model at a scale of 1000 per world unit: top speed 60, acceleration
// 200, dead zone 2, radius 12, push strength 800 per second.
fn cfg() -> SteeringConfig {
    SteeringConfig {
        max_speed: 60000,
        acceleration: 200000,
        dead_zone: 2000,
        radius: 12000,
        push_force: 800000,
        unit: 1000,
        min_distance: 1,
    }
}

#[test]
fn ceil_sqrt_rounds_up() {
    assert_eq!(ceil_sqrt(0), 0);
    assert_eq!(ceil_sqrt(1), 1);
    assert_eq!(ceil_sqrt(2), 2);
    assert_eq!(ceil_sqrt(16), 4);
    assert_eq!(ceil_sqrt(17), 5);
    assert_eq!(ceil_sqrt(1u64 << 58), 1u64 << 29);
}

#[test]
fn clamp_length_shortens_long_vectors_only() {
    assert_eq!(clamp_length(Vec2::new(3, 4), 5), Vec2::new(3, 4));
    assert_eq!(clamp_length(Vec2::new(30, 40), 5), Vec2::new(3, 4));
    assert_eq!(clamp_length(Vec2::new(-30, 40), 10), Vec2::new(-6, 8));
    assert_eq!(clamp_length(Vec2::new(7, 0), 0), Vec2::new(0, 0));
}

#[test]
fn normalize_scales_to_the_unit() {
    assert_eq!(normalize(Vec2::new(0, 0), 1000), Vec2::new(0, 0));
    assert_eq!(normalize(Vec2::new(5000, 0), 1000), Vec2::new(1000, 0));
    assert_eq!(normalize(Vec2::new(-3, 4), 1000), Vec2::new(-600, 800));
}

#[test]
fn close_pair_repels_in_opposite_directions() {
    let mut t = UnitQuadTree::new(CellGrid { cell_size: 1000, offset: 128000, depth: 8 });
    let a = Vec2::new(0, 0);
    let b = Vec2::new(1000, 0);
    t.place(1, a);
    t.place(2, b);
    let pos = |id: u64| if id == 1 { a } else { b };
    let na: Vec<(u64, Vec2)> = t.query_neighbors(t.cell_of(a).unwrap()).into_iter().map(|id| (id, pos(id))).collect();
    let nb: Vec<(u64, Vec2)> = t.query_neighbors(t.cell_of(b).unwrap()).into_iter().map(|id| (id, pos(id))).collect();
    let ra = compute_repulsion(1, a, &na, &cfg());
    let rb = compute_repulsion(2, b, &nb, &cfg());
    assert!(ra.x > 0);
    assert!(rb.x < 0);
    assert_eq!(ra.y, 0);
    assert_eq!(rb.y, 0);
    // normalize((1, 0)) * (1 - (1/12)^2), at a unit of 1000
    assert_eq!(ra, Vec2::new(993, 0));
    assert_eq!(rb, Vec2::new(-993, 0));
}

#[test]
fn distant_pair_does_not_repel() {
    let a = Vec2::new(0, 0);
    let b = Vec2::new(100000, 0);
    assert_eq!(compute_repulsion(1, a, &vec![(2, b)], &cfg()), Vec2::new(0, 0));
    assert_eq!(compute_repulsion(2, b, &vec![(1, a)], &cfg()), Vec2::new(0, 0));
}

#[test]
fn repulsion_ignores_the_unit_itself_and_extremes() {
    let a = Vec2::new(0, 0);
    let c = cfg();
    assert_eq!(compute_repulsion(1, a, &vec![], &c), Vec2::new(0, 0));
    assert_eq!(compute_repulsion(1, a, &vec![(1, Vec2::new(1000, 0))], &c), Vec2::new(0, 0));
    // exactly at the radius, on the same spot, and within a minimum distance
    assert_eq!(compute_repulsion(1, a, &vec![(2, Vec2::new(12000, 0))], &c), Vec2::new(0, 0));
    assert_eq!(compute_repulsion(1, a, &vec![(2, Vec2::new(0, 0))], &c), Vec2::new(0, 0));
    let far = SteeringConfig { min_distance: 1200, ..c };
    assert_eq!(compute_repulsion(1, a, &vec![(2, Vec2::new(1200, 0))], &far), Vec2::new(0, 0));
    assert_eq!(compute_repulsion(1, a, &vec![(2, Vec2::new(1201, 0))], &far), Vec2::new(989, 0));
    // two neighbours sum
    let both = vec![(2, Vec2::new(6000, 0)), (1, Vec2::new(0, 0)), (3, Vec2::new(0, -6000))];
    assert_eq!(compute_repulsion(1, a, &both, &c), Vec2::new(750, -750));
}

#[test]
fn velocity_accelerates_toward_the_target() {
    let c = cfg();
    // 100 ms at 200 per second squared: at most 20 (20000) closer
    let v = integrate_velocity(Vec2::new(0, 0), Vec2::new(5000, 0), Vec2::new(0, 0), 100, &c);
    assert_eq!(v, Vec2::new(20000, 0));
    // a long tick reaches the top speed exactly
    let v = integrate_velocity(Vec2::new(0, 0), Vec2::new(0, -9000), Vec2::new(0, 0), 1000, &c);
    assert_eq!(v, Vec2::new(0, -60000));
    // a short direction asks for a slower target
    let v = integrate_velocity(Vec2::new(0, 0), Vec2::new(500, 0), Vec2::new(0, 0), 1000, &c);
    assert_eq!(v, Vec2::new(30000, 0));
}

#[test]
fn zero_direction_decelerates_to_rest() {
    let c = cfg();
    let v = integrate_velocity(Vec2::new(50000, 0), Vec2::new(0, 0), Vec2::new(0, 0), 100, &c);
    assert_eq!(v, Vec2::new(30000, 0));
    let v = integrate_velocity(v, Vec2::new(0, 0), Vec2::new(0, 0), 1000, &c);
    assert_eq!(v, Vec2::new(0, 0));
}

#[test]
fn zero_dt_changes_nothing() {
    let c = cfg();
    let v = integrate_velocity(Vec2::new(7, -3), Vec2::new(1000, 0), Vec2::new(900, 900), 0, &c);
    assert_eq!(v, Vec2::new(7, -3));
    assert_eq!(integrate_position(Vec2::new(5, 6), Vec2::new(60000, 0), 0), Vec2::new(5, 6));
}

#[test]
fn repulsion_is_subtracted_from_velocity() {
    let c = cfg();
    // 1000 repulsion (one whole unit) for 10 ms at 800 per second: 8 (8000)
    let v = integrate_velocity(Vec2::new(0, 0), Vec2::new(0, 0), Vec2::new(1000, 0), 10, &c);
    assert_eq!(v, Vec2::new(-8000, 0));
}

#[test]
fn velocity_stays_within_the_bound() {
    let c = cfg();
    let v = integrate_velocity(Vec2::new(60000, 0), Vec2::new(-1000, 0), Vec2::new(-3000, 0), 16, &c);
    let speed_sq = (v.x as i128) * (v.x as i128) + (v.y as i128) * (v.y as i128);
    // max speed + acceleration step + repulsion change: 60000 + 3200 + 38400
    let bound: i128 = 60000 + 3200 + 38400;
    assert!(speed_sq <= bound * bound);
}

#[test]
fn position_follows_velocity() {
    assert_eq!(integrate_position(Vec2::new(0, 0), Vec2::new(60000, -30000), 16), Vec2::new(960, -480));
    assert_eq!(integrate_position(Vec2::new(10, 10), Vec2::new(-999, 0), 1), Vec2::new(10, 10));
}

#[test]
fn facing_follows_fast_movement_only() {
    let c = cfg();
    let mut u = Unit::new();
    u.target_direction = Vec2::new(0, 1000);
    unit_move(&mut u, Vec2::new(0, 0), 5, &c);
    // 1000 per second for 5 ms: below the dead zone of 2000
    assert_eq!(u.vel, Vec2::new(0, 1000));
    assert_eq!(u.last_direction, Vec2::new(0, 0));
    unit_move(&mut u, Vec2::new(0, 0), 100, &c);
    assert_eq!(u.vel, Vec2::new(0, 21000));
    assert_eq!(u.last_direction, Vec2::new(0, 1000));
}
