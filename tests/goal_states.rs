use rts_units::geom::Vec2;
use rts_units::lumberjack::{
    deposit_wood_stat, lumberjack_move_to_position_action, lumberjack_next_action, tree_death, Action,
    Barrack, DepositWoodEvent, Lumberjack, LumberjackConfig, LumberjackEvent, Stats, Tree, TreeChopEvent,
};
use rts_units::soldier::{
    calculate_damage, calculate_range, move_to_position_action, next_action, Soldier, SoldierAction, Weapon,
};
use rts_units::steering::Unit;
use rts_units::targets::{find_nearest, nearest_entity};

// Capacity 5, arrival radii 25 / 10 / 20, a chop of one second whose
// timer runs 8/3 times as fast as the clock; scale 1000.
fn cfg() -> LumberjackConfig {
    LumberjackConfig {
        capacity: 5,
        move_arrival: 25000,
        tree_arrival: 10000,
        dropoff_arrival: 20000,
        chop_duration: 1000,
        chop_rate_num: 8,
        chop_rate_den: 3,
        unit: 1000,
    }
}

fn tree(id: u64, x: i64, y: i64) -> Tree {
    Tree { id, pos: Vec2::new(x, y), resource: 100 }
}

#[test]
fn nearest_keeps_the_first_of_equal_distances() {
    let p = Vec2::new(0, 0);
    let c = vec![(1, Vec2::new(5, 0)), (2, Vec2::new(3, 0)), (3, Vec2::new(0, -3)), (4, Vec2::new(9, 9))];
    assert_eq!(find_nearest(&c, p), Some((2, Vec2::new(3, 0))));
    assert_eq!(find_nearest(&vec![], p), None);
    assert_eq!(nearest_entity(None, p, (7, Vec2::new(1, 1))), Some((7, Vec2::new(1, 1))));
    assert_eq!(nearest_entity(Some((7, Vec2::new(1, 1))), p, (8, Vec2::new(-1, 1))), Some((7, Vec2::new(1, 1))));
    assert_eq!(nearest_entity(Some((7, Vec2::new(1, 1))), p, (8, Vec2::new(0, 1))), Some((8, Vec2::new(0, 1))));
}

#[test]
fn lumberjack_chops_a_nearby_tree() {
    let c = cfg();
    let mut lj = Lumberjack::new();
    let mut unit = Unit::new();
    let pos = Vec2::new(0, 0);
    let trees = vec![tree(40, 30000, 0), tree(41, 5000, 0)];
    let barracks = vec![Barrack { id: 90, pos: Vec2::new(-50000, 0) }];

    assert_eq!(lumberjack_next_action(&mut lj, &mut unit, pos, &trees, &barracks, 100, &c), None);
    assert_eq!(lj.action, Action::CollectResource(41));

    assert_eq!(lumberjack_next_action(&mut lj, &mut unit, pos, &trees, &barracks, 100, &c), None);
    assert_eq!(lj.action, Action::Chop { timeout: 1000, target: 41 });
    assert_eq!(unit.target_direction, Vec2::new(1000, 0));

    let mut events = Vec::new();
    let mut ticks = 0;
    while lj.action != Action::Idle {
        if let Some(e) = lumberjack_next_action(&mut lj, &mut unit, pos, &trees, &barracks, 100, &c) {
            events.push(e);
        }
        ticks += 1;
        assert!(ticks < 10);
    }
    // 400 ms at 8/3 use up the second, the fifth tick completes the chop
    assert_eq!(ticks, 5);
    assert_eq!(lj.wood, 1);
    assert_eq!(events, vec![LumberjackEvent::TreeChop(TreeChopEvent(41))]);
    assert_eq!(unit.target_direction, Vec2::new(0, 0));
}

#[test]
fn full_lumberjack_delivers_to_the_nearest_barrack() {
    let c = cfg();
    let mut lj = Lumberjack { action: Action::Idle, wood: 5, animation_timer: 0 };
    let mut unit = Unit::new();
    let trees = vec![tree(40, 1000, 0)];
    let barracks = vec![Barrack { id: 90, pos: Vec2::new(-50000, 0) }, Barrack { id: 91, pos: Vec2::new(0, 30000) }];
    let pos = Vec2::new(0, 0);
    lumberjack_next_action(&mut lj, &mut unit, pos, &trees, &barracks, 16, &c);
    assert_eq!(lj.action, Action::DepositResource(91));
    assert_eq!(lumberjack_next_action(&mut lj, &mut unit, pos, &trees, &barracks, 16, &c), None);
    assert_eq!(unit.target_direction, Vec2::new(0, 1000));
    let near = Vec2::new(0, 15000);
    let e = lumberjack_next_action(&mut lj, &mut unit, near, &trees, &barracks, 16, &c);
    assert_eq!(e, Some(LumberjackEvent::DepositWood(DepositWoodEvent(1))));
    assert_eq!(lj.wood, 0);
    assert_eq!(lj.action, Action::Idle);
}

#[test]
fn lumberjack_with_vanished_target_goes_idle() {
    let c = cfg();
    let pos = Vec2::new(0, 0);
    let mut unit = Unit::new();
    unit.target_direction = Vec2::new(3, 4);
    let mut lj = Lumberjack { action: Action::CollectResource(41), wood: 2, animation_timer: 0 };
    assert_eq!(lumberjack_next_action(&mut lj, &mut unit, pos, &vec![], &vec![], 16, &c), None);
    assert_eq!(lj.action, Action::Idle);
    assert_eq!(lj.wood, 2);
    assert_eq!(unit.target_direction, Vec2::new(3, 4));

    let mut lj = Lumberjack { action: Action::DepositResource(90), wood: 5, animation_timer: 0 };
    assert_eq!(lumberjack_next_action(&mut lj, &mut unit, pos, &vec![], &vec![], 16, &c), None);
    assert_eq!(lj.action, Action::Idle);
    assert_eq!(lj.wood, 5);

    let spent = vec![Tree { id: 41, pos: Vec2::new(10, 0), resource: -1 }];
    let mut lj = Lumberjack { action: Action::Chop { timeout: 0, target: 41 }, wood: 2, animation_timer: 0 };
    assert_eq!(lumberjack_next_action(&mut lj, &mut unit, pos, &spent, &vec![], 16, &c), None);
    assert_eq!(lj.action, Action::Idle);
    assert_eq!(lj.wood, 2);
}

#[test]
fn idle_lumberjack_without_targets_stays_idle() {
    let c = cfg();
    let mut lj = Lumberjack::new();
    let mut unit = Unit::new();
    unit.target_direction = Vec2::new(3, 4);
    lumberjack_next_action(&mut lj, &mut unit, Vec2::new(0, 0), &vec![], &vec![], 16, &c);
    assert_eq!(lj.action, Action::Idle);
    assert_eq!(lj.animation_timer, 16);
    assert_eq!(unit.target_direction, Vec2::new(0, 0));
}

#[test]
fn move_order_ends_within_arrival_radius() {
    let c = cfg();
    let mut lj = Lumberjack { action: Action::MoveToPosition(Vec2::new(100000, 0)), wood: 0, animation_timer: 7 };
    let mut unit = Unit::new();
    lumberjack_next_action(&mut lj, &mut unit, Vec2::new(0, 0), &vec![], &vec![], 16, &c);
    assert_eq!(unit.target_direction, Vec2::new(100000, 0));
    assert_eq!(lj.action, Action::MoveToPosition(Vec2::new(100000, 0)));
    lumberjack_next_action(&mut lj, &mut unit, Vec2::new(80000, 0), &vec![], &vec![], 16, &c);
    assert_eq!(unit.target_direction, Vec2::new(20000, 0));
    assert_eq!(lj.action, Action::Idle);
    assert_eq!(lj.animation_timer, 0);
}

#[test]
fn move_order_preempts_selected_lumberjacks_only() {
    let mut ljs = vec![
        Lumberjack { action: Action::Chop { timeout: 300, target: 4 }, wood: 1, animation_timer: 0 },
        Lumberjack { action: Action::CollectResource(4), wood: 0, animation_timer: 0 },
    ];
    lumberjack_move_to_position_action(&mut ljs, &vec![true, false], Vec2::new(50000, 50000));
    assert_eq!(ljs[0].action, Action::MoveToPosition(Vec2::new(50000, 50000)));
    assert_eq!(ljs[0].wood, 1);
    assert_eq!(ljs[1].action, Action::CollectResource(4));
}

#[test]
fn chopped_tree_is_removed_when_empty() {
    let mut t = Tree { id: 1, pos: Vec2::new(0, 0), resource: 2 };
    assert!(!tree_death(&mut t));
    assert_eq!(t.resource, 1);
    assert!(tree_death(&mut t));
    assert_eq!(t.resource, 0);
    assert!(tree_death(&mut t));
    assert_eq!(t.resource, 0);
}

#[test]
fn deliveries_add_up() {
    let mut s = Stats { wood: 3 };
    deposit_wood_stat(&mut s, DepositWoodEvent(2));
    assert_eq!(s.wood, 5);
    s.wood = u32::MAX - 1;
    deposit_wood_stat(&mut s, DepositWoodEvent(5));
    assert_eq!(s.wood, u32::MAX);
}

#[test]
fn soldier_walks_to_its_order_and_stops() {
    let mut s = Soldier::new();
    let mut unit = Unit::new();
    unit.target_direction = Vec2::new(1, 1);
    next_action(&mut s, &mut unit, Vec2::new(0, 0), 25000);
    assert_eq!(unit.target_direction, Vec2::new(0, 0));
    let mut v = vec![s];
    move_to_position_action(&mut v, &vec![true], Vec2::new(40000, -30000));
    let mut s = v[0];
    assert_eq!(s.action, SoldierAction::MoveToPosition { target: Vec2::new(40000, -30000), attack_move: false });
    next_action(&mut s, &mut unit, Vec2::new(0, 0), 25000);
    assert_eq!(unit.target_direction, Vec2::new(40000, -30000));
    assert!(matches!(s.action, SoldierAction::MoveToPosition { .. }));
    next_action(&mut s, &mut unit, Vec2::new(30000, -20000), 25000);
    assert_eq!(unit.target_direction, Vec2::new(10000, -10000));
    assert_eq!(s.action, SoldierAction::Idle);
}

#[test]
fn soldier_attack_without_target_goes_idle() {
    let mut s = Soldier { action: SoldierAction::Attack(12), ..Soldier::new() };
    let mut unit = Unit::new();
    unit.target_direction = Vec2::new(5, 5);
    next_action(&mut s, &mut unit, Vec2::new(0, 0), 25000);
    assert_eq!(s.action, SoldierAction::Idle);
    assert_eq!(unit.target_direction, Vec2::new(5, 5));
}

#[test]
fn weapon_tables() {
    assert_eq!(calculate_damage(Weapon::Sword), 3);
    assert_eq!(calculate_damage(Weapon::Axe), 4);
    assert_eq!(calculate_damage(Weapon::Sling), 1);
    assert_eq!(calculate_range(Weapon::Spear), 50);
    assert_eq!(calculate_range(Weapon::Crossbow), 1500);
    assert_eq!(calculate_range(Weapon::Bow), 1000);
}
