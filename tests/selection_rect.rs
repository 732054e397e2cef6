use rts_units::geom::Vec2;
use rts_units::lumberjack::{lumberjack_move_to_position_action, Action, Lumberjack};
use rts_units::selection::{rect_contains, selection_change, unit_select, ApplySelectionEvent, Selection};

#[test]
fn rectangle_selects_inside_units_and_move_order_follows() {
    let event = ApplySelectionEvent { start: Vec2::new(0, 0), end: Vec2::new(10, 10) };
    let positions = vec![Vec2::new(5, 5), Vec2::new(20, 20)];
    let mut selected = vec![false, false];
    unit_select(&event, &positions, &mut selected);
    assert_eq!(selected, vec![true, false]);

    let mut ljs = vec![Lumberjack::new(), Lumberjack { action: Action::CollectResource(3), ..Lumberjack::new() }];
    lumberjack_move_to_position_action(&mut ljs, &selected, Vec2::new(50, 50));
    assert_eq!(ljs[0].action, Action::MoveToPosition(Vec2::new(50, 50)));
    assert_eq!(ljs[1].action, Action::CollectResource(3));
}

#[test]
fn selection_replaces_the_previous_one() {
    let event = ApplySelectionEvent { start: Vec2::new(10, 10), end: Vec2::new(0, 0) };
    let positions = vec![Vec2::new(5, 5), Vec2::new(20, 20)];
    let mut selected = vec![false, true];
    unit_select(&event, &positions, &mut selected);
    assert_eq!(selected, vec![true, false]);
}

#[test]
fn rectangle_edges_are_outside() {
    let a = Vec2::new(0, 10);
    let b = Vec2::new(10, 0);
    assert!(rect_contains(a, b, Vec2::new(1, 9)));
    assert!(!rect_contains(a, b, Vec2::new(0, 5)));
    assert!(!rect_contains(a, b, Vec2::new(5, 10)));
    assert!(!rect_contains(a, a, a));
}

#[test]
fn drag_lifecycle_emits_one_selection() {
    let mut s = Selection::Released;
    assert_eq!(selection_change(&mut s, false, Vec2::new(1, 1)), None);
    assert_eq!(s, Selection::Released);
    assert_eq!(selection_change(&mut s, true, Vec2::new(1, 2)), None);
    assert_eq!(s, Selection::Dragging(Vec2::new(1, 2), Vec2::new(1, 2)));
    assert_eq!(selection_change(&mut s, true, Vec2::new(7, 8)), None);
    assert_eq!(s, Selection::Dragging(Vec2::new(1, 2), Vec2::new(7, 8)));
    let e = selection_change(&mut s, false, Vec2::new(9, 9));
    assert_eq!(e, Some(ApplySelectionEvent { start: Vec2::new(1, 2), end: Vec2::new(7, 8) }));
    assert_eq!(s, Selection::Released);
}
