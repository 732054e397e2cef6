use rts_units::geom::Vec2;
use std::collections::HashMap;
use rts_units::spatial::{unit_quad_tree_placement, Cell, CellGrid, UnitQuadTree};

// One cell per world unit at a scale of 1000, offset so that (-128, -128)
// maps to cell (0, 0), 256 cells per axis.
fn grid() -> CellGrid {
    CellGrid { cell_size: 1000, offset: 128000, depth: 8 }
}

fn sorted(mut v: Vec<u64>) -> Vec<u64> {
    v.sort();
    v
}

#[test]
fn cell_of_rounds_to_nearest_cell() {
    let t = UnitQuadTree::new(grid());
    assert_eq!(t.cell_of(Vec2::new(0, 0)), Some(Cell { x: 128, y: 128 }));
    assert_eq!(t.cell_of(Vec2::new(499, -499)), Some(Cell { x: 128, y: 128 }));
    assert_eq!(t.cell_of(Vec2::new(500, -500)), Some(Cell { x: 129, y: 128 }));
    assert_eq!(t.cell_of(Vec2::new(-501, 1501)), Some(Cell { x: 127, y: 130 }));
    assert_eq!(t.cell_of(Vec2::new(-128000, 127000)), Some(Cell { x: 0, y: 255 }));
}

#[test]
fn cell_of_rejects_positions_off_the_grid() {
    let t = UnitQuadTree::new(grid());
    assert_eq!(t.cell_of(Vec2::new(-128501, 0)), None);
    assert_eq!(t.cell_of(Vec2::new(0, 127500)), None);
}

#[test]
fn query_lists_units_of_the_three_by_three_block() {
    let mut t = UnitQuadTree::new(grid());
    assert_eq!(t.place(1, Vec2::new(0, 0)), Some(Cell { x: 128, y: 128 }));
    assert_eq!(t.place(2, Vec2::new(1000, 1000)), Some(Cell { x: 129, y: 129 }));
    assert_eq!(t.place(3, Vec2::new(2000, 0)), Some(Cell { x: 130, y: 128 }));
    assert_eq!(t.place(4, Vec2::new(-1000, 0)), Some(Cell { x: 127, y: 128 }));
    assert_eq!(sorted(t.query_neighbors(Cell { x: 128, y: 128 })), vec![1, 2, 4]);
    assert_eq!(sorted(t.query_neighbors(Cell { x: 130, y: 128 })), vec![2, 3]);
    assert_eq!(t.query_neighbors(Cell { x: 10, y: 10 }), Vec::<u64>::new());
}

#[test]
fn query_at_grid_corner_clips_the_block() {
    let mut t = UnitQuadTree::new(grid());
    t.place(1, Vec2::new(-128000, -128000));
    t.place(2, Vec2::new(-127000, -127000));
    t.place(3, Vec2::new(-126000, -128000));
    assert_eq!(sorted(t.query_neighbors(Cell { x: 0, y: 0 })), vec![1, 2]);
    assert_eq!(t.query_neighbors(Cell { x: 300, y: 0 }), Vec::<u64>::new());
}

#[test]
fn removed_units_are_never_returned() {
    let mut t = UnitQuadTree::new(grid());
    t.place(1, Vec2::new(0, 0));
    t.place(2, Vec2::new(100, 0));
    assert!(t.remove(1));
    assert!(!t.remove(1));
    assert_eq!(t.query_neighbors(Cell { x: 128, y: 128 }), vec![2]);
    assert!(!t.remove(77));
}

#[test]
fn relocating_keeps_one_entry_per_unit() {
    let mut t = UnitQuadTree::new(grid());
    t.place(5, Vec2::new(0, 0));
    // same cell: nothing changes
    assert_eq!(t.place(5, Vec2::new(300, 300)), Some(Cell { x: 128, y: 128 }));
    // another cell: the old entry goes
    assert_eq!(t.place(5, Vec2::new(10000, 0)), Some(Cell { x: 138, y: 128 }));
    assert_eq!(t.query_neighbors(Cell { x: 128, y: 128 }), Vec::<u64>::new());
    assert_eq!(t.query_neighbors(Cell { x: 138, y: 128 }), vec![5]);
}

#[test]
fn placing_off_the_grid_takes_the_unit_out() {
    let mut t = UnitQuadTree::new(grid());
    t.place(9, Vec2::new(0, 0));
    assert_eq!(t.place(9, Vec2::new(200000, 0)), None);
    assert_eq!(t.query_neighbors(Cell { x: 128, y: 128 }), Vec::<u64>::new());
    assert!(!t.remove(9));
}

#[test]
fn placement_pass_updates_every_unit() {
    let mut t = UnitQuadTree::new(grid());
    let units = vec![(1, Vec2::new(0, 0)), (2, Vec2::new(900, 0)), (3, Vec2::new(50000, 0))];
    unit_quad_tree_placement(&mut t, &units);
    assert_eq!(sorted(t.query_neighbors(Cell { x: 128, y: 128 })), vec![1, 2]);
    assert_eq!(t.query_neighbors(Cell { x: 178, y: 128 }), vec![3]);
    let moved = vec![(1, Vec2::new(50000, 1000))];
    unit_quad_tree_placement(&mut t, &moved);
    assert_eq!(sorted(t.query_neighbors(Cell { x: 178, y: 128 })), vec![1, 3]);
    assert_eq!(t.query_neighbors(Cell { x: 128, y: 128 }), vec![2]);
}

#[test]
fn units_closer_than_a_cell_see_each_other() {
    let mut t = UnitQuadTree::new(grid());
    let a = Vec2::new(499, 499);
    let b = Vec2::new(1200, 1000);
    t.place(1, a);
    t.place(2, b);
    let ca = t.cell_of(a).unwrap();
    let cb = t.cell_of(b).unwrap();
    assert!(t.query_neighbors(ca).contains(&2));
    assert!(t.query_neighbors(cb).contains(&1));
}

#[test]
fn many_units_in_one_cell_are_listed_once_each() {
    let mut t = UnitQuadTree::new(grid());
    for id in 0..50u64 {
        t.place(id, Vec2::new((id as i64) * 10, 0));
    }
    for id in 0..50u64 {
        t.place(id, Vec2::new((id as i64) * 10, 5));
    }
    let got = sorted(t.query_neighbors(Cell { x: 128, y: 128 }));
    assert_eq!(got, (0..50u64).collect::<Vec<_>>());
}

#[test]
fn long_update_sequence_matches_a_plain_model() {
    let mut t = UnitQuadTree::new(grid());
    let mut model: HashMap<u64, Cell> = HashMap::new();
    let mut seed: u64 = 12345;
    let mut next = || {
        seed = seed.wrapping_mul(6364136223846793005).wrapping_add(1442695040888963407);
        seed >> 33
    };
    for _ in 0..2000 {
        let unit = next() % 40;
        if next() % 4 == 0 {
            assert_eq!(t.remove(unit), model.remove(&unit).is_some());
        } else {
            let p = Vec2::new((next() % 20000) as i64 - 10000, (next() % 20000) as i64 - 10000);
            let c = t.place(unit, p);
            assert!(c.is_some());
            model.insert(unit, c.unwrap());
        }
        let center = Cell { x: 120 + (next() % 17) as u32, y: 120 + (next() % 17) as u32 };
        let mut want: Vec<u64> = model
            .iter()
            .filter(|(_, c)| (c.x as i64 - center.x as i64).abs() <= 1 && (c.y as i64 - center.y as i64).abs() <= 1)
            .map(|(u, _)| *u)
            .collect();
        want.sort();
        assert_eq!(sorted(t.query_neighbors(center)), want);
    }
}
