//! The spatial index: units bucketed by grid cell in a quadtree, with
//! placement, removal and 3x3 neighbourhood queries.

use crate::geom::Vec2;
use crate::geom::COORD_LIMIT;
use quadtree_rs::area::AreaBuilder;
use quadtree_rs::point::Point;
use quadtree_rs::Quadtree;
use std::collections::HashMap;
use vstd::arithmetic::power2::pow2;
use vstd::prelude::*;

verus! {

broadcast use vstd::std_specs::hash::group_hash_axioms;

/// A quadtree of point entries, each carrying a unit id. Its contents are
/// known to proofs only through `cell_tree_entries` and `cell_tree_side`.
#[verifier::external_body]
pub struct CellTree {
    tree: Quadtree<u32, u64>,
}

/// What a cell tree holds: handle to (x, y, unit).
pub uninterp spec fn cell_tree_entries(t: CellTree) -> Map<u64, (u32, u32, u64)>;

/// The side length of the square area a cell tree covers.
pub uninterp spec fn cell_tree_side(t: CellTree) -> nat;

/// The point `(e.0, e.1)` lies in the area anchored at `(x, y)` of size `w` by `h`.
pub open spec fn in_area(e: (u32, u32, u64), x: int, y: int, w: int, h: int) -> bool {
    x <= e.0 && e.0 + 1 <= x + w && y <= e.1 && e.1 + 1 <= y + h
}

impl CellTree {
    /// Relies on quadtree_rs::Quadtree::new: an empty tree covering
    /// `[0, 2^depth)` on both axes.
    #[verifier::external_body]
    fn new(depth: u32) -> (r: CellTree)
        requires
            depth <= 16,
        ensures
            cell_tree_entries(r).dom() == Set::<u64>::empty(),
            cell_tree_side(r) == pow2(depth as nat),
    {
        CellTree { tree: Quadtree::new(depth as usize) }
    }

    /// Relies on quadtree_rs::Quadtree::insert_pt: a point inside the
    /// covered area is stored under a handle that no present entry holds
    /// (handles come from a counter that only grows).
    #[verifier::external_body]
    fn insert(&mut self, x: u32, y: u32, unit: u64) -> (r: Option<u64>)
        requires
            x < cell_tree_side(*old(self)),
            y < cell_tree_side(*old(self)),
        ensures
            r is Some,
            !cell_tree_entries(*old(self)).contains_key(r->0),
            cell_tree_entries(*final(self)) == cell_tree_entries(*old(self)).insert(
                r->0,
                (x, y, unit),
            ),
            cell_tree_side(*final(self)) == cell_tree_side(*old(self)),
    {
        self.tree.insert_pt(Point { x, y }, unit)
    }

    /// Relies on quadtree_rs::Quadtree::delete_by_handle: drops the entry
    /// held under `handle`, if there is one.
    #[verifier::external_body]
    fn remove(&mut self, handle: u64) -> (r: bool)
        ensures
            r == cell_tree_entries(*old(self)).contains_key(handle),
            cell_tree_entries(*final(self)) == cell_tree_entries(*old(self)).remove(handle),
            cell_tree_side(*final(self)) == cell_tree_side(*old(self)),
    {
        self.tree.delete_by_handle(handle).is_some()
    }

    /// Relies on quadtree_rs::area::AreaBuilder and
    /// quadtree_rs::Quadtree::query_strict: every entry whose point lies in
    /// the area, each once, as (handle, unit).
    #[verifier::external_body]
    fn query(&self, x: u32, y: u32, w: u32, h: u32) -> (r: Vec<(u64, u64)>)
        requires
            0 < w,
            0 < h,
            x + w <= u32::MAX,
            y + h <= u32::MAX,
        ensures
            forall|i: int, j: int| 0 <= i < j < r@.len() ==> r@[i].0 != r@[j].0,
            forall|i: int|
                0 <= i < r@.len() ==> {
                    &&& #[trigger] cell_tree_entries(*self).contains_key(r@[i].0)
                    &&& cell_tree_entries(*self)[r@[i].0].2 == r@[i].1
                    &&& in_area(cell_tree_entries(*self)[r@[i].0], x as int, y as int, w as int, h as int)
                },
            forall|k: u64|
                cell_tree_entries(*self).contains_key(k) && in_area(
                    #[trigger] cell_tree_entries(*self)[k],
                    x as int,
                    y as int,
                    w as int,
                    h as int,
                ) ==> exists|i: int| 0 <= i < r@.len() && r@[i].0 == k,
    {
        let area = AreaBuilder::default().anchor(Point { x, y }).dimensions((w, h)).build().unwrap();
        self.tree.query_strict(area).map(|e| (e.handle(), *e.value_ref())).collect()
    }
}

/// A grid cell: a quantised position.
#[derive(Clone, Copy, Debug, PartialEq, Eq, Structural)]
pub struct Cell {
    pub x: u32,
    pub y: u32,
}

/// `c` lies in the 3x3 block of cells centred on `center`.
pub open spec fn in_block(c: Cell, center: Cell) -> bool {
    -1 <= c.x - center.x <= 1 && -1 <= c.y - center.y <= 1
}

/// How world positions map to cells: a coordinate `p` falls in cell
/// `round((p + offset) / cell_size)`, halves rounding up, and the grid has
/// `2^depth` cells along each axis.
#[derive(Clone, Copy, Debug, PartialEq, Eq, Structural)]
pub struct CellGrid {
    pub cell_size: i64,
    pub offset: i64,
    pub depth: u32,
}

/// The cell index of coordinate `p`, before bounds are checked.
pub open spec fn axis_cell(p: int, cell_size: int, offset: int) -> int {
    (2 * (p + offset) + cell_size) / (2 * cell_size)
}

impl CellGrid {
    pub open spec fn wf(self) -> bool {
        &&& 1 <= self.cell_size <= COORD_LIMIT
        &&& 0 <= self.offset <= COORD_LIMIT
        &&& self.depth <= 16
    }

    /// Cells along each axis.
    pub open spec fn side(self) -> nat {
        pow2(self.depth as nat)
    }

    /// The cell of a position, or `None` where it falls outside the grid.
    pub open spec fn spec_cell_of(self, p: Vec2) -> Option<Cell> {
        let cx = axis_cell(p.x as int, self.cell_size as int, self.offset as int);
        let cy = axis_cell(p.y as int, self.cell_size as int, self.offset as int);
        if 0 <= cx < self.side() && 0 <= cy < self.side() {
            Some(Cell { x: cx as u32, y: cy as u32 })
        } else {
            None
        }
    }

    fn axis(&self, p: i64, side: u32) -> (r: Option<u32>)
        requires
            self.wf(),
            -COORD_LIMIT <= p <= COORD_LIMIT,
            side == self.side(),
            side <= 65536,
        ensures
            ({
                let c = axis_cell(p as int, self.cell_size as int, self.offset as int);
                match r {
                    Some(v) => 0 <= c < side && v == c,
                    None => !(0 <= c < side),
                }
            }),
    {
        let t: i64 = 2 * (p + self.offset) + self.cell_size;
        let d: i64 = 2 * self.cell_size;
        if t < 0 {
            proof {
                let q = (t as int) / (d as int);
                vstd::arithmetic::div_mod::lemma_fundamental_div_mod(t as int, d as int);
                assert(q < 0) by (nonlinear_arith)
                    requires
                        t == d * q + (t as int) % (d as int),
                        0 <= (t as int) % (d as int),
                        t < 0,
                        d > 0,
                ;
            }
            return None;
        }
        let c: u64 = (t as u64) / (d as u64);
        if c >= side as u64 {
            None
        } else {
            Some(c as u32)
        }
    }

    /// The cell of a position, or `None` where it falls outside the grid.
    pub fn cell_of(&self, p: Vec2, side: u32) -> (r: Option<Cell>)
        requires
            self.wf(),
            p.bounded(),
            side == self.side(),
            side <= 65536,
        ensures
            r == self.spec_cell_of(p),
    {
        match (self.axis(p.x, side), self.axis(p.y, side)) {
            (Some(x), Some(y)) => Some(Cell { x, y }),
            _ => None,
        }
    }
}

#[derive(Clone, Copy)]
struct Slot {
    cell: Cell,
    handle: u64,
}

/// The spatial index: each placed unit sits in exactly one cell, and the
/// units of a 3x3 block of cells can be listed. Updates take `&mut self` and
/// queries `&self`, so a tick's update phase ends before its queries begin.
pub struct UnitQuadTree {
    tree: CellTree,
    slots: HashMap<u64, Slot>,
    grid: CellGrid,
    side: u32,
}

impl View for UnitQuadTree {
    /// The cell of each placed unit.
    type V = Map<u64, Cell>;

    closed spec fn view(&self) -> Map<u64, Cell> {
        self.slots@.map_values(|s: Slot| s.cell)
    }
}

impl UnitQuadTree {
    pub closed spec fn grid(&self) -> CellGrid {
        self.grid
    }

    pub closed spec fn wf(&self) -> bool {
        let entries = cell_tree_entries(self.tree);
        &&& self.grid.wf()
        &&& self.side == self.grid.side()
        &&& self.side <= 65536
        &&& cell_tree_side(self.tree) == self.side
        &&& forall|u: u64|
            #[trigger] self.slots@.contains_key(u) ==> {
                let s = self.slots@[u];
                &&& entries.contains_key(s.handle)
                &&& entries[s.handle] == (s.cell.x, s.cell.y, u)
                &&& s.cell.x < self.side
                &&& s.cell.y < self.side
            }
        &&& forall|h: u64|
            #[trigger] entries.contains_key(h) ==> {
                &&& self.slots@.contains_key(entries[h].2)
                &&& self.slots@[entries[h].2].handle == h
            }
    }

    /// An empty index over the given grid.
    pub fn new(grid: CellGrid) -> (r: UnitQuadTree)
        requires
            grid.wf(),
        ensures
            r.wf(),
            r.grid() == grid,
            r@ == Map::<u64, Cell>::empty(),
    {
        let mut side: u32 = 1;
        let mut i: u32 = 0;
        proof {
            vstd::arithmetic::power2::lemma2_to64();
        }
        while i < grid.depth
            invariant
                i <= grid.depth <= 16,
                side == pow2(i as nat),
                side <= pow2(16),
                pow2(16) == 65536,
            decreases grid.depth - i,
        {
            proof {
                vstd::arithmetic::power2::lemma_pow2_unfold((i + 1) as nat);
                if i + 1 < 16 {
                    vstd::arithmetic::power2::lemma_pow2_strictly_increases((i + 1) as nat, 16);
                }
            }
            side = side * 2;
            i = i + 1;
        }
        let r = UnitQuadTree { tree: CellTree::new(grid.depth), slots: HashMap::new(), grid, side };
        assert(r@ =~= Map::<u64, Cell>::empty());
        r
    }

    /// The cell that `place` would put a unit at `p` in.
    pub fn cell_of(&self, p: Vec2) -> (r: Option<Cell>)
        requires
            self.wf(),
            p.bounded(),
        ensures
            r == self.grid().spec_cell_of(p),
    {
        self.grid.cell_of(p, self.side)
    }

    /// Takes `unit` out of the index; returns whether it was there. Removing
    /// an absent unit changes nothing.
    pub fn remove(&mut self, unit: u64) -> (r: bool)
        requires
            old(self).wf(),
        ensures
            final(self).wf(),
            final(self).grid() == old(self).grid(),
            r == old(self)@.contains_key(unit),
            final(self)@ == old(self)@.remove(unit),
            final(self)@ == apply_op(old(self).grid(), old(self)@, IndexOp::Remove(unit)),
    {
        let slot = match self.slots.get(&unit) {
            Some(s) => *s,
            None => {
                return false;
            },
        };
        self.tree.remove(slot.handle);
        self.slots.remove(&unit);
        proof {
            let entries = cell_tree_entries(self.tree);
            assert forall|h: u64| #[trigger] entries.contains_key(h) implies {
                &&& self.slots@.contains_key(entries[h].2)
                &&& self.slots@[entries[h].2].handle == h
            } by {
                assert(cell_tree_entries(old(self).tree).contains_key(h));
            }
            assert(self@ =~= old(self)@.remove(unit));
        }
        true
    }

    /// Puts `unit` in the cell of `pos`, taking it out of any other cell.
    /// Where `pos` falls outside the grid the unit is taken out of the index
    /// and `None` is returned. A unit already in the right cell stays as it
    /// is.
    pub fn place(&mut self, unit: u64, pos: Vec2) -> (r: Option<Cell>)
        requires
            old(self).wf(),
            pos.bounded(),
        ensures
            final(self).wf(),
            final(self).grid() == old(self).grid(),
            r == old(self).grid().spec_cell_of(pos),
            final(self)@ == match r {
                Some(c) => old(self)@.insert(unit, c),
                None => old(self)@.remove(unit),
            },
            final(self)@ == apply_op(old(self).grid(), old(self)@, IndexOp::Place(unit, pos)),
    {
        let cell = self.grid.cell_of(pos, self.side);
        let present = match self.slots.get(&unit) {
            Some(s) => Some(*s),
            None => None,
        };
        if let Some(s) = present {
            if let Some(c) = cell {
                if s.cell == c {
                    proof {
                        assert(self@ =~= old(self)@.insert(unit, c));
                    }
                    return cell;
                }
            }
        }
        self.remove(unit);
        match cell {
            Some(c) => {
                let ghost mid = *self;
                let h = self.tree.insert(c.x, c.y, unit).unwrap();
                self.slots.insert(unit, Slot { cell: c, handle: h });
                proof {
                    let entries = cell_tree_entries(self.tree);
                    assert(!mid@.contains_key(unit));
                    assert(!mid.slots@.contains_key(unit));
                    assert forall|u: u64| #[trigger] self.slots@.contains_key(u) implies {
                        let s = self.slots@[u];
                        &&& entries.contains_key(s.handle)
                        &&& entries[s.handle] == (s.cell.x, s.cell.y, u)
                        &&& s.cell.x < self.side
                        &&& s.cell.y < self.side
                    } by {
                        if u != unit {
                            assert(mid.slots@.contains_key(u));
                        }
                    }
                    assert forall|k: u64| #[trigger] entries.contains_key(k) implies {
                        &&& self.slots@.contains_key(entries[k].2)
                        &&& self.slots@[entries[k].2].handle == k
                    } by {
                        if k != h {
                            assert(cell_tree_entries(mid.tree).contains_key(k));
                            assert(mid.slots@.contains_key(entries[k].2));
                            assert(entries[k].2 != unit);
                        }
                    }
                    assert forall|u: u64| #[trigger] self@.contains_key(u) == old(self)@.insert(unit, c).contains_key(u) by {
                        if u != unit {
                            assert(mid@.contains_key(u) == old(self)@.contains_key(u));
                        }
                    }
                    assert forall|u: u64| #[trigger] self@.contains_key(u) implies self@[u] == old(self)@.insert(unit, c)[u] by {
                        if u != unit {
                            assert(mid@.contains_key(u));
                            assert(self.slots@[u] == mid.slots@[u]);
                            assert(mid@[u] == old(self)@[u]);
                        }
                    }
                    assert(self@ =~= old(self)@.insert(unit, c));
                }
            },
            None => {},
        }
        cell
    }
}

impl UnitQuadTree {
    /// Every placed unit whose cell lies in the 3x3 block centred on
    /// `center`, each once, in no particular order.
    pub fn query_neighbors(&self, center: Cell) -> (r: Vec<u64>)
        requires
            self.wf(),
        ensures
            r@.no_duplicates(),
            forall|u: u64|
                #[trigger] r@.contains(u) <==> (self@.contains_key(u) && in_block(self@[u], center)),
            r@.to_set() == listed(self@, center),
    {
        let side = self.side;
        let ax: u32 = if center.x > 0 {
            center.x - 1
        } else {
            0
        };
        let ay: u32 = if center.y > 0 {
            center.y - 1
        } else {
            0
        };
        if ax >= side || ay >= side {
            // no cell of the grid lies in the block
            let r: Vec<u64> = Vec::new();
            proof {
                assert forall|u: u64| #[trigger]
                    r@.contains(u) <==> (self@.contains_key(u) && in_block(self@[u], center)) by {
                    if self@.contains_key(u) {
                        assert(self.slots@.contains_key(u));
                    }
                }
            }
            return r;
        }
        let ex: u32 = if center.x >= side || center.x + 2 > side {
            side
        } else {
            center.x + 2
        };
        let ey: u32 = if center.y >= side || center.y + 2 > side {
            side
        } else {
            center.y + 2
        };
        let pairs = self.tree.query(ax, ay, ex - ax, ey - ay);
        let ghost entries = cell_tree_entries(self.tree);
        let mut r: Vec<u64> = Vec::new();
        let mut i: usize = 0;
        while i < pairs.len()
            invariant
                i <= pairs@.len(),
                r@.len() == i,
                forall|k: int| 0 <= k < i ==> r@[k] == pairs@[k].1,
            decreases pairs@.len() - i,
        {
            r.push(pairs[i].1);
            i = i + 1;
        }
        proof {
            assert forall|u: u64| #[trigger]
                r@.contains(u) <==> (self@.contains_key(u) && in_block(self@[u], center)) by {
                if r@.contains(u) {
                    let k = choose|k: int| 0 <= k < r@.len() && r@[k] == u;
                    assert(entries.contains_key(pairs@[k].0));
                    assert(self.slots@.contains_key(entries[pairs@[k].0].2));
                }
                if self@.contains_key(u) && in_block(self@[u], center) {
                    assert(self.slots@.contains_key(u));
                    let h = self.slots@[u].handle;
                    assert(entries.contains_key(h));
                    assert(in_area(entries[h], ax as int, ay as int, (ex - ax) as int, (ey - ay) as int));
                    let k = choose|k: int| 0 <= k < pairs@.len() && pairs@[k].0 == h;
                    assert(r@[k] == u);
                }
            }
            assert forall|a: int, b: int| 0 <= a < r@.len() && 0 <= b < r@.len() && a != b implies r@[a]
                != r@[b] by {
                assert(entries.contains_key(pairs@[a].0));
                assert(entries.contains_key(pairs@[b].0));
                if a < b {
                    assert(pairs@[a].0 != pairs@[b].0);
                } else {
                    assert(pairs@[b].0 != pairs@[a].0);
                }
            }
        }
        proof {
            assert(r@.to_set() =~= listed(self@, center));
        }
        r
    }
}

/// The index contents after placing each `(unit, position)` in turn.
pub open spec fn placed(grid: CellGrid, m: Map<u64, Cell>, units: Seq<(u64, Vec2)>) -> Map<u64, Cell>
    decreases units.len(),
{
    if units.len() == 0 {
        m
    } else {
        let prev = placed(grid, m, units.drop_last());
        let (unit, pos) = units.last();
        match grid.spec_cell_of(pos) {
            Some(c) => prev.insert(unit, c),
            None => prev.remove(unit),
        }
    }
}

/// The placement pass of a tick: brings every listed unit's cell up to date
/// with its position.
pub fn unit_quad_tree_placement(tree: &mut UnitQuadTree, units: &Vec<(u64, Vec2)>)
    requires
        old(tree).wf(),
        forall|i: int| 0 <= i < units@.len() ==> (#[trigger] units@[i]).1.bounded(),
    ensures
        final(tree).wf(),
        final(tree).grid() == old(tree).grid(),
        final(tree)@ == placed(old(tree).grid(), old(tree)@, units@),
{
    let mut i: usize = 0;
    while i < units.len()
        invariant
            i <= units@.len(),
            tree.wf(),
            tree.grid() == old(tree).grid(),
            tree@ == placed(old(tree).grid(), old(tree)@, units@.take(i as int)),
            forall|i: int| 0 <= i < units@.len() ==> (#[trigger] units@[i]).1.bounded(),
        decreases units@.len() - i,
    {
        let (unit, pos) = units[i];
        tree.place(unit, pos);
        proof {
            assert(units@.take(i + 1).drop_last() =~= units@.take(i as int));
        }
        i = i + 1;
    }
    proof {
        assert(units@.take(units@.len() as int) =~= units@);
    }
}

/// Cells of coordinates less than one cell apart differ by at most one.
proof fn lemma_axis_close(p: int, q: int, cell_size: int, offset: int)
    requires
        cell_size >= 1,
        -cell_size < p - q < cell_size,
    ensures
        -1 <= axis_cell(p, cell_size, offset) - axis_cell(q, cell_size, offset) <= 1,
{
    let d = 2 * cell_size;
    let a = 2 * (p + offset) + cell_size;
    let b = 2 * (q + offset) + cell_size;
    vstd::arithmetic::div_mod::lemma_fundamental_div_mod(a, d);
    vstd::arithmetic::div_mod::lemma_fundamental_div_mod(b, d);
    let (qa, qb) = (a / d, b / d);
    assert(-1 <= qa - qb <= 1) by (nonlinear_arith)
        requires
            a == d * qa + a % d,
            b == d * qb + b % d,
            0 <= a % d < d,
            0 <= b % d < d,
            -d < a - b < d,
    ;
}

/// Two positions less than one cell width apart that both lie on the grid
/// have cells in each other's 3x3 block, so a neighbour query centred on
/// either cell lists the other unit.
pub proof fn lemma_close_units_are_neighbors(grid: CellGrid, p: Vec2, q: Vec2)
    requires
        grid.wf(),
        (p.x - q.x) * (p.x - q.x) + (p.y - q.y) * (p.y - q.y) < grid.cell_size * grid.cell_size,
        grid.spec_cell_of(p) is Some,
        grid.spec_cell_of(q) is Some,
    ensures
        in_block(grid.spec_cell_of(q)->0, grid.spec_cell_of(p)->0),
        in_block(grid.spec_cell_of(p)->0, grid.spec_cell_of(q)->0),
{
    let (dx, dy, s) = ((p.x - q.x) as int, (p.y - q.y) as int, grid.cell_size as int);
    assert(dx * dx < s * s && dy * dy < s * s) by (nonlinear_arith)
        requires
            dx * dx + dy * dy < s * s,
    ;
    assert(-s < dx < s) by (nonlinear_arith)
        requires
            dx * dx < s * s,
            s >= 1,
    ;
    assert(-s < dy < s) by (nonlinear_arith)
        requires
            dy * dy < s * s,
            s >= 1,
    ;
    lemma_axis_close(p.x as int, q.x as int, s, grid.offset as int);
    lemma_axis_close(p.y as int, q.y as int, s, grid.offset as int);
    lemma_side_bound(grid);
}

proof fn lemma_side_bound(grid: CellGrid)
    requires
        grid.wf(),
    ensures
        1 <= grid.side() <= 65536,
{
    vstd::arithmetic::power2::lemma2_to64();
    if grid.depth < 16 {
        vstd::arithmetic::power2::lemma_pow2_strictly_increases(grid.depth as nat, 16);
    }
    if grid.depth > 0 {
        vstd::arithmetic::power2::lemma_pow2_strictly_increases(0, grid.depth as nat);
    }
}

/// An update of the index, as `place` and `remove` perform it.
#[derive(Clone, Copy, Debug, PartialEq, Eq, Structural)]
pub enum IndexOp {
    Place(u64, Vec2),
    Remove(u64),
}

/// The index contents after one update (see the contracts of `place` and
/// `remove`).
pub open spec fn apply_op(grid: CellGrid, m: Map<u64, Cell>, op: IndexOp) -> Map<u64, Cell> {
    match op {
        IndexOp::Place(u, p) => match grid.spec_cell_of(p) {
            Some(c) => m.insert(u, c),
            None => m.remove(u),
        },
        IndexOp::Remove(u) => m.remove(u),
    }
}

/// The index contents after a sequence of updates.
pub open spec fn apply_ops(grid: CellGrid, m: Map<u64, Cell>, ops: Seq<IndexOp>) -> Map<u64, Cell>
    decreases ops.len(),
{
    if ops.len() == 0 {
        m
    } else {
        apply_op(grid, apply_ops(grid, m, ops.drop_last()), ops.last())
    }
}

pub open spec fn op_unit(op: IndexOp) -> u64 {
    match op {
        IndexOp::Place(u, _) => u,
        IndexOp::Remove(u) => u,
    }
}

/// The last update of unit `u` in a sequence, if any.
pub open spec fn last_op_of(ops: Seq<IndexOp>, u: u64) -> Option<IndexOp>
    decreases ops.len(),
{
    if ops.len() == 0 {
        None
    } else if op_unit(ops.last()) == u {
        Some(ops.last())
    } else {
        last_op_of(ops.drop_last(), u)
    }
}

/// What a neighbour query centred on `center` lists, by the contract of
/// `query_neighbors`.
pub open spec fn listed(m: Map<u64, Cell>, center: Cell) -> Set<u64> {
    Set::new(|u: u64| m.contains_key(u) && in_block(m[u], center))
}

/// Index consistency: after any sequence of placements, relocations and
/// removals on an empty index, a neighbour query lists a unit exactly when
/// its last update placed it on the grid inside the queried block; a unit
/// whose last update removed it is never listed.
pub proof fn lemma_index_consistency(grid: CellGrid, ops: Seq<IndexOp>, u: u64, center: Cell)
    ensures
        listed(apply_ops(grid, Map::empty(), ops), center).contains(u) <==> match last_op_of(ops, u) {
            Some(IndexOp::Place(_, p)) => match grid.spec_cell_of(p) {
                Some(c) => in_block(c, center),
                None => false,
            },
            _ => false,
        },
    decreases ops.len(),
{
    if ops.len() > 0 {
        lemma_index_consistency(grid, ops.drop_last(), u, center);
    }
}

} // verus!
