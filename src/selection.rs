//! Drag-rectangle selection of units.

use crate::geom::Vec2;
use vstd::prelude::*;

verus! {

/// A finished drag: select the units inside the rectangle with these two
/// corners, given in either order.
#[derive(Clone, Copy, Debug, PartialEq, Eq, Structural)]
pub struct ApplySelectionEvent {
    pub start: Vec2,
    pub end: Vec2,
}

/// The drag rectangle's lifecycle.
#[derive(Clone, Copy, Debug, PartialEq, Eq, Structural)]
pub enum Selection {
    Released,
    Dragging(Vec2, Vec2),
}

pub open spec fn min(a: i64, b: i64) -> i64 {
    if a <= b {
        a
    } else {
        b
    }
}

pub open spec fn max(a: i64, b: i64) -> i64 {
    if a <= b {
        b
    } else {
        a
    }
}

/// `p` lies strictly inside the rectangle with corners `a` and `b`.
pub open spec fn strictly_inside(a: Vec2, b: Vec2, p: Vec2) -> bool {
    &&& min(a.x, b.x) < p.x < max(a.x, b.x)
    &&& min(a.y, b.y) < p.y < max(a.y, b.y)
}

pub fn rect_contains(a: Vec2, b: Vec2, p: Vec2) -> (r: bool)
    ensures
        r == strictly_inside(a, b, p),
{
    let (lx, hx) = if a.x <= b.x {
        (a.x, b.x)
    } else {
        (b.x, a.x)
    };
    let (ly, hy) = if a.y <= b.y {
        (a.y, b.y)
    } else {
        (b.y, a.y)
    };
    lx < p.x && p.x < hx && ly < p.y && p.y < hy
}

/// Applies a selection: afterwards exactly the units strictly inside the
/// rectangle are selected, whatever was selected before.
pub fn unit_select(event: &ApplySelectionEvent, positions: &Vec<Vec2>, selected: &mut Vec<bool>)
    requires
        old(selected)@.len() == positions@.len(),
    ensures
        final(selected)@.len() == positions@.len(),
        forall|i: int|
            0 <= i < positions@.len() ==> #[trigger] final(selected)@[i] == strictly_inside(
                event.start,
                event.end,
                positions@[i],
            ),
{
    let mut i: usize = 0;
    while i < positions.len()
        invariant
            i <= positions@.len(),
            selected@.len() == positions@.len(),
            forall|k: int|
                0 <= k < i ==> #[trigger] selected@[k] == strictly_inside(
                    event.start,
                    event.end,
                    positions@[k],
                ),
        decreases positions@.len() - i,
    {
        let inside = rect_contains(event.start, event.end, positions[i]);
        selected.set(i, inside);
        i = i + 1;
    }
}

/// One frame of the drag rectangle: a press starts a drag at the cursor,
/// holding the button moves its far corner, and releasing it ends the drag
/// and emits the rectangle as it stood.
pub fn selection_change(selection: &mut Selection, pressed: bool, cursor: Vec2) -> (r: Option<
    ApplySelectionEvent,
>)
    ensures
        match *old(selection) {
            Selection::Released => r is None && *final(selection) == if pressed {
                Selection::Dragging(cursor, cursor)
            } else {
                Selection::Released
            },
            Selection::Dragging(start, end) => if pressed {
                r is None && *final(selection) == Selection::Dragging(start, cursor)
            } else {
                r == Some(ApplySelectionEvent { start, end }) && *final(selection)
                    == Selection::Released
            },
        },
{
    match *selection {
        Selection::Released => {
            if pressed {
                *selection = Selection::Dragging(cursor, cursor);
            }
            None
        },
        Selection::Dragging(start, end) => {
            if pressed {
                *selection = Selection::Dragging(start, cursor);
                None
            } else {
                *selection = Selection::Released;
                Some(ApplySelectionEvent { start, end })
            }
        },
    }
}

} // verus!
