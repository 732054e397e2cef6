//! Nearest-target selection by a linear fold over candidates.

use crate::geom::minus;
use crate::geom::sq_len;
use crate::geom::Vec2;
use vstd::prelude::*;

verus! {

/// Squared distance between two points.
pub open spec fn dist_sq(a: Vec2, b: Vec2) -> int {
    sq_len(minus(b.pair(), a.pair()))
}

/// One step of the nearest-candidate fold: `target` replaces `acc` only when
/// strictly closer to `source`, so among equally near candidates the first
/// one seen stays.
pub open spec fn spec_nearest_entity(acc: Option<(u64, Vec2)>, source: Vec2, target: (u64, Vec2)) -> Option<
    (u64, Vec2),
> {
    match acc {
        Some(a) => if dist_sq(source, target.1) < dist_sq(source, a.1) {
            Some(target)
        } else {
            Some(a)
        },
        None => Some(target),
    }
}

/// The nearest of a list of candidates, folding from the front.
pub open spec fn nearest(source: Vec2, cands: Seq<(u64, Vec2)>) -> Option<(u64, Vec2)>
    decreases cands.len(),
{
    if cands.len() == 0 {
        None
    } else {
        spec_nearest_entity(nearest(source, cands.drop_last()), source, cands.last())
    }
}

fn distance_squared(a: Vec2, b: Vec2) -> (r: u64)
    requires
        a.bounded(),
        b.bounded(),
    ensures
        r == dist_sq(a, b),
{
    a.delta_to(&b).length_squared()
}

/// Keeps the nearer of the best candidate so far and `target`.
pub fn nearest_entity(acc: Option<(u64, Vec2)>, source: Vec2, target: (u64, Vec2)) -> (r: Option<
    (u64, Vec2),
>)
    requires
        source.bounded(),
        target.1.bounded(),
        acc matches Some(a) ==> a.1.bounded(),
    ensures
        r == spec_nearest_entity(acc, source, target),
{
    match acc {
        Some(a) => {
            if distance_squared(source, target.1) < distance_squared(source, a.1) {
                Some(target)
            } else {
                Some(a)
            }
        },
        None => Some(target),
    }
}

/// The candidate nearest to `pos`, the first of equally near ones, or
/// `None` when there is no candidate.
pub fn find_nearest(cands: &Vec<(u64, Vec2)>, pos: Vec2) -> (r: Option<(u64, Vec2)>)
    requires
        pos.bounded(),
        forall|i: int| 0 <= i < cands@.len() ==> (#[trigger] cands@[i]).1.bounded(),
    ensures
        r == nearest(pos, cands@),
{
    let mut acc: Option<(u64, Vec2)> = None;
    let mut i: usize = 0;
    while i < cands.len()
        invariant
            i <= cands@.len(),
            pos.bounded(),
            forall|i: int| 0 <= i < cands@.len() ==> (#[trigger] cands@[i]).1.bounded(),
            acc == nearest(pos, cands@.take(i as int)),
            acc matches Some(a) ==> a.1.bounded(),
        decreases cands@.len() - i,
    {
        proof {
            assert(cands@.take(i + 1).drop_last() =~= cands@.take(i as int));
        }
        acc = nearest_entity(acc, pos, cands[i]);
        i = i + 1;
    }
    proof {
        assert(cands@.take(cands@.len() as int) =~= cands@);
    }
    acc
}

/// The nearest-candidate fold picks a listed candidate that is at least as
/// near as every other and strictly nearer than every earlier one; it picks
/// nothing only from an empty list.
pub proof fn lemma_nearest_is_first_minimum(source: Vec2, cands: Seq<(u64, Vec2)>)
    ensures
        nearest(source, cands) is None <==> cands.len() == 0,
        cands.len() > 0 ==> exists|i: int|
            0 <= i < cands.len() && nearest(source, cands) == Some(cands[i]) && (forall|j: int|
                0 <= j < cands.len() ==> dist_sq(source, cands[i].1) <= dist_sq(source, #[trigger] cands[j].1))
                && (forall|j: int|
                0 <= j < i ==> dist_sq(source, cands[i].1) < dist_sq(source, #[trigger] cands[j].1)),
    decreases cands.len(),
{
    if cands.len() > 0 {
        let prev = cands.drop_last();
        let n = cands.len() - 1;
        lemma_nearest_is_first_minimum(source, prev);
        if prev.len() == 0 {
            assert(nearest(source, cands) == Some(cands[0]));
            assert(cands.len() == 1);
            assert(forall|j: int|
                0 <= j < cands.len() ==> dist_sq(source, cands[0].1) <= dist_sq(source, #[trigger] cands[j].1));
        } else {
            let i = choose|i: int|
                0 <= i < prev.len() && nearest(source, prev) == Some(prev[i]) && (forall|j: int|
                    0 <= j < prev.len() ==> dist_sq(source, prev[i].1) <= dist_sq(source, #[trigger] prev[j].1))
                    && (forall|j: int|
                    0 <= j < i ==> dist_sq(source, prev[i].1) < dist_sq(source, #[trigger] prev[j].1));
            assert(prev[i] == cands[i]);
            if dist_sq(source, cands[n].1) < dist_sq(source, cands[i].1) {
                assert forall|j: int| 0 <= j < cands.len() implies dist_sq(source, cands[n].1) <= dist_sq(
                    source,
                    #[trigger] cands[j].1,
                ) by {
                    if j < n {
                        assert(prev[j] == cands[j]);
                    }
                }
                assert forall|j: int| 0 <= j < n implies dist_sq(source, cands[n].1) < dist_sq(
                    source,
                    #[trigger] cands[j].1,
                ) by {
                    assert(prev[j] == cands[j]);
                }
            } else {
                assert forall|j: int| 0 <= j < cands.len() implies dist_sq(source, cands[i].1) <= dist_sq(
                    source,
                    #[trigger] cands[j].1,
                ) by {
                    if j < n {
                        assert(prev[j] == cands[j]);
                    }
                }
                assert forall|j: int| 0 <= j < i implies dist_sq(source, cands[i].1) < dist_sq(
                    source,
                    #[trigger] cands[j].1,
                ) by {
                    assert(prev[j] == cands[j]);
                }
            }
        }
    }
}

} // verus!
