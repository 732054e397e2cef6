//! The soldier role: the reduced goal state machine, and weapon tables.

use crate::geom::minus;
use crate::geom::sq_len;
use crate::geom::Vec2;
use crate::geom::COORD_LIMIT;
use crate::steering::Unit;
use vstd::prelude::*;

verus! {

#[derive(Clone, Copy, Debug, PartialEq, Eq, Structural)]
pub enum SoldierAction {
    Idle,
    MoveToPosition { target: Vec2, attack_move: bool },
    Attack(u64),
}

#[derive(Clone, Copy, Debug, PartialEq, Eq, Structural)]
pub enum Weapon {
    Sword,
    Axe,
    Spear,
    Bow,
    Sling,
    Crossbow,
}

#[derive(Clone, Copy, Debug, PartialEq, Eq, Structural)]
pub enum Armor {
    Leather,
    Chain,
    Plate,
}

#[derive(Clone, Copy, Debug, PartialEq, Eq, Structural)]
pub struct Soldier {
    pub action: SoldierAction,
    /// Milliseconds until the weapon can strike again.
    pub weapon_timeout: i64,
    pub weapon: Option<Weapon>,
    pub armor: Option<Armor>,
}

impl Soldier {
    /// An idle, unarmed soldier.
    pub fn new() -> (r: Soldier)
        ensures
            r.action == SoldierAction::Idle,
            r.weapon_timeout == 0,
            r.weapon is None,
            r.armor is None,
    {
        Soldier { action: SoldierAction::Idle, weapon_timeout: 0, weapon: None, armor: None }
    }

    pub open spec fn wf(self) -> bool {
        self.action matches SoldierAction::MoveToPosition { target, .. } ==> target.bounded()
    }
}

/// One tick of a soldier: the soldier variant of the goal state machine.
/// It walks toward a move order's point until within `move_arrival`; an
/// attack target never resolves for it, so it goes idle.
pub open spec fn soldier_step(s: Soldier, dir: (int, int), pos: Vec2, move_arrival: int) -> (
    Soldier,
    (int, int),
) {
    match s.action {
        SoldierAction::Idle => (s, (0, 0)),
        SoldierAction::MoveToPosition { target, .. } => {
            let d = minus(target.pair(), pos.pair());
            if sq_len(d) < move_arrival * move_arrival {
                (Soldier { action: SoldierAction::Idle, ..s }, d)
            } else {
                (s, d)
            }
        },
        SoldierAction::Attack(_) => (Soldier { action: SoldierAction::Idle, ..s }, dir),
    }
}

pub fn next_action(soldier: &mut Soldier, unit: &mut Unit, pos: Vec2, move_arrival: i64)
    requires
        old(soldier).wf(),
        old(unit).wf(),
        pos.bounded(),
        0 <= move_arrival <= COORD_LIMIT,
    ensures
        (*final(soldier), final(unit).target_direction.pair()) == soldier_step(
            *old(soldier),
            old(unit).target_direction.pair(),
            pos,
            move_arrival as int,
        ),
        final(unit).vel == old(unit).vel,
        final(unit).last_direction == old(unit).last_direction,
        final(soldier).wf(),
        final(unit).wf(),
{
    match soldier.action {
        SoldierAction::Idle => {
            unit.target_direction = Vec2::zero();
        },
        SoldierAction::MoveToPosition { target, .. } => {
            let d = pos.delta_to(&target);
            unit.target_direction = d;
            assert(0 <= move_arrival * move_arrival <= COORD_LIMIT * COORD_LIMIT) by (nonlinear_arith)
                requires
                    0 <= move_arrival <= COORD_LIMIT,
            ;
            if d.length_squared() < (move_arrival * move_arrival) as u64 {
                soldier.action = SoldierAction::Idle;
            }
        },
        SoldierAction::Attack(_) => {
            soldier.action = SoldierAction::Idle;
        },
    }
}

/// A soldier whose attack target does not resolve goes idle on its next
/// tick.
pub proof fn lemma_lost_target_goes_idle(s: Soldier, dir: (int, int), pos: Vec2, move_arrival: int)
    requires
        s.action matches SoldierAction::Attack(_),
    ensures
        soldier_step(s, dir, pos, move_arrival).0.action == SoldierAction::Idle,
{
}

/// The manual move order for soldiers: selected ones head for `cursor`
/// (not as an attack move); the others keep their action.
pub fn move_to_position_action(soldiers: &mut Vec<Soldier>, selected: &Vec<bool>, cursor: Vec2)
    requires
        old(soldiers)@.len() == selected@.len(),
    ensures
        final(soldiers)@.len() == old(soldiers)@.len(),
        forall|i: int|
            0 <= i < selected@.len() ==> #[trigger] final(soldiers)@[i] == if selected@[i] {
                Soldier {
                    action: SoldierAction::MoveToPosition { target: cursor, attack_move: false },
                    ..old(soldiers)@[i]
                }
            } else {
                old(soldiers)@[i]
            },
{
    let mut i: usize = 0;
    while i < selected.len()
        invariant
            i <= selected@.len(),
            soldiers@.len() == selected@.len(),
            forall|k: int|
                0 <= k < i ==> #[trigger] soldiers@[k] == if selected@[k] {
                    Soldier {
                        action: SoldierAction::MoveToPosition { target: cursor, attack_move: false },
                        ..old(soldiers)@[k]
                    }
                } else {
                    old(soldiers)@[k]
                },
            forall|k: int| i <= k < selected@.len() ==> #[trigger] soldiers@[k] == old(soldiers)@[k],
        decreases selected@.len() - i,
    {
        if selected[i] {
            let mut s = soldiers[i];
            s.action = SoldierAction::MoveToPosition { target: cursor, attack_move: false };
            soldiers.set(i, s);
        }
        i = i + 1;
    }
}

/// Damage of one strike.
pub fn calculate_damage(weapon: Weapon) -> (r: u32)
    ensures
        r == match weapon {
            Weapon::Sword => 3u32,
            Weapon::Axe => 4,
            Weapon::Spear => 2,
            Weapon::Bow => 2,
            Weapon::Sling => 1,
            Weapon::Crossbow => 3,
        },
{
    match weapon {
        Weapon::Sword => 3,
        Weapon::Axe => 4,
        Weapon::Spear => 2,
        Weapon::Bow => 2,
        Weapon::Sling => 1,
        Weapon::Crossbow => 3,
    }
}

/// Reach of a weapon, in world units.
pub fn calculate_range(weapon: Weapon) -> (r: u32)
    ensures
        r == match weapon {
            Weapon::Sword => 15u32,
            Weapon::Axe => 15,
            Weapon::Spear => 50,
            Weapon::Bow => 1000,
            Weapon::Sling => 500,
            Weapon::Crossbow => 1500,
        },
{
    match weapon {
        Weapon::Sword => 15,
        Weapon::Axe => 15,
        Weapon::Spear => 50,
        Weapon::Bow => 1000,
        Weapon::Sling => 500,
        Weapon::Crossbow => 1500,
    }
}

} // verus!
