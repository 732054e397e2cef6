//! The lumberjack role: a goal state machine that gathers wood from trees
//! and delivers it to drop-offs.

use crate::geom::minus;
use crate::geom::normalize;
use crate::geom::normalized;
use crate::geom::sq_len;
use crate::geom::Vec2;
use crate::geom::COORD_LIMIT;
use crate::steering::Unit;
use crate::steering::MAX_DT_MS;
use crate::targets::find_nearest;
use crate::targets::nearest;
use vstd::prelude::*;

verus! {

/// A tree as the lumberjacks see it: its id, position and remaining wood.
#[derive(Clone, Copy, Debug, PartialEq, Eq, Structural)]
pub struct Tree {
    pub id: u64,
    pub pos: Vec2,
    pub resource: i32,
}

/// A drop-off building.
#[derive(Clone, Copy, Debug, PartialEq, Eq, Structural)]
pub struct Barrack {
    pub id: u64,
    pub pos: Vec2,
}

/// One unit of wood was taken from the tree with this id.
#[derive(Clone, Copy, Debug, PartialEq, Eq, Structural)]
pub struct TreeChopEvent(pub u64);

/// Wood was delivered; the global wood count grows by this amount.
#[derive(Clone, Copy, Debug, PartialEq, Eq, Structural)]
pub struct DepositWoodEvent(pub u32);

/// What a lumberjack's tick reports to the host.
#[derive(Clone, Copy, Debug, PartialEq, Eq, Structural)]
pub enum LumberjackEvent {
    TreeChop(TreeChopEvent),
    DepositWood(DepositWoodEvent),
}

/// What a lumberjack is doing.
#[derive(Clone, Copy, Debug, PartialEq, Eq, Structural)]
pub enum Action {
    Idle,
    MoveToPosition(Vec2),
    CollectResource(u64),
    DepositResource(u64),
    /// Chopping `target`; done once `timeout` (milliseconds) is used up.
    Chop { timeout: i64, target: u64 },
}

#[derive(Clone, Copy, Debug, PartialEq, Eq, Structural)]
pub struct Lumberjack {
    pub action: Action,
    /// Wood carried.
    pub wood: u32,
    /// Milliseconds since the current animation began.
    pub animation_timer: u64,
}

/// The lumberjack role's tunable constants. Lengths in the host's length
/// unit, times in milliseconds.
#[derive(Clone, Copy, Debug, PartialEq, Eq, Structural)]
pub struct LumberjackConfig {
    /// Wood carried before heading for a drop-off.
    pub capacity: u32,
    /// Arrival radius of a move-to-position order.
    pub move_arrival: i64,
    /// Arrival radius at a tree.
    pub tree_arrival: i64,
    /// Arrival radius at a drop-off.
    pub dropoff_arrival: i64,
    /// Length of one chop.
    pub chop_duration: i64,
    /// A chop's timer runs `chop_rate_num / chop_rate_den` times as fast
    /// as the clock.
    pub chop_rate_num: i64,
    pub chop_rate_den: i64,
    /// Length of a whole direction, as in the steering model.
    pub unit: i64,
}

impl LumberjackConfig {
    pub open spec fn wf(self) -> bool {
        &&& 0 <= self.move_arrival <= COORD_LIMIT
        &&& 0 <= self.tree_arrival <= COORD_LIMIT
        &&& 0 <= self.dropoff_arrival <= COORD_LIMIT
        &&& 0 <= self.chop_duration <= COORD_LIMIT
        &&& 0 <= self.chop_rate_num <= 65536
        &&& 1 <= self.chop_rate_den <= 65536
        &&& 1 <= self.unit <= 65536
    }
}

impl Lumberjack {
    /// An idle lumberjack carrying nothing.
    pub fn new() -> (r: Lumberjack)
        ensures
            r.action == Action::Idle,
            r.wood == 0,
            r.animation_timer == 0,
    {
        Lumberjack { action: Action::Idle, wood: 0, animation_timer: 0 }
    }

    pub open spec fn wf(self) -> bool {
        self.action matches Action::MoveToPosition(t) ==> t.bounded()
    }
}

pub open spec fn tree_sites(trees: Seq<Tree>) -> Seq<(u64, Vec2)> {
    trees.map_values(|t: Tree| (t.id, t.pos))
}

pub open spec fn barrack_sites(barracks: Seq<Barrack>) -> Seq<(u64, Vec2)> {
    barracks.map_values(|b: Barrack| (b.id, b.pos))
}

/// The first tree with the given id.
pub open spec fn find_tree(trees: Seq<Tree>, id: u64) -> Option<Tree>
    decreases trees.len(),
{
    if trees.len() == 0 {
        None
    } else if trees[0].id == id {
        Some(trees[0])
    } else {
        find_tree(trees.drop_first(), id)
    }
}

/// The first drop-off with the given id.
pub open spec fn find_barrack(barracks: Seq<Barrack>, id: u64) -> Option<Barrack>
    decreases barracks.len(),
{
    if barracks.len() == 0 {
        None
    } else if barracks[0].id == id {
        Some(barracks[0])
    } else {
        find_barrack(barracks.drop_first(), id)
    }
}

/// A tree that still counts as a target.
pub open spec fn live_tree(trees: Seq<Tree>, id: u64) -> Option<Tree> {
    match find_tree(trees, id) {
        Some(t) => if t.resource >= 0 {
            Some(t)
        } else {
            None
        },
        None => None,
    }
}

/// How far a chop's timer runs down in a tick of `dt` milliseconds.
pub open spec fn chop_progress(cfg: LumberjackConfig, dt: int) -> int {
    (dt * cfg.chop_rate_num) / (cfg.chop_rate_den as int)
}

/// The result of one tick of a lumberjack.
pub struct LumberjackStep {
    pub lumberjack: Lumberjack,
    pub direction: (int, int),
    pub event: Option<LumberjackEvent>,
}

pub open spec fn idle_choice(
    lj: Lumberjack,
    pos: Vec2,
    trees: Seq<Tree>,
    barracks: Seq<Barrack>,
    cfg: LumberjackConfig,
) -> Action {
    if lj.wood >= cfg.capacity {
        match nearest(pos, barrack_sites(barracks)) {
            Some(b) => Action::DepositResource(b.0),
            None => Action::Idle,
        }
    } else {
        match nearest(pos, tree_sites(trees)) {
            Some(t) => Action::CollectResource(t.0),
            None => Action::Idle,
        }
    }
}

/// One tick of the lumberjack's goal state machine: the next state, the
/// desired direction (starting from `dir`) and the event it emits.
pub open spec fn lumberjack_step(
    lj: Lumberjack,
    dir: (int, int),
    pos: Vec2,
    trees: Seq<Tree>,
    barracks: Seq<Barrack>,
    dt: int,
    cfg: LumberjackConfig,
) -> LumberjackStep {
    let timer = if lj.animation_timer + dt > u64::MAX {
        u64::MAX
    } else {
        (lj.animation_timer + dt) as u64
    };
    let ticked = Lumberjack { animation_timer: timer, ..lj };
    let idle = Lumberjack { action: Action::Idle, animation_timer: 0, ..lj };
    match lj.action {
        Action::Idle => LumberjackStep {
            lumberjack: Lumberjack {
                action: idle_choice(lj, pos, trees, barracks, cfg),
                ..ticked
            },
            direction: (0, 0),
            event: None,
        },
        Action::MoveToPosition(t) => {
            let d = minus(t.pair(), pos.pair());
            LumberjackStep {
                lumberjack: if sq_len(d) < cfg.move_arrival * cfg.move_arrival {
                    idle
                } else {
                    ticked
                },
                direction: d,
                event: None,
            }
        },
        Action::CollectResource(target) => match live_tree(trees, target) {
            Some(t) => {
                let d = minus(t.pos.pair(), pos.pair());
                LumberjackStep {
                    lumberjack: if sq_len(d) < cfg.tree_arrival * cfg.tree_arrival {
                        Lumberjack {
                            action: Action::Chop { timeout: cfg.chop_duration, target: t.id },
                            ..ticked
                        }
                    } else {
                        ticked
                    },
                    direction: normalized(d, cfg.unit as int),
                    event: None,
                }
            },
            None => LumberjackStep {
                lumberjack: Lumberjack { action: Action::Idle, ..ticked },
                direction: dir,
                event: None,
            },
        },
        Action::DepositResource(target) => match find_barrack(barracks, target) {
            Some(b) => {
                let d = minus(b.pos.pair(), pos.pair());
                if sq_len(d) < cfg.dropoff_arrival * cfg.dropoff_arrival {
                    LumberjackStep {
                        lumberjack: Lumberjack { wood: 0, ..idle },
                        direction: normalized(d, cfg.unit as int),
                        event: Some(LumberjackEvent::DepositWood(DepositWoodEvent(1))),
                    }
                } else {
                    LumberjackStep {
                        lumberjack: ticked,
                        direction: normalized(d, cfg.unit as int),
                        event: None,
                    }
                }
            },
            None => LumberjackStep {
                lumberjack: Lumberjack { action: Action::Idle, ..ticked },
                direction: dir,
                event: None,
            },
        },
        Action::Chop { timeout, target } => if timeout > 0 {
            LumberjackStep {
                lumberjack: Lumberjack {
                    action: Action::Chop {
                        timeout: (timeout - chop_progress(cfg, dt)) as i64,
                        target,
                    },
                    ..ticked
                },
                direction: (0, 0),
                event: None,
            }
        } else {
            match live_tree(trees, target) {
                Some(t) => LumberjackStep {
                    lumberjack: Lumberjack {
                        wood: if lj.wood < u32::MAX {
                            (lj.wood + 1) as u32
                        } else {
                            lj.wood
                        },
                        ..idle
                    },
                    direction: (0, 0),
                    event: Some(LumberjackEvent::TreeChop(TreeChopEvent(t.id))),
                },
                None => LumberjackStep { lumberjack: idle, direction: (0, 0), event: None },
            }
        },
    }
}

fn lookup_tree(trees: &Vec<Tree>, id: u64) -> (r: Option<Tree>)
    ensures
        r == find_tree(trees@, id),
{
    let mut i: usize = 0;
    assert(trees@.subrange(0, trees@.len() as int) =~= trees@);
    while i < trees.len()
        invariant
            i <= trees@.len(),
            find_tree(trees@, id) == find_tree(trees@.subrange(i as int, trees@.len() as int), id),
        decreases trees@.len() - i,
    {
        let ghost rest = trees@.subrange(i as int, trees@.len() as int);
        proof {
            assert(rest[0] == trees@[i as int]);
        }
        if trees[i].id == id {
            return Some(trees[i]);
        }
        proof {
            assert(rest.drop_first() =~= trees@.subrange(i + 1, trees@.len() as int));
        }
        i = i + 1;
    }
    None
}

fn lookup_barrack(barracks: &Vec<Barrack>, id: u64) -> (r: Option<Barrack>)
    ensures
        r == find_barrack(barracks@, id),
{
    let mut i: usize = 0;
    assert(barracks@.subrange(0, barracks@.len() as int) =~= barracks@);
    while i < barracks.len()
        invariant
            i <= barracks@.len(),
            find_barrack(barracks@, id) == find_barrack(
                barracks@.subrange(i as int, barracks@.len() as int),
                id,
            ),
        decreases barracks@.len() - i,
    {
        let ghost rest = barracks@.subrange(i as int, barracks@.len() as int);
        proof {
            assert(rest[0] == barracks@[i as int]);
        }
        if barracks[i].id == id {
            return Some(barracks[i]);
        }
        proof {
            assert(rest.drop_first() =~= barracks@.subrange(i + 1, barracks@.len() as int));
        }
        i = i + 1;
    }
    None
}

fn tree_pairs(trees: &Vec<Tree>) -> (r: Vec<(u64, Vec2)>)
    ensures
        r@ == tree_sites(trees@),
{
    let mut r: Vec<(u64, Vec2)> = Vec::new();
    let mut i: usize = 0;
    while i < trees.len()
        invariant
            i <= trees@.len(),
            r@ == tree_sites(trees@.take(i as int)),
        decreases trees@.len() - i,
    {
        r.push((trees[i].id, trees[i].pos));
        i = i + 1;
        assert(r@ =~= tree_sites(trees@.take(i as int)));
    }
    assert(trees@.take(i as int) =~= trees@);
    r
}

fn barrack_pairs(barracks: &Vec<Barrack>) -> (r: Vec<(u64, Vec2)>)
    ensures
        r@ == barrack_sites(barracks@),
{
    let mut r: Vec<(u64, Vec2)> = Vec::new();
    let mut i: usize = 0;
    while i < barracks.len()
        invariant
            i <= barracks@.len(),
            r@ == barrack_sites(barracks@.take(i as int)),
        decreases barracks@.len() - i,
    {
        r.push((barracks[i].id, barracks[i].pos));
        i = i + 1;
        assert(r@ =~= barrack_sites(barracks@.take(i as int)));
    }
    assert(barracks@.take(i as int) =~= barracks@);
    r
}

fn check_live(t: Option<Tree>) -> (r: Option<Tree>)
    ensures
        r == match t {
            Some(t) => if t.resource >= 0 {
                Some(t)
            } else {
                None
            },
            None => None,
        },
{
    match t {
        Some(t) => if t.resource >= 0 {
            Some(t)
        } else {
            None
        },
        None => None,
    }
}

/// Whether `a` and `b` are closer than `radius`.
fn within_radius(a: Vec2, b: Vec2, radius: i64) -> (r: bool)
    requires
        a.bounded(),
        b.bounded(),
        0 <= radius <= COORD_LIMIT,
    ensures
        r == (sq_len(minus(b.pair(), a.pair())) < radius * radius),
{
    assert(0 <= radius * radius <= COORD_LIMIT * COORD_LIMIT) by (nonlinear_arith)
        requires
            0 <= radius <= COORD_LIMIT,
    ;
    a.delta_to(&b).length_squared() < (radius * radius) as u64
}

/// One tick of a lumberjack's goal state machine at position `pos`: picks
/// a target when idle, walks to it, chops and delivers, and falls back to
/// idle whenever its target is gone. Returns the event the tick emits.
pub fn lumberjack_next_action(
    lj: &mut Lumberjack,
    unit: &mut Unit,
    pos: Vec2,
    trees: &Vec<Tree>,
    barracks: &Vec<Barrack>,
    dt: u32,
    cfg: &LumberjackConfig,
) -> (r: Option<LumberjackEvent>)
    requires
        cfg.wf(),
        old(lj).wf(),
        old(unit).wf(),
        pos.bounded(),
        forall|i: int| 0 <= i < trees@.len() ==> (#[trigger] trees@[i]).pos.bounded(),
        forall|i: int| 0 <= i < barracks@.len() ==> (#[trigger] barracks@[i]).pos.bounded(),
        dt <= MAX_DT_MS,
    ensures
        ({
            let s = lumberjack_step(
                *old(lj),
                old(unit).target_direction.pair(),
                pos,
                trees@,
                barracks@,
                dt as int,
                *cfg,
            );
            &&& *final(lj) == s.lumberjack
            &&& final(unit).target_direction.pair() == s.direction
            &&& r == s.event
        }),
        final(unit).vel == old(unit).vel,
        final(unit).last_direction == old(unit).last_direction,
        final(lj).wf(),
        final(unit).wf(),
{
    let timer: u64 = if lj.animation_timer > u64::MAX - dt as u64 {
        u64::MAX
    } else {
        lj.animation_timer + dt as u64
    };
    match lj.action {
        Action::Idle => {
            unit.target_direction = Vec2::zero();
            let action = if lj.wood >= cfg.capacity {
                let sites = barrack_pairs(barracks);
                proof {
                    assert forall|i: int| 0 <= i < sites@.len() implies (#[trigger] sites@[i]).1.bounded() by {
                        assert(sites@[i].1 == barracks@[i].pos);
                    }
                }
                match find_nearest(&sites, pos) {
                    Some(b) => Action::DepositResource(b.0),
                    None => Action::Idle,
                }
            } else {
                let sites = tree_pairs(trees);
                proof {
                    assert forall|i: int| 0 <= i < sites@.len() implies (#[trigger] sites@[i]).1.bounded() by {
                        assert(sites@[i].1 == trees@[i].pos);
                    }
                }
                match find_nearest(&sites, pos) {
                    Some(t) => Action::CollectResource(t.0),
                    None => Action::Idle,
                }
            };
            lj.action = action;
            lj.animation_timer = timer;
            None
        },
        Action::MoveToPosition(t) => {
            unit.target_direction = pos.delta_to(&t);
            if within_radius(pos, t, cfg.move_arrival) {
                lj.action = Action::Idle;
                lj.animation_timer = 0;
            } else {
                lj.animation_timer = timer;
            }
            None
        },
        Action::CollectResource(target) => {
            match check_live(lookup_tree(trees, target)) {
                Some(t) => {
                    proof {
                        lemma_found_tree_listed(trees@, target);
                    }
                    unit.target_direction = normalize(pos.delta_to(&t.pos), cfg.unit);
                    if within_radius(pos, t.pos, cfg.tree_arrival) {
                        lj.action = Action::Chop { timeout: cfg.chop_duration, target: t.id };
                    }
                },
                None => {
                    lj.action = Action::Idle;
                },
            }
            lj.animation_timer = timer;
            None
        },
        Action::DepositResource(target) => {
            match lookup_barrack(barracks, target) {
                Some(b) => {
                    proof {
                        lemma_found_barrack_listed(barracks@, target);
                    }
                    unit.target_direction = normalize(pos.delta_to(&b.pos), cfg.unit);
                    if within_radius(pos, b.pos, cfg.dropoff_arrival) {
                        lj.wood = 0;
                        lj.action = Action::Idle;
                        lj.animation_timer = 0;
                        return Some(LumberjackEvent::DepositWood(DepositWoodEvent(1)));
                    }
                    lj.animation_timer = timer;
                    None
                },
                None => {
                    lj.action = Action::Idle;
                    lj.animation_timer = timer;
                    None
                },
            }
        },
        Action::Chop { timeout, target } => {
            unit.target_direction = Vec2::zero();
            if timeout > 0 {
                assert(0 <= dt * cfg.chop_rate_num <= 65536 * 65536) by (nonlinear_arith)
                    requires
                        0 <= dt <= 65536,
                        0 <= cfg.chop_rate_num <= 65536,
                ;
                let progress: i64 = (dt as i64) * cfg.chop_rate_num / cfg.chop_rate_den;
                proof {
                    vstd::arithmetic::div_mod::lemma_div_is_ordered(
                        dt * cfg.chop_rate_num,
                        65536int * 65536,
                        cfg.chop_rate_den as int,
                    );
                    vstd::arithmetic::div_mod::lemma_div_is_ordered_by_denominator(
                        65536int * 65536,
                        1,
                        cfg.chop_rate_den as int,
                    );
                    vstd::arithmetic::div_mod::lemma_div_pos_is_pos(dt * cfg.chop_rate_num, cfg.chop_rate_den as int);
                }
                lj.action = Action::Chop { timeout: timeout - progress, target };
                lj.animation_timer = timer;
                None
            } else {
                let ev = match check_live(lookup_tree(trees, target)) {
                    Some(t) => {
                        if lj.wood < u32::MAX {
                            lj.wood = lj.wood + 1;
                        }
                        Some(LumberjackEvent::TreeChop(TreeChopEvent(t.id)))
                    },
                    None => None,
                };
                lj.action = Action::Idle;
                lj.animation_timer = 0;
                ev
            }
        },
    }
}

/// A tree found by id is one of the listed trees.
proof fn lemma_found_tree_listed(trees: Seq<Tree>, id: u64)
    requires
        find_tree(trees, id) is Some,
    ensures
        exists|i: int| 0 <= i < trees.len() && trees[i] == find_tree(trees, id)->0,
    decreases trees.len(),
{
    if trees[0].id != id {
        lemma_found_tree_listed(trees.drop_first(), id);
        let i = choose|i: int|
            0 <= i < trees.drop_first().len() && trees.drop_first()[i] == find_tree(
                trees.drop_first(),
                id,
            )->0;
        assert(trees[i + 1] == trees.drop_first()[i]);
    } else {
        assert(trees[0] == find_tree(trees, id)->0);
    }
}

/// A drop-off found by id is one of the listed drop-offs.
proof fn lemma_found_barrack_listed(barracks: Seq<Barrack>, id: u64)
    requires
        find_barrack(barracks, id) is Some,
    ensures
        exists|i: int| 0 <= i < barracks.len() && barracks[i] == find_barrack(barracks, id)->0,
    decreases barracks.len(),
{
    if barracks[0].id != id {
        lemma_found_barrack_listed(barracks.drop_first(), id);
        let i = choose|i: int|
            0 <= i < barracks.drop_first().len() && barracks.drop_first()[i] == find_barrack(
                barracks.drop_first(),
                id,
            )->0;
        assert(barracks[i + 1] == barracks.drop_first()[i]);
    } else {
        assert(barracks[0] == find_barrack(barracks, id)->0);
    }
}

/// A lumberjack whose target no longer resolves (a tree gone or spent, a
/// drop-off gone) falls back to idle on its next tick, emits nothing and
/// keeps its wood.
pub proof fn lemma_lost_target_goes_idle(
    lj: Lumberjack,
    dir: (int, int),
    pos: Vec2,
    trees: Seq<Tree>,
    barracks: Seq<Barrack>,
    dt: int,
    cfg: LumberjackConfig,
)
    requires
        match lj.action {
            Action::CollectResource(t) => live_tree(trees, t) is None,
            Action::DepositResource(b) => find_barrack(barracks, b) is None,
            Action::Chop { timeout, target } => timeout <= 0 && live_tree(trees, target) is None,
            _ => false,
        },
    ensures
        lumberjack_step(lj, dir, pos, trees, barracks, dt, cfg).lumberjack.action == Action::Idle,
        lumberjack_step(lj, dir, pos, trees, barracks, dt, cfg).lumberjack.wood == lj.wood,
        lumberjack_step(lj, dir, pos, trees, barracks, dt, cfg).event is None,
{
}

/// The manual move order: every selected lumberjack drops what it is doing
/// and heads for `cursor`; the others keep their action.
pub fn lumberjack_move_to_position_action(
    lumberjacks: &mut Vec<Lumberjack>,
    selected: &Vec<bool>,
    cursor: Vec2,
)
    requires
        old(lumberjacks)@.len() == selected@.len(),
    ensures
        final(lumberjacks)@.len() == old(lumberjacks)@.len(),
        forall|i: int|
            0 <= i < selected@.len() ==> #[trigger] final(lumberjacks)@[i] == if selected@[i] {
                Lumberjack { action: Action::MoveToPosition(cursor), ..old(lumberjacks)@[i] }
            } else {
                old(lumberjacks)@[i]
            },
{
    let mut i: usize = 0;
    while i < selected.len()
        invariant
            i <= selected@.len(),
            lumberjacks@.len() == selected@.len(),
            forall|k: int|
                0 <= k < i ==> #[trigger] lumberjacks@[k] == if selected@[k] {
                    Lumberjack { action: Action::MoveToPosition(cursor), ..old(lumberjacks)@[k] }
                } else {
                    old(lumberjacks)@[k]
                },
            forall|k: int| i <= k < selected@.len() ==> #[trigger] lumberjacks@[k] == old(lumberjacks)@[k],
        decreases selected@.len() - i,
    {
        if selected[i] {
            let mut lj = lumberjacks[i];
            lj.action = Action::MoveToPosition(cursor);
            lumberjacks.set(i, lj);
        }
        i = i + 1;
    }
}

/// The host's side of a chop: one unit of wood leaves the tree, and a tree
/// with none left is to be removed (returns `true`).
pub fn tree_death(tree: &mut Tree) -> (despawn: bool)
    ensures
        final(tree).id == old(tree).id,
        final(tree).pos == old(tree).pos,
        final(tree).resource == if old(tree).resource > 0 {
            old(tree).resource - 1
        } else {
            old(tree).resource as int
        },
        despawn == (final(tree).resource <= 0),
{
    if tree.resource > 0 {
        tree.resource = tree.resource - 1;
    }
    tree.resource <= 0
}

/// Running wood total of the economy.
#[derive(Clone, Copy, Debug, PartialEq, Eq, Structural)]
pub struct Stats {
    pub wood: u32,
}

/// Adds a delivery to the total, stopping at the largest count.
pub fn deposit_wood_stat(stats: &mut Stats, event: DepositWoodEvent)
    ensures
        final(stats).wood == if old(stats).wood + event.0 > u32::MAX {
            u32::MAX as int
        } else {
            old(stats).wood + event.0
        },
{
    if stats.wood > u32::MAX - event.0 {
        stats.wood = u32::MAX;
    } else {
        stats.wood = stats.wood + event.0;
    }
}

} // verus!
