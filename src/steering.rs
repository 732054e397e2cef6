//! Local avoidance and steering: repulsion between close units, goal-seeking
//! acceleration toward a desired direction, and the Euler position step.

use crate::geom::ceil_root;
use crate::geom::ceil_sqrt;
use crate::geom::clamp_length;
use crate::geom::clamped;
use crate::geom::lemma_coords_within;
use crate::geom::lemma_scaled_length;
use crate::geom::lemma_square_le;
use crate::geom::lemma_triangle;
use crate::geom::lemma_clamped_within;
use crate::geom::lemma_within_mono;
use crate::geom::scale_coord;
use crate::geom::minus;
use crate::geom::normalize;
use crate::geom::normalized;
use crate::geom::plus;
use crate::geom::scaled;
use crate::geom::sq_len;
use crate::geom::tdiv;
use crate::geom::within;
use crate::geom::Vec2;
use crate::geom::COORD_LIMIT;
use vstd::prelude::*;

verus! {

/// Longest tick, in milliseconds, that the integrators accept.
pub const MAX_DT_MS: u32 = 65536;

/// Tunable constants of the steering model. Lengths are in the host's
/// fixed-point length unit, times in milliseconds, rates per second.
#[derive(Clone, Copy, Debug, PartialEq, Eq, Structural)]
pub struct SteeringConfig {
    /// Top speed reached when following a full-length desired direction.
    pub max_speed: i64,
    /// Largest change of speed per second while goal seeking.
    pub acceleration: i64,
    /// Speed at or below which the facing direction is left as it was.
    pub dead_zone: i64,
    /// Interaction radius: units farther apart than this do not repel.
    pub radius: i64,
    /// Strength of repulsion, per second.
    pub push_force: i64,
    /// Length that stands for one whole direction (a unit vector).
    pub unit: i64,
    /// Neighbours this close or closer count as being on the same spot and
    /// do not repel, so no direction is taken of a near-zero vector.
    pub min_distance: i64,
}

impl SteeringConfig {
    pub open spec fn wf(self) -> bool {
        &&& 0 <= self.max_speed <= COORD_LIMIT
        &&& 0 <= self.acceleration <= 4194304
        &&& 0 <= self.dead_zone <= COORD_LIMIT
        &&& 1 <= self.radius <= 1048576
        &&& 0 <= self.push_force <= 1048576
        &&& 1 <= self.unit <= 65536
        &&& 0 <= self.min_distance <= self.radius
    }
}

/// The repulsion that `other` exerts on unit `id` at `pos`: along the
/// direction from `pos` to the other, of length `unit * (1 - (d / R)^2)`,
/// and zero for the unit itself, for neighbours at or beyond the radius and
/// for neighbours within the minimum distance.
pub open spec fn push_from(cfg: SteeringConfig, id: u64, pos: Vec2, other: (u64, Vec2)) -> (int, int) {
    let d = minus(other.1.pair(), pos.pair());
    let l2 = sq_len(d);
    let r2 = cfg.radius * cfg.radius;
    if other.0 == id || l2 >= r2 || l2 <= cfg.min_distance * cfg.min_distance {
        (0, 0)
    } else {
        scaled(d, cfg.unit * (r2 - l2), ceil_root(l2) * r2)
    }
}

/// Sum of the repulsions of a list of neighbours.
pub open spec fn repulsion_sum(cfg: SteeringConfig, id: u64, pos: Vec2, ns: Seq<(u64, Vec2)>) -> (
    int,
    int,
)
    decreases ns.len(),
{
    if ns.len() == 0 {
        (0, 0)
    } else {
        plus(repulsion_sum(cfg, id, pos, ns.drop_last()), push_from(cfg, id, pos, ns.last()))
    }
}

/// `a / b` rounded toward zero, on wide integers.
fn wide_tdiv(a: i128, b: i128) -> (r: i128)
    requires
        b > 0,
        -0x1000_0000_0000_0000_0000_0000_0000 <= a <= 0x1000_0000_0000_0000_0000_0000_0000,
    ensures
        r == tdiv(a as int, b as int),
        -0x1000_0000_0000_0000_0000_0000_0000 <= r <= 0x1000_0000_0000_0000_0000_0000_0000,
{
    if a >= 0 {
        proof {
            vstd::arithmetic::div_mod::lemma_div_is_ordered_by_denominator(a as int, 1, b as int);
        }
        a / b
    } else {
        proof {
            vstd::arithmetic::div_mod::lemma_div_is_ordered_by_denominator(-a as int, 1, b as int);
        }
        -((-a) / b)
    }
}

proof fn lemma_tdiv_within(a: int, b: int, m: int)
    requires
        b > 0,
        m >= 0,
        -(m * b) <= a <= m * b,
    ensures
        -m <= tdiv(a, b) <= m,
{
    let c = if a >= 0 {
        a
    } else {
        -a
    };
    vstd::arithmetic::div_mod::lemma_fundamental_div_mod(c, b);
    let q = c / b;
    assert(0 <= q <= m) by (nonlinear_arith)
        requires
            c == b * q + c % b,
            0 <= c % b < b,
            0 <= c <= m * b,
            b > 0,
    ;
}

/// The repulsion that one neighbour exerts.
fn push_one(id: u64, pos: Vec2, other: (u64, Vec2), cfg: &SteeringConfig) -> (r: Vec2)
    requires
        cfg.wf(),
        pos.bounded(),
        other.1.bounded(),
    ensures
        r.pair() == push_from(*cfg, id, pos, other),
        -cfg.unit <= r.x <= cfg.unit,
        -cfg.unit <= r.y <= cfg.unit,
{
    let d = pos.delta_to(&other.1);
    let l2 = d.length_squared();
    assert(1 <= cfg.radius * cfg.radius <= 1048576 * 1048576) by (nonlinear_arith)
        requires
            1 <= cfg.radius <= 1048576,
    ;
    let r2: i64 = cfg.radius * cfg.radius;
    if other.0 == id || l2 as i64 >= r2 {
        return Vec2 { x: 0, y: 0 };
    }
    assert(0 <= cfg.min_distance * cfg.min_distance <= r2) by (nonlinear_arith)
        requires
            0 <= cfg.min_distance <= cfg.radius,
            r2 == cfg.radius * cfg.radius,
    ;
    if l2 as i64 <= cfg.min_distance * cfg.min_distance {
        return Vec2 { x: 0, y: 0 };
    }
    let l = ceil_sqrt(l2);
    let ghost (dx, dy, li, ri) = (d.x as int, d.y as int, l as int, cfg.radius as int);
    proof {
        assert(dx * dx <= l2 && dy * dy <= l2) by (nonlinear_arith)
            requires
                l2 == dx * dx + dy * dy,
        ;
        lemma_square_le(dx, li);
        lemma_square_le(dy, li);
        if li > ri {
            assert((li - 1) * (li - 1) >= ri * ri) by (nonlinear_arith)
                requires
                    li - 1 >= ri >= 1,
            ;
        }
        assert(li > 0) by (nonlinear_arith)
            requires
                l2 <= li * li,
                l2 > cfg.min_distance * cfg.min_distance,
                cfg.min_distance * cfg.min_distance >= 0,
                li >= 0,
        ;
    }
    let ghost m = cfg.unit as int;
    proof {
        assert(0 <= m * (r2 - l2) <= 65536 * (1048576 * 1048576)) by (nonlinear_arith)
            requires
                1 <= m <= 65536,
                0 <= l2 < r2 <= 1048576 * 1048576,
        ;
        assert(0 < li * r2 <= 1048576 * (1048576 * 1048576)) by (nonlinear_arith)
            requires
                1 <= li <= ri,
                r2 == ri * ri,
                1 <= ri <= 1048576,
        ;
    }
    let num: i128 = (cfg.unit as i128) * ((r2 - l2 as i64) as i128);
    let den: i128 = (l as i128) * (r2 as i128);
    proof {
        assert(0 <= num <= m * r2) by (nonlinear_arith)
            requires
                num == m * (r2 - l2),
                0 <= l2 < r2,
                m >= 1,
        ;
        assert(m * r2 <= 0x1_0000_0000_0000_0000) by (nonlinear_arith)
            requires
                1 <= m <= 65536,
                0 <= r2 <= 1048576 * 1048576,
                r2 == ri * ri,
                1 <= ri <= 1048576,
        ;
        assert(0 < den <= 1048576 * (1048576 * 1048576)) by (nonlinear_arith)
            requires
                den == li * r2,
                1 <= li <= ri,
                r2 == ri * ri,
                1 <= ri <= 1048576,
        ;
        assert(-(m * den) <= dx * num <= m * den) by (nonlinear_arith)
            requires
                -li <= dx <= li,
                0 <= num <= m * r2,
                den == li * r2,
                m >= 1,
        ;
        assert(-(m * den) <= dy * num <= m * den) by (nonlinear_arith)
            requires
                -li <= dy <= li,
                0 <= num <= m * r2,
                den == li * r2,
                m >= 1,
        ;
        assert(-0x1000_0000_0000_0000_0000_0000_0000 <= dx * num <= 0x1000_0000_0000_0000_0000_0000_0000)
            by (nonlinear_arith)
            requires
                -li <= dx <= li,
                1 <= li <= 1048576,
                0 <= num <= 0x1_0000_0000_0000_0000,
        ;
        assert(-0x1000_0000_0000_0000_0000_0000_0000 <= dy * num <= 0x1000_0000_0000_0000_0000_0000_0000)
            by (nonlinear_arith)
            requires
                -li <= dy <= li,
                1 <= li <= 1048576,
                0 <= num <= 0x1_0000_0000_0000_0000,
        ;
    }
    let x = wide_tdiv((d.x as i128) * num, den);
    let y = wide_tdiv((d.y as i128) * num, den);
    proof {
        lemma_tdiv_within(dx * num, den as int, m);
        lemma_tdiv_within(dy * num, den as int, m);
    }
    Vec2 { x: x as i64, y: y as i64 }
}

/// Sum of the repulsions that the listed neighbours exert on unit `id` at
/// `pos`. Entries of the unit itself contribute nothing.
pub fn compute_repulsion(id: u64, pos: Vec2, neighbors: &Vec<(u64, Vec2)>, cfg: &SteeringConfig) -> (r:
    Vec2)
    requires
        cfg.wf(),
        pos.bounded(),
        forall|i: int| 0 <= i < neighbors@.len() ==> (#[trigger] neighbors@[i]).1.bounded(),
        neighbors@.len() * cfg.unit <= COORD_LIMIT,
    ensures
        r.pair() == repulsion_sum(*cfg, id, pos, neighbors@),
        r.bounded(),
{
    let mut acc = Vec2 { x: 0, y: 0 };
    let mut i: usize = 0;
    while i < neighbors.len()
        invariant
            cfg.wf(),
            pos.bounded(),
            i <= neighbors@.len(),
            forall|i: int| 0 <= i < neighbors@.len() ==> (#[trigger] neighbors@[i]).1.bounded(),
            neighbors@.len() * cfg.unit <= COORD_LIMIT,
            acc.pair() == repulsion_sum(*cfg, id, pos, neighbors@.take(i as int)),
            -(i * cfg.unit) <= acc.x <= i * cfg.unit,
            -(i * cfg.unit) <= acc.y <= i * cfg.unit,
        decreases neighbors@.len() - i,
    {
        let c = push_one(id, pos, neighbors[i], cfg);
        let ghost k = i as int * cfg.unit as int;
        proof {
            assert(neighbors@.take(i + 1).drop_last() =~= neighbors@.take(i as int));
            assert((i + 1) * cfg.unit <= neighbors@.len() * cfg.unit) by (nonlinear_arith)
                requires
                    i + 1 <= neighbors@.len(),
                    cfg.unit >= 1,
            ;
            assert((i + 1) * cfg.unit == k + cfg.unit) by (nonlinear_arith)
                requires
                    k == i * cfg.unit,
            ;
            assert(-k - cfg.unit <= acc.x + c.x <= k + cfg.unit);
            assert(-k - cfg.unit <= acc.y + c.y <= k + cfg.unit);
        }
        acc = Vec2 { x: acc.x + c.x, y: acc.y + c.y };
        i = i + 1;
    }
    proof {
        assert(neighbors@.take(neighbors@.len() as int) =~= neighbors@);
        assert(i * cfg.unit <= COORD_LIMIT);
    }
    acc
}

/// Listing the unit itself among its neighbours, anywhere in the list,
/// leaves its repulsion unchanged: a unit never repels itself.
pub proof fn lemma_no_self_repulsion(
    cfg: SteeringConfig,
    id: u64,
    pos: Vec2,
    ns: Seq<(u64, Vec2)>,
    i: int,
    q: Vec2,
)
    requires
        0 <= i <= ns.len(),
    ensures
        repulsion_sum(cfg, id, pos, ns.insert(i, (id, q))) == repulsion_sum(cfg, id, pos, ns),
    decreases ns.len(),
{
    let ins = ns.insert(i, (id, q));
    if i == ns.len() {
        assert(ins.drop_last() =~= ns);
    } else {
        assert(ins.drop_last() =~= ns.drop_last().insert(i, (id, q)));
        assert(ins.last() == ns.last());
        lemma_no_self_repulsion(cfg, id, pos, ns.drop_last(), i, q);
    }
}

/// Change of speed allowed in a tick of `dt` milliseconds.
pub open spec fn accel_step(cfg: SteeringConfig, dt: int) -> int {
    cfg.acceleration * dt / 1000
}

/// The velocity a desired direction asks for: the direction clamped to one
/// whole unit, times the top speed.
pub open spec fn target_velocity(cfg: SteeringConfig, desired: (int, int)) -> (int, int) {
    scaled(clamped(desired, cfg.unit as int), cfg.max_speed as int, cfg.unit as int)
}

/// Goal seeking: the velocity moves toward the target velocity by at most
/// one acceleration step.
pub open spec fn goal_velocity(cfg: SteeringConfig, vel: (int, int), desired: (int, int), dt: int) -> (
    int,
    int,
) {
    plus(vel, clamped(minus(target_velocity(cfg, desired), vel), accel_step(cfg, dt)))
}

/// The velocity change that a summed repulsion causes in a tick.
pub open spec fn push_velocity(cfg: SteeringConfig, rep: (int, int), dt: int) -> (int, int) {
    scaled(rep, cfg.push_force * dt, 1000 * cfg.unit)
}

/// A coordinate held within the representable range.
pub open spec fn saturate(a: int) -> int {
    if a > COORD_LIMIT {
        COORD_LIMIT as int
    } else if a < -COORD_LIMIT {
        -COORD_LIMIT
    } else {
        a
    }
}

/// The velocity after a tick: goal seeking, then the repulsion subtracted,
/// each coordinate held within the representable range.
pub open spec fn next_velocity(
    cfg: SteeringConfig,
    vel: (int, int),
    desired: (int, int),
    rep: (int, int),
    dt: int,
) -> (int, int) {
    let v = minus(goal_velocity(cfg, vel, desired, dt), push_velocity(cfg, rep, dt));
    (saturate(v.0), saturate(v.1))
}

fn saturate_wide(a: i128) -> (r: i64)
    ensures
        r == saturate(a as int),
{
    if a > COORD_LIMIT as i128 {
        COORD_LIMIT
    } else if a < -(COORD_LIMIT as i128) {
        -COORD_LIMIT
    } else {
        a as i64
    }
}

/// The velocity after a tick of `dt` milliseconds, from the current
/// velocity, the desired direction and the summed repulsion.
pub fn integrate_velocity(
    vel: Vec2,
    desired: Vec2,
    repulsion: Vec2,
    dt: u32,
    cfg: &SteeringConfig,
) -> (r: Vec2)
    requires
        cfg.wf(),
        vel.bounded(),
        desired.fits(),
        repulsion.bounded(),
        dt <= MAX_DT_MS,
    ensures
        r.pair() == next_velocity(*cfg, vel.pair(), desired.pair(), repulsion.pair(), dt as int),
        r.bounded(),
{
    let c = clamp_length(desired, cfg.unit);
    let target = Vec2 {
        x: scale_coord(c.x, cfg.max_speed, cfg.unit),
        y: scale_coord(c.y, cfg.max_speed, cfg.unit),
    };
    proof {
        lemma_scaled_length(c.pair(), cfg.max_speed as int, cfg.unit as int);
        lemma_coords_within(target.pair(), cfg.max_speed as int);
    }
    let delta = vel.delta_to(&target);
    assert(0 <= cfg.acceleration * dt <= 4194304 * 65536) by (nonlinear_arith)
        requires
            0 <= cfg.acceleration <= 4194304,
            0 <= dt <= 65536,
    ;
    let step: i64 = cfg.acceleration * (dt as i64) / 1000;
    proof {
        vstd::arithmetic::div_mod::lemma_div_is_ordered(
            cfg.acceleration * dt,
            4194304int * 65536,
            1000,
        );
    }
    let cl = clamp_length(delta, step);
    let gx: i128 = (vel.x + cl.x) as i128;
    let gy: i128 = (vel.y + cl.y) as i128;
    assert(0 <= cfg.push_force * dt <= 1048576 * 65536) by (nonlinear_arith)
        requires
            0 <= cfg.push_force <= 1048576,
            0 <= dt <= 65536,
    ;
    let k: i128 = (cfg.push_force as i128) * (dt as i128);
    let den: i128 = 1000 * (cfg.unit as i128);
    assert(-0x1000_0000_0000_0000_0000_0000_0000 <= repulsion.x * k <= 0x1000_0000_0000_0000_0000_0000_0000)
        by (nonlinear_arith)
        requires
            -COORD_LIMIT <= repulsion.x <= COORD_LIMIT,
            0 <= k <= 1048576 * 65536,
    ;
    assert(-0x1000_0000_0000_0000_0000_0000_0000 <= repulsion.y * k <= 0x1000_0000_0000_0000_0000_0000_0000)
        by (nonlinear_arith)
        requires
            -COORD_LIMIT <= repulsion.y <= COORD_LIMIT,
            0 <= k <= 1048576 * 65536,
    ;
    let px = wide_tdiv((repulsion.x as i128) * k, den);
    let py = wide_tdiv((repulsion.y as i128) * k, den);
    Vec2 { x: saturate_wide(gx - px), y: saturate_wide(gy - py) }
}

/// Steering boundedness: a unit moving no faster than the top speed ends a
/// tick no faster than the top speed plus one acceleration step plus the
/// length of the repulsion's velocity change.
pub proof fn lemma_velocity_bounded(
    cfg: SteeringConfig,
    vel: Vec2,
    desired: Vec2,
    repulsion: Vec2,
    dt: u32,
    repulsion_bound: int,
)
    requires
        cfg.wf(),
        within(vel.pair(), cfg.max_speed as int),
        within(push_velocity(cfg, repulsion.pair(), dt as int), repulsion_bound),
    ensures
        within(
            next_velocity(cfg, vel.pair(), desired.pair(), repulsion.pair(), dt as int),
            cfg.max_speed + accel_step(cfg, dt as int) + repulsion_bound,
        ),
{
    let ms = cfg.max_speed as int;
    let step = accel_step(cfg, dt as int);
    assert(cfg.acceleration * dt >= 0) by (nonlinear_arith)
        requires
            cfg.acceleration >= 0,
            dt >= 0,
    ;
    vstd::arithmetic::div_mod::lemma_div_pos_is_pos(cfg.acceleration * dt, 1000);
    let c = clamped(desired.pair(), cfg.unit as int);
    lemma_clamped_within(desired.pair(), cfg.unit as int);
    lemma_scaled_length(c, ms, cfg.unit as int);
    let t = target_velocity(cfg, desired.pair());
    let d = minus(t, vel.pair());
    let goal = goal_velocity(cfg, vel.pair(), desired.pair(), dt as int);
    if sq_len(d) <= step * step {
        assert(goal == t);
        lemma_within_mono(t, ms, ms + step);
    } else {
        lemma_clamped_within(d, step);
        lemma_triangle(vel.pair(), clamped(d, step), ms, step);
    }
    let push = push_velocity(cfg, repulsion.pair(), dt as int);
    let neg = (-push.0, -push.1);
    assert(sq_len(neg) == sq_len(push)) by (nonlinear_arith)
        requires
            neg == (-push.0, -push.1),
    ;
    lemma_triangle(goal, neg, ms + step, repulsion_bound);
    let v = minus(goal, push);
    assert(v == plus(goal, neg));
    let sv = (saturate(v.0), saturate(v.1));
    assert(sq_len(sv) <= sq_len(v)) by (nonlinear_arith)
        requires
            -v.0 <= sv.0 <= v.0 || v.0 <= sv.0 <= -v.0,
            -v.1 <= sv.1 <= v.1 || v.1 <= sv.1 <= -v.1,
    ;
}

/// The motion state of a simulated unit.
#[derive(Clone, Copy, Debug, PartialEq, Eq, Structural)]
pub struct Unit {
    pub vel: Vec2,
    /// Where the unit's goal wants it to go; not normalised, clamped to one
    /// whole unit when read.
    pub target_direction: Vec2,
    /// Direction of the last movement faster than the dead zone, for facing.
    pub last_direction: Vec2,
}

impl Unit {
    /// A unit at rest.
    pub fn new() -> (r: Unit)
        ensures
            r.vel == Vec2::spec_zero(),
            r.target_direction == Vec2::spec_zero(),
            r.last_direction == Vec2::spec_zero(),
    {
        Unit { vel: Vec2::zero(), target_direction: Vec2::zero(), last_direction: Vec2::zero() }
    }

    /// Motion values that the integrators accept.
    pub open spec fn wf(self) -> bool {
        self.vel.bounded() && self.target_direction.fits() && self.last_direction.fits()
    }
}

/// One steering step: the velocity follows the desired direction and gives
/// way to the repulsion; above the dead zone the facing follows the new
/// velocity.
pub fn unit_move(unit: &mut Unit, repulsion: Vec2, dt: u32, cfg: &SteeringConfig)
    requires
        cfg.wf(),
        old(unit).wf(),
        repulsion.bounded(),
        dt <= MAX_DT_MS,
    ensures
        final(unit).wf(),
        final(unit).vel.pair() == next_velocity(
            *cfg,
            old(unit).vel.pair(),
            old(unit).target_direction.pair(),
            repulsion.pair(),
            dt as int,
        ),
        final(unit).target_direction == old(unit).target_direction,
        sq_len(final(unit).vel.pair()) > cfg.dead_zone * cfg.dead_zone
            ==> final(unit).last_direction.pair() == normalized(final(unit).vel.pair(), cfg.unit as int),
        sq_len(final(unit).vel.pair()) <= cfg.dead_zone * cfg.dead_zone ==> final(unit).last_direction
            == old(unit).last_direction,
{
    let vel = integrate_velocity(unit.vel, unit.target_direction, repulsion, dt, cfg);
    unit.vel = vel;
    assert(0 <= cfg.dead_zone * cfg.dead_zone <= COORD_LIMIT * COORD_LIMIT) by (nonlinear_arith)
        requires
            0 <= cfg.dead_zone <= COORD_LIMIT,
    ;
    if vel.length_squared() > (cfg.dead_zone * cfg.dead_zone) as u64 {
        unit.last_direction = normalize(vel, cfg.unit);
    }
}

/// Position after moving at `vel` for `dt` milliseconds (explicit Euler),
/// each coordinate held within the representable range.
pub open spec fn moved(pos: (int, int), vel: (int, int), dt: int) -> (int, int) {
    (saturate(pos.0 + tdiv(vel.0 * dt, 1000)), saturate(pos.1 + tdiv(vel.1 * dt, 1000)))
}

pub fn integrate_position(pos: Vec2, vel: Vec2, dt: u32) -> (r: Vec2)
    requires
        pos.bounded(),
        vel.bounded(),
        dt <= MAX_DT_MS,
    ensures
        r.pair() == moved(pos.pair(), vel.pair(), dt as int),
        r.bounded(),
{
    assert(-COORD_LIMIT * 65536 <= vel.x * dt <= COORD_LIMIT * 65536) by (nonlinear_arith)
        requires
            -COORD_LIMIT <= vel.x <= COORD_LIMIT,
            0 <= dt <= 65536,
    ;
    assert(-COORD_LIMIT * 65536 <= vel.y * dt <= COORD_LIMIT * 65536) by (nonlinear_arith)
        requires
            -COORD_LIMIT <= vel.y <= COORD_LIMIT,
            0 <= dt <= 65536,
    ;
    let dx = wide_tdiv((vel.x as i128) * (dt as i128), 1000);
    let dy = wide_tdiv((vel.y as i128) * (dt as i128), 1000);
    proof {
        lemma_tdiv_within(vel.x * dt, 1000, COORD_LIMIT * 65536);
        lemma_tdiv_within(vel.y * dt, 1000, COORD_LIMIT * 65536);
    }
    Vec2 { x: saturate_wide(pos.x as i128 + dx), y: saturate_wide(pos.y as i128 + dy) }
}

} // verus!
