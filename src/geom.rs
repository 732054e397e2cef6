//! Integer fixed-point vectors: exact squared lengths, rounded-up roots,
//! clamping and normalising, and the length lemmas the steering bounds use.

use vstd::prelude::*;

verus! {

/// Largest magnitude of a coordinate that the geometry accepts.
pub const COORD_LIMIT: i64 = 268435456;

/// Integer fixed-point 2D vector (position, velocity or direction).
#[derive(Clone, Copy, Debug, PartialEq, Eq, Structural)]
pub struct Vec2 {
    pub x: i64,
    pub y: i64,
}

/// Division rounding toward zero, as Rust's `/` does on signed integers.
pub open spec fn tdiv(a: int, b: int) -> int {
    if a >= 0 {
        a / b
    } else {
        -((-a) / b)
    }
}

/// `r` is the smallest non-negative integer whose square is at least `n`.
pub open spec fn is_ceil_root(n: int, r: int) -> bool {
    &&& 0 <= r
    &&& n <= r * r
    &&& (r == 0 || (r - 1) * (r - 1) < n)
}

/// The length of a vector of squared length `n`, rounded up.
pub open spec fn ceil_root(n: int) -> int {
    choose|r: int| is_ceil_root(n, r)
}

impl Vec2 {
    pub open spec fn len_sq(self) -> int {
        sq_len(self.pair())
    }

    /// Both coordinates lie within `COORD_LIMIT`.
    pub open spec fn bounded(self) -> bool {
        -COORD_LIMIT <= self.x <= COORD_LIMIT && -COORD_LIMIT <= self.y <= COORD_LIMIT
    }

    /// Both coordinates lie within twice `COORD_LIMIT`: the difference of two
    /// bounded vectors fits.
    pub open spec fn fits(self) -> bool {
        -2 * COORD_LIMIT <= self.x <= 2 * COORD_LIMIT && -2 * COORD_LIMIT <= self.y <= 2
            * COORD_LIMIT
    }

    /// The length of this vector is at most `r`.
    pub open spec fn len_at_most(self, r: int) -> bool {
        within(self.pair(), r)
    }

    pub open spec fn pair(self) -> (int, int) {
        (self.x as int, self.y as int)
    }

    pub open spec fn spec_zero() -> Vec2 {
        Vec2 { x: 0, y: 0 }
    }

    pub fn zero() -> (r: Vec2)
        ensures
            r == Vec2::spec_zero(),
    {
        Vec2 { x: 0, y: 0 }
    }

    pub fn new(x: i64, y: i64) -> (r: Vec2)
        ensures
            r.x == x && r.y == y,
    {
        Vec2 { x, y }
    }

    /// Squared length, exact.
    pub fn length_squared(&self) -> (r: u64)
        requires
            self.fits(),
        ensures
            r == self.len_sq(),
            r <= 8 * COORD_LIMIT * COORD_LIMIT,
    {
        proof {
            lemma_square_bound(self.x as int);
            lemma_square_bound(self.y as int);
            assert(self.len_sq() <= 8 * COORD_LIMIT * COORD_LIMIT);
        }
        let x = self.x as i128;
        let y = self.y as i128;
        (x * x + y * y) as u64
    }

    /// `other - self`, exact.
    pub fn delta_to(&self, other: &Vec2) -> (r: Vec2)
        requires
            self.bounded(),
            other.bounded(),
        ensures
            r.x == other.x - self.x,
            r.y == other.y - self.y,
            r.fits(),
    {
        Vec2 { x: other.x - self.x, y: other.y - self.y }
    }
}

/// The square of a coordinate within twice `COORD_LIMIT` is small.
pub proof fn lemma_square_bound(a: int)
    requires
        -2 * COORD_LIMIT <= a <= 2 * COORD_LIMIT,
    ensures
        0 <= a * a <= 4 * COORD_LIMIT * COORD_LIMIT,
{
    assert(0 <= a * a <= 4 * COORD_LIMIT * COORD_LIMIT) by (nonlinear_arith)
        requires
            -2 * COORD_LIMIT <= a <= 2 * COORD_LIMIT,
    ;
}

/// Two ceiling roots of the same number are equal.
pub proof fn lemma_ceil_root_unique(n: int, r: int)
    requires
        is_ceil_root(n, r),
    ensures
        ceil_root(n) == r,
{
    let c = ceil_root(n);
    assert(is_ceil_root(n, c));
    if c < r {
        assert(c * c <= (r - 1) * (r - 1)) by (nonlinear_arith)
            requires
                0 <= c,
                c <= r - 1,
        ;
    }
    if r < c {
        assert(r * r <= (c - 1) * (c - 1)) by (nonlinear_arith)
            requires
                0 <= r,
                r <= c - 1,
        ;
    }
}

/// Rounded-up square root.
pub fn ceil_sqrt(n: u64) -> (r: u64)
    requires
        n <= 8 * COORD_LIMIT * COORD_LIMIT,
    ensures
        is_ceil_root(n as int, r as int),
        r == ceil_root(n as int),
        r <= 4 * COORD_LIMIT,
{
    if n == 0 {
        proof {
            lemma_ceil_root_unique(0, 0);
        }
        return 0;
    }
    let mut lo: u64 = 0;
    let mut hi: u64 = 1073741824;
    assert(hi * hi >= n) by (nonlinear_arith)
        requires
            hi == 1073741824,
            n <= 8 * COORD_LIMIT * COORD_LIMIT,
    ;
    while hi - lo > 1
        invariant
            lo < hi <= 1073741824,
            (lo as int) * (lo as int) < n,
            (hi as int) * (hi as int) >= n,
        decreases hi - lo,
    {
        let mid: u64 = lo + (hi - lo) / 2;
        assert(mid * mid <= 1073741824 * 1073741824) by (nonlinear_arith)
            requires
                mid <= 1073741824,
        ;
        if mid * mid >= n {
            hi = mid;
        } else {
            lo = mid;
        }
    }
    proof {
        assert(lo == hi - 1);
        lemma_ceil_root_unique(n as int, hi as int);
    }
    hi
}

} // verus!

verus! {

/// Squared length of a vector given by its coordinates.
pub open spec fn sq_len(p: (int, int)) -> int {
    p.0 * p.0 + p.1 * p.1
}

/// The length of `p` is at most `r`.
pub open spec fn within(p: (int, int), r: int) -> bool {
    0 <= r && sq_len(p) <= r * r
}

pub open spec fn plus(p: (int, int), q: (int, int)) -> (int, int) {
    (p.0 + q.0, p.1 + q.1)
}

pub open spec fn minus(p: (int, int), q: (int, int)) -> (int, int) {
    (p.0 - q.0, p.1 - q.1)
}

/// `p` rescaled by `num / den`, each coordinate rounded toward zero.
pub open spec fn scaled(p: (int, int), num: int, den: int) -> (int, int) {
    (tdiv(p.0 * num, den), tdiv(p.1 * num, den))
}

/// `p` shortened to length `max` when longer, else `p` itself.
pub open spec fn clamped(p: (int, int), max: int) -> (int, int) {
    if sq_len(p) <= max * max {
        p
    } else {
        scaled(p, max, ceil_root(sq_len(p)))
    }
}

/// `p` brought to length `unit` (up to rounding), or zero for zero.
pub open spec fn normalized(p: (int, int), unit: int) -> (int, int) {
    if sq_len(p) == 0 {
        (0, 0)
    } else {
        scaled(p, unit, ceil_root(sq_len(p)))
    }
}

proof fn lemma_tdiv(a: int, b: int)
    requires
        b > 0,
    ensures
        0 <= tdiv(a, b) * b <= a || a <= tdiv(a, b) * b <= 0,
{
    if a >= 0 {
        vstd::arithmetic::div_mod::lemma_fundamental_div_mod(a, b);
        vstd::arithmetic::div_mod::lemma_div_pos_is_pos(a, b);
        assert(0 <= (a / b) * b <= a) by (nonlinear_arith)
            requires
                a == b * (a / b) + a % b,
                0 <= a % b,
                a / b >= 0,
                b > 0,
        ;
    } else {
        let q = (-a) / b;
        vstd::arithmetic::div_mod::lemma_fundamental_div_mod(-a, b);
        vstd::arithmetic::div_mod::lemma_div_pos_is_pos(-a, b);
        assert(0 <= q * b <= -a) by (nonlinear_arith)
            requires
                -a == b * q + (-a) % b,
                0 <= (-a) % b,
                q >= 0,
                b > 0,
        ;
        assert(tdiv(a, b) == -q);
        assert((-q) * b == -(q * b)) by (nonlinear_arith);
    }
}

/// Each coordinate of a vector of length at most `m` lies within `m`.
pub proof fn lemma_coords_within(v: (int, int), m: int)
    requires
        within(v, m),
    ensures
        -m <= v.0 <= m,
        -m <= v.1 <= m,
{
    assert(v.0 * v.0 >= 0 && v.1 * v.1 >= 0) by (nonlinear_arith);
    lemma_square_le(v.0, m);
    lemma_square_le(v.1, m);
}

/// From `x * x <= m * m` with `m >= 0` follows `-m <= x <= m`.
pub proof fn lemma_square_le(x: int, m: int)
    requires
        m >= 0,
        x * x <= m * m,
    ensures
        -m <= x <= m,
{
    if x > m {
        assert(x * x > m * m) by (nonlinear_arith)
            requires
                x > m >= 0,
        ;
    }
    if x < -m {
        assert(x * x > m * m) by (nonlinear_arith)
            requires
                -x > m >= 0,
        ;
    }
}

/// Rescaling a vector whose length is at most `den` by `num / den` leaves a
/// vector whose length is at most `num`.
pub proof fn lemma_scaled_length(v: (int, int), num: int, den: int)
    requires
        den > 0,
        num >= 0,
        sq_len(v) <= den * den,
    ensures
        within(scaled(v, num, den), num),
{
    let r = scaled(v, num, den);
    let (vx, vy) = v;
    let (a, b) = (vx * num, vy * num);
    lemma_tdiv(a, den);
    lemma_tdiv(b, den);
    let (rx, ry) = r;
    let d2 = den * den;
    let n2 = num * num;
    assert(rx * rx * d2 <= a * a) by (nonlinear_arith)
        requires
            0 <= rx * den <= a || a <= rx * den <= 0,
            d2 == den * den,
    ;
    assert(ry * ry * d2 <= b * b) by (nonlinear_arith)
        requires
            0 <= ry * den <= b || b <= ry * den <= 0,
            d2 == den * den,
    ;
    assert(a * a + b * b == (vx * vx + vy * vy) * n2) by (nonlinear_arith)
        requires
            a == vx * num,
            b == vy * num,
            n2 == num * num,
    ;
    assert((vx * vx + vy * vy) * n2 <= d2 * n2) by (nonlinear_arith)
        requires
            vx * vx + vy * vy <= d2,
            n2 >= 0,
    ;
    assert((rx * rx + ry * ry) * d2 <= n2 * d2) by (nonlinear_arith)
        requires
            rx * rx * d2 + ry * ry * d2 <= d2 * n2,
    ;
    assert(d2 > 0) by (nonlinear_arith)
        requires
            d2 == den * den,
            den > 0,
    ;
    assert(rx * rx + ry * ry <= n2) by (nonlinear_arith)
        requires
            (rx * rx + ry * ry) * d2 <= n2 * d2,
            d2 > 0,
    ;
}

/// Rounds toward zero: `(a * num) / den`.
pub(crate) fn scale_coord(a: i64, num: i64, den: i64) -> (r: i64)
    requires
        -2 * COORD_LIMIT <= a <= 2 * COORD_LIMIT,
        0 <= num <= 2 * COORD_LIMIT,
        den > 0,
    ensures
        r == tdiv(a * num, den as int),
{
    assert(-4 * COORD_LIMIT * COORD_LIMIT <= a * num <= 4 * COORD_LIMIT * COORD_LIMIT) by (nonlinear_arith)
        requires
            -2 * COORD_LIMIT <= a <= 2 * COORD_LIMIT,
            0 <= num <= 2 * COORD_LIMIT,
    ;
    let p: i128 = (a as i128) * (num as i128);
    assert(-4 * COORD_LIMIT * COORD_LIMIT <= p <= 4 * COORD_LIMIT * COORD_LIMIT) by (nonlinear_arith)
        requires
            p == a * num,
            -2 * COORD_LIMIT <= a <= 2 * COORD_LIMIT,
            0 <= num <= 2 * COORD_LIMIT,
    ;
    let q: i128 = if p >= 0 {
        p / (den as i128)
    } else {
        -((-p) / (den as i128))
    };
    proof {
        lemma_tdiv(p as int, den as int);
        if p >= 0 {
            vstd::arithmetic::div_mod::lemma_div_is_ordered_by_denominator(p as int, 1, den as int);
        } else {
            vstd::arithmetic::div_mod::lemma_div_is_ordered_by_denominator(-p as int, 1, den as int);
        }
    }
    q as i64
}

/// Shortens `v` to length `max` when it is longer, keeping its direction
/// (up to rounding toward zero); otherwise returns it unchanged.
pub fn clamp_length(v: Vec2, max: i64) -> (r: Vec2)
    requires
        v.fits(),
        0 <= max <= 2 * COORD_LIMIT,
    ensures
        r.pair() == clamped(v.pair(), max as int),
        r.len_at_most(max as int),
        r.fits(),
{
    let n = v.length_squared();
    proof {
        if n <= max * max {
            lemma_coords_within(v.pair(), max as int);
        }
    }
    proof {
        lemma_square_bound(max as int);
    }
    if n <= (max as u64) * (max as u64) {
        return v;
    }
    let l = ceil_sqrt(n);
    assert(l > 0) by (nonlinear_arith)
        requires
            n <= l * l,
            n > max * max,
    ;
    let r = Vec2 { x: scale_coord(v.x, max, l as i64), y: scale_coord(v.y, max, l as i64) };
    proof {
        lemma_scaled_length(v.pair(), max as int, l as int);
        lemma_coords_within(r.pair(), max as int);
    }
    r
}

/// Brings `v` to length `unit`, keeping its direction up to rounding toward
/// zero; the zero vector stays zero.
pub fn normalize(v: Vec2, unit: i64) -> (r: Vec2)
    requires
        v.fits(),
        0 <= unit <= 2 * COORD_LIMIT,
    ensures
        r.pair() == normalized(v.pair(), unit as int),
        r.len_at_most(unit as int),
        r.fits(),
{
    let n = v.length_squared();
    if n == 0 {
        proof {
            assert(0 <= unit * unit) by (nonlinear_arith);
        }
        return Vec2 { x: 0, y: 0 };
    }
    let l = ceil_sqrt(n);
    assert(l > 0) by (nonlinear_arith)
        requires
            n <= l * l,
            n > 0,
    ;
    let r = Vec2 { x: scale_coord(v.x, unit, l as i64), y: scale_coord(v.y, unit, l as i64) };
    proof {
        lemma_scaled_length(v.pair(), unit as int, l as int);
        lemma_coords_within(r.pair(), unit as int);
    }
    r
}

/// The length of a sum is at most the sum of the lengths.
pub proof fn lemma_triangle(a: (int, int), b: (int, int), ra: int, rb: int)
    requires
        within(a, ra),
        within(b, rb),
    ensures
        within(plus(a, b), ra + rb),
{
    let (ax, ay) = a;
    let (bx, by) = b;
    let dot = ax * bx + ay * by;
    let la = sq_len(a);
    let lb = sq_len(b);
    let (p, q, u, w) = (ax * by, ay * bx, ax * bx, ay * by);
    let (a2, b2, c2, d2) = (ax * ax, ay * ay, bx * bx, by * by);
    assert(la * lb == a2 * c2 + a2 * d2 + b2 * c2 + b2 * d2) by (nonlinear_arith)
        requires
            la == a2 + b2,
            lb == c2 + d2,
    ;
    assert(a2 * c2 == u * u) by (nonlinear_arith)
        requires
            a2 == ax * ax,
            c2 == bx * bx,
            u == ax * bx,
    ;
    assert(a2 * d2 == p * p) by (nonlinear_arith)
        requires
            a2 == ax * ax,
            d2 == by * by,
            p == ax * by,
    ;
    assert(b2 * c2 == q * q) by (nonlinear_arith)
        requires
            b2 == ay * ay,
            c2 == bx * bx,
            q == ay * bx,
    ;
    assert(b2 * d2 == w * w) by (nonlinear_arith)
        requires
            b2 == ay * ay,
            d2 == by * by,
            w == ay * by,
    ;
    assert(p * q == u * w) by (nonlinear_arith)
        requires
            p == ax * by,
            q == ay * bx,
            u == ax * bx,
            w == ay * by,
    ;
    assert(dot * dot == u * u + 2 * (u * w) + w * w) by (nonlinear_arith)
        requires
            dot == u + w,
    ;
    assert((p - q) * (p - q) == p * p - 2 * (p * q) + q * q) by (nonlinear_arith);
    assert((p - q) * (p - q) >= 0) by (nonlinear_arith);
    assert(dot * dot <= la * lb);
    assert(0 <= la && 0 <= lb) by (nonlinear_arith)
        requires
            la == ax * ax + ay * ay,
            lb == bx * bx + by * by,
    ;
    assert(la * lb <= (ra * rb) * (ra * rb)) by (nonlinear_arith)
        requires
            0 <= la <= ra * ra,
            0 <= lb <= rb * rb,
    ;
    assert(ra * rb >= 0) by (nonlinear_arith)
        requires
            ra >= 0,
            rb >= 0,
    ;
    lemma_square_le(dot, ra * rb);
    assert(sq_len(plus(a, b)) == la + lb + 2 * dot) by (nonlinear_arith)
        requires
            la == ax * ax + ay * ay,
            lb == bx * bx + by * by,
            dot == ax * bx + ay * by,
            plus(a, b) == (ax + bx, ay + by),
    ;
    assert(la + lb + 2 * dot <= (ra + rb) * (ra + rb)) by (nonlinear_arith)
        requires
            la <= ra * ra,
            lb <= rb * rb,
            dot <= ra * rb,
    ;
}

/// Every non-negative number has a ceiling root.
pub proof fn lemma_ceil_root_exists(n: int)
    requires
        n >= 0,
    ensures
        is_ceil_root(n, ceil_root(n)),
    decreases n,
{
    if n == 0 {
        assert(is_ceil_root(0, 0));
    } else {
        lemma_ceil_root_exists(n - 1);
        let r = ceil_root(n - 1);
        if n <= r * r {
            assert(r != 0);
            assert(is_ceil_root(n, r));
        } else {
            assert(n == r * r + 1);
            assert((r + 1) * (r + 1) == r * r + 2 * r + 1) by (nonlinear_arith);
            assert(is_ceil_root(n, r + 1));
        }
    }
}

pub proof fn lemma_sq_len_nonneg(p: (int, int))
    ensures
        sq_len(p) >= 0,
{
    assert(p.0 * p.0 >= 0 && p.1 * p.1 >= 0) by (nonlinear_arith);
}

/// A clamped vector is no longer than the clamp length.
pub proof fn lemma_clamped_within(p: (int, int), max: int)
    requires
        max >= 0,
    ensures
        within(clamped(p, max), max),
{
    lemma_sq_len_nonneg(p);
    if sq_len(p) > max * max {
        lemma_ceil_root_exists(sq_len(p));
        let l = ceil_root(sq_len(p));
        assert(l > 0) by (nonlinear_arith)
            requires
                sq_len(p) <= l * l,
                sq_len(p) > max * max,
                max >= 0,
                l >= 0,
        ;
        lemma_scaled_length(p, max, l);
    }
}

/// A length bound carries over to any larger bound.
pub proof fn lemma_within_mono(p: (int, int), r1: int, r2: int)
    requires
        within(p, r1),
        r1 <= r2,
    ensures
        within(p, r2),
{
    assert(r1 * r1 <= r2 * r2) by (nonlinear_arith)
        requires
            0 <= r1 <= r2,
    ;
}

} // verus!
