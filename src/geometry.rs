use vstd::prelude::*;

verus! {

/// Lengths are counted in thousandths of a pixel; velocities in thousandths
/// of a pixel per tick.
pub const UNIT: i64 = 1000;

pub const PADDLE_OFFSET: i64 = 50_000;
pub const PADDLE_WIDTH: i64 = 12_500;
pub const PADDLE_HEIGHT: i64 = 800_000;
pub const PADDLE_HALF_WIDTH: i64 = 6_250;
pub const PADDLE_HALF_HEIGHT: i64 = 400_000;
pub const PADDLE_SPEED: i64 = 10_000;
pub const BOT_PADDLE_SPEED: i64 = 10_000;
pub const BALL_SIZE: i64 = 10_000;
pub const BALL_HALF: i64 = 5_000;
pub const BALL_SPEED: i64 = 14_000;

/// Largest component magnitude of a direction that `at_speed` accepts.
pub const DIR_LIMIT: i64 = 1_048_576;

/// A point or a velocity on the playfield, in fixed-point units.
#[derive(Clone, Copy, Debug, PartialEq, Eq, Structural)]
pub struct Vec2i {
    pub x: i64,
    pub y: i64,
}

pub open spec fn norm_sq(x: int, y: int) -> int {
    x * x + y * y
}

/// `l` is the least natural number whose square reaches `d`.
pub open spec fn is_ceil_sqrt(d: int, l: int) -> bool {
    &&& 0 <= l
    &&& d <= l * l
    &&& (l == 0 || (l - 1) * (l - 1) < d)
}

pub open spec fn ceil_sqrt_spec(d: nat) -> nat
    decreases d,
{
    if d == 0 {
        0
    } else {
        let l = ceil_sqrt_spec((d - 1) as nat);
        if d <= l * l {
            l
        } else {
            l + 1
        }
    }
}

pub proof fn lemma_ceil_sqrt_spec(d: nat)
    ensures
        is_ceil_sqrt(d as int, ceil_sqrt_spec(d) as int),
    decreases d,
{
    if d > 0 {
        lemma_ceil_sqrt_spec((d - 1) as nat);
        let l = ceil_sqrt_spec((d - 1) as nat) as int;
        if d > l * l {
            assert((l + 1) * (l + 1) == l * l + 2 * l + 1) by (nonlinear_arith);
            assert(l * l >= 0) by (nonlinear_arith);
        } else if l == 0 {
        }
    }
}

pub proof fn lemma_ceil_sqrt_unique(d: int, l1: int, l2: int)
    requires
        is_ceil_sqrt(d, l1),
        is_ceil_sqrt(d, l2),
    ensures
        l1 == l2,
{
    if l1 < l2 {
        assert(l1 * l1 <= (l2 - 1) * (l2 - 1)) by (nonlinear_arith)
            requires 0 <= l1 <= l2 - 1;
    } else if l2 < l1 {
        assert(l2 * l2 <= (l1 - 1) * (l1 - 1)) by (nonlinear_arith)
            requires 0 <= l2 <= l1 - 1;
    }
}

/// Integer ceiling of the square root of `d`.
pub fn ceil_sqrt(d: u64) -> (r: u64)
    requires
        0 < d <= 0x400_0000_0000,
    ensures
        r == ceil_sqrt_spec(d as nat),
        is_ceil_sqrt(d as int, r as int),
{
    let mut lo: u64 = 0;
    let mut hi: u64 = 0x20_0000;
    assert(hi * hi == 0x400_0000_0000);
    while hi - lo > 1
        invariant
            lo < hi <= 0x20_0000,
            lo * lo < d,
            d <= hi * hi,
        decreases hi - lo,
    {
        let mid: u64 = lo + (hi - lo) / 2;
        assert(mid * mid <= 0x400_0000_0000) by (nonlinear_arith)
            requires mid <= 0x20_0000;
        if mid * mid >= d {
            hi = mid;
        } else {
            lo = mid;
        }
    }
    proof {
        lemma_ceil_sqrt_spec(d as nat);
        lemma_ceil_sqrt_unique(d as int, hi as int, ceil_sqrt_spec(d as nat) as int);
    }
    hi
}

/// One component of a direction scaled to ball speed, rounded toward zero.
pub open spec fn scale_component(c: int, len: int) -> int {
    if c >= 0 {
        c * BALL_SPEED / len
    } else {
        -((-c) * BALL_SPEED / len)
    }
}

pub open spec fn abs(v: int) -> int {
    if v >= 0 {
        v
    } else {
        -v
    }
}

/// The whole factor that stretches a direction until its larger component
/// is as close to `DIR_LIMIT` as it gets; a long direction keeps the
/// rounding of each component small against the whole.
pub open spec fn stretch(dx: int, dy: int) -> int {
    let m = if abs(dx) >= abs(dy) { abs(dx) } else { abs(dy) };
    (DIR_LIMIT as int) / m
}

/// The velocity of ball speed that heads along `(dx, dy)`, rounded toward
/// zero per component after the direction is stretched; the zero direction
/// heads along `fallback` (a unit axis direction) instead.
pub open spec fn heading(dx: int, dy: int, fallback: Vec2i) -> (int, int) {
    if dx == 0 && dy == 0 {
        (fallback.x * BALL_SPEED, fallback.y * BALL_SPEED)
    } else {
        let k = stretch(dx, dy);
        let (sx, sy) = (dx * k, dy * k);
        let len = ceil_sqrt_spec(norm_sq(sx, sy) as nat) as int;
        (scale_component(sx, len), scale_component(sy, len))
    }
}

pub open spec fn heading_vec(dx: int, dy: int, fallback: Vec2i) -> Vec2i {
    Vec2i { x: heading(dx, dy, fallback).0 as i64, y: heading(dx, dy, fallback).1 as i64 }
}

pub open spec fn is_axis_unit(v: Vec2i) -> bool {
    (v.x == 0 && (v.y == 1 || v.y == -1)) || (v.y == 0 && (v.x == 1 || v.x == -1))
}

/// The squared speed of `(x, y)` lies between `(BALL_SPEED - 2)^2` and
/// `BALL_SPEED^2`: ball speed up to rounding of less than two units.
pub open spec fn in_band(x: int, y: int) -> bool {
    (BALL_SPEED - 2) * (BALL_SPEED - 2) <= norm_sq(x, y) <= BALL_SPEED * BALL_SPEED
}

proof fn lemma_scale_bounds(c: int, len: int)
    requires
        len > 0,
    ensures
        scale_component(c, len) * scale_component(c, len) * (len * len)
            <= c * c * (BALL_SPEED * BALL_SPEED),
        scale_component(c, len) * scale_component(c, len) * (len * len)
            >= c * c * (BALL_SPEED * BALL_SPEED) - 2 * abs(c) * BALL_SPEED * len,
        abs(scale_component(c, len)) * len <= abs(c) * BALL_SPEED,
{
    let s = BALL_SPEED as int;
    let a = abs(c);
    let u = a * s;
    let q = u / len;
    assert(0 <= a);
    assert(0 <= u) by (nonlinear_arith)
        requires 0 <= a, s == 14000, u == a * s;
    assert(q * len <= u && u < (q + 1) * len) by (nonlinear_arith)
        requires len > 0, q == u / len, 0 <= u;
    assert(0 <= q) by (nonlinear_arith)
        requires len > 0, q == u / len, 0 <= u;
    let x = q * len;
    assert(x > u - len) by (nonlinear_arith)
        requires x == q * len, u < (q + 1) * len;
    assert(x * x <= u * u) by (nonlinear_arith)
        requires 0 <= x <= u;
    assert(x * x >= u * u - 2 * u * len) by (nonlinear_arith)
        requires x >= 0, x > u - len, u >= 0, len > 0,
    {
        if u >= len {
            assert(x * x >= (u - len) * (u - len)) by (nonlinear_arith)
                requires x >= u - len, u - len >= 0;
            assert((u - len) * (u - len) == u * u - 2 * u * len + len * len) by (nonlinear_arith);
            assert(len * len >= 0) by (nonlinear_arith);
        } else {
            assert(u * (u - 2 * len) <= 0) by (nonlinear_arith)
                requires 0 <= u < len;
            assert(x * x >= 0) by (nonlinear_arith);
        }
    }
    assert(q * q * (len * len) == x * x) by (nonlinear_arith)
        requires x == q * len;
    assert(u * u == c * c * (s * s)) by (nonlinear_arith)
        requires u == a * s, a == c || a == -c;
    assert(2 * u * len == 2 * a * s * len) by (nonlinear_arith)
        requires u == a * s;
    assert(scale_component(c, len) * scale_component(c, len) == q * q) by (nonlinear_arith)
        requires scale_component(c, len) == q || scale_component(c, len) == -q;
    assert(abs(scale_component(c, len)) == q);
}

proof fn lemma_axis_unit_speed(v: Vec2i)
    requires
        is_axis_unit(v),
    ensures
        norm_sq(v.x * BALL_SPEED, v.y * BALL_SPEED) == BALL_SPEED * BALL_SPEED,
{
    let (x, y) = (v.x * BALL_SPEED, v.y * BALL_SPEED);
    if v.x == 0 {
        assert(x == 0);
        assert(y == BALL_SPEED || y == -BALL_SPEED);
        assert(norm_sq(x, y) == BALL_SPEED * BALL_SPEED) by (nonlinear_arith)
            requires x == 0, y == BALL_SPEED || y == -BALL_SPEED;
    } else {
        assert(y == 0);
        assert(x == BALL_SPEED || x == -BALL_SPEED);
        assert(norm_sq(x, y) == BALL_SPEED * BALL_SPEED) by (nonlinear_arith)
            requires y == 0, x == BALL_SPEED || x == -BALL_SPEED;
    }
}

/// Facts on the stretched direction: its larger component reaches at least
/// half of `DIR_LIMIT` and none passes `DIR_LIMIT`.
proof fn lemma_stretch(dx: int, dy: int)
    requires
        -DIR_LIMIT <= dx <= DIR_LIMIT,
        -DIR_LIMIT <= dy <= DIR_LIMIT,
        dx != 0 || dy != 0,
    ensures
        stretch(dx, dy) >= 1,
        abs(dx * stretch(dx, dy)) == abs(dx) * stretch(dx, dy),
        abs(dy * stretch(dx, dy)) == abs(dy) * stretch(dx, dy),
        abs(dx) * stretch(dx, dy) <= DIR_LIMIT,
        abs(dy) * stretch(dx, dy) <= DIR_LIMIT,
        2 * (abs(dx) * stretch(dx, dy)) > DIR_LIMIT || 2 * (abs(dy) * stretch(dx, dy)) > DIR_LIMIT,
{
    let (a, b) = (abs(dx), abs(dy));
    let m = if a >= b { a } else { b };
    let k = stretch(dx, dy);
    let lim = DIR_LIMIT as int;
    assert(0 < m <= lim);
    assert(k == lim / m);
    assert(k >= 1 && m * k <= lim && lim < m * k + m) by (nonlinear_arith)
        requires 0 < m <= lim, k == lim / m;
    assert(a * k <= m * k && b * k <= m * k) by (nonlinear_arith)
        requires 0 <= a <= m, 0 <= b <= m, k >= 1;
    assert(m * k >= m) by (nonlinear_arith)
        requires k >= 1, m > 0;
    assert(abs(dx * k) == a * k) by (nonlinear_arith)
        requires k >= 1, a == dx || a == -dx, a >= 0;
    assert(abs(dy * k) == b * k) by (nonlinear_arith)
        requires k >= 1, b == dy || b == -dy, b >= 0;
}

/// A heading has ball speed up to rounding: its squared speed lies in the
/// band from `(BALL_SPEED - 2)^2` to `BALL_SPEED^2`. In particular it is
/// never the zero velocity.
pub proof fn lemma_heading_band(dx: int, dy: int, fallback: Vec2i)
    requires
        is_axis_unit(fallback),
        -DIR_LIMIT <= dx <= DIR_LIMIT,
        -DIR_LIMIT <= dy <= DIR_LIMIT,
    ensures
        in_band(heading(dx, dy, fallback).0, heading(dx, dy, fallback).1),
        heading(dx, dy, fallback) != (0int, 0int),
        heading_vec(dx, dy, fallback).x == heading(dx, dy, fallback).0,
        heading_vec(dx, dy, fallback).y == heading(dx, dy, fallback).1,
        -BALL_SPEED <= heading(dx, dy, fallback).0 <= BALL_SPEED,
        -BALL_SPEED <= heading(dx, dy, fallback).1 <= BALL_SPEED,
{
    let s = BALL_SPEED as int;
    if dx == 0 && dy == 0 {
        lemma_axis_unit_speed(fallback);
    } else {
        lemma_stretch(dx, dy);
        let k = stretch(dx, dy);
        let (sx, sy) = (dx * k, dy * k);
        let (a, b) = (abs(sx), abs(sy));
        let d = norm_sq(sx, sy);
        let lim = DIR_LIMIT as int;
        assert(a * a == sx * sx && b * b == sy * sy) by (nonlinear_arith)
            requires a == sx || a == -sx, b == sy || b == -sy;
        assert(2 * a > lim || 2 * b > lim);
        assert(d >= lim * lim / 4 + 1 && d <= 2 * lim * lim) by (nonlinear_arith)
            requires
                d == a * a + b * b,
                0 <= a <= lim, 0 <= b <= lim,
                2 * a > lim || 2 * b > lim,
                lim == 1048576;
        lemma_ceil_sqrt_spec(d as nat);
        let len = ceil_sqrt_spec(d as nat) as int;
        assert(len >= 3 * s) by (nonlinear_arith)
            requires d <= len * len, d >= lim * lim / 4 + 1, len >= 0, lim == 1048576, s == 14000;
        lemma_scale_bounds(sx, len);
        lemma_scale_bounds(sy, len);
        let qx = scale_component(sx, len);
        let qy = scale_component(sy, len);
        let s2 = s * s;
        let big = (qx * qx + qy * qy) * (len * len);
        assert(big == qx * qx * (len * len) + qy * qy * (len * len)) by (nonlinear_arith)
            requires big == (qx * qx + qy * qy) * (len * len);
        // upper bound
        assert(sx * sx * s2 + sy * sy * s2 == d * s2) by (nonlinear_arith)
            requires d == sx * sx + sy * sy;
        assert(d * s2 <= (len * len) * s2) by (nonlinear_arith)
            requires d <= len * len, s2 >= 0;
        assert(big <= s2 * (len * len));
        assert(qx * qx + qy * qy <= s2) by (nonlinear_arith)
            requires big == (qx * qx + qy * qy) * (len * len), big <= s2 * (len * len), len > 0;
        // lower bound
        assert(2 * (a + b) < 3 * len) by (nonlinear_arith)
            requires a >= 0, b >= 0, len > 0, a * a + b * b <= len * len,
        {
            assert((a + b) * (a + b) <= 2 * (a * a + b * b)) by (nonlinear_arith);
            assert((2 * (a + b)) * (2 * (a + b)) < (3 * len) * (3 * len)) by (nonlinear_arith)
                requires (a + b) * (a + b) <= 2 * (a * a + b * b), a * a + b * b <= len * len, len > 0;
        }
        assert(big >= d * s2 - 2 * (a + b) * s * len) by (nonlinear_arith)
            requires
                big == qx * qx * (len * len) + qy * qy * (len * len),
                qx * qx * (len * len) >= sx * sx * s2 - 2 * a * s * len,
                qy * qy * (len * len) >= sy * sy * s2 - 2 * b * s * len,
                d == sx * sx + sy * sy;
        assert(2 * (a + b) * s * len <= 3 * s * (len * len)) by (nonlinear_arith)
            requires 2 * (a + b) < 3 * len, s > 0, len > 0;
        assert(d * s2 >= (len - 1) * (len - 1) * s2) by (nonlinear_arith)
            requires (len - 1) * (len - 1) < d, s2 >= 0;
        assert((len - 1) * (len - 1) * s2 - 3 * s * (len * len) >= (s - 2) * (s - 2) * (len * len))
            by (nonlinear_arith)
            requires len >= 3 * s, s == 14000, s2 == s * s,
        {
            assert(len * (len * (s - 4) - 2 * s2) >= 0) by (nonlinear_arith)
                requires len >= 3 * s, s == 14000, s2 == s * s;
        }
        assert(qx * qx + qy * qy >= (s - 2) * (s - 2)) by (nonlinear_arith)
            requires big == (qx * qx + qy * qy) * (len * len), big >= (s - 2) * (s - 2) * (len * len), len > 0;
    }
    let h = heading(dx, dy, fallback);
    if h.0 == 0 && h.1 == 0 {
        assert(norm_sq(h.0, h.1) == 0) by (nonlinear_arith)
            requires h.0 == 0, h.1 == 0;
    }
    assert(-BALL_SPEED <= h.0 <= BALL_SPEED && -BALL_SPEED <= h.1 <= BALL_SPEED) by (nonlinear_arith)
        requires h.0 * h.0 + h.1 * h.1 <= BALL_SPEED * BALL_SPEED;
}

/// The velocity of ball speed along `(dx, dy)`, or along `fallback` when the
/// direction is zero.
pub fn at_speed(dx: i64, dy: i64, fallback: Vec2i) -> (r: Vec2i)
    requires
        -DIR_LIMIT <= dx <= DIR_LIMIT,
        -DIR_LIMIT <= dy <= DIR_LIMIT,
        is_axis_unit(fallback),
    ensures
        r == heading_vec(dx as int, dy as int, fallback),
        in_band(r.x as int, r.y as int),
        -BALL_SPEED <= r.x <= BALL_SPEED,
        -BALL_SPEED <= r.y <= BALL_SPEED,
{
    proof {
        lemma_heading_band(dx as int, dy as int, fallback);
    }
    if dx == 0 && dy == 0 {
        return Vec2i { x: fallback.x * BALL_SPEED, y: fallback.y * BALL_SPEED };
    }
    let ax: u64 = if dx >= 0 { dx as u64 } else { (-dx) as u64 };
    let ay: u64 = if dy >= 0 { dy as u64 } else { (-dy) as u64 };
    let m: u64 = if ax >= ay { ax } else { ay };
    let k: u64 = (DIR_LIMIT as u64) / m;
    proof {
        lemma_stretch(dx as int, dy as int);
    }
    assert(k == stretch(dx as int, dy as int));
    let sx: i64 = dx * (k as i64);
    let sy: i64 = dy * (k as i64);
    let bx: u64 = if sx >= 0 { sx as u64 } else { (-sx) as u64 };
    let by: u64 = if sy >= 0 { sy as u64 } else { (-sy) as u64 };
    assert(bx * bx + by * by <= 0x400_0000_0000 && bx * bx + by * by == sx * sx + sy * sy)
        by (nonlinear_arith)
        requires
            bx <= DIR_LIMIT, by <= DIR_LIMIT,
            bx == sx || bx == -sx, by == sy || by == -sy;
    assert(bx * bx + by * by > 0) by (nonlinear_arith)
        requires bx > 0 || by > 0;
    let len = ceil_sqrt(bx * bx + by * by);
    assert(0 < len <= 0x20_0000) by (nonlinear_arith)
        requires
            0 < bx * bx + by * by <= 0x400_0000_0000,
            is_ceil_sqrt(bx * bx + by * by, len as int);
    let ilen = len as i64;
    let vx: i64 = if sx >= 0 { sx * BALL_SPEED / ilen } else { -((-sx) * BALL_SPEED / ilen) };
    let vy: i64 = if sy >= 0 { sy * BALL_SPEED / ilen } else { -((-sy) * BALL_SPEED / ilen) };
    Vec2i { x: vx, y: vy }
}

} // verus!
