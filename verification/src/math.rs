//! Integer geometry on world positions: squared distances, roots, and the
//! step of a given length towards a point.

use vstd::prelude::*;
use crate::world::{clamp_i32, clamp_to_i32, Pos};

verus! {

/// The square of the distance between `a` and `b`.
pub open spec fn dist_sq(a: Pos, b: Pos) -> nat {
    ((a.x - b.x) * (a.x - b.x) + (a.y - b.y) * (a.y - b.y)) as nat
}

/// `r` is the least number whose square reaches `n`.
pub open spec fn is_ceil_sqrt(n: nat, r: nat) -> bool {
    r * r >= n && (r > 0 ==> (r - 1) * (r - 1) < n)
}

/// How far an entity moves along one axis when it makes a step of length
/// `speed` towards a point which is `d` away along this axis and `len` away
/// in all: the share of the step that falls on the axis, rounded towards zero.
pub open spec fn axis_step(d: int, len: int, speed: int) -> int {
    if d >= 0 {
        (d * speed) / len
    } else {
        -(((-d) * speed) / len)
    }
}

/// Where an entity at `from` stands after a step of length `speed` towards
/// `to`. `len` is the distance between the two, rounded up. An entity that is
/// already at `to` stays.
pub open spec fn stepped(from: Pos, to: Pos, len: nat, speed: nat) -> Pos {
    if len == 0 {
        from
    } else {
        Pos {
            x: clamp_i32(from.x + axis_step(to.x - from.x, len as int, speed as int)),
            y: clamp_i32(from.y + axis_step(to.y - from.y, len as int, speed as int)),
        }
    }
}

/// `next` is where an entity at `from` stands after a step of length `speed`
/// towards `to`.
pub open spec fn is_step(from: Pos, to: Pos, speed: nat, next: Pos) -> bool {
    exists|len: nat| is_ceil_sqrt(dist_sq(from, to), len) && next == stepped(from, to, len, speed)
}

/// The square of the distance between `a` and `b`.
pub fn distance_squared(a: Pos, b: Pos) -> (d: u128)
    ensures
        d == dist_sq(a, b),
        d <= 0x1_ffff_fffc_0000_0002,
{
    let dx: i64 = a.x as i64 - b.x as i64;
    let dy: i64 = a.y as i64 - b.y as i64;
    assert(0 <= dx * dx <= 0xffff_ffff * 0xffff_ffff && 0 <= dy * dy <= 0xffff_ffff * 0xffff_ffff)
        by (nonlinear_arith)
        requires
            -0xffff_ffff <= dx <= 0xffff_ffff,
            -0xffff_ffff <= dy <= 0xffff_ffff,
    ;
    let sx: u128 = (dx as i128 * dx as i128) as u128;
    let sy: u128 = (dy as i128 * dy as i128) as u128;
    sx + sy
}

/// Whether `a` and `b` are less than `radius` apart.
pub fn within(a: Pos, b: Pos, radius: u32) -> (r: bool)
    ensures
        r == (dist_sq(a, b) < radius * radius),
{
    assert(radius * radius <= 0xffff_ffff * 0xffff_ffff) by (nonlinear_arith)
        requires
            0 <= radius <= 0xffff_ffff,
    ;
    let limit: u128 = radius as u128 * radius as u128;
    distance_squared(a, b) < limit
}

/// Whether `a` and `b` are no more than `radius` apart.
pub fn within_or_at(a: Pos, b: Pos, radius: u32) -> (r: bool)
    ensures
        r == (dist_sq(a, b) <= radius * radius),
{
    assert(radius * radius <= 0xffff_ffff * 0xffff_ffff) by (nonlinear_arith)
        requires
            0 <= radius <= 0xffff_ffff,
    ;
    let limit: u128 = radius as u128 * radius as u128;
    distance_squared(a, b) <= limit
}

/// The least number whose square reaches `n`: the root of `n`, rounded up.
pub fn ceil_sqrt(n: u128) -> (r: u64)
    requires
        n <= 0x1_ffff_fffc_0000_0002,
    ensures
        is_ceil_sqrt(n as nat, r as nat),
        r <= 0x1_6a09_e668,
{
    let mut lo: u64 = 0;
    let mut hi: u64 = 0x1_6a09_e668;
    assert(0x1_6a09_e668 * 0x1_6a09_e668 >= 0x1_ffff_fffc_0000_0002) by (nonlinear_arith);
    while lo < hi
        invariant
            lo <= hi <= 0x1_6a09_e668,
            hi * hi >= n,
            lo > 0 ==> (lo - 1) * (lo - 1) < n,
        decreases hi - lo,
    {
        let mid: u64 = lo + (hi - lo) / 2;
        assert(mid * mid <= 0x1_6a09_e668 * 0x1_6a09_e668) by (nonlinear_arith)
            requires
                0 <= mid <= 0x1_6a09_e668,
        ;
        let sq: u128 = mid as u128 * mid as u128;
        if sq >= n {
            hi = mid;
        } else {
            lo = mid + 1;
        }
    }
    lo
}

/// The share of a step of length `speed` that falls on an axis.
fn axis(d: i64, len: u64, speed: u16) -> (m: i64)
    requires
        -0xffff_ffff <= d <= 0xffff_ffff,
        len > 0,
    ensures
        m == axis_step(d as int, len as int, speed as int),
        -0xffff_ffff_ffff <= m <= 0xffff_ffff_ffff,
{
    let mag: u64 = if d >= 0 {
        d as u64
    } else {
        (-d) as u64
    };
    assert(mag * speed <= 0xffff_ffff * 0xffff) by (nonlinear_arith)
        requires
            0 <= mag <= 0xffff_ffff,
            0 <= speed <= 0xffff,
    ;
    let share: u64 = mag * (speed as u64) / len;
    assert(share <= mag * speed) by (nonlinear_arith)
        requires
            share == (mag * speed) / (len as int),
            len > 0,
            mag * speed >= 0,
    ;
    if d >= 0 {
        share as i64
    } else {
        -(share as i64)
    }
}

/// Where an entity at `from` stands after a step of length `speed` towards
/// `to`.
pub fn step_toward(from: Pos, to: Pos, speed: u16) -> (next: Pos)
    ensures
        is_step(from, to, speed as nat, next),
{
    let len: u64 = ceil_sqrt(distance_squared(to, from));
    proof {
        lemma_dist_sq_symmetric(to, from);
    }
    if len == 0 {
        assert(is_ceil_sqrt(dist_sq(from, to), 0) && from == stepped(from, to, 0, speed as nat));
        return from;
    }
    let mx: i64 = axis(to.x as i64 - from.x as i64, len, speed);
    let my: i64 = axis(to.y as i64 - from.y as i64, len, speed);
    let next = Pos {
        x: clamp_to_i32((from.x as i64 + mx) as i128),
        y: clamp_to_i32((from.y as i64 + my) as i128),
    };
    assert(is_ceil_sqrt(dist_sq(from, to), len as nat) && next == stepped(
        from,
        to,
        len as nat,
        speed as nat,
    ));
    next
}

/// The distance from `a` to `b` is the distance from `b` to `a`.
pub proof fn lemma_dist_sq_symmetric(a: Pos, b: Pos)
    ensures
        dist_sq(a, b) == dist_sq(b, a),
{
    let dx = a.x - b.x;
    let dy = a.y - b.y;
    assert(dx * dx == (-dx) * (-dx) && dy * dy == (-dy) * (-dy)) by (nonlinear_arith);
    assert(b.x - a.x == -dx && b.y - a.y == -dy);
}

/// The root of a number, rounded up, is determined by the number.
pub proof fn lemma_ceil_sqrt_unique(n: nat, a: nat, b: nat)
    requires
        is_ceil_sqrt(n, a),
        is_ceil_sqrt(n, b),
    ensures
        a == b,
{
    if a < b {
        assert(a * a <= (b - 1) * (b - 1)) by (nonlinear_arith)
            requires
                0 <= a <= b - 1,
        ;
    } else if b < a {
        assert(b * b <= (a - 1) * (a - 1)) by (nonlinear_arith)
            requires
                0 <= b <= a - 1,
        ;
    }
}

/// A step never carries farther along an axis than `speed`, and it goes the
/// way of the point aimed at.
pub proof fn lemma_axis_step_bounds(d: int, len: int, speed: int)
    requires
        len > 0,
        speed >= 0,
        d * d <= len * len,
    ensures
        -speed <= axis_step(d, len, speed) <= speed,
        d >= 0 ==> axis_step(d, len, speed) >= 0,
        d <= 0 ==> axis_step(d, len, speed) <= 0,
{
    lemma_axis_step_floor(d, len, speed);
}

/// The bounds of a step along an axis, with the rounding that gives them.
proof fn lemma_axis_step_floor(d: int, len: int, speed: int)
    requires
        len > 0,
        speed >= 0,
        d * d <= len * len,
    ensures
        -speed <= axis_step(d, len, speed) <= speed,
        d >= 0 ==> axis_step(d, len, speed) >= 0,
        d <= 0 ==> axis_step(d, len, speed) <= 0,
        axis_step(d, len, speed) * len <= d * speed || d < 0,
        axis_step(d, len, speed) * len >= d * speed || d >= 0,
{
    let m: int = if d >= 0 { d } else { -d };
    assert(m * m == d * d) by (nonlinear_arith)
        requires
            m == d || m == -d,
    ;
    assert(m <= len) by (nonlinear_arith)
        requires
            m * m <= len * len,
            m >= 0,
            len > 0,
    ;
    let q = (m * speed) / len;
    if d == 0 {
        assert(m * speed == 0) by (nonlinear_arith)
            requires
                m == 0,
        ;
    }
    assert(m * speed >= 0) by (nonlinear_arith)
        requires
            m >= 0,
            speed >= 0,
    ;
    vstd::arithmetic::div_mod::lemma_fundamental_div_mod(m * speed, len);
    vstd::arithmetic::div_mod::lemma_mod_bound(m * speed, len);
    assert(0 <= q) by (nonlinear_arith)
        requires
            m * speed >= 0,
            len > 0,
            q == (m * speed) / len,
    ;
    assert(len * q <= m * speed);
    assert(q <= speed) by (nonlinear_arith)
        requires
            len * q <= m * speed,
            0 <= m <= len,
            len > 0,
            speed >= 0,
            q >= 0,
    ;
    assert(q * len == len * q) by (nonlinear_arith);
    if d < 0 {
        assert((-q) * len == -(q * len)) by (nonlinear_arith);
        assert((-d) * speed == -(d * speed)) by (nonlinear_arith);
    }
}

/// A step towards a point straight along the `x` axis covers exactly `speed`
/// along that axis and nothing along the other.
pub proof fn lemma_step_along_axis(from: Pos, to: Pos, speed: nat, next: Pos)
    requires
        to.y == from.y,
        to.x != from.x,
        is_step(from, to, speed, next),
    ensures
        next.y == from.y,
        to.x > from.x ==> next.x == clamp_i32(from.x + speed),
        to.x < from.x ==> next.x == clamp_i32(from.x - speed),
{
    let d: int = to.x - from.x;
    let m: nat = if d >= 0 { d as nat } else { (-d) as nat };
    let a: int = from.x - to.x;
    let b: int = from.y - to.y;
    assert(a * a == m * m && a * a >= 0 && b * b == 0) by (nonlinear_arith)
        requires
            m == a || m == -a,
            b == 0,
    ;
    assert(dist_sq(from, to) == m * m);
    assert(is_ceil_sqrt(m * m, m)) by (nonlinear_arith)
        requires
            m >= 1,
    ;
    let len = choose|len: nat|
        is_ceil_sqrt(dist_sq(from, to), len) && next == stepped(from, to, len, speed);
    lemma_ceil_sqrt_unique(m * m, len, m);
    let mi: int = m as int;
    let si: int = speed as int;
    assert((mi * si) / mi == si) by (nonlinear_arith)
        requires
            mi >= 1,
            si >= 0,
    ;
    assert(0 * si == 0) by (nonlinear_arith);
    assert(axis_step(0, mi, si) == 0);
}

/// A step is never longer than `speed`.
pub proof fn lemma_step_length(dx: int, dy: int, len: int, speed: int)
    requires
        len > 0,
        speed >= 0,
        dx * dx + dy * dy <= len * len,
    ensures
        axis_step(dx, len, speed) * axis_step(dx, len, speed) + axis_step(dy, len, speed)
            * axis_step(dy, len, speed) <= speed * speed,
{
    let a = axis_step(dx, len, speed);
    let b = axis_step(dy, len, speed);
    assert(dx * dx >= 0 && dy * dy >= 0) by (nonlinear_arith);
    lemma_axis_step_floor(dx, len, speed);
    lemma_axis_step_floor(dy, len, speed);
    let aa: int = if a >= 0 { a } else { -a };
    let bb: int = if b >= 0 { b } else { -b };
    let mx: int = if dx >= 0 { dx } else { -dx };
    let my: int = if dy >= 0 { dy } else { -dy };
    assert(aa * len <= mx * speed) by (nonlinear_arith)
        requires
            a * len <= dx * speed || dx < 0,
            a * len >= dx * speed || dx >= 0,
            aa == a || aa == -a,
            aa >= 0,
            mx == dx || mx == -dx,
            mx >= 0,
            dx >= 0 ==> a >= 0,
            dx <= 0 ==> a <= 0,
            dx >= 0 ==> mx == dx,
            dx < 0 ==> mx == -dx,
            a >= 0 ==> aa == a,
            a < 0 ==> aa == -a,
    ;
    assert(bb * len <= my * speed) by (nonlinear_arith)
        requires
            b * len <= dy * speed || dy < 0,
            b * len >= dy * speed || dy >= 0,
            bb == b || bb == -b,
            bb >= 0,
            my == dy || my == -dy,
            my >= 0,
            dy >= 0 ==> b >= 0,
            dy <= 0 ==> b <= 0,
            dy >= 0 ==> my == dy,
            dy < 0 ==> my == -dy,
            b >= 0 ==> bb == b,
            b < 0 ==> bb == -b,
    ;
    assert((aa * len) * (aa * len) <= (mx * speed) * (mx * speed)) by (nonlinear_arith)
        requires
            0 <= aa * len <= mx * speed,
    ;
    assert((bb * len) * (bb * len) <= (my * speed) * (my * speed)) by (nonlinear_arith)
        requires
            0 <= bb * len <= my * speed,
    ;
    assert(0 <= aa * len && 0 <= bb * len) by (nonlinear_arith)
        requires
            aa >= 0,
            bb >= 0,
            len > 0,
    ;
    assert((aa * len) * (aa * len) == (a * a) * (len * len)) by (nonlinear_arith)
        requires
            aa == a || aa == -a,
    ;
    assert((bb * len) * (bb * len) == (b * b) * (len * len)) by (nonlinear_arith)
        requires
            bb == b || bb == -b,
    ;
    assert((mx * speed) * (mx * speed) == (dx * dx) * (speed * speed)) by (nonlinear_arith)
        requires
            mx == dx || mx == -dx,
    ;
    assert((my * speed) * (my * speed) == (dy * dy) * (speed * speed)) by (nonlinear_arith)
        requires
            my == dy || my == -dy,
    ;
    let n = a * a + b * b;
    let l2 = len * len;
    let s2 = speed * speed;
    assert(n * l2 <= s2 * l2) by (nonlinear_arith)
        requires
            n == a * a + b * b,
            (a * a) * l2 <= (dx * dx) * s2,
            (b * b) * l2 <= (dy * dy) * s2,
            dx * dx + dy * dy <= l2,
            s2 >= 0,
    ;
    assert(l2 > 0) by (nonlinear_arith)
        requires
            l2 == len * len,
            len > 0,
    ;
    assert(n <= s2) by (nonlinear_arith)
        requires
            n * l2 <= s2 * l2,
            l2 > 0,
    ;
}

} // verus!
