//! Directions: two-component integer vectors whose length is `VEL_SCALE`
//! (one unit), up to rounding.
use vstd::prelude::*;

verus! {

/// The length of a unit direction.
pub const VEL_SCALE: i64 = 1000;

/// A direction of motion, not necessarily of unit length.
#[derive(Clone, Copy, Debug, PartialEq, Eq, Structural)]
pub struct Velocity {
    pub x: i64,
    pub y: i64,
}

pub open spec fn abs(v: int) -> int {
    if v < 0 { -v } else { v }
}

/// `v` has unit length up to the rounding of each component to an integer:
/// the true unit vector lies within one step of it on each axis.
pub open spec fn is_unit(v: Velocity) -> bool {
    let ax = abs(v.x as int);
    let ay = abs(v.y as int);
    let s = VEL_SCALE as int;
    &&& ax * ax + ay * ay < (s + 1) * (s + 1)
    &&& (ax + 1) * (ax + 1) + (ay + 1) * (ay + 1) > s * s
}

/// `r` is the integer square root of `n`.
pub open spec fn is_isqrt(n: int, r: int) -> bool {
    0 <= r && r * r <= n < (r + 1) * (r + 1)
}

/// The largest integer whose square does not exceed `n`.
pub fn isqrt(n: u64) -> (r: u64)
    requires
        n < 0x1000_0000_0000,
    ensures
        is_isqrt(n as int, r as int),
{
    let mut lo: u64 = 0;
    let mut hi: u64 = 0x40_0001;
    assert(hi * hi > n) by (nonlinear_arith)
        requires hi == 0x40_0001, n < 0x1000_0000_0000;
    while hi - lo > 1
        invariant
            lo < hi <= 0x40_0001,
            lo * lo <= n,
            n < hi * hi,
        decreases hi - lo,
    {
        let mid: u64 = lo + (hi - lo) / 2;
        assert(mid * mid <= 0x40_0001 * 0x40_0001) by (nonlinear_arith)
            requires mid <= 0x40_0001;
        if mid * mid <= n {
            lo = mid;
        } else {
            hi = mid;
        }
    }
    lo
}

/// The magnitude of one component after scaling `(a, b)` to unit length:
/// `|c| * VEL_SCALE^2 / isqrt(VEL_SCALE^2 * (a^2 + b^2))`, rounded toward zero,
/// but at least one step when `c` is not zero, so that no component loses
/// its sign.
pub open spec fn scaled_component(c: int, len: int) -> int {
    if c == 0 {
        0
    } else if abs(c) * (VEL_SCALE * VEL_SCALE) / len < 1 {
        1
    } else {
        abs(c) * (VEL_SCALE * VEL_SCALE) / len
    }
}

pub open spec fn with_sign(sign_of: int, magnitude: int) -> int {
    if sign_of < 0 { -magnitude } else { magnitude }
}

/// The unit direction of `(a, b)`; the zero vector has the direction of the
/// positive x axis.
pub open spec fn normalized(a: int, b: int, len: int) -> Velocity {
    if a == 0 && b == 0 {
        Velocity { x: VEL_SCALE, y: 0 }
    } else {
        Velocity {
            x: with_sign(a, scaled_component(a, len)) as i64,
            y: with_sign(b, scaled_component(b, len)) as i64,
        }
    }
}

/// The integer square root of `n`, for `n >= 0`.
pub open spec fn isqrt_of(n: int) -> int {
    choose|r: int| is_isqrt(n, r)
}

proof fn lemma_isqrt_unique(n: int, r1: int, r2: int)
    requires
        is_isqrt(n, r1),
        is_isqrt(n, r2),
    ensures
        r1 == r2,
{
    if r1 < r2 {
        assert((r1 + 1) * (r1 + 1) <= r2 * r2) by (nonlinear_arith)
            requires 0 <= r1, r1 + 1 <= r2;
    } else if r2 < r1 {
        assert((r2 + 1) * (r2 + 1) <= r1 * r1) by (nonlinear_arith)
            requires 0 <= r2, r2 + 1 <= r1;
    }
}

/// The unit direction of `(a, b)`, each component rounded toward zero.
pub open spec fn unit_direction(a: int, b: int) -> Velocity {
    normalized(a, b, isqrt_of(VEL_SCALE * VEL_SCALE * (a * a + b * b)))
}

/// The largest magnitude of a component that `normalize` accepts.
pub const NORMALIZE_LIMIT: i64 = 2048;

proof fn lemma_unit_bounds(a: int, b: int, len: int, x: int, y: int)
    requires
        0 <= a <= NORMALIZE_LIMIT,
        0 <= b <= NORMALIZE_LIMIT,
        a + b > 0,
        is_isqrt(VEL_SCALE * VEL_SCALE * (a * a + b * b), len),
        x == a * (VEL_SCALE * VEL_SCALE) / len,
        y == b * (VEL_SCALE * VEL_SCALE) / len,
    ensures
        len >= VEL_SCALE,
        x * x + y * y < (VEL_SCALE + 1) * (VEL_SCALE + 1),
        (x + 1) * (x + 1) + (y + 1) * (y + 1) > VEL_SCALE * VEL_SCALE,
{
    let s = VEL_SCALE as int;
    let q = s * s;
    let n = q * (a * a + b * b);
    assert(a * a + b * b >= 1) by (nonlinear_arith)
        requires 0 <= a, 0 <= b, a + b > 0;
    assert(n >= q) by (nonlinear_arith)
        requires n == q * (a * a + b * b), a * a + b * b >= 1, q >= 0;
    assert(len >= s) by (nonlinear_arith)
        requires n >= q, n < (len + 1) * (len + 1), q == s * s, s > 0, len >= 0;
    assert(x * len <= a * q && a * q < (x + 1) * len) by (nonlinear_arith)
        requires x == a * q / len, len > 0, a >= 0, q >= 0;
    assert(y * len <= b * q && b * q < (y + 1) * len) by (nonlinear_arith)
        requires y == b * q / len, len > 0, b >= 0, q >= 0;
    // Upper bound: (x^2 + y^2) len^2 <= (a^2 + b^2) q^2 = n q < (len + 1)^2 q.
    let xl = x * len;
    let yl = y * len;
    let aq = a * q;
    let bq = b * q;
    assert(0 <= xl && 0 <= yl) by (nonlinear_arith)
        requires xl == x * len, yl == y * len, 0 <= x, 0 <= y, len > 0;
    assert(xl * xl <= aq * aq) by (nonlinear_arith)
        requires 0 <= xl <= aq;
    assert(yl * yl <= bq * bq) by (nonlinear_arith)
        requires 0 <= yl <= bq;
    assert((x * x + y * y) * (len * len) == xl * xl + yl * yl) by (nonlinear_arith)
        requires xl == x * len, yl == y * len;
    assert(n * q == aq * aq + bq * bq) by (nonlinear_arith)
        requires aq == a * q, bq == b * q, n == q * (a * a + b * b);
    assert(n * q < (len + 1) * (len + 1) * q) by (nonlinear_arith)
        requires n < (len + 1) * (len + 1), q > 0;
    assert((len + 1) * (len + 1) * q <= (s + 1) * (s + 1) * (len * len)) by (nonlinear_arith)
        requires len >= s, s > 0, q == s * s;
    assert(x * x + y * y < (s + 1) * (s + 1)) by (nonlinear_arith)
        requires
            (x * x + y * y) * (len * len) < (s + 1) * (s + 1) * (len * len),
            len > 0;
    // Lower bound: ((x + 1)^2 + (y + 1)^2) len^2 > (a^2 + b^2) q^2 = n q >= len^2 q.
    let xl1 = (x + 1) * len;
    let yl1 = (y + 1) * len;
    assert(aq * aq < xl1 * xl1) by (nonlinear_arith)
        requires 0 <= aq < xl1;
    assert(bq * bq < yl1 * yl1) by (nonlinear_arith)
        requires 0 <= bq < yl1;
    assert(((x + 1) * (x + 1) + (y + 1) * (y + 1)) * (len * len) == xl1 * xl1 + yl1 * yl1)
        by (nonlinear_arith)
        requires xl1 == (x + 1) * len, yl1 == (y + 1) * len;
    assert(0 <= aq && 0 <= bq) by (nonlinear_arith)
        requires aq == a * q, bq == b * q, a >= 0, b >= 0, q >= 0;
    assert(n * q >= len * len * q) by (nonlinear_arith)
        requires len * len <= n, q > 0;
    assert((x + 1) * (x + 1) + (y + 1) * (y + 1) > q) by (nonlinear_arith)
        requires
            ((x + 1) * (x + 1) + (y + 1) * (y + 1)) * (len * len) > len * len * q,
            len > 0;
}

/// Raising a zero component to one step keeps the vector unit length.
proof fn lemma_kept_nonzero(x: int, y: int)
    requires
        0 <= x,
        0 <= y,
        x * x + y * y < (VEL_SCALE + 1) * (VEL_SCALE + 1),
        (x + 1) * (x + 1) + (y + 1) * (y + 1) > VEL_SCALE * VEL_SCALE,
    ensures
        ({
            let kx = if x == 0 { 1 } else { x };
            let ky = if y == 0 { 1 } else { y };
            &&& kx * kx + ky * ky < (VEL_SCALE + 1) * (VEL_SCALE + 1)
            &&& (kx + 1) * (kx + 1) + (ky + 1) * (ky + 1) > VEL_SCALE * VEL_SCALE
            &&& kx * kx + y * y < (VEL_SCALE + 1) * (VEL_SCALE + 1)
            &&& (kx + 1) * (kx + 1) + (y + 1) * (y + 1) > VEL_SCALE * VEL_SCALE
            &&& x * x + ky * ky < (VEL_SCALE + 1) * (VEL_SCALE + 1)
            &&& (x + 1) * (x + 1) + (ky + 1) * (ky + 1) > VEL_SCALE * VEL_SCALE
        }),
{
    assert(x <= 1000 && y <= 1000) by (nonlinear_arith)
        requires 0 <= x, 0 <= y, x * x + y * y < 1001 * 1001;
    assert(x * x <= 1000 * 1000 && y * y <= 1000 * 1000) by (nonlinear_arith)
        requires 0 <= x <= 1000, 0 <= y <= 1000;
}

/// Scales `(a, b)` to unit length; the zero vector becomes the positive x axis.
/// Each nonzero component keeps its sign.
pub fn normalize(a: i64, b: i64) -> (r: Velocity)
    requires
        -NORMALIZE_LIMIT <= a <= NORMALIZE_LIMIT,
        -NORMALIZE_LIMIT <= b <= NORMALIZE_LIMIT,
    ensures
        r == unit_direction(a as int, b as int),
        is_unit(r),
        a > 0 ==> r.x > 0,
        a < 0 ==> r.x < 0,
        b > 0 ==> r.y > 0,
        b < 0 ==> r.y < 0,
{
    if a == 0 && b == 0 {
        assert(normalized(a as int, b as int, 0) == Velocity { x: VEL_SCALE, y: 0 });
        assert(1000 * 1000 + 0 * 0 < 1001 * 1001 && 1001 * 1001 + 1 * 1 > 1000 * 1000);
        assert(is_unit(Velocity { x: VEL_SCALE, y: 0 }));
        return Velocity { x: VEL_SCALE, y: 0 };
    }
    let ua: u64 = if a < 0 { (-a) as u64 } else { a as u64 };
    let ub: u64 = if b < 0 { (-b) as u64 } else { b as u64 };
    assert(ua * ua <= 2048 * 2048 && ub * ub <= 2048 * 2048) by (nonlinear_arith)
        requires ua <= 2048, ub <= 2048;
    assert(ua * ua + ub * ub >= 1) by (nonlinear_arith)
        requires ua + ub > 0;
    let n: u64 = 1_000_000 * (ua * ua + ub * ub);
    assert(n as int == VEL_SCALE * VEL_SCALE * (a * a + b * b)) by (nonlinear_arith)
        requires
            n == 1_000_000 * (ua * ua + ub * ub),
            ua == abs(a as int),
            ub == abs(b as int);
    let len: u64 = isqrt(n);
    assert(len >= 1000 && ua * 1_000_000 <= 2048 * 1_000_000 && ub * 1_000_000 <= 2048 * 1_000_000) by (nonlinear_arith)
        requires is_isqrt(n as int, len as int), n >= 1_000_000, ua <= 2048, ub <= 2048;
    let mx: u64 = ua * 1_000_000 / len;
    let my: u64 = ub * 1_000_000 / len;
    proof {
        lemma_unit_bounds(ua as int, ub as int, len as int, mx as int, my as int);
    }
    assert(mx <= ua * 1_000_000 && my <= ub * 1_000_000) by (nonlinear_arith)
        requires mx == (ua * 1_000_000) as int / (len as int), my == (ub * 1_000_000) as int / (len as int), len >= 1;
    proof {
        lemma_kept_nonzero(mx as int, my as int);
    }
    let kx: u64 = if ua != 0 && mx == 0 { 1 } else { mx };
    let ky: u64 = if ub != 0 && my == 0 { 1 } else { my };
    let x: i64 = if a < 0 { -(kx as i64) } else { kx as i64 };
    let y: i64 = if b < 0 { -(ky as i64) } else { ky as i64 };
    let r = Velocity { x, y };
    assert(scaled_component(a as int, len as int) == kx);
    assert(scaled_component(b as int, len as int) == ky);
    proof {
        let m = VEL_SCALE * VEL_SCALE * (a * a + b * b);
        assert(is_isqrt(m, len as int));
        lemma_isqrt_unique(m, len as int, isqrt_of(m));
    }
    assert(r == normalized(a as int, b as int, len as int));
    r
}

} // verus!
