//! Fixed-point plane geometry. Lengths are in micro-pixels (one pixel is
//! `UNITS_PER_PX` units), times in microseconds, speeds in units per second.
use vstd::prelude::*;

verus! {

/// Units in one pixel.
pub const UNITS_PER_PX: i64 = 1_000_000;

/// Microseconds in one second.
pub const MICROS_PER_SEC: i64 = 1_000_000;

/// No coordinate ever leaves `[-POS_LIMIT, POS_LIMIT]`; motion stops at the
/// limit, far outside the play field, so that sums stay within 64 bits.
pub const POS_LIMIT: i64 = 1_000_000_000_000_000;

/// No velocity or acceleration component ever leaves `[-RATE_LIMIT, RATE_LIMIT]`.
pub const RATE_LIMIT: i64 = 10_000_000_000;

/// Largest half extent of a collider.
pub const SIZE_LIMIT: i64 = 1_000_000_000_000;

/// Longest frame the simulation accepts, in microseconds: a rate times a
/// frame time must fit in 64 bits.
pub const MAX_FRAME_MICROS: u64 = 100_000_000;

/// A point or a vector in the plane.
#[derive(Clone, Copy, Debug, PartialEq, Eq, Structural)]
pub struct Vec2 {
    pub x: i64,
    pub y: i64,
}

/// Collision shape, centred on the entity's position.
#[derive(Clone, Copy, Debug, PartialEq, Eq, Structural)]
pub enum Collider {
    Circle { radius: i64 },
    Rect { half_w: i64, half_h: i64 },
}

pub open spec fn abs(a: int) -> int {
    if a < 0 { -a } else { a }
}

pub open spec fn clamp(v: int, lo: int, hi: int) -> int {
    if v < lo { lo } else if v > hi { hi } else { v }
}

/// Division rounding towards zero, for a positive divisor.
pub open spec fn div_toward_zero(a: int, d: int) -> int {
    if a >= 0 { a / d } else { -((-a) / d) }
}

/// How far a rate moves a quantity over `dt` microseconds.
pub open spec fn rate_times(rate: int, dt: int) -> int {
    div_toward_zero(rate * dt, MICROS_PER_SEC as int)
}

/// `r` is the integer square root of `n`.
pub open spec fn is_root(n: int, r: int) -> bool {
    0 <= r && r * r <= n && n < (r + 1) * (r + 1)
}

/// The integer square root of a non-negative `n`.
pub open spec fn root(n: int) -> int {
    choose|r: int| is_root(n, r)
}

impl Vec2 {
    pub open spec fn within(self, limit: int) -> bool {
        -limit <= self.x <= limit && -limit <= self.y <= limit
    }
}

impl Collider {
    /// Half extents on the two axes; a circle counts as its bounding square.
    pub open spec fn half(self) -> (int, int) {
        match self {
            Collider::Circle { radius } => (radius as int, radius as int),
            Collider::Rect { half_w, half_h } => (half_w as int, half_h as int),
        }
    }

    pub open spec fn wf(self) -> bool {
        0 <= self.half().0 <= SIZE_LIMIT && 0 <= self.half().1 <= SIZE_LIMIT
    }

    /// Half extents on the two axes.
    pub fn get_size(&self) -> (r: (i64, i64))
        ensures
            r.0 == self.half().0,
            r.1 == self.half().1,
    {
        match self {
            Collider::Circle { radius } => (*radius, *radius),
            Collider::Rect { half_w, half_h } => (*half_w, *half_h),
        }
    }
}

/// The two boxes overlap: on each axis the centres are closer than the sum of
/// the half extents.
pub open spec fn overlaps(p: Vec2, a: Collider, q: Vec2, b: Collider) -> bool {
    abs(p.x - q.x) < a.half().0 + b.half().0 && abs(p.y - q.y) < a.half().1 + b.half().1
}

/// Axis-aligned bounding box test between two colliders.
pub fn check_aabb_collision(p: &Vec2, a: &Collider, q: &Vec2, b: &Collider) -> (r: bool)
    requires
        p.within(POS_LIMIT as int),
        q.within(POS_LIMIT as int),
        a.wf(),
        b.wf(),
    ensures
        r == overlaps(*p, *a, *q, *b),
{
    let (aw, ah) = a.get_size();
    let (bw, bh) = b.get_size();
    let dx = p.x - q.x;
    let dy = p.y - q.y;
    let adx = if dx < 0 { -dx } else { dx };
    let ady = if dy < 0 { -dy } else { dy };
    adx < aw + bw && ady < ah + bh
}

/// Clamps `v` into `[lo, hi]`.
pub fn clamp_i64(v: i64, lo: i64, hi: i64) -> (r: i64)
    requires
        lo <= hi,
    ensures
        r == clamp(v as int, lo as int, hi as int),
{
    if v < lo {
        lo
    } else if v > hi {
        hi
    } else {
        v
    }
}

/// Division of `a` by a positive `d`, rounding towards zero.
pub fn div_toward_zero_i128(a: i128, d: i128) -> (r: i128)
    requires
        d > 0,
        a > i128::MIN,
    ensures
        r == div_toward_zero(a as int, d as int),
{
    if a >= 0 {
        ((a as u128) / (d as u128)) as i128
    } else {
        let m = ((-a) as u128) / (d as u128);
        -(m as i128)
    }
}

/// What a rate adds to a quantity over `dt` microseconds.
pub fn rate_over(rate: i64, dt: u64) -> (r: i64)
    requires
        -RATE_LIMIT <= rate <= RATE_LIMIT,
        dt <= MAX_FRAME_MICROS,
    ensures
        r == rate_times(rate as int, dt as int),
        abs(r as int) <= (RATE_LIMIT as int) * (MAX_FRAME_MICROS as int) / (MICROS_PER_SEC as int),
{
    assert(abs(rate * dt) <= RATE_LIMIT * MAX_FRAME_MICROS) by (nonlinear_arith)
        requires
            -RATE_LIMIT <= rate <= RATE_LIMIT,
            0 <= dt <= MAX_FRAME_MICROS,
    ;
    let prod: i128 = (rate as i128) * (dt as i128);
    let q = div_toward_zero_i128(prod, MICROS_PER_SEC as i128);
    q as i64
}

proof fn lemma_square_monotone(a: int, b: int)
    requires
        0 <= a <= b,
    ensures
        a * a <= b * b,
{
    assert(a * a <= b * b) by (nonlinear_arith)
        requires
            0 <= a <= b,
    ;
}

/// Integer square roots are unique.
pub proof fn lemma_root_unique(n: int, r: int)
    requires
        is_root(n, r),
    ensures
        root(n) == r,
{
    let s = root(n);
    assert(is_root(n, s));
    if s < r {
        lemma_square_monotone(s + 1, r);
    } else if r < s {
        lemma_square_monotone(r + 1, s);
    }
}

/// Every non-negative integer has an integer square root.
pub proof fn lemma_root_exists(n: int)
    requires
        n >= 0,
    ensures
        is_root(n, root(n)),
    decreases n,
{
    if n == 0 {
        assert(is_root(0, 0));
    } else {
        lemma_root_exists(n - 1);
        let r = root(n - 1);
        if n < (r + 1) * (r + 1) {
            assert(is_root(n, r));
        } else {
            assert((r + 2) * (r + 2) == (r + 1) * (r + 1) + 2 * r + 3) by (nonlinear_arith);
            assert(is_root(n, r + 1));
        }
    }
}

/// Integer square root, by bisection.
pub fn isqrt(n: u128) -> (r: u128)
    ensures
        is_root(n as int, r as int),
        r as int == root(n as int),
{
    let mut lo: u128 = 0;
    let mut hi: u128 = 0x1_0000_0000_0000_0000;
    assert(n < hi * hi) by (nonlinear_arith)
        requires
            hi == 0x1_0000_0000_0000_0000u128,
            n <= u128::MAX,
    ;
    while hi - lo > 1
        invariant
            lo < hi <= 0x1_0000_0000_0000_0000u128,
            lo * lo <= n,
            n < hi * hi,
        decreases hi - lo,
    {
        let mid = lo + (hi - lo) / 2;
        assert(mid * mid < 0x1_0000_0000_0000_0000u128 * 0x1_0000_0000_0000_0000u128) by (nonlinear_arith)
            requires
                mid < 0x1_0000_0000_0000_0000u128,
        ;
        assert(mid * mid <= u128::MAX);
        if mid * mid <= n {
            lo = mid;
        } else {
            hi = mid;
        }
    }
    assert(hi == lo + 1);
    proof {
        lemma_root_unique(n as int, lo as int);
    }
    lo
}

} // verus!
