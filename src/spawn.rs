//! Randomised enemy spawning and enemy aiming.
use vstd::prelude::*;
use rand::{Rng, SeedableRng};
use rand::rngs::StdRng;
use crate::geometry::{abs, div_toward_zero, div_toward_zero_i128, isqrt, root, Vec2, POS_LIMIT};

verus! {

#[verifier::external_type_specification]
#[verifier::external_body]
pub struct ExStdRng(StdRng);

/// Spawn offsets are drawn from `[-SPAWN_X_RANGE, SPAWN_X_RANGE)`.
pub const SPAWN_X_RANGE: i64 = 200_000_000;

/// Smallest sideways speed of a new enemy.
pub const BIAS_MIN: i64 = 10_000_000;

/// Sideways speeds of new enemies stay below this.
pub const BIAS_MAX: i64 = 60_000_000;

/// Speed of an enemy's bullets.
pub const ENEMY_BULLET_SPEED: i64 = 300_000_000;

/// Relies on rand's `SeedableRng::seed_from_u64`: a generator whose sequence
/// depends on `seed` alone.
#[verifier::external_body]
pub(crate) fn seeded_rng(seed: u64) -> (r: StdRng) {
    StdRng::seed_from_u64(seed)
}

/// Relies on rand's `Rng::random_range` on a half-open range: a value in
/// `[lo, hi)`; it panics when the range is empty.
#[verifier::external_body]
pub(crate) fn draw_between(rng: &mut StdRng, lo: i64, hi: i64) -> (r: i64)
    requires
        lo < hi,
    ensures
        lo <= r < hi,
{
    rng.random_range(lo..hi)
}

/// `vx` is a sideways velocity that bends an enemy spawned at offset `x`
/// back towards the centre line: drawn from `[-BIAS_MAX, -BIAS_MIN)` on the
/// right half, from `[BIAS_MIN, BIAS_MAX)` on the left half, and zero on the
/// centre line.
pub open spec fn inward(x: int, vx: int) -> bool {
    &&& x > 0 ==> -BIAS_MAX <= vx < -BIAS_MIN
    &&& x < 0 ==> BIAS_MIN <= vx < BIAS_MAX
    &&& x == 0 ==> vx == 0
}

/// The half-open range from which the sideways velocity of an enemy spawned
/// at a non-zero offset `x` is drawn.
pub fn bias_range(x: i64) -> (r: (i64, i64))
    requires
        x != 0,
    ensures
        x > 0 ==> r.0 == -BIAS_MAX && r.1 == -BIAS_MIN,
        x < 0 ==> r.0 == BIAS_MIN && r.1 == BIAS_MAX,
        forall|vx: int| r.0 <= vx < r.1 ==> inward(x as int, vx),
{
    if x > 0 {
        (-BIAS_MAX, -BIAS_MIN)
    } else {
        (BIAS_MIN, BIAS_MAX)
    }
}

/// Draws the offset and sideways velocity of the next enemy.
pub fn draw_spawn(rng: &mut StdRng) -> (r: (i64, i64))
    ensures
        -SPAWN_X_RANGE <= r.0 < SPAWN_X_RANGE,
        inward(r.0 as int, r.1 as int),
{
    let x = draw_between(rng, -SPAWN_X_RANGE, SPAWN_X_RANGE);
    if x == 0 {
        (x, 0)
    } else {
        let (lo, hi) = bias_range(x);
        (x, draw_between(rng, lo, hi))
    }
}

/// Velocity of a bullet fired from `from` at `to`: the direction, scaled to
/// the bullet speed and rounded towards zero; straight down when the two
/// points coincide.
pub open spec fn aim(from: Vec2, to: Vec2) -> Vec2 {
    let dx = to.x - from.x;
    let dy = to.y - from.y;
    if dx == 0 && dy == 0 {
        Vec2 { x: 0, y: -ENEMY_BULLET_SPEED as i64 }
    } else {
        let len = root(dx * dx + dy * dy);
        Vec2 {
            x: div_toward_zero(dx * ENEMY_BULLET_SPEED, len) as i64,
            y: div_toward_zero(dy * ENEMY_BULLET_SPEED, len) as i64,
        }
    }
}

/// Velocity of a bullet aimed from `from` at `to`.
pub fn aim_velocity(from: Vec2, to: Vec2) -> (r: Vec2)
    requires
        from.within(POS_LIMIT as int),
        to.within(POS_LIMIT as int),
    ensures
        r == aim(from, to),
        r.within(ENEMY_BULLET_SPEED as int),
{
    let dx = to.x - from.x;
    let dy = to.y - from.y;
    if dx == 0 && dy == 0 {
        return Vec2 { x: 0, y: -ENEMY_BULLET_SPEED };
    }
    let ax = if dx < 0 { -dx } else { dx };
    let ay = if dy < 0 { -dy } else { dy };
    assert(ax * ax + ay * ay <= 8_000_000_000_000_000_000_000_000_000_000) by (nonlinear_arith)
        requires
            0 <= ax <= 2_000_000_000_000_000,
            0 <= ay <= 2_000_000_000_000_000,
    ;
    let n: u128 = (ax as u128) * (ax as u128) + (ay as u128) * (ay as u128);
    assert(n == dx * dx + dy * dy) by (nonlinear_arith)
        requires
            n == ax * ax + ay * ay,
            ax == abs(dx as int),
            ay == abs(dy as int),
    ;
    let len = isqrt(n);
    proof {
        assert(ax * ax <= n && ay * ay <= n) by (nonlinear_arith)
            requires
                n == ax * ax + ay * ay,
        ;
        assert(n >= 1) by (nonlinear_arith)
            requires
                n == ax * ax + ay * ay,
                ax >= 1 || ay >= 1,
                ax >= 0,
                ay >= 0,
        ;
        assert(len > 0) by (nonlinear_arith)
            requires
                n < (len + 1) * (len + 1),
                n >= 1,
                len >= 0,
        ;
        assert(ax <= len) by (nonlinear_arith)
            requires
                ax * ax <= n,
                n < (len + 1) * (len + 1),
                ax >= 0,
                len >= 0,
        ;
        assert(ay <= len) by (nonlinear_arith)
            requires
                ay * ay <= n,
                n < (len + 1) * (len + 1),
                ay >= 0,
                len >= 0,
        ;
        assert(len <= 3_000_000_000_000_000) by (nonlinear_arith)
            requires
                len * len <= n,
                n <= 8_000_000_000_000_000_000_000_000_000_000,
                len >= 0,
        ;
        assert(abs(dx * ENEMY_BULLET_SPEED) <= len * ENEMY_BULLET_SPEED) by (nonlinear_arith)
            requires
                abs(dx as int) <= len,
        ;
        assert(abs(dy * ENEMY_BULLET_SPEED) <= len * ENEMY_BULLET_SPEED) by (nonlinear_arith)
            requires
                abs(dy as int) <= len,
        ;
    }
    let vx = div_toward_zero_i128((dx as i128) * (ENEMY_BULLET_SPEED as i128), len as i128);
    let vy = div_toward_zero_i128((dy as i128) * (ENEMY_BULLET_SPEED as i128), len as i128);
    proof {
        lemma_quotient_bound(dx * ENEMY_BULLET_SPEED, len as int);
        lemma_quotient_bound(dy * ENEMY_BULLET_SPEED, len as int);
    }
    Vec2 { x: vx as i64, y: vy as i64 }
}

/// `|a| <= len * S` bounds the rounded quotient by `S`.
proof fn lemma_quotient_bound(a: int, len: int)
    requires
        len > 0,
        abs(a) <= len * ENEMY_BULLET_SPEED,
    ensures
        abs(div_toward_zero(a, len)) <= ENEMY_BULLET_SPEED,
{
    let m = abs(a);
    assert(m / len <= ENEMY_BULLET_SPEED) by (nonlinear_arith)
        requires
            0 <= m <= len * ENEMY_BULLET_SPEED,
            len > 0,
    ;
    assert(m / len >= 0) by (nonlinear_arith)
        requires
            0 <= m,
            len > 0,
    ;
}

} // verus!
