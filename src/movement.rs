//! Player steering from the held buttons, and the play-field bounds.
use vstd::prelude::*;
use crate::geometry::{
    abs, clamp, clamp_i64, is_root, isqrt, lemma_root_exists, root, Vec2, MAX_FRAME_MICROS, POS_LIMIT,
};

verus! {

/// Half the play field's width.
pub const FIELD_HALF_W: i64 = 250_000_000;

/// Half the play field's height.
pub const FIELD_HALF_H: i64 = 400_000_000;

/// How far the player's centre stays from the field's edge.
pub const PLAYER_HALF: i64 = 15_000_000;

/// Player speed in pixels per second, which is also units per microsecond.
pub const PLAYER_SPEED: i64 = 500;

/// The buttons held during one frame. `restart` is true only on the frame on
/// which the confirm button went down.
#[derive(Clone, Copy, Debug, PartialEq, Eq, Structural)]
pub struct Input {
    pub left: bool,
    pub right: bool,
    pub up: bool,
    pub down: bool,
    pub shoot: bool,
    pub restart: bool,
}

/// `+1`, `-1` or `0` on one axis; opposite buttons cancel.
pub open spec fn axis(neg: bool, pos: bool) -> int {
    (if pos { 1int } else { 0int }) - (if neg { 1int } else { 0int })
}

/// `m` in direction `dir` along one axis.
pub open spec fn along(dir: int, m: int) -> int {
    if dir > 0 { m } else if dir < 0 { -m } else { 0 }
}

/// Distance the player covers in `dt` microseconds.
pub open spec fn step_length(dt: int) -> int {
    PLAYER_SPEED * dt
}

/// The player's displacement over one frame: the unit direction of the held
/// buttons times the distance; on a diagonal each component is the distance
/// over the square root of two, rounded down.
pub open spec fn displacement(input: Input, dt: int) -> (int, int) {
    let dx = axis(input.left, input.right);
    let dy = axis(input.down, input.up);
    let d = step_length(dt);
    if dx != 0 && dy != 0 {
        let c = root(d * d / 2);
        (along(dx, c), along(dy, c))
    } else {
        (along(dx, d), along(dy, d))
    }
}

/// Where the player's centre may be.
pub open spec fn in_player_area(p: Vec2) -> bool {
    -(FIELD_HALF_W - PLAYER_HALF) <= p.x <= FIELD_HALF_W - PLAYER_HALF
        && -(FIELD_HALF_H - PLAYER_HALF) <= p.y <= FIELD_HALF_H - PLAYER_HALF
}

/// Inside the play field, edges included.
pub open spec fn in_field(p: Vec2) -> bool {
    -FIELD_HALF_W <= p.x <= FIELD_HALF_W && -FIELD_HALF_H <= p.y <= FIELD_HALF_H
}

/// The player's new position: moved by the displacement, then clamped into
/// the player area.
pub open spec fn moved_player(p: Vec2, input: Input, dt: int) -> Vec2 {
    let (mx, my) = displacement(input, dt);
    let xl = FIELD_HALF_W - PLAYER_HALF;
    let yl = FIELD_HALF_H - PLAYER_HALF;
    Vec2 { x: clamp(p.x + mx, -xl, xl) as i64, y: clamp(p.y + my, -yl, yl) as i64 }
}

fn axis_exec(neg: bool, pos: bool) -> (r: i64)
    ensures
        r == axis(neg, pos),
{
    let mut v: i64 = 0;
    if pos {
        v = v + 1;
    }
    if neg {
        v = v - 1;
    }
    v
}

fn along_exec(dir: i64, m: i64) -> (r: i64)
    requires
        m >= 0,
    ensures
        r == along(dir as int, m as int),
{
    if dir > 0 {
        m
    } else if dir < 0 {
        -m
    } else {
        0
    }
}

/// The player's displacement over a frame of `dt` microseconds.
pub fn player_displacement(input: &Input, dt: u64) -> (r: Vec2)
    requires
        dt <= MAX_FRAME_MICROS,
    ensures
        r.x == displacement(*input, dt as int).0,
        r.y == displacement(*input, dt as int).1,
        abs(r.x as int) <= step_length(dt as int),
        abs(r.y as int) <= step_length(dt as int),
{
    let dx = axis_exec(input.left, input.right);
    let dy = axis_exec(input.down, input.up);
    let d: i64 = PLAYER_SPEED * (dt as i64);
    if dx != 0 && dy != 0 {
        assert(d * d <= 2_500_000_000_000_000_000_000) by (nonlinear_arith)
            requires
                0 <= d <= 50_000_000_000,
        ;
        let dd: u128 = (d as u128) * (d as u128);
        let c = isqrt(dd / 2);
        proof {
            assert(c * c <= dd / 2);
            assert(c * c <= d * d) by (nonlinear_arith)
                requires
                    c * c <= dd / 2,
                    dd == d * d,
            ;
            assert(c <= d) by (nonlinear_arith)
                requires
                    c * c <= d * d,
                    c >= 0,
                    d >= 0,
            ;
        }
        let c = c as i64;
        Vec2 { x: along_exec(dx, c), y: along_exec(dy, c) }
    } else {
        Vec2 { x: along_exec(dx, d), y: along_exec(dy, d) }
    }
}

/// Moves the player by one frame of input and keeps it inside its area.
pub fn move_player(p: Vec2, input: &Input, dt: u64) -> (r: Vec2)
    requires
        p.within(POS_LIMIT as int),
        dt <= MAX_FRAME_MICROS,
    ensures
        r == moved_player(p, *input, dt as int),
        in_player_area(r),
{
    let m = player_displacement(input, dt);
    let xl = FIELD_HALF_W - PLAYER_HALF;
    let yl = FIELD_HALF_H - PLAYER_HALF;
    Vec2 { x: clamp_i64(p.x + m.x, -xl, xl), y: clamp_i64(p.y + m.y, -yl, yl) }
}

/// Whatever the buttons, the player covers `PLAYER_SPEED * dt` per frame up
/// to rounding below one unit per axis, and stands still when no axis has a
/// net direction.
pub proof fn lemma_player_speed(input: Input, dt: int)
    requires
        0 <= dt,
    ensures
        ({
            let (x, y) = displacement(input, dt);
            let d = step_length(dt);
            let (ax, ay) = (axis(input.left, input.right), axis(input.down, input.up));
            let moving = ax != 0 || ay != 0;
            &&& moving ==> x * x + y * y <= d * d
            &&& moving ==> d * d < (abs(x) + 1) * (abs(x) + 1) + (abs(y) + 1) * (abs(y) + 1)
            &&& moving && (ax == 0 || ay == 0) ==> abs(x) + abs(y) == d
            &&& !moving ==> x == 0 && y == 0
        }),
{
    let dx = axis(input.left, input.right);
    let dy = axis(input.down, input.up);
    let d = step_length(dt);
    let (x, y) = displacement(input, dt);
    assert(d >= 0) by (nonlinear_arith)
        requires
            d == PLAYER_SPEED * dt,
            dt >= 0,
    ;
    if dx != 0 && dy != 0 {
        let n = d * d / 2;
        assert(n >= 0) by (nonlinear_arith)
            requires
                n == d * d / 2,
        ;
        let c = root(n);
        lemma_root_exists(n);
        assert(is_root(n, c));
        assert(c >= 0);
        assert(abs(x) == c && abs(y) == c);
        assert(x * x + y * y == 2 * (c * c)) by (nonlinear_arith)
            requires
                abs(x) == c,
                abs(y) == c,
        ;
        assert(2 * (c * c) <= d * d) by (nonlinear_arith)
            requires
                c * c <= n,
                n == d * d / 2,
        ;
        assert(d * d < 2 * ((c + 1) * (c + 1))) by (nonlinear_arith)
            requires
                n < (c + 1) * (c + 1),
                n == d * d / 2,
        ;
        assert((abs(x) + 1) * (abs(x) + 1) + (abs(y) + 1) * (abs(y) + 1) == 2 * ((c + 1) * (c + 1)));
    } else if dx != 0 || dy != 0 {
        assert(x * x + y * y == d * d) by (nonlinear_arith)
            requires
                (x == d || x == -d) && y == 0 || (y == d || y == -d) && x == 0,
        ;
        assert(d * d < (abs(x) + 1) * (abs(x) + 1) + (abs(y) + 1) * (abs(y) + 1)) by (nonlinear_arith)
            requires
                (abs(x) == d && y == 0) || (abs(y) == d && x == 0),
                d >= 0,
        ;
    }
}

/// Whatever the earlier position, the buttons and the frame length, the
/// player ends the frame inside the player area.
pub proof fn lemma_player_stays_inside(p: Vec2, input: Input, dt: int)
    ensures
        in_player_area(moved_player(p, input, dt)),
{
}

} // verus!
