use danmaku::combat::{Status, Team};
use danmaku::cooldown::Cooldown;
use danmaku::geometry::{check_aabb_collision, isqrt, rate_over, Collider, Vec2};
use danmaku::movement::{move_player, player_displacement, Input};
use danmaku::score::Score;
use danmaku::spawn::{aim_velocity, bias_range, draw_spawn, BIAS_MAX, BIAS_MIN, SPAWN_X_RANGE};
use rand::rngs::StdRng;
use rand::SeedableRng;

fn keys(left: bool, right: bool, up: bool, down: bool) -> Input {
    Input { left, right, up, down, shoot: false, restart: false }
}

#[test]
fn cooldown_fires_once_per_period() {
    let mut c = Cooldown::new(100_000);
    assert!(!c.tick(60_000));
    assert!(c.tick(60_000));
    assert_eq!(c.elapsed, 20_000);
    assert!(c.is_finished());
    assert!(!c.tick(10_000));
    assert!(!c.is_finished());
}

#[test]
fn cooldown_keeps_remainder_of_long_frame() {
    let mut c = Cooldown::new(100_000);
    assert!(c.tick(250_000));
    assert_eq!(c.elapsed, 50_000);
    assert!(c.tick(50_000));
    assert_eq!(c.elapsed, 0);
}

#[test]
fn score_flag_is_consumed_once() {
    let mut s = Score::new();
    assert!(s.get_is_changed());
    assert!(!s.get_is_changed());
    assert_eq!(s.add_score(1), 1);
    assert_eq!(s.add_score(1), 2);
    assert!(s.get_is_changed());
    assert!(!s.get_is_changed());
    assert_eq!(s.get_score(), 2);
    s.init_score();
    assert_eq!(s.get_score(), 0);
    assert!(s.get_is_changed());
}

#[test]
fn status_damage_and_death() {
    let mut st = Status::new(10, 1);
    st.reduce_hp(3);
    assert_eq!(st.hp, 7);
    assert!(!st.is_die());
    st.reduce_hp(7);
    assert!(st.is_die());
    assert_eq!(st.get_attack(), 1);
}

#[test]
fn invincible_status_takes_no_damage() {
    let mut st = Status { hp: 2, attack: 0, is_invincible: true };
    st.reduce_hp(5);
    assert_eq!(st.hp, 2);
    assert!(!st.is_die());
}

#[test]
fn collider_half_extents() {
    assert_eq!(Collider::Circle { radius: 5 }.get_size(), (5, 5));
    assert_eq!(Collider::Rect { half_w: 5, half_h: 10 }.get_size(), (5, 10));
}

#[test]
fn aabb_overlap_is_strict() {
    let a = Collider::Rect { half_w: 10, half_h: 10 };
    let b = Collider::Circle { radius: 5 };
    let p = Vec2 { x: 0, y: 0 };
    assert!(check_aabb_collision(&p, &a, &Vec2 { x: 14, y: -14 }, &b));
    assert!(!check_aabb_collision(&p, &a, &Vec2 { x: 15, y: 0 }, &b));
    assert!(!check_aabb_collision(&p, &a, &Vec2 { x: 0, y: -15 }, &b));
}

#[test]
fn integer_square_roots() {
    assert_eq!(isqrt(0), 0);
    assert_eq!(isqrt(1), 1);
    assert_eq!(isqrt(3), 1);
    assert_eq!(isqrt(4), 2);
    assert_eq!(isqrt(15), 3);
    assert_eq!(isqrt(16), 4);
    assert_eq!(isqrt(u128::MAX), u64::MAX as u128);
}

#[test]
fn rates_scale_by_frame_time() {
    assert_eq!(rate_over(800_000_000, 16_000), 12_800_000);
    assert_eq!(rate_over(-3, 500_000), -1);
    assert_eq!(rate_over(3, 500_000), 1);
}

#[test]
fn single_axis_move_covers_full_distance() {
    let d = player_displacement(&keys(false, true, false, false), 1_000);
    assert_eq!(d, Vec2 { x: 500_000, y: 0 });
    let d = player_displacement(&keys(false, false, false, true), 1_000);
    assert_eq!(d, Vec2 { x: 0, y: -500_000 });
}

#[test]
fn diagonal_move_is_normalised() {
    let d = player_displacement(&keys(true, false, true, false), 1_000);
    assert_eq!(d, Vec2 { x: -353_553, y: 353_553 });
    let len2 = (d.x as i128) * (d.x as i128) + (d.y as i128) * (d.y as i128);
    assert!(len2 <= 500_000i128 * 500_000);
    assert!(len2 > 499_999i128 * 499_999);
}

#[test]
fn opposite_buttons_cancel() {
    assert_eq!(player_displacement(&keys(true, true, false, false), 1_000), Vec2 { x: 0, y: 0 });
    assert_eq!(player_displacement(&keys(false, false, true, true), 1_000), Vec2 { x: 0, y: 0 });
    assert_eq!(player_displacement(&keys(false, false, false, false), 1_000), Vec2 { x: 0, y: 0 });
    let d = player_displacement(&keys(true, true, true, false), 1_000);
    assert_eq!(d, Vec2 { x: 0, y: 500_000 });
}

#[test]
fn player_is_clamped_to_its_area() {
    let p = Vec2 { x: 230_000_000, y: -380_000_000 };
    let r = move_player(p, &keys(false, true, false, true), 1_000_000);
    assert_eq!(r, Vec2 { x: 235_000_000, y: -385_000_000 });
    let r = move_player(Vec2 { x: 900_000_000, y: 0 }, &keys(false, false, false, false), 0);
    assert_eq!(r, Vec2 { x: 235_000_000, y: 0 });
}

#[test]
fn spawn_on_right_half_drifts_left() {
    assert_eq!(bias_range(150_000_000), (-60_000_000, -10_000_000));
    let (lo, hi) = bias_range(150_000_000);
    assert!(hi <= 0 && lo < hi);
    assert_eq!(bias_range(-150_000_000), (10_000_000, 60_000_000));
}

#[test]
fn drawn_spawns_stay_in_their_ranges() {
    let mut rng = StdRng::seed_from_u64(7);
    let mut distinct = std::collections::HashSet::new();
    for _ in 0..200 {
        let (x, vx) = draw_spawn(&mut rng);
        assert!(-SPAWN_X_RANGE <= x && x < SPAWN_X_RANGE);
        if x > 0 {
            assert!(-BIAS_MAX <= vx && vx < -BIAS_MIN);
        } else if x < 0 {
            assert!(BIAS_MIN <= vx && vx < BIAS_MAX);
        } else {
            assert_eq!(vx, 0);
        }
        distinct.insert(x);
    }
    assert!(distinct.len() > 1);
}

#[test]
fn aim_points_at_target_with_bullet_speed() {
    let v = aim_velocity(Vec2 { x: 0, y: 0 }, Vec2 { x: 3_000_000, y: -4_000_000 });
    assert_eq!(v, Vec2 { x: 180_000_000, y: -240_000_000 });
    let v = aim_velocity(Vec2 { x: 5, y: 5 }, Vec2 { x: 5, y: 5 });
    assert_eq!(v, Vec2 { x: 0, y: -300_000_000 });
}

#[test]
fn teams_compare() {
    assert!(Team::Player != Team::Enemy);
}
