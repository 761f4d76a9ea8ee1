use danmaku::combat::{Status, Team};
use danmaku::entity::{Entity, Fighter, Kind, Label};
use danmaku::geometry::{Collider, Vec2};
use danmaku::movement::Input;
use danmaku::world::{GameState, Hit, World};

fn idle() -> Input {
    Input { left: false, right: false, up: false, down: false, shoot: false, restart: false }
}

fn shoot() -> Input {
    Input { shoot: true, ..idle() }
}

fn restart() -> Input {
    Input { restart: true, ..idle() }
}

fn playing_world() -> World {
    let mut w = World::new(42);
    w.step(&shoot(), 16_000);
    assert_eq!(w.state, GameState::Playing);
    w
}

fn count(w: &World, kind: Kind) -> usize {
    w.entities.iter().filter(|e| e.kind == kind).count()
}

fn index_of(w: &World, id: u64) -> Option<usize> {
    w.entities.iter().position(|e| e.id == id)
}

fn bullet(team: Team, at: Vec2, attack: i32) -> Entity {
    Entity {
        id: 0,
        kind: Kind::Bullet,
        pos: at,
        vel: None,
        acc: None,
        fighter: Some(Fighter {
            team,
            collider: Collider::Rect { half_w: 5_000_000, half_h: 10_000_000 },
            status: Status::new(1, attack),
        }),
        fire: None,
    }
}

fn place_enemy(w: &mut World, at: Vec2) -> u64 {
    w.spawn_enemy_at(0, 0);
    let i = w.entities.len() - 1;
    w.entities[i].pos = at;
    w.entities[i].vel = None;
    w.entities[i].acc = None;
    w.entities[i].id
}

#[test]
fn new_world_shows_title() {
    let w = World::new(1);
    assert_eq!(w.state, GameState::TitleScreen);
    assert_eq!(w.entities.len(), 2);
    assert_eq!(w.entities[0].kind, Kind::Text(Label::Title));
    assert_eq!(w.entities[1].kind, Kind::Text(Label::Controls));
    assert_eq!(w.score.get_score(), 0);
    assert_eq!(w.spawn_config.hp, 10);
    assert_eq!(w.spawn_config.attack, 1);
}

#[test]
fn title_waits_for_shoot() {
    let mut w = World::new(1);
    assert_eq!(w.step(&restart(), 16_000), None);
    assert_eq!(w.state, GameState::TitleScreen);
    assert_eq!(w.entities.len(), 2);
    w.step(&shoot(), 16_000);
    assert_eq!(w.state, GameState::Playing);
    assert_eq!(count(&w, Kind::Player), 1);
    assert_eq!(count(&w, Kind::Text(Label::Title)), 0);
    assert_eq!(count(&w, Kind::Text(Label::ScoreBoard)), 1);
}

#[test]
fn first_playing_frame_reports_score() {
    let mut w = playing_world();
    assert_eq!(w.step(&idle(), 16_000), Some(0));
    assert_eq!(w.step(&idle(), 16_000), None);
}

#[test]
fn held_shoot_fires_every_period() {
    let mut w = playing_world();
    w.step(&shoot(), 50_000);
    assert_eq!(count(&w, Kind::Bullet), 0);
    w.step(&shoot(), 50_000);
    assert_eq!(count(&w, Kind::Bullet), 1);
    let b = w.entities.iter().find(|e| e.kind == Kind::Bullet).unwrap();
    assert_eq!(b.vel, Some(Vec2 { x: 0, y: 800_000_000 }));
    assert_eq!(b.fighter.unwrap().team, Team::Player);
}

#[test]
fn enemy_spawns_at_top_and_drifts_inwards() {
    let mut w = playing_world();
    w.step(&idle(), 1_999_000);
    assert_eq!(count(&w, Kind::Enemy), 0);
    w.step(&idle(), 1_000);
    assert_eq!(count(&w, Kind::Enemy), 1);
    let e = w.entities.iter().find(|e| e.kind == Kind::Enemy).unwrap();
    let f = e.fighter.unwrap();
    assert_eq!(f.status.hp, 10);
    assert_eq!(f.status.attack, 1);
    assert_eq!(f.team, Team::Enemy);
    let v = e.vel.unwrap();
    if e.pos.x > 0 {
        assert!(v.x < 0);
    } else if e.pos.x < 0 {
        assert!(v.x > 0);
    }
}

#[test]
fn enemy_fires_at_player() {
    let mut w = playing_world();
    let id = place_enemy(&mut w, Vec2 { x: 0, y: 0 });
    w.step(&idle(), 400_000);
    assert!(index_of(&w, id).is_some());
    let b = w.entities.iter().find(|e| e.kind == Kind::Bullet).unwrap();
    assert_eq!(b.fighter.unwrap().team, Team::Enemy);
    assert_eq!(b.vel, Some(Vec2 { x: 0, y: -300_000_000 }));
}

#[test]
fn motion_is_semi_implicit() {
    let mut w = playing_world();
    w.spawn_enemy_at(0, 0);
    let i = w.entities.len() - 1;
    w.entities[i].pos = Vec2 { x: 0, y: 0 };
    w.update_velocity(1_000_000);
    w.move_velocity(1_000_000);
    let e = w.entities[i];
    assert_eq!(e.acc, Some(Vec2 { x: 0, y: -125_000_000 }));
    assert_eq!(e.vel, Some(Vec2 { x: 0, y: -325_000_000 }));
    assert_eq!(e.pos, Vec2 { x: 0, y: -325_000_000 });
}

#[test]
fn bullet_damages_only_first_target() {
    let mut w = playing_world();
    let a = place_enemy(&mut w, Vec2 { x: 0, y: 0 });
    let b = place_enemy(&mut w, Vec2 { x: 1_000_000, y: 0 });
    w.spawn(bullet(Team::Player, Vec2 { x: 0, y: 0 }, 1));
    let i = w.entities.len() - 1;
    let (hit, j) = w.resolve_bullet(i);
    assert_eq!(hit, Hit::NoKill);
    assert_eq!(w.entities[j].id, a);
    assert_eq!(w.entities[index_of(&w, a).unwrap()].fighter.unwrap().status.hp, 9);
    assert_eq!(w.entities[index_of(&w, b).unwrap()].fighter.unwrap().status.hp, 10);
    assert_eq!(count(&w, Kind::Bullet), 0);
}

#[test]
fn bullets_ignore_own_side_and_bullets() {
    let mut w = playing_world();
    let e = place_enemy(&mut w, Vec2 { x: 0, y: 0 });
    w.spawn(bullet(Team::Enemy, Vec2 { x: 0, y: 0 }, 1));
    w.spawn(bullet(Team::Player, Vec2 { x: 100_000_000, y: 100_000_000 }, 1));
    w.spawn(bullet(Team::Enemy, Vec2 { x: 100_000_000, y: 100_000_000 }, 1));
    assert!(!w.check_collisions_with_bullet());
    assert_eq!(count(&w, Kind::Bullet), 3);
    assert_eq!(w.entities[index_of(&w, e).unwrap()].fighter.unwrap().status.hp, 10);
}

#[test]
fn bodies_exchange_no_bullet_damage() {
    let mut w = playing_world();
    let p = w.find_player().unwrap();
    let at = w.entities[p].pos;
    let e = place_enemy(&mut w, at);
    let before = w.entities.clone();
    assert!(!w.check_collisions_with_bullet());
    assert_eq!(w.entities, before);
    assert!(index_of(&w, e).is_some());
}

#[test]
fn ten_hits_kill_enemy_and_score_once() {
    let mut w = playing_world();
    let e = place_enemy(&mut w, Vec2 { x: 0, y: 0 });
    let start = w.score.get_score();
    for k in 1..=10 {
        w.spawn(bullet(Team::Player, Vec2 { x: 0, y: 0 }, 1));
        assert!(!w.check_collisions_with_bullet());
        if k < 10 {
            let i = index_of(&w, e).unwrap();
            assert_eq!(w.entities[i].fighter.unwrap().status.hp, 10 - k);
            assert_eq!(w.score.get_score(), start);
        }
    }
    assert!(index_of(&w, e).is_none());
    assert_eq!(w.score.get_score(), start + 1);
    w.spawn(bullet(Team::Player, Vec2 { x: 0, y: 0 }, 1));
    assert!(!w.check_collisions_with_bullet());
    assert_eq!(count(&w, Kind::Bullet), 1);
    assert_eq!(w.score.get_score(), start + 1);
}

#[test]
fn enemy_bullet_kills_player() {
    let mut w = playing_world();
    let p = w.find_player().unwrap();
    let at = w.entities[p].pos;
    let score = w.score.get_score();
    w.spawn(bullet(Team::Enemy, at, 1));
    assert!(w.check_collisions_with_bullet());
    assert_eq!(count(&w, Kind::Player), 0);
    assert_eq!(w.score.get_score(), score);
}

#[test]
fn touching_enemy_ends_run() {
    let mut w = playing_world();
    let p = w.find_player().unwrap();
    let at = w.entities[p].pos;
    let e = place_enemy(&mut w, at);
    w.spawn(bullet(Team::Player, Vec2 { x: 100_000_000, y: 0 }, 1));
    let score = w.score.get_score();
    w.step(&idle(), 1_000);
    assert_eq!(w.state, GameState::GameOver);
    assert_eq!(count(&w, Kind::Player), 0);
    assert_eq!(count(&w, Kind::Bullet), 0);
    assert!(index_of(&w, e).is_none());
    assert_eq!(w.score.get_score(), score);
    assert_eq!(count(&w, Kind::Text(Label::GameOver)), 1);
}

#[test]
fn contact_with_tough_player_removes_enemy() {
    let mut w = playing_world();
    let p = w.find_player().unwrap();
    w.entities[p].fighter = Some(Fighter {
        team: Team::Player,
        collider: Collider::Circle { radius: 5_000_000 },
        status: Status::new(5, 10),
    });
    let at = w.entities[p].pos;
    let e = place_enemy(&mut w, at);
    let score = w.score.get_score();
    assert!(!w.check_collisions_between_target());
    assert!(index_of(&w, e).is_none());
    assert_eq!(w.score.get_score(), score + 1);
    let p = w.find_player().unwrap();
    assert_eq!(w.entities[p].fighter.unwrap().status.hp, 4);
}

#[test]
fn game_over_waits_for_restart() {
    let mut w = playing_world();
    w.step(&idle(), 16_000);
    let p = w.find_player().unwrap();
    let at = w.entities[p].pos;
    place_enemy(&mut w, at);
    w.step(&idle(), 1_000);
    assert_eq!(w.state, GameState::GameOver);
    let before = w.entities.clone();
    w.step(&shoot(), 16_000);
    assert_eq!(w.state, GameState::GameOver);
    assert_eq!(w.entities, before);
}

#[test]
fn restart_clears_run_and_score() {
    let mut w = playing_world();
    let e = place_enemy(&mut w, Vec2 { x: 0, y: 0 });
    for _ in 0..10 {
        w.spawn(bullet(Team::Player, Vec2 { x: 0, y: 0 }, 1));
        w.check_collisions_with_bullet();
    }
    assert!(index_of(&w, e).is_none());
    assert_eq!(w.score.get_score(), 1);
    let p = w.find_player().unwrap();
    let at = w.entities[p].pos;
    place_enemy(&mut w, Vec2 { x: 100_000_000, y: 100_000_000 });
    place_enemy(&mut w, at);
    w.step(&idle(), 1_000);
    assert_eq!(w.state, GameState::GameOver);
    let old_next = w.next_id;
    w.step(&restart(), 16_000);
    assert_eq!(w.state, GameState::Playing);
    assert_eq!(w.score.get_score(), 0);
    assert!(w.entities.iter().all(|e| e.id >= old_next));
    assert_eq!(count(&w, Kind::Enemy), 0);
    assert_eq!(count(&w, Kind::Player), 1);
    assert_eq!(w.step(&idle(), 16_000), Some(0));
}

#[test]
fn leaving_field_culls_bullets_and_enemies_only() {
    let mut w = playing_world();
    w.spawn(bullet(Team::Player, Vec2 { x: 0, y: 401_000_000 }, 1));
    w.spawn(bullet(Team::Player, Vec2 { x: 0, y: 399_000_000 }, 1));
    place_enemy(&mut w, Vec2 { x: -251_000_000, y: 0 });
    let n = w.entities.len();
    w.despawn_objects();
    assert_eq!(w.entities.len(), n - 2);
    assert_eq!(count(&w, Kind::Bullet), 1);
    assert_eq!(count(&w, Kind::Enemy), 0);
    assert_eq!(count(&w, Kind::Player), 1);
}

#[test]
fn steering_moves_player() {
    let mut w = playing_world();
    let p = w.find_player().unwrap();
    let before = w.entities[p].pos;
    w.steer_player(&Input { right: true, ..idle() }, 10_000);
    assert_eq!(w.entities[p].pos, Vec2 { x: before.x + 5_000_000, y: before.y });
}

#[test]
fn game_over_adds_exactly_end_texts() {
    let mut w = playing_world();
    let p = w.find_player().unwrap();
    let at = w.entities[p].pos;
    w.spawn(bullet(Team::Player, Vec2 { x: 100_000_000, y: 0 }, 1));
    let before: Vec<u64> = w.entities.iter().filter(|e| e.kind != Kind::Bullet && e.kind != Kind::Player).map(|e| e.id).collect();
    w.spawn(bullet(Team::Enemy, at, 1));
    assert!(w.check_collisions_with_bullet());
    w.gameover_setup();
    let ids: Vec<u64> = w.entities.iter().map(|e| e.id).collect();
    assert_eq!(&ids[..before.len()], &before[..]);
    assert_eq!(w.entities.len(), before.len() + 2);
    assert_eq!(w.entities[before.len()].kind, Kind::Text(Label::GameOver));
    assert_eq!(w.entities[before.len() + 1].kind, Kind::Text(Label::RestartHint));
}

#[test]
fn restart_leaves_board_and_player_only() {
    let mut w = playing_world();
    let p = w.find_player().unwrap();
    let at = w.entities[p].pos;
    place_enemy(&mut w, at);
    w.step(&idle(), 1_000);
    assert_eq!(w.state, GameState::GameOver);
    w.step(&restart(), 16_000);
    assert_eq!(w.entities.len(), 2);
    assert_eq!(w.entities[0].kind, Kind::Text(Label::ScoreBoard));
    assert_eq!(w.entities[1].kind, Kind::Player);
}

#[test]
fn each_ready_enemy_fires_one_bullet() {
    let mut w = playing_world();
    place_enemy(&mut w, Vec2 { x: -100_000_000, y: 100_000_000 });
    place_enemy(&mut w, Vec2 { x: 100_000_000, y: 100_000_000 });
    let n = w.entities.len();
    w.enemy_shoot(400_000);
    assert_eq!(w.entities.len(), n + 2);
    let v1 = w.entities[n].vel.unwrap();
    let v2 = w.entities[n + 1].vel.unwrap();
    assert!(v1.x > 0 && v1.y < 0);
    assert!(v2.x < 0 && v2.y < 0);
    w.enemy_shoot(100_000);
    assert_eq!(w.entities.len(), n + 2);
}
