//! The world: entity table, score, spawn profile and game state, advanced one
//! frame at a time.
use vstd::prelude::*;
use rand::rngs::StdRng;
use crate::combat::{Status, Team};
use crate::cooldown::Cooldown;
use crate::entity::{
    entities_wf, has_player, lemma_push_wf, lemma_remove_wf, lemma_update_wf, Entity, Fighter, Kind,
    Label, ATTACK_LIMIT,
};
use crate::geometry::{
    check_aabb_collision, clamp, clamp_i64, overlaps, rate_over, rate_times, Collider, Vec2, MAX_FRAME_MICROS, POS_LIMIT, RATE_LIMIT,
};
use crate::movement::{
    in_field, in_player_area, move_player, moved_player, Input, FIELD_HALF_H, FIELD_HALF_W,
};
use crate::score::Score;
use crate::spawn::{
    aim, aim_velocity, draw_spawn, inward, seeded_rng, SPAWN_X_RANGE,
};

verus! {

/// Period of enemy spawns.
pub const ENEMY_SPAWN_PERIOD: u64 = 2_000_000;

/// Period of the player's automatic fire.
pub const PLAYER_FIRE_PERIOD: u64 = 100_000;

/// Period of each enemy's fire.
pub const ENEMY_FIRE_PERIOD: u64 = 400_000;

/// Where the player appears.
pub const PLAYER_START_Y: i64 = -300_000_000;

/// How far above the player its bullets appear.
pub const MUZZLE_OFFSET: i64 = 20_000_000;

/// Upward speed of the player's bullets.
pub const PLAYER_BULLET_SPEED: i64 = 800_000_000;

/// Downward speed of a new enemy.
pub const ENEMY_FALL_SPEED: i64 = 200_000_000;

/// Downward acceleration of enemies, which bends their descent into an arc.
pub const ENEMY_FALL_ACCEL: i64 = -125_000_000;

/// Radius of the player's and of enemy bullets' circles.
pub const SMALL_RADIUS: i64 = 5_000_000;

/// Half size of an enemy.
pub const ENEMY_HALF: i64 = 15_000_000;

/// Half extents of a player bullet.
pub const PLAYER_BULLET_HALF_W: i64 = 5_000_000;

pub const PLAYER_BULLET_HALF_H: i64 = 10_000_000;

/// The phases of a run.
#[derive(Clone, Copy, Debug, PartialEq, Eq, Structural)]
pub enum GameState {
    TitleScreen,
    Playing,
    GameOver,
}

/// The enemy spawn timer and the status every enemy starts with.
#[derive(Clone, Copy, Debug, PartialEq, Eq, Structural)]
pub struct EnemySpawnConfig {
    pub cooldown: Cooldown,
    pub hp: i32,
    pub attack: i32,
}

impl EnemySpawnConfig {
    pub open spec fn wf(self) -> bool {
        self.cooldown.wf() && self.hp > 0 && 0 <= self.attack <= ATTACK_LIMIT
    }

    pub fn new(cooldown: Cooldown, hp: i32, attack: i32) -> (r: EnemySpawnConfig)
        ensures
            r == (EnemySpawnConfig { cooldown, hp, attack }),
    {
        EnemySpawnConfig { cooldown, hp, attack }
    }
}

/// How a bullet's collision check ended.
#[derive(Clone, Copy, Debug, PartialEq, Eq, Structural)]
pub enum Hit {
    Miss,
    NoKill,
    EnemyKilled,
    PlayerKilled,
}

/// Which entities a sweep removes.
#[derive(Clone, Copy, Debug, PartialEq, Eq, Structural)]
pub enum Sweep {
    Texts,
    Bullets,
    OutOfField,
}

pub open spec fn swept(e: Entity, which: Sweep) -> bool {
    match which {
        Sweep::Texts => e.is_text(),
        Sweep::Bullets => e.is_bullet(),
        Sweep::OutOfField => (e.is_bullet() || e.is_enemy()) && !in_field(e.pos),
    }
}

pub open spec fn kept(which: Sweep) -> spec_fn(Entity) -> bool {
    |e: Entity| !swept(e, which)
}

pub open spec fn text_at(label: Label, y: int) -> Entity {
    Entity {
        id: 0,
        kind: Kind::Text(label),
        pos: Vec2 { x: 0, y: y as i64 },
        vel: None,
        acc: None,
        fighter: None,
        fire: None,
    }
}

pub open spec fn with_id(e: Entity, id: u64) -> Entity {
    Entity { id, ..e }
}

/// The score after one more enemy death; it stops at the largest value.
pub open spec fn scored(s: Score) -> Score {
    if s.score < i64::MAX {
        Score { score: (s.score + 1) as i64, is_changed: true }
    } else {
        s
    }
}

/// Everything the simulation owns.
pub struct World {
    pub state: GameState,
    pub entities: Vec<Entity>,
    pub next_id: u64,
    pub score: Score,
    pub spawn_config: EnemySpawnConfig,
    pub rng: StdRng,
}

fn text(label: Label, y: i64) -> (r: Entity)
    requires
        -POS_LIMIT <= y <= POS_LIMIT,
    ensures
        r == text_at(label, y as int),
        r.wf(),
{
    Entity {
        id: 0,
        kind: Kind::Text(label),
        pos: Vec2 { x: 0, y },
        vel: None,
        acc: None,
        fighter: None,
        fire: None,
    }
}

impl World {
    pub open spec fn wf(&self) -> bool {
        &&& entities_wf(self.entities@, self.next_id)
        &&& self.spawn_config.wf()
        &&& self.score.score >= 0
        &&& (self.state != GameState::Playing ==> !self.has_player())
    }

    pub open spec fn has_player(&self) -> bool {
        has_player(self.entities@)
    }

    /// A world on the title screen, with the title and the controls shown,
    /// whose enemies have the given profile and whose random draws follow
    /// `seed`.
    pub fn with_spawn_config(seed: u64, spawn_config: EnemySpawnConfig) -> (r: World)
        requires
            spawn_config.wf(),
        ensures
            r.wf(),
            r.state == GameState::TitleScreen,
            r.score == (Score { score: 0, is_changed: true }),
            r.spawn_config == spawn_config,
            r.entities@ == seq![
                with_id(text_at(Label::Title, 0), 0),
                with_id(text_at(Label::Controls, -100_000_000), 1),
            ],
            r.next_id == 2,
    {
        let mut w = World {
            state: GameState::TitleScreen,
            entities: Vec::new(),
            next_id: 0,
            score: Score::new(),
            spawn_config,
            rng: seeded_rng(seed),
        };
        proof {
            assert(entities_wf(w.entities@, 0));
        }
        w.spawn(text(Label::Title, 0));
        w.spawn(text(Label::Controls, -100_000_000));
        w
    }

    /// A world on the title screen whose enemies have 10 hit points and
    /// attack 1 and appear every two seconds.
    pub fn new(seed: u64) -> (r: World)
        ensures
            r.wf(),
            r.state == GameState::TitleScreen,
            r.score == (Score { score: 0, is_changed: true }),
            r.spawn_config == (EnemySpawnConfig {
                cooldown: Cooldown { duration: ENEMY_SPAWN_PERIOD, elapsed: 0, finished: false },
                hp: 10,
                attack: 1,
            }),
            r.next_id == 2,
            r.entities@ == seq![
                with_id(text_at(Label::Title, 0), 0),
                with_id(text_at(Label::Controls, -100_000_000), 1),
            ],
    {
        let config = EnemySpawnConfig::new(Cooldown::new(ENEMY_SPAWN_PERIOD), 10, 1);
        World::with_spawn_config(seed, config)
    }

    /// Adds `e` under the next free id; does nothing once ids run out.
    pub fn spawn(&mut self, e: Entity) -> (r: bool)
        requires
            entities_wf(old(self).entities@, old(self).next_id),
            e.wf(),
            e.is_player() ==> !old(self).has_player(),
        ensures
            r == (old(self).next_id < u64::MAX),
            r ==> final(self).entities@ == old(self).entities@.push(with_id(e, old(self).next_id)),
            r ==> final(self).next_id == old(self).next_id + 1,
            !r ==> final(self).entities@ == old(self).entities@ && final(self).next_id == old(self).next_id,
            entities_wf(final(self).entities@, final(self).next_id),
            final(self).has_player() == (old(self).has_player() || (r && e.is_player())),
            final(self).state == old(self).state,
            final(self).score == old(self).score,
            final(self).spawn_config == old(self).spawn_config,
    {
        if self.next_id == u64::MAX {
            return false;
        }
        let mut e = e;
        e.id = self.next_id;
        proof {
            lemma_push_wf(self.entities@, self.next_id, e);
        }
        self.entities.push(e);
        self.next_id = self.next_id + 1;
        true
    }

    /// Removes the entity at index `i`.
    pub fn despawn(&mut self, i: usize)
        requires
            entities_wf(old(self).entities@, old(self).next_id),
            i < old(self).entities.len(),
        ensures
            final(self).entities@ == old(self).entities@.remove(i as int),
            entities_wf(final(self).entities@, final(self).next_id),
            final(self).next_id == old(self).next_id,
            final(self).state == old(self).state,
            final(self).score == old(self).score,
            final(self).spawn_config == old(self).spawn_config,
            old(self).entities@[i as int].is_player() ==> !final(self).has_player(),
            !old(self).entities@[i as int].is_player() ==> final(self).has_player() == old(self).has_player(),
    {
        proof {
            lemma_remove_wf(self.entities@, self.next_id, i as int);
        }
        self.entities.remove(i);
    }

    /// Removes every entity that `which` selects, keeping the order of the
    /// rest.
    pub fn sweep(&mut self, which: Sweep)
        requires
            entities_wf(old(self).entities@, old(self).next_id),
        ensures
            final(self).entities@ == old(self).entities@.filter(kept(which)),
            entities_wf(final(self).entities@, final(self).next_id),
            final(self).next_id == old(self).next_id,
            final(self).state == old(self).state,
            final(self).score == old(self).score,
            final(self).spawn_config == old(self).spawn_config,
            final(self).has_player() == old(self).has_player(),
    {
        let ghost s = self.entities@;
        let ghost n = s.len();
        let mut i: usize = 0;
        let mut j: usize = 0;
        proof {
            assert(s.subrange(0, 0).filter(kept(which)) =~= Seq::<Entity>::empty());
            assert(s.subrange(0, 0).filter(kept(which)) + s.subrange(0, n as int) =~= s);
        }
        while i < self.entities.len()
            invariant
                entities_wf(self.entities@, self.next_id),
                self.next_id == old(self).next_id,
                self.state == old(self).state,
                self.score == old(self).score,
                self.spawn_config == old(self).spawn_config,
                s == old(self).entities@,
                n == s.len(),
                n == old(self).entities.len(),
                0 <= j <= n,
                i == s.subrange(0, j as int).filter(kept(which)).len(),
                self.entities.len() == i + (n - j),
                self.entities@ == s.subrange(0, j as int).filter(kept(which)) + s.subrange(j as int, n as int),
                self.has_player() == has_player(s),
            decreases n - j,
        {
            let ghost before = self.entities@;
            let ghost f = s.subrange(0, j as int).filter(kept(which));
            proof {
                assert(s.subrange(0, j as int + 1) =~= s.subrange(0, j as int).push(s[j as int]));
                s.subrange(0, j as int).lemma_filter_push(s[j as int], kept(which));
                assert(before[i as int] == s[j as int]);
            }
            let e = self.entities[i];
            if is_swept(&e, which) {
                self.despawn(i);
                proof {
                    assert(self.entities@ =~= s.subrange(0, j as int + 1).filter(kept(which)) + s.subrange(j as int + 1, n as int));
                }
            } else {
                proof {
                    assert(self.entities@ =~= s.subrange(0, j as int + 1).filter(kept(which)) + s.subrange(j as int + 1, n as int));
                }
                i = i + 1;
            }
            j = j + 1;
        }
        proof {
            assert(s.subrange(0, n as int) =~= s);
            assert(self.entities@ =~= s.filter(kept(which)));
        }
    }
}

fn is_swept(e: &Entity, which: Sweep) -> (r: bool)
    requires
        e.wf(),
    ensures
        r == swept(*e, which),
{
    match which {
        Sweep::Texts => match e.kind {
            Kind::Text(_) => true,
            _ => false,
        },
        Sweep::Bullets => e.kind == Kind::Bullet,
        Sweep::OutOfField => (e.kind == Kind::Bullet || e.kind == Kind::Enemy) && !(-FIELD_HALF_W
            <= e.pos.x && e.pos.x <= FIELD_HALF_W && -FIELD_HALF_H <= e.pos.y && e.pos.y
            <= FIELD_HALF_H),
    }
}


pub open spec fn new_player() -> Entity {
    Entity {
        id: 0,
        kind: Kind::Player,
        pos: Vec2 { x: 0, y: PLAYER_START_Y as i64 },
        vel: None,
        acc: None,
        fighter: Some(Fighter {
            team: Team::Player,
            collider: Collider::Circle { radius: SMALL_RADIUS },
            status: Status { hp: 1, attack: 0, is_invincible: false },
        }),
        fire: Some(Cooldown { duration: PLAYER_FIRE_PERIOD, elapsed: 0, finished: false }),
    }
}

pub open spec fn new_player_bullet(at: Vec2) -> Entity {
    Entity {
        id: 0,
        kind: Kind::Bullet,
        pos: Vec2 { x: at.x, y: (at.y + MUZZLE_OFFSET) as i64 },
        vel: Some(Vec2 { x: 0, y: PLAYER_BULLET_SPEED as i64 }),
        acc: None,
        fighter: Some(Fighter {
            team: Team::Player,
            collider: Collider::Rect { half_w: PLAYER_BULLET_HALF_W, half_h: PLAYER_BULLET_HALF_H },
            status: Status { hp: 1, attack: 1, is_invincible: false },
        }),
        fire: None,
    }
}

pub open spec fn new_enemy_bullet(at: Vec2, vel: Vec2) -> Entity {
    Entity {
        id: 0,
        kind: Kind::Bullet,
        pos: at,
        vel: Some(vel),
        acc: None,
        fighter: Some(Fighter {
            team: Team::Enemy,
            collider: Collider::Circle { radius: SMALL_RADIUS },
            status: Status { hp: 1, attack: 1, is_invincible: false },
        }),
        fire: None,
    }
}

pub open spec fn new_enemy(x: int, vx: int, hp: int, attack: int) -> Entity {
    Entity {
        id: 0,
        kind: Kind::Enemy,
        pos: Vec2 { x: x as i64, y: FIELD_HALF_H as i64 },
        vel: Some(Vec2 { x: vx as i64, y: -ENEMY_FALL_SPEED as i64 }),
        acc: Some(Vec2 { x: 0, y: ENEMY_FALL_ACCEL as i64 }),
        fighter: Some(Fighter {
            team: Team::Enemy,
            collider: Collider::Rect { half_w: ENEMY_HALF, half_h: ENEMY_HALF },
            status: Status { hp: hp as i32, attack: attack as i32, is_invincible: false },
        }),
        fire: Some(Cooldown { duration: ENEMY_FIRE_PERIOD, elapsed: 0, finished: false }),
    }
}

fn player_entity() -> (r: Entity)
    ensures
        r == new_player(),
        r.wf(),
{
    Entity {
        id: 0,
        kind: Kind::Player,
        pos: Vec2 { x: 0, y: PLAYER_START_Y },
        vel: None,
        acc: None,
        fighter: Some(Fighter {
            team: Team::Player,
            collider: Collider::Circle { radius: SMALL_RADIUS },
            status: Status::new(1, 0),
        }),
        fire: Some(Cooldown::new(PLAYER_FIRE_PERIOD)),
    }
}

fn player_bullet(at: Vec2) -> (r: Entity)
    requires
        in_player_area(at),
    ensures
        r == new_player_bullet(at),
        r.wf(),
{
    Entity {
        id: 0,
        kind: Kind::Bullet,
        pos: Vec2 { x: at.x, y: at.y + MUZZLE_OFFSET },
        vel: Some(Vec2 { x: 0, y: PLAYER_BULLET_SPEED }),
        acc: None,
        fighter: Some(Fighter {
            team: Team::Player,
            collider: Collider::Rect { half_w: PLAYER_BULLET_HALF_W, half_h: PLAYER_BULLET_HALF_H },
            status: Status::new(1, 1),
        }),
        fire: None,
    }
}

fn enemy_bullet(at: Vec2, vel: Vec2) -> (r: Entity)
    requires
        at.within(POS_LIMIT as int),
        vel.within(RATE_LIMIT as int),
    ensures
        r == new_enemy_bullet(at, vel),
        r.wf(),
{
    Entity {
        id: 0,
        kind: Kind::Bullet,
        pos: at,
        vel: Some(vel),
        acc: None,
        fighter: Some(Fighter {
            team: Team::Enemy,
            collider: Collider::Circle { radius: SMALL_RADIUS },
            status: Status::new(1, 1),
        }),
        fire: None,
    }
}

fn enemy_entity(x: i64, vx: i64, hp: i32, attack: i32) -> (r: Entity)
    requires
        -POS_LIMIT <= x <= POS_LIMIT,
        -RATE_LIMIT <= vx <= RATE_LIMIT,
        hp > 0,
        0 <= attack <= ATTACK_LIMIT,
    ensures
        r == new_enemy(x as int, vx as int, hp as int, attack as int),
        r.wf(),
{
    Entity {
        id: 0,
        kind: Kind::Enemy,
        pos: Vec2 { x, y: FIELD_HALF_H },
        vel: Some(Vec2 { x: vx, y: -ENEMY_FALL_SPEED }),
        acc: Some(Vec2 { x: 0, y: ENEMY_FALL_ACCEL }),
        fighter: Some(Fighter {
            team: Team::Enemy,
            collider: Collider::Rect { half_w: ENEMY_HALF, half_h: ENEMY_HALF },
            status: Status::new(hp, attack),
        }),
        fire: Some(Cooldown::new(ENEMY_FIRE_PERIOD)),
    }
}

impl World {
    /// The index of the player, if there is one.
    pub fn find_player(&self) -> (r: Option<usize>)
        requires
            entities_wf(self.entities@, self.next_id),
        ensures
            r matches Some(p) ==> p < self.entities.len() && self.entities@[p as int].is_player(),
            r is None ==> !self.has_player(),
    {
        let mut i: usize = 0;
        while i < self.entities.len()
            invariant
                i <= self.entities.len(),
                forall|k: int| 0 <= k < i ==> !(#[trigger] self.entities@[k]).is_player(),
            decreases self.entities.len() - i,
        {
            if self.entities[i].kind == Kind::Player {
                return Some(i);
            }
            i = i + 1;
        }
        None
    }

    /// Entering play: the score board and the player appear.
    pub fn setup(&mut self)
        requires
            old(self).wf(),
            !old(self).has_player(),
        ensures
            final(self).wf(),
            final(self).state == GameState::Playing,
            final(self).score == old(self).score,
            final(self).spawn_config == old(self).spawn_config,
            old(self).next_id < u64::MAX - 1 ==> final(self).entities@ == old(self).entities@.push(
                with_id(text_at(Label::ScoreBoard, FIELD_HALF_H as int), old(self).next_id),
            ).push(with_id(new_player(), (old(self).next_id + 1) as u64)),
            forall|k: int|
                old(self).entities.len() <= k < final(self).entities.len() ==> (#[trigger] final(self).entities@[k]).id >= old(self).next_id,
            old(self).entities@.is_prefix_of(final(self).entities@),
            old(self).next_id < u64::MAX - 1 ==> final(self).next_id == old(self).next_id + 2 && final(self).has_player(),
    {
        self.spawn(text(Label::ScoreBoard, FIELD_HALF_H));
        self.spawn(player_entity());
        self.state = GameState::Playing;
    }

    /// Entering game over: every bullet disappears and the end texts appear.
    pub fn gameover_setup(&mut self)
        requires
            old(self).wf(),
            !old(self).has_player(),
        ensures
            final(self).wf(),
            final(self).state == GameState::GameOver,
            final(self).score == old(self).score,
            final(self).spawn_config == old(self).spawn_config,
            forall|k: int| 0 <= k < final(self).entities.len() ==> !(#[trigger] final(self).entities@[k]).is_bullet(),
            old(self).entities@.filter(kept(Sweep::Bullets)).is_prefix_of(final(self).entities@),
            old(self).next_id < u64::MAX - 1 ==> final(self).entities@ == old(self).entities@.filter(kept(Sweep::Bullets)).push(
                with_id(text_at(Label::GameOver, 0), old(self).next_id),
            ).push(with_id(text_at(Label::RestartHint, -50_000_000), (old(self).next_id + 1) as u64)),
            old(self).next_id < u64::MAX - 1 ==> final(self).next_id == old(self).next_id + 2,
    {
        self.sweep(Sweep::Bullets);
        let ghost s = self.entities@;
        self.spawn(text(Label::GameOver, 0));
        self.spawn(text(Label::RestartHint, -50_000_000));
        self.state = GameState::GameOver;
        proof {
            assert forall|k: int| 0 <= k < self.entities.len() implies !(#[trigger] self.entities@[k]).is_bullet() by {
                if k < s.len() {
                    old(self).entities@.lemma_filter_pred(kept(Sweep::Bullets), k);
                }
            }
        }
    }

    /// On the title screen: the shoot button starts play.
    pub fn game_start(&mut self, input: &Input)
        requires
            old(self).wf(),
            old(self).state == GameState::TitleScreen,
        ensures
            final(self).wf(),
            input.shoot ==> final(self).state == GameState::Playing,
            !input.shoot ==> final(self).state == GameState::TitleScreen && final(self).entities@ == old(self).entities@,
            final(self).score == old(self).score,
            final(self).spawn_config == old(self).spawn_config,
            input.shoot ==> forall|k: int| 0 <= k < final(self).entities.len() && (#[trigger] final(self).entities@[k]).is_text() ==> final(self).entities@[k].id >= old(self).next_id,
            input.shoot && old(self).next_id < u64::MAX - 1 ==> final(self).entities@ == old(self).entities@.filter(kept(Sweep::Texts)).push(
                with_id(text_at(Label::ScoreBoard, FIELD_HALF_H as int), old(self).next_id),
            ).push(with_id(new_player(), (old(self).next_id + 1) as u64)),
            !input.shoot ==> final(self).next_id == old(self).next_id,
    {
        if input.shoot {
            self.sweep(Sweep::Texts);
            let ghost s = self.entities@;
            self.setup();
            proof {
                assert forall|k: int| 0 <= k < self.entities.len() && (#[trigger] self.entities@[k]).is_text() implies self.entities@[k].id >= old(self).next_id by {
                    if k < s.len() {
                        assert(self.entities@[k] == s[k]);
                        old(self).entities@.lemma_filter_pred(kept(Sweep::Texts), k);
                    }
                }
            }
        }
    }

    /// After game over: the restart button clears everything, zeroes the
    /// score and starts a new run.
    pub fn restart_game(&mut self, input: &Input)
        requires
            old(self).wf(),
            old(self).state == GameState::GameOver,
        ensures
            final(self).wf(),
            input.restart ==> final(self).state == GameState::Playing,
            input.restart ==> final(self).score == (Score { score: 0, is_changed: true }),
            input.restart ==> forall|k: int| 0 <= k < final(self).entities.len() ==> (#[trigger] final(self).entities@[k]).id >= old(self).next_id,
            !input.restart ==> final(self).state == old(self).state && final(self).entities@ == old(self).entities@ && final(self).score == old(self).score,
            final(self).spawn_config == old(self).spawn_config,
            !input.restart ==> final(self).next_id == old(self).next_id,
            input.restart && old(self).next_id < u64::MAX - 1 ==> final(self).entities@ == seq![
                with_id(text_at(Label::ScoreBoard, FIELD_HALF_H as int), old(self).next_id),
                with_id(new_player(), (old(self).next_id + 1) as u64),
            ],
    {
        if input.restart {
            self.entities = Vec::new();
            self.score.init_score();
            proof {
                assert(entities_wf(self.entities@, self.next_id));
                assert(!self.has_player());
            }
            self.setup();
        }
    }
}


pub open spec fn with_fire(e: Entity, c: Cooldown) -> Entity {
    Entity { fire: Some(c), ..e }
}

pub open spec fn with_pos(e: Entity, p: Vec2) -> Entity {
    Entity { pos: p, ..e }
}

/// An entity whose velocity took one frame of its acceleration, within the
/// rate limit.
pub open spec fn accelerated(e: Entity, dt: int) -> Entity {
    match (e.vel, e.acc) {
        (Some(v), Some(a)) => Entity {
            vel: Some(
                Vec2 {
                    x: clamp(v.x + rate_times(a.x as int, dt), -RATE_LIMIT, RATE_LIMIT as int) as i64,
                    y: clamp(v.y + rate_times(a.y as int, dt), -RATE_LIMIT, RATE_LIMIT as int) as i64,
                },
            ),
            ..e
        },
        _ => e,
    }
}

/// An entity moved by one frame of its velocity, within the position limit.
pub open spec fn moved(e: Entity, dt: int) -> Entity {
    match e.vel {
        Some(v) => Entity {
            pos: Vec2 {
                x: clamp(e.pos.x + rate_times(v.x as int, dt), -POS_LIMIT, POS_LIMIT as int) as i64,
                y: clamp(e.pos.y + rate_times(v.y as int, dt), -POS_LIMIT, POS_LIMIT as int) as i64,
            },
            ..e
        },
        None => e,
    }
}

/// `b` is a bullet that one of the enemies in `s` fired at `target`.
pub open spec fn fired_at(s: Seq<Entity>, target: Vec2, b: Entity) -> bool {
    exists|m: int|
        0 <= m < s.len() && (#[trigger] s[m]).is_enemy() && b == with_id(new_enemy_bullet(s[m].pos, aim(s[m].pos, target)), b.id)
}

/// The enemy `e` fires this frame: its timer completes a period.
pub open spec fn fires(e: Entity, dt: int) -> bool {
    e.is_enemy() && e.fire is Some && e.fire.unwrap().ticked(dt).finished
}

/// The bullets that the enemies among the first `k` entities of `s` fire
/// at `target` this frame, in order.
pub open spec fn volley(s: Seq<Entity>, k: int, target: Vec2, dt: int) -> Seq<Entity>
    decreases k,
{
    if k <= 0 {
        Seq::empty()
    } else {
        let rest = volley(s, k - 1, target, dt);
        if fires(s[k - 1], dt) {
            rest.push(new_enemy_bullet(s[k - 1].pos, aim(s[k - 1].pos, target)))
        } else {
            rest
        }
    }
}

/// An enemy after its fire timer ticked.
pub open spec fn enemy_ticked(e: Entity, dt: int) -> Entity {
    if e.is_enemy() && e.fire is Some {
        with_fire(e, e.fire.unwrap().ticked(dt))
    } else {
        e
    }
}

fn accelerate_entity(e: Entity, dt: u64) -> (r: Entity)
    requires
        e.wf(),
        dt <= MAX_FRAME_MICROS,
    ensures
        r == accelerated(e, dt as int),
        r.wf(),
{
    match (e.vel, e.acc) {
        (Some(v), Some(a)) => {
            let ax = rate_over(a.x, dt);
            let ay = rate_over(a.y, dt);
            let vel = Vec2 {
                x: clamp_i64(v.x + ax, -RATE_LIMIT, RATE_LIMIT),
                y: clamp_i64(v.y + ay, -RATE_LIMIT, RATE_LIMIT),
            };
            Entity { vel: Some(vel), ..e }
        },
        _ => e,
    }
}

fn move_entity(e: Entity, dt: u64) -> (r: Entity)
    requires
        e.wf(),
        dt <= MAX_FRAME_MICROS,
    ensures
        r == moved(e, dt as int),
        r.wf(),
{
    match e.vel {
        Some(v) => {
            let dx = rate_over(v.x, dt);
            let dy = rate_over(v.y, dt);
            let pos = Vec2 {
                x: clamp_i64(e.pos.x + dx, -POS_LIMIT, POS_LIMIT),
                y: clamp_i64(e.pos.y + dy, -POS_LIMIT, POS_LIMIT),
            };
            Entity { pos, ..e }
        },
        None => e,
    }
}

impl World {
    /// Moves the player by the held buttons.
    pub fn steer_player(&mut self, input: &Input, dt: u64)
        requires
            old(self).wf(),
            dt <= MAX_FRAME_MICROS,
        ensures
            final(self).wf(),
            final(self).state == old(self).state,
            final(self).score == old(self).score,
            final(self).spawn_config == old(self).spawn_config,
            final(self).next_id == old(self).next_id,
            forall|p: int|
                0 <= p < old(self).entities.len() && (#[trigger] old(self).entities@[p]).is_player()
                    ==> final(self).entities@ == old(self).entities@.update(
                    p,
                    with_pos(old(self).entities@[p], moved_player(old(self).entities@[p].pos, *input, dt as int)),
                ),
            !old(self).has_player() ==> final(self).entities@ == old(self).entities@,
            final(self).has_player() == old(self).has_player(),
            final(self).snap() == steered(old(self).snap(), *input, dt as int),
    {
        match self.find_player() {
            Some(p) => {
                let mut e = self.entities[p];
                e.pos = move_player(e.pos, input, dt);
                proof {
                    lemma_update_wf(self.entities@, self.next_id, p as int, e);
                }
                self.entities.set(p, e);
            },
            None => {},
        }
    }

    /// Ticks the player's fire timer and fires while the shoot button is
    /// held and the timer completed a period.
    pub fn shoot_bullet(&mut self, input: &Input, dt: u64)
        requires
            old(self).wf(),
        ensures
            final(self).wf(),
            final(self).state == old(self).state,
            final(self).score == old(self).score,
            final(self).spawn_config == old(self).spawn_config,
            final(self).has_player() == old(self).has_player(),
            !old(self).has_player() ==> final(self).entities@ == old(self).entities@,
            forall|p: int|
                0 <= p < old(self).entities.len() && (#[trigger] old(self).entities@[p]).is_player()
                    && old(self).entities@[p].fire is Some ==> ({
                    let e = old(self).entities@[p];
                    let c = e.fire.unwrap().ticked(dt as int);
                    let updated = old(self).entities@.update(p, with_fire(e, c));
                    if input.shoot && c.finished && old(self).next_id < u64::MAX {
                        final(self).entities@ == updated.push(
                            with_id(new_player_bullet(e.pos), old(self).next_id),
                        )
                    } else {
                        final(self).entities@ == updated
                    }
                }),
            final(self).snap() == fired(old(self).snap(), *input, dt as int),
    {
        match self.find_player() {
            Some(p) => {
                let mut e = self.entities[p];
                match e.fire {
                    Some(c) => {
                        let mut c = c;
                        let ready = c.tick(dt);
                        e.fire = Some(c);
                        proof {
                            lemma_update_wf(self.entities@, self.next_id, p as int, e);
                        }
                        self.entities.set(p, e);
                        if input.shoot && ready {
                            self.spawn(player_bullet(e.pos));
                        }
                    },
                    None => {},
                }
            },
            None => {},
        }
    }

    /// Ticks each enemy's fire timer while there is a player; an enemy whose
    /// timer completed a period fires a bullet aimed at the player.
    pub fn enemy_shoot(&mut self, dt: u64)
        requires
            old(self).wf(),
        ensures
            final(self).wf(),
            final(self).state == old(self).state,
            final(self).score == old(self).score,
            final(self).spawn_config == old(self).spawn_config,
            final(self).has_player() == old(self).has_player(),
            !old(self).has_player() ==> final(self).entities@ == old(self).entities@,
            old(self).entities.len() <= final(self).entities.len(),
            old(self).has_player() ==> forall|k: int|
                0 <= k < old(self).entities.len() ==> #[trigger] final(self).entities@[k] == enemy_ticked(
                    old(self).entities@[k],
                    dt as int,
                ),
            forall|k: int|
                old(self).entities.len() <= k < final(self).entities.len() ==> (#[trigger] final(self).entities@[k]).is_bullet()
                    && final(self).entities@[k].fighter.unwrap().team == Team::Enemy,
            forall|p: int, k: int|
                0 <= p < old(self).entities.len() && old(self).entities@[p].is_player() && old(self).entities.len() <= k
                    < final(self).entities.len() ==> fired_at(
                    old(self).entities@,
                    #[trigger] old(self).entities@[p].pos,
                    #[trigger] final(self).entities@[k],
                ),
            old(self).next_id + old(self).entities.len() < u64::MAX ==> forall|p: int|
                0 <= p < old(self).entities.len() && (#[trigger] old(self).entities@[p]).is_player() ==> ({
                    let v = volley(old(self).entities@, old(self).entities.len() as int, old(self).entities@[p].pos, dt as int);
                    &&& final(self).entities.len() == old(self).entities.len() + v.len()
                    &&& final(self).next_id == old(self).next_id + v.len()
                    &&& forall|x: int|
                        0 <= x < v.len() ==> #[trigger] final(self).entities@[old(self).entities.len() + x] == with_id(
                            v[x],
                            (old(self).next_id + x) as u64,
                        )
                }),
            old(self).next_id + old(self).entities.len() < u64::MAX ==> final(self).snap() == enemies_fired(old(self).snap(), dt as int),
    {
        let p = match self.find_player() {
            Some(p) => p,
            None => {
                return;
            },
        };
        let target = self.entities[p].pos;
        let n = self.entities.len();
        let mut i: usize = 0;
        while i < n
            invariant
                self.wf(),
                old(self).wf(),
                self.state == old(self).state,
                self.score == old(self).score,
                self.spawn_config == old(self).spawn_config,
                self.has_player(),
                n == old(self).entities.len(),
                0 <= i <= n,
                n <= self.entities.len(),
                p < n,
                self.entities@[p as int] == old(self).entities@[p as int],
                target == old(self).entities@[p as int].pos,
                old(self).entities@[p as int].is_player(),
                forall|k: int| 0 <= k < i ==> #[trigger] self.entities@[k] == enemy_ticked(old(self).entities@[k], dt as int),
                forall|k: int| i <= k < n ==> #[trigger] self.entities@[k] == old(self).entities@[k],
                forall|k: int|
                    n <= k < self.entities.len() ==> (#[trigger] self.entities@[k]).is_bullet()
                        && self.entities@[k].fighter.unwrap().team == Team::Enemy,
                forall|k: int| n <= k < self.entities.len() ==> fired_at(old(self).entities@, target, #[trigger] self.entities@[k]),
                old(self).next_id + n < u64::MAX ==> ({
                    let v = volley(old(self).entities@, i as int, target, dt as int);
                    &&& v.len() <= i
                    &&& self.entities.len() == n + v.len()
                    &&& self.next_id == old(self).next_id + v.len()
                    &&& forall|x: int|
                        0 <= x < v.len() ==> #[trigger] self.entities@[n + x] == with_id(v[x], (old(self).next_id + x) as u64)
                }),
            decreases n - i,
        {
            let ghost prev = self.entities@;
            let mut e = self.entities[i];
            if e.kind == Kind::Enemy {
                match e.fire {
                    Some(c) => {
                        let mut c = c;
                        let ready = c.tick(dt);
                        e.fire = Some(c);
                        proof {
                            lemma_update_wf(self.entities@, self.next_id, i as int, e);
                        }
                        self.entities.set(i, e);
                        if ready {
                            let v = aim_velocity(e.pos, target);
                            let b = enemy_bullet(e.pos, v);
                            proof {
                                assert(old(self).entities@[i as int].is_enemy());
                                assert(fired_at(old(self).entities@, target, with_id(b, self.next_id)));
                            }
                            self.spawn(b);
                        }
                    },
                    None => {},
                }
            }
            proof {
                if old(self).next_id + n < u64::MAX {
                    let v0 = volley(old(self).entities@, i as int, target, dt as int);
                    let v1 = volley(old(self).entities@, i as int + 1, target, dt as int);
                    assert(self.entities@[i as int] == enemy_ticked(old(self).entities@[i as int], dt as int));
                    assert forall|x: int| 0 <= x < v1.len() implies #[trigger] self.entities@[n + x] == with_id(
                        v1[x],
                        (old(self).next_id + x) as u64,
                    ) by {
                        if x < v0.len() {
                            assert(self.entities@[n + x] == prev[n + x]);
                        }
                    }
                }
            }
            i = i + 1;
        }
        proof {
            if old(self).next_id + n < u64::MAX {
                lemma_player_index(old(self).entities@, old(self).next_id, p as int);
                let v = volley(old(self).entities@, n as int, target, dt as int);
                let g = enemies_fired(old(self).snap(), dt as int);
                assert forall|k: int| 0 <= k < self.entities.len() implies #[trigger] self.entities@[k] == g.entities[k] by {
                    if k >= n {
                        let x = k - n;
                        assert(self.entities@[n + x] == with_id(v[x], (old(self).next_id + x) as u64));
                    }
                }
                assert(self.entities@ =~= g.entities);
            }
        }
    }

    /// Adds an enemy at offset `x` on the top edge, with sideways velocity
    /// `vx` and the spawn profile's status.
    pub fn spawn_enemy_at(&mut self, x: i64, vx: i64)
        requires
            old(self).wf(),
            -POS_LIMIT <= x <= POS_LIMIT,
            -RATE_LIMIT <= vx <= RATE_LIMIT,
        ensures
            final(self).wf(),
            final(self).state == old(self).state,
            final(self).score == old(self).score,
            final(self).spawn_config == old(self).spawn_config,
            final(self).has_player() == old(self).has_player(),
            old(self).next_id < u64::MAX ==> final(self).entities@ == old(self).entities@.push(
                with_id(
                    new_enemy(x as int, vx as int, old(self).spawn_config.hp as int, old(self).spawn_config.attack as int),
                    old(self).next_id,
                ),
            ),
            old(self).next_id == u64::MAX ==> final(self).entities@ == old(self).entities@,
            final(self).next_id == (if old(self).next_id < u64::MAX { old(self).next_id + 1 } else { old(self).next_id as int }),
    {
        let e = enemy_entity(x, vx, self.spawn_config.hp, self.spawn_config.attack);
        self.spawn(e);
    }

    /// Ticks the spawn timer; when it completes a period an enemy appears at
    /// a random offset, drifting back towards the centre line.
    pub fn spawn_enemies(&mut self, dt: u64)
        requires
            old(self).wf(),
        ensures
            final(self).wf(),
            final(self).state == old(self).state,
            final(self).score == old(self).score,
            final(self).spawn_config == (EnemySpawnConfig {
                cooldown: old(self).spawn_config.cooldown.ticked(dt as int),
                ..old(self).spawn_config
            }),
            final(self).has_player() == old(self).has_player(),
            !final(self).spawn_config.cooldown.finished ==> final(self).entities@ == old(self).entities@,
            final(self).spawn_config.cooldown.finished && old(self).next_id < u64::MAX ==> exists|x: int, vx: int|
                -SPAWN_X_RANGE <= x < SPAWN_X_RANGE && inward(x, vx)
                    && final(self).entities@ == old(self).entities@.push(
                    with_id(#[trigger] new_enemy(x, vx, old(self).spawn_config.hp as int, old(self).spawn_config.attack as int), old(self).next_id),
                ),
            exists|x: int, vx: int|
                -SPAWN_X_RANGE <= x < SPAWN_X_RANGE && inward(x, vx) && #[trigger] spawned(old(self).snap(), dt as int, x, vx)
                    == final(self).snap(),
    {
        let ready = self.spawn_config.cooldown.tick(dt);
        if ready {
            let (x, vx) = draw_spawn(&mut self.rng);
            self.spawn_enemy_at(x, vx);
            proof {
                assert(spawned(old(self).snap(), dt as int, x as int, vx as int) == self.snap());
            }
        } else {
            proof {
                assert(spawned(old(self).snap(), dt as int, 0, 0) == self.snap());
                assert(inward(0, 0));
            }
        }
    }

    /// Applies `dt` microseconds of acceleration to every velocity.
    pub fn update_velocity(&mut self, dt: u64)
        requires
            old(self).wf(),
            dt <= MAX_FRAME_MICROS,
        ensures
            final(self).wf(),
            final(self).state == old(self).state,
            final(self).score == old(self).score,
            final(self).spawn_config == old(self).spawn_config,
            final(self).next_id == old(self).next_id,
            final(self).has_player() == old(self).has_player(),
            final(self).entities.len() == old(self).entities.len(),
            forall|k: int|
                0 <= k < old(self).entities.len() ==> #[trigger] final(self).entities@[k] == accelerated(
                    old(self).entities@[k],
                    dt as int,
                ),
            final(self).snap() == accelerated_all(old(self).snap(), dt as int),
    {
        let n = self.entities.len();
        let mut i: usize = 0;
        while i < n
            invariant
                self.wf(),
                self.state == old(self).state,
                self.score == old(self).score,
                self.spawn_config == old(self).spawn_config,
                self.next_id == old(self).next_id,
                self.has_player() == old(self).has_player(),
                n == old(self).entities.len(),
                n == self.entities.len(),
                0 <= i <= n,
                dt <= MAX_FRAME_MICROS,
                forall|k: int| 0 <= k < i ==> #[trigger] self.entities@[k] == accelerated(old(self).entities@[k], dt as int),
                forall|k: int| i <= k < n ==> #[trigger] self.entities@[k] == old(self).entities@[k],
            decreases n - i,
        {
            let e = accelerate_entity(self.entities[i], dt);
            proof {
                lemma_update_wf(self.entities@, self.next_id, i as int, e);
            }
            self.entities.set(i, e);
            i = i + 1;
        }
        proof {
            assert(self.entities@ =~= accelerated_all(old(self).snap(), dt as int).entities);
        }
    }

    /// Moves every entity with a velocity by `dt` microseconds of it.
    pub fn move_velocity(&mut self, dt: u64)
        requires
            old(self).wf(),
            dt <= MAX_FRAME_MICROS,
        ensures
            final(self).wf(),
            final(self).state == old(self).state,
            final(self).score == old(self).score,
            final(self).spawn_config == old(self).spawn_config,
            final(self).next_id == old(self).next_id,
            final(self).has_player() == old(self).has_player(),
            final(self).entities.len() == old(self).entities.len(),
            forall|k: int|
                0 <= k < old(self).entities.len() ==> #[trigger] final(self).entities@[k] == moved(
                    old(self).entities@[k],
                    dt as int,
                ),
            final(self).snap() == moved_all(old(self).snap(), dt as int),
    {
        let n = self.entities.len();
        let mut i: usize = 0;
        while i < n
            invariant
                self.wf(),
                self.state == old(self).state,
                self.score == old(self).score,
                self.spawn_config == old(self).spawn_config,
                self.next_id == old(self).next_id,
                self.has_player() == old(self).has_player(),
                n == old(self).entities.len(),
                n == self.entities.len(),
                0 <= i <= n,
                dt <= MAX_FRAME_MICROS,
                forall|k: int| 0 <= k < i ==> #[trigger] self.entities@[k] == moved(old(self).entities@[k], dt as int),
                forall|k: int| i <= k < n ==> #[trigger] self.entities@[k] == old(self).entities@[k],
            decreases n - i,
        {
            let e = move_entity(self.entities[i], dt);
            proof {
                lemma_update_wf(self.entities@, self.next_id, i as int, e);
            }
            self.entities.set(i, e);
            i = i + 1;
        }
        proof {
            assert(self.entities@ =~= moved_all(old(self).snap(), dt as int).entities);
        }
    }
}


/// A bullet `b` can damage `t`: `t` is a fighter of the other side that is
/// not itself a bullet, and the two overlap.
pub open spec fn hits(b: Entity, t: Entity) -> bool {
    &&& b.is_bullet()
    &&& !t.is_bullet()
    &&& b.fighter is Some
    &&& t.fighter is Some
    &&& b.fighter.unwrap().team != t.fighter.unwrap().team
    &&& overlaps(b.pos, b.fighter.unwrap().collider, t.pos, t.fighter.unwrap().collider)
}

/// The first index from `j` on whose entity the bullet at `i` hits.
pub open spec fn first_hit_from(s: Seq<Entity>, i: int, j: int) -> Option<int>
    decreases s.len() - j,
{
    if 0 <= j < s.len() {
        if hits(s[i], s[j]) {
            Some(j)
        } else {
            first_hit_from(s, i, j + 1)
        }
    } else {
        None
    }
}

/// The bullet pass from index `i` on: each bullet in turn damages the first
/// fighter it hits and disappears, the target disappears when left without
/// hit points, an enemy's death scores a point, and the player's death stops
/// the pass. The result is the entities, the score, and whether the player
/// died.
pub open spec fn bullet_pass_from(s: Seq<Entity>, score: Score, i: int) -> (Seq<Entity>, Score, bool)
    decreases s.len() - i,
{
    if i < 0 || i >= s.len() {
        (s, score, false)
    } else if !s[i].is_bullet() {
        bullet_pass_from(s, score, i + 1)
    } else {
        match first_hit_from(s, i, 0) {
            None => bullet_pass_from(s, score, i + 1),
            Some(j) => if 0 <= j < s.len() && j != i {
                let t = struck(s[j], attack_of(s[i]));
                if !is_dead(t) {
                    bullet_pass_from(s.update(j, t).remove(i), score, i)
                } else if s[j].is_enemy() {
                    bullet_pass_from(remove_pair(s, i, j), scored(score), if j < i { i - 1 } else { i })
                } else {
                    (remove_pair(s, i, j), score, true)
                }
            } else {
                (s, score, false)
            },
        }
    }
}

/// The player `p` touches the enemy `e`.
pub open spec fn touches(p: Entity, e: Entity) -> bool {
    &&& e.is_enemy()
    &&& p.fighter is Some
    &&& e.fighter is Some
    &&& overlaps(p.pos, p.fighter.unwrap().collider, e.pos, e.fighter.unwrap().collider)
}

/// The contact pass for the player at `p`, from index `i` on: each enemy the
/// player touches trades attacks with it and disappears; the player's death
/// stops the pass, else an enemy's death scores a point. The result is the
/// entities, the score, and whether the player died.
pub open spec fn contact_pass_from(s: Seq<Entity>, score: Score, p: int, i: int) -> (Seq<Entity>, Score, bool)
    decreases s.len() - i,
{
    if i < 0 || i >= s.len() || p < 0 || p >= s.len() {
        (s, score, false)
    } else if i != p && touches(s[p], s[i]) {
        let pl = struck(s[p], attack_of(s[i]));
        let en = struck(s[i], attack_of(s[p]));
        if is_dead(pl) {
            (remove_pair(s, p, i), score, true)
        } else {
            contact_pass_from(
                s.update(p, pl).remove(i),
                if is_dead(en) { scored(score) } else { score },
                if i < p { p - 1 } else { p },
                i,
            )
        }
    } else {
        contact_pass_from(s, score, p, i + 1)
    }
}

pub open spec fn attack_of(e: Entity) -> int {
    e.fighter.unwrap().status.attack as int
}

/// `t` after taking `attack` damage.
pub open spec fn struck(t: Entity, attack: int) -> Entity {
    Entity {
        fighter: Some(Fighter { status: t.fighter.unwrap().status.damaged(attack), ..t.fighter.unwrap() }),
        ..t
    }
}

pub open spec fn is_dead(e: Entity) -> bool {
    e.fighter.unwrap().status.dead()
}

/// `s` without the entities at two distinct indices.
pub open spec fn remove_pair(s: Seq<Entity>, i: int, j: int) -> Seq<Entity> {
    if i < j {
        s.remove(j).remove(i)
    } else {
        s.remove(i).remove(j)
    }
}

fn hits_exec(b: &Entity, t: &Entity) -> (r: bool)
    requires
        b.wf(),
        t.wf(),
    ensures
        r == hits(*b, *t),
{
    if b.kind != Kind::Bullet || t.kind == Kind::Bullet {
        return false;
    }
    match (b.fighter, t.fighter) {
        (Some(bf), Some(tf)) => bf.team != tf.team && check_aabb_collision(&b.pos, &bf.collider, &t.pos, &tf.collider),
        _ => false,
    }
}

fn touches_exec(p: &Entity, e: &Entity) -> (r: bool)
    requires
        p.wf(),
        e.wf(),
    ensures
        r == touches(*p, *e),
{
    if e.kind != Kind::Enemy {
        return false;
    }
    match (p.fighter, e.fighter) {
        (Some(pf), Some(ef)) => check_aabb_collision(&p.pos, &pf.collider, &e.pos, &ef.collider),
        _ => false,
    }
}

fn strike(t: Entity, attack: i32) -> (r: Entity)
    requires
        t.wf(),
        t.fighter is Some,
        0 <= attack <= ATTACK_LIMIT,
    ensures
        r == struck(t, attack as int),
        !is_dead(r) ==> r.wf(),
{
    let mut f = t.fighter.unwrap();
    f.status.reduce_hp(attack);
    Entity { fighter: Some(f), ..t }
}

impl World {
    /// The first entity that the bullet at `i` hits.
    pub fn find_target(&self, i: usize) -> (r: Option<usize>)
        requires
            entities_wf(self.entities@, self.next_id),
            i < self.entities.len(),
        ensures
            r matches Some(j) ==> first_hit_from(self.entities@, i as int, 0) == Some(j as int),
            r is None ==> first_hit_from(self.entities@, i as int, 0) is None,
    {
        let mut j: usize = 0;
        while j < self.entities.len()
            invariant
                entities_wf(self.entities@, self.next_id),
                i < self.entities.len(),
                j <= self.entities.len(),
                first_hit_from(self.entities@, i as int, 0) == first_hit_from(self.entities@, i as int, j as int),
            decreases self.entities.len() - j,
        {
            if hits_exec(&self.entities[i], &self.entities[j]) {
                return Some(j);
            }
            j = j + 1;
        }
        None
    }

    /// One more enemy death: the score rises by one.
    fn add_point(&mut self)
        requires
            old(self).score.score >= 0,
        ensures
            final(self).score == scored(old(self).score),
            final(self).entities == old(self).entities,
            final(self).state == old(self).state,
            final(self).next_id == old(self).next_id,
            final(self).spawn_config == old(self).spawn_config,
    {
        if self.score.get_score() < i64::MAX {
            self.score.add_score(1);
        }
    }

    /// Resolves the bullet at `i` against the first fighter it hits: that
    /// target alone takes the bullet's attack and the bullet disappears; a
    /// target left without hit points disappears too, and an enemy's death
    /// scores a point. Also returns the target's index.
    pub fn resolve_bullet(&mut self, i: usize) -> (r: (Hit, usize))
        requires
            old(self).wf(),
            i < old(self).entities.len(),
            old(self).entities@[i as int].is_bullet(),
        ensures
            final(self).wf(),
            final(self).state == old(self).state,
            final(self).next_id == old(self).next_id,
            final(self).spawn_config == old(self).spawn_config,
            ({
                let s = old(self).entities@;
                match first_hit_from(s, i as int, 0) {
                    None => r.0 == Hit::Miss && final(self).entities@ == s && final(self).score == old(self).score,
                    Some(j) => {
                        let t = struck(s[j], attack_of(s[i as int]));
                        &&& r.1 == j
                        &&& !is_dead(t) ==> r.0 == Hit::NoKill && final(self).entities@ == s.update(j, t).remove(i as int)
                            && final(self).score == old(self).score
                        &&& is_dead(t) && s[j].is_enemy() ==> r.0 == Hit::EnemyKilled && final(self).entities@ == remove_pair(s, i as int, j)
                            && final(self).score == scored(old(self).score)
                        &&& is_dead(t) && !s[j].is_enemy() ==> r.0 == Hit::PlayerKilled && final(self).entities@ == remove_pair(s, i as int, j)
                            && final(self).score == old(self).score
                    },
                }
            }),
            r.0 != Hit::Miss ==> r.1 < old(self).entities.len() && r.1 != i,
            (r.0 == Hit::Miss) == (first_hit_from(old(self).entities@, i as int, 0) is None),
            r.0 == Hit::NoKill ==> first_hit_from(old(self).entities@, i as int, 0) == Some(r.1 as int)
                && final(self).entities@ == old(self).entities@.update(
                r.1 as int,
                struck(old(self).entities@[r.1 as int], attack_of(old(self).entities@[i as int])),
            ).remove(i as int),
            r.0 == Hit::EnemyKilled ==> first_hit_from(old(self).entities@, i as int, 0) == Some(r.1 as int)
                && final(self).entities@ == remove_pair(old(self).entities@, i as int, r.1 as int),
            final(self).score.score >= old(self).score.score,
            r.0 == Hit::Miss ==> final(self).entities.len() == old(self).entities.len(),
            r.0 == Hit::NoKill ==> final(self).entities.len() == old(self).entities.len() - 1,
            r.0 == Hit::EnemyKilled || r.0 == Hit::PlayerKilled ==> final(self).entities.len() == old(self).entities.len() - 2,
            r.0 == Hit::PlayerKilled ==> old(self).has_player() && !final(self).has_player(),
            r.0 != Hit::PlayerKilled ==> final(self).has_player() == old(self).has_player(),
    {
        let ghost s = self.entities@;
        let j = match self.find_target(i) {
            Some(j) => j,
            None => {
                return (Hit::Miss, 0);
            },
        };
        proof {
            lemma_first_hit(s, i as int, 0);
        }
        let b = self.entities[i];
        let t = strike(self.entities[j], b.fighter.unwrap().status.attack);
        if !t.fighter.unwrap().status.is_die() {
            proof {
                lemma_update_wf(self.entities@, self.next_id, j as int, t);
            }
            self.entities.set(j, t);
            self.despawn(i);
            return (Hit::NoKill, j);
        }
        let player = t.kind == Kind::Player;
        if i < j {
            self.despawn(j);
            self.despawn(i);
        } else {
            self.despawn(i);
            self.despawn(j);
        }
        if player {
            proof {
                assert(old(self).has_player());
            }
            (Hit::PlayerKilled, j)
        } else {
            self.add_point();
            (Hit::EnemyKilled, j)
        }
    }

    /// Every bullet damages at most the first fighter it hits; returns whether
    /// the player died, which stops the pass.
    pub fn check_collisions_with_bullet(&mut self) -> (r: bool)
        requires
            old(self).wf(),
        ensures
            final(self).wf(),
            final(self).state == old(self).state,
            final(self).next_id == old(self).next_id,
            final(self).spawn_config == old(self).spawn_config,
            final(self).score.score >= old(self).score.score,
            r ==> old(self).has_player() && !final(self).has_player(),
            !r ==> final(self).has_player() == old(self).has_player(),
            !r ==> clear_of_hits(final(self).entities@, final(self).entities.len() as int),
            (final(self).entities@, final(self).score, r) == bullet_pass_from(old(self).entities@, old(self).score, 0),
            (final(self).snap(), r) == bullet_stage(old(self).snap()),
    {
        let mut i: usize = 0;
        while i < self.entities.len()
            invariant
                self.wf(),
                self.state == old(self).state,
                self.next_id == old(self).next_id,
                self.spawn_config == old(self).spawn_config,
                self.score.score >= old(self).score.score,
                self.has_player() == old(self).has_player(),
                i <= self.entities.len(),
                clear_of_hits(self.entities@, i as int),
                bullet_pass_from(self.entities@, self.score, i as int) == bullet_pass_from(old(self).entities@, old(self).score, 0),
            decreases self.entities.len() - i,
        {
            let ghost s = self.entities@;
            if self.entities[i].kind == Kind::Bullet {
                let (hit, j) = self.resolve_bullet(i);
                proof {
                    if hit != Hit::Miss {
                        lemma_first_hit(s, i as int, 0);
                    }
                }
                if hit == Hit::PlayerKilled {
                    return true;
                } else if hit == Hit::EnemyKilled {
                    proof {
                        lemma_kill_keeps_clear(s, i as int, j as int);
                    }
                    if j < i {
                        i = i - 1;
                    }
                } else if hit == Hit::Miss {
                    proof {
                        lemma_first_miss(s, i as int, 0);
                    }
                    i = i + 1;
                } else {
                    proof {
                        lemma_first_hit(s, i as int, 0);
                        lemma_wound_keeps_clear(s, i as int, j as int, struck(s[j as int], attack_of(s[i as int])));
                    }
                }
            } else {
                i = i + 1;
            }
        }
        false
    }

    /// The player runs into the enemy at `e`: each takes the other's attack
    /// and the enemy disappears; a player left without hit points disappears
    /// too, else an enemy left without hit points scores a point.
    pub fn resolve_contact(&mut self, p: usize, e: usize) -> (r: Hit)
        requires
            old(self).wf(),
            p < old(self).entities.len(),
            e < old(self).entities.len(),
            old(self).entities@[p as int].is_player(),
            touches(old(self).entities@[p as int], old(self).entities@[e as int]),
        ensures
            final(self).wf(),
            final(self).state == old(self).state,
            final(self).next_id == old(self).next_id,
            final(self).spawn_config == old(self).spawn_config,
            ({
                let s = old(self).entities@;
                let pl = struck(s[p as int], attack_of(s[e as int]));
                let en = struck(s[e as int], attack_of(s[p as int]));
                &&& is_dead(pl) ==> r == Hit::PlayerKilled && final(self).entities@ == remove_pair(s, p as int, e as int)
                    && final(self).score == old(self).score
                &&& !is_dead(pl) ==> final(self).entities@ == s.update(p as int, pl).remove(e as int)
                &&& !is_dead(pl) && is_dead(en) ==> r == Hit::EnemyKilled && final(self).score == scored(old(self).score)
                &&& !is_dead(pl) && !is_dead(en) ==> r == Hit::NoKill && final(self).score == old(self).score
            }),
            r == Hit::PlayerKilled ==> !final(self).has_player(),
            r != Hit::PlayerKilled ==> final(self).has_player(),
    {
        let pe = self.entities[p];
        let ee = self.entities[e];
        let pl = strike(pe, ee.fighter.unwrap().status.attack);
        let en = strike(ee, pe.fighter.unwrap().status.attack);
        if pl.fighter.unwrap().status.is_die() {
            if p < e {
                self.despawn(e);
                self.despawn(p);
            } else {
                self.despawn(p);
                self.despawn(e);
            }
            return Hit::PlayerKilled;
        }
        proof {
            lemma_update_wf(self.entities@, self.next_id, p as int, pl);
        }
        self.entities.set(p, pl);
        proof {
            assert(self.entities@[p as int].is_player());
        }
        self.despawn(e);
        if en.fighter.unwrap().status.is_die() {
            self.add_point();
            Hit::EnemyKilled
        } else {
            Hit::NoKill
        }
    }

    /// The player against every enemy body it touches; returns whether the
    /// player died, which stops the pass.
    pub fn check_collisions_between_target(&mut self) -> (r: bool)
        requires
            old(self).wf(),
        ensures
            final(self).wf(),
            final(self).state == old(self).state,
            final(self).next_id == old(self).next_id,
            final(self).spawn_config == old(self).spawn_config,
            final(self).score.score >= old(self).score.score,
            r ==> old(self).has_player() && !final(self).has_player(),
            !r ==> final(self).has_player() == old(self).has_player(),
            !r ==> no_touch(final(self).entities@),
            !old(self).has_player() ==> !r && final(self).entities@ == old(self).entities@ && final(self).score == old(self).score,
            forall|p: int|
                0 <= p < old(self).entities.len() && (#[trigger] old(self).entities@[p]).is_player() ==> (
                final(self).entities@,
                final(self).score,
                r,
            ) == contact_pass_from(old(self).entities@, old(self).score, p, 0),
            !r && clear_of_hits(old(self).entities@, old(self).entities.len() as int) ==> clear_of_hits(
                final(self).entities@,
                final(self).entities.len() as int,
            ),
            (final(self).snap(), r) == contact_stage(old(self).snap()),
    {
        let mut p = match self.find_player() {
            Some(p) => p,
            None => {
                return false;
            },
        };
        let ghost p0 = p as int;
        let mut i: usize = 0;
        while i < self.entities.len()
            invariant
                self.wf(),
                self.state == old(self).state,
                self.next_id == old(self).next_id,
                self.spawn_config == old(self).spawn_config,
                self.score.score >= old(self).score.score,
                old(self).has_player(),
                p < self.entities.len(),
                self.entities@[p as int].is_player(),
                i <= self.entities.len(),
                forall|k: int| 0 <= k < i ==> !#[trigger] touches(self.entities@[p as int], self.entities@[k]),
                contact_pass_from(self.entities@, self.score, p as int, i as int) == contact_pass_from(
                    old(self).entities@,
                    old(self).score,
                    p0,
                    0,
                ),
                0 <= p0 < old(self).entities.len(),
                old(self).entities@[p0].is_player(),
                old(self).wf(),
                clear_of_hits(old(self).entities@, old(self).entities.len() as int) ==> clear_of_hits(
                    self.entities@,
                    self.entities.len() as int,
                ),
            decreases self.entities.len() - i,
        {
            let ghost s = self.entities@;
            if i != p && touches_exec(&self.entities[p], &self.entities[i]) {
                let ghost sc = self.score;
                let hit = self.resolve_contact(p, i);
                if hit == Hit::PlayerKilled {
                    proof {
                        assert(contact_pass_from(s, sc, p as int, i as int) == (self.entities@, self.score, true));
                        assert forall|q: int| 0 <= q < old(self).entities.len() && (#[trigger] old(self).entities@[q]).is_player() implies q == p0 by {}
                    }
                    return true;
                }
                let ghost q = p as int;
                if i < p {
                    p = p - 1;
                }
                proof {
                    lemma_contact_keeps_clear(s, q, i as int, struck(s[q], attack_of(s[i as int])), p as int);
                    if clear_of_hits(s, s.len() as int) {
                        lemma_contact_keeps_no_hits(s, q, i as int, struck(s[q], attack_of(s[i as int])));
                    }
                }
            } else {
                i = i + 1;
            }
        }
        proof {
            assert(self.has_player());
            assert forall|q: int, k: int|
                0 <= q < self.entities.len() && 0 <= k < self.entities.len()
                    && (#[trigger] self.entities@[q]).is_player() implies !touches(self.entities@[q], #[trigger] self.entities@[k]) by {
                assert(self.entities@[p as int].is_player());
                assert(q == p);
            }
        }
        false
    }

    /// Removes the bullets and enemies whose centre left the play field; the
    /// player is never removed here.
    pub fn despawn_objects(&mut self)
        requires
            old(self).wf(),
        ensures
            final(self).wf(),
            final(self).entities@ == old(self).entities@.filter(kept(Sweep::OutOfField)),
            forall|k: int|
                0 <= k < final(self).entities.len() ==> !swept(#[trigger] final(self).entities@[k], Sweep::OutOfField),
            final(self).has_player() == old(self).has_player(),
            final(self).state == old(self).state,
            final(self).score == old(self).score,
            final(self).next_id == old(self).next_id,
            final(self).spawn_config == old(self).spawn_config,
            final(self).snap() == culled(old(self).snap()),
    {
        self.sweep(Sweep::OutOfField);
        proof {
            assert forall|k: int| 0 <= k < self.entities.len() implies !swept(#[trigger] self.entities@[k], Sweep::OutOfField) by {
                old(self).entities@.lemma_filter_pred(kept(Sweep::OutOfField), k);
            }
        }
    }

    /// Reads and clears the score's redraw flag: the score to draw, if it
    /// changed.
    pub fn update_score(&mut self) -> (r: Option<i64>)
        ensures
            r == (if old(self).score.is_changed { Some(old(self).score.score) } else { None::<i64> }),
            final(self).score == (Score { score: old(self).score.score, is_changed: false }),
            final(self).entities == old(self).entities,
            final(self).state == old(self).state,
            final(self).next_id == old(self).next_id,
            final(self).spawn_config == old(self).spawn_config,
            (final(self).snap(), r) == score_shown(old(self).snap()),
    {
        if self.score.get_is_changed() {
            Some(self.score.get_score())
        } else {
            None
        }
    }

    /// One frame of play, pass by pass: steering, firing, spawning, motion,
    /// bullet hits, body contact, culling, then the score display. A
    /// player's death ends the frame in game over.
    #[verifier::rlimit(100)]
    pub fn play_frame(&mut self, input: &Input, dt: u64) -> (r: Option<i64>)
        requires
            old(self).wf(),
            old(self).state == GameState::Playing,
            dt <= MAX_FRAME_MICROS,
        ensures
            final(self).wf(),
            final(self).state == GameState::Playing || final(self).state == GameState::GameOver,
            final(self).score.score >= old(self).score.score,
            final(self).spawn_config.hp == old(self).spawn_config.hp,
            final(self).spawn_config.attack == old(self).spawn_config.attack,
            final(self).state == GameState::GameOver ==> old(self).has_player() && !final(self).has_player()
                && forall|k: int| 0 <= k < final(self).entities.len() ==> !(#[trigger] final(self).entities@[k]).is_bullet(),
            final(self).state == GameState::Playing ==> final(self).has_player() == old(self).has_player(),
            final(self).state == GameState::Playing ==> forall|k: int|
                0 <= k < final(self).entities.len() ==> !swept(#[trigger] final(self).entities@[k], Sweep::OutOfField),
            final(self).state == GameState::Playing ==> clear_of_hits(final(self).entities@, final(self).entities.len() as int),
            final(self).state == GameState::Playing ==> no_touch(final(self).entities@),
            old(self).next_id + old(self).entities.len() + 2 < u64::MAX ==> exists|x: int, vx: int|
                -SPAWN_X_RANGE <= x < SPAWN_X_RANGE && inward(x, vx) && (#[trigger] played(old(self).snap(), *input, dt as int, x, vx).2
                    == (final(self).state == GameState::GameOver)) && (!played(old(self).snap(), *input, dt as int, x, vx).2
                    ==> final(self).snap() == played(old(self).snap(), *input, dt as int, x, vx).0 && r == played(
                    old(self).snap(),
                    *input,
                    dt as int,
                    x,
                    vx,
                ).1),
    {
        let ghost f0 = self.snap();
        self.steer_player(input, dt);
        self.shoot_bullet(input, dt);
        let ghost f2 = self.snap();
        self.enemy_shoot(dt);
        let ghost f3 = self.snap();
        self.spawn_enemies(dt);
        let ghost xv = choose|xv: (int, int)|
            -SPAWN_X_RANGE <= xv.0 < SPAWN_X_RANGE && inward(xv.0, xv.1) && #[trigger] spawned(f3, dt as int, xv.0, xv.1)
                == self.snap();
        proof {
            let (x, vx) = choose|x: int, vx: int|
                -SPAWN_X_RANGE <= x < SPAWN_X_RANGE && inward(x, vx) && #[trigger] spawned(f3, dt as int, x, vx)
                    == self.snap();
            assert(-SPAWN_X_RANGE <= (x, vx).0 < SPAWN_X_RANGE && inward((x, vx).0, (x, vx).1) && spawned(
                f3,
                dt as int,
                (x, vx).0,
                (x, vx).1,
            ) == self.snap());
        }
        self.update_velocity(dt);
        self.move_velocity(dt);
        let ghost f6 = self.snap();
        proof {
            if f0.next_id + f0.entities.len() + 2 < u64::MAX {
                assert(f2.next_id + f2.entities.len() < u64::MAX);
                assert(f6 == moved_all(
                    accelerated_all(
                        spawned(enemies_fired(fired(steered(f0, *input, dt as int), *input, dt as int), dt as int), dt as int, xv.0, xv.1),
                        dt as int,
                    ),
                    dt as int,
                ));
            }
        }
        let ghost c = f0.next_id + f0.entities.len() + 2 < u64::MAX;
        let ghost g6 = moved_all(
            accelerated_all(
                spawned(enemies_fired(fired(steered(f0, *input, dt as int), *input, dt as int), dt as int), dt as int, xv.0, xv.1),
                dt as int,
            ),
            dt as int,
        );
        if self.check_collisions_with_bullet() {
            self.gameover_setup();
            proof {
                if c {
                    reveal(played);
                    assert(bullet_stage(g6).1);
                    assert(played(f0, *input, dt as int, xv.0, xv.1).2);
                }
            }
            return None;
        }
        let ghost f7 = self.snap();
        proof {
            if c {
                assert(f7 == bullet_stage(g6).0 && !bullet_stage(g6).1);
            }
        }
        if self.check_collisions_between_target() {
            self.gameover_setup();
            proof {
                if c {
                    reveal(played);
                    assert(contact_stage(f7).1);
                    assert(played(f0, *input, dt as int, xv.0, xv.1).2);
                }
            }
            return None;
        }
        let ghost f8 = self.snap();
        proof {
            if c {
                assert(f8 == contact_stage(f7).0 && !contact_stage(f7).1);
            }
        }
        let ghost before = self.entities@;
        self.despawn_objects();
        proof {
            lemma_filter_keeps_clear(before, kept(Sweep::OutOfField));
        }
        let ghost f9 = self.snap();
        let r = self.update_score();
        proof {
            if c {
                reveal(played);
                assert(f9 == culled(f8));
                assert((self.snap(), r) == score_shown(f9));
                let res = played(f0, *input, dt as int, xv.0, xv.1);
                assert(!res.2 && res.0 == self.snap() && res.1 == r);
            }
        }
        r
    }

    /// Advances the world by one frame of `dt` microseconds with the given
    /// buttons; returns the score to draw when it changed.
    pub fn step(&mut self, input: &Input, dt: u64) -> (r: Option<i64>)
        requires
            old(self).wf(),
            dt <= MAX_FRAME_MICROS,
        ensures
            final(self).wf(),
            final(self).spawn_config.hp == old(self).spawn_config.hp,
            final(self).spawn_config.attack == old(self).spawn_config.attack,
            old(self).state == GameState::TitleScreen ==> (final(self).state == GameState::Playing <==> input.shoot)
                && (final(self).state == GameState::TitleScreen <==> !input.shoot),
            old(self).state == GameState::GameOver && input.restart ==> final(self).state == GameState::Playing
                && final(self).score.score == 0
                && forall|k: int| 0 <= k < final(self).entities.len() ==> (#[trigger] final(self).entities@[k]).id >= old(self).next_id,
            old(self).state == GameState::GameOver && !input.restart ==> final(self).state == GameState::GameOver
                && final(self).entities@ == old(self).entities@ && final(self).score == old(self).score,
            old(self).state == GameState::Playing ==> final(self).state == GameState::Playing || final(self).state == GameState::GameOver,
            old(self).state == GameState::Playing ==> final(self).score.score >= old(self).score.score,
            old(self).state == GameState::Playing && final(self).state == GameState::GameOver ==> old(self).has_player()
                && !final(self).has_player()
                && forall|k: int| 0 <= k < final(self).entities.len() ==> !(#[trigger] final(self).entities@[k]).is_bullet(),
            old(self).state == GameState::TitleScreen ==> final(self).score == old(self).score,
            old(self).state != GameState::Playing ==> r is None,
            old(self).state == GameState::Playing && old(self).next_id + old(self).entities.len() + 2 < u64::MAX ==> exists|
                x: int,
                vx: int,
            |
                -SPAWN_X_RANGE <= x < SPAWN_X_RANGE && inward(x, vx) && (#[trigger] played(old(self).snap(), *input, dt as int, x, vx).2
                    == (final(self).state == GameState::GameOver)) && (!played(old(self).snap(), *input, dt as int, x, vx).2
                    ==> final(self).snap() == played(old(self).snap(), *input, dt as int, x, vx).0 && r == played(
                    old(self).snap(),
                    *input,
                    dt as int,
                    x,
                    vx,
                ).1),
    {
        match self.state {
            GameState::TitleScreen => {
                self.game_start(input);
                None
            },
            GameState::Playing => self.play_frame(input, dt),
            GameState::GameOver => {
                self.restart_game(input);
                None
            },
        }
    }
}

/// The search for a bullet's target finds an index it may hit.
pub proof fn lemma_first_hit(s: Seq<Entity>, i: int, j: int)
    requires
        0 <= j,
    ensures
        first_hit_from(s, i, j) matches Some(k) ==> j <= k < s.len() && hits(s[i], s[k]),
    decreases s.len() - j,
{
    if 0 <= j < s.len() && !hits(s[i], s[j]) {
        lemma_first_hit(s, i, j + 1);
    }
}

/// Only a bullet deals damage in the bullet pass, and only to a fighter of
/// the other side that is not a bullet: two bodies that overlap with no
/// bullet between them exchange nothing there.
pub proof fn lemma_hits_need_a_bullet(b: Entity, t: Entity)
    requires
        hits(b, t),
    ensures
        b.is_bullet(),
        !t.is_bullet(),
        b.fighter.unwrap().team != t.fighter.unwrap().team,
{
}

/// A bullet that wounds its target leaves every other entity as it was, in
/// order: the bullet is gone and only the target changed.
pub proof fn lemma_wound_spares_others(s: Seq<Entity>, i: int, j: int, t: Entity)
    requires
        0 <= i < s.len(),
        0 <= j < s.len(),
        i != j,
    ensures
        s.update(j, t).remove(i).len() == s.len() - 1,
        s.update(j, t).remove(i)[if j < i { j } else { j - 1 }] == t,
        forall|k: int|
            0 <= k < s.len() && k != i && k != j ==> s.update(j, t).remove(i)[if k < i { k } else { k - 1 }]
                == #[trigger] s[k],
{
}

/// A bullet that kills its target removes exactly the bullet and the target:
/// every other entity stays, in order.
pub proof fn lemma_kill_spares_others(s: Seq<Entity>, i: int, j: int)
    requires
        0 <= i < s.len(),
        0 <= j < s.len(),
        i != j,
    ensures
        remove_pair(s, i, j).len() == s.len() - 2,
        forall|k: int|
            0 <= k < s.len() && k != i && k != j ==> remove_pair(s, i, j)[k - (if i < k { 1int } else { 0int }) - (
            if j < k { 1int } else { 0int })] == #[trigger] s[k],
{
    assert forall|k: int| 0 <= k < s.len() && k != i && k != j implies remove_pair(s, i, j)[k - (if i < k { 1int } else { 0int }) - (
    if j < k { 1int } else { 0int })] == #[trigger] s[k] by {
        if i < j {
            let a = s.remove(j);
            let k1 = if k < j { k } else { k - 1 };
            assert(a[k1] == s[k]);
        } else {
            let a = s.remove(i);
            let k1 = if k < i { k } else { k - 1 };
            assert(a[k1] == s[k]);
        }
    }
}

/// Each enemy death raises the score by exactly one, until the counter is
/// full; nothing else changes it but a restart.
pub proof fn lemma_kill_scores_one(s: Score)
    requires
        0 <= s.score < i64::MAX,
    ensures
        scored(s).score == s.score + 1,
        scored(s).is_changed,
{
}

/// No entity before index `i` is a bullet that hits anything in `s`.
pub open spec fn clear_of_hits(s: Seq<Entity>, i: int) -> bool {
    forall|k: int, j: int| 0 <= k < i && 0 <= j < s.len() ==> !#[trigger] hits(s[k], s[j])
}

/// Where the entity at index `x` of `remove_pair(s, i, j)` stood in `s`.
pub open spec fn pair_origin(i: int, j: int, x: int) -> int {
    let a = if i < j { i } else { j };
    let b = if i < j { j } else { i };
    if x < a {
        x
    } else if x + 1 < b {
        x + 1
    } else {
        x + 2
    }
}

proof fn lemma_first_miss(s: Seq<Entity>, i: int, j: int)
    requires
        0 <= j,
        0 <= i < s.len(),
        first_hit_from(s, i, j) is None,
        clear_of_hits(s, i),
        j == 0,
    ensures
        clear_of_hits(s, i + 1),
{
    lemma_no_hit_from(s, i, j);
    assert forall|k: int, l: int| 0 <= k < i + 1 && 0 <= l < s.len() implies !#[trigger] hits(s[k], s[l]) by {
        if k == i {
            assert(!hits(s[i], s[l]));
        }
    }
}

proof fn lemma_no_hit_from(s: Seq<Entity>, i: int, j: int)
    requires
        0 <= j,
        first_hit_from(s, i, j) is None,
    ensures
        forall|l: int| j <= l < s.len() ==> !hits(s[i], #[trigger] s[l]),
    decreases s.len() - j,
{
    if j < s.len() {
        lemma_no_hit_from(s, i, j + 1);
    }
}

proof fn lemma_wound_keeps_clear(s: Seq<Entity>, i: int, j: int, t: Entity)
    requires
        0 <= i < s.len(),
        0 <= j < s.len(),
        i != j,
        clear_of_hits(s, i),
        !s[j].is_bullet(),
        s[j].fighter is Some,
        t == struck(s[j], attack_of(s[i])),
    ensures
        clear_of_hits(s.update(j, t).remove(i), i),
{
    let u = s.update(j, t);
    let n = u.remove(i);
    assert forall|k: int, l: int| 0 <= k < i && 0 <= l < n.len() implies !#[trigger] hits(n[k], n[l]) by {
        let l2 = if l < i { l } else { l + 1 };
        assert(n[k] == u[k]);
        assert(n[l] == u[l2]);
        assert(!t.is_bullet());
        if k != j {
            if l2 == j {
                assert(hits(s[k], t) == hits(s[k], s[j]));
            }
            assert(!hits(s[k], s[l2]));
        }
    }
}

proof fn lemma_kill_keeps_clear(s: Seq<Entity>, i: int, j: int)
    requires
        0 <= i < s.len(),
        0 <= j < s.len(),
        i != j,
        clear_of_hits(s, i),
    ensures
        clear_of_hits(remove_pair(s, i, j), if j < i { i - 1 } else { i }),
{
    let n = remove_pair(s, i, j);
    let i2 = if j < i { i - 1 } else { i };
    assert forall|x: int| 0 <= x < n.len() implies #[trigger] n[x] == s[pair_origin(i, j, x)] by {
        if i < j {
            let a = s.remove(j);
            let y = if x < i { x } else { x + 1 };
            assert(n[x] == a[y]);
            assert(a[y] == s[if y < j { y } else { y + 1 }]);
        } else {
            let a = s.remove(i);
            let y = if x < j { x } else { x + 1 };
            assert(n[x] == a[y]);
            assert(a[y] == s[if y < i { y } else { y + 1 }]);
        }
    }
    assert forall|k: int, l: int| 0 <= k < i2 && 0 <= l < n.len() implies !#[trigger] hits(n[k], n[l]) by {
        assert(n[k] == s[pair_origin(i, j, k)]);
        assert(n[l] == s[pair_origin(i, j, l)]);
        assert(!hits(s[pair_origin(i, j, k)], s[pair_origin(i, j, l)]));
    }
}

proof fn lemma_contact_keeps_clear(s: Seq<Entity>, p: int, i: int, pl: Entity, p2: int)
    requires
        p2 == (if i < p { p - 1 } else { p }),
        0 <= p < s.len(),
        0 <= i < s.len(),
        p != i,
        s[p].fighter is Some,
        s[p].is_player(),
        pl == struck(s[p], attack_of(s[i])),
        forall|k: int| 0 <= k < i ==> !#[trigger] touches(s[p], s[k]),
    ensures
        s.update(p, pl).remove(i)[p2] == pl,
        forall|k: int| 0 <= k < i ==> !#[trigger] touches(s.update(p, pl).remove(i)[p2], s.update(p, pl).remove(i)[k]),
{
    let u = s.update(p, pl);
    let n = u.remove(i);
    assert(n[p2] == u[p]);
    assert forall|k: int| 0 <= k < i implies !#[trigger] touches(n[p2], n[k]) by {
        assert(n[k] == u[k]);
        if k != p {
            assert(touches(pl, s[k]) == touches(s[p], s[k]));
        }
    }
}

/// The player, wherever it is in `s`, touches no enemy.
pub open spec fn no_touch(s: Seq<Entity>) -> bool {
    forall|p: int, k: int|
        0 <= p < s.len() && 0 <= k < s.len() && (#[trigger] s[p]).is_player() ==> !touches(s[p], #[trigger] s[k])
}

proof fn lemma_contact_keeps_no_hits(s: Seq<Entity>, p: int, i: int, pl: Entity)
    requires
        0 <= p < s.len(),
        0 <= i < s.len(),
        p != i,
        s[p].fighter is Some,
        s[p].is_player(),
        pl == struck(s[p], attack_of(s[i])),
        clear_of_hits(s, s.len() as int),
    ensures
        clear_of_hits(s.update(p, pl).remove(i), s.len() - 1),
{
    let u = s.update(p, pl);
    let n = u.remove(i);
    assert forall|k: int, l: int| 0 <= k < s.len() - 1 && 0 <= l < n.len() implies !#[trigger] hits(n[k], n[l]) by {
        let k2 = if k < i { k } else { k + 1 };
        let l2 = if l < i { l } else { l + 1 };
        assert(n[k] == u[k2]);
        assert(n[l] == u[l2]);
        assert(!hits(s[k2], s[l2]));
        if l2 == p && k2 != p {
            assert(hits(s[k2], pl) == hits(s[k2], s[p]));
        }
    }
}

/// Removing entities keeps both guarantees of the collision passes.
proof fn lemma_filter_keeps_clear(s: Seq<Entity>, f: spec_fn(Entity) -> bool)
    ensures
        clear_of_hits(s, s.len() as int) ==> clear_of_hits(s.filter(f), s.filter(f).len() as int),
        no_touch(s) ==> no_touch(s.filter(f)),
{
    let t = s.filter(f);
    assert forall|x: int| 0 <= x < t.len() implies exists|a: int| 0 <= a < s.len() && #[trigger] s[a] == #[trigger] t[x] by {
        assert(t.contains(t[x]));
        s.lemma_filter_contains_rev(f, t[x]);
    }
    if clear_of_hits(s, s.len() as int) {
        assert forall|k: int, l: int| 0 <= k < t.len() && 0 <= l < t.len() implies !#[trigger] hits(t[k], t[l]) by {
            let a = choose|a: int| 0 <= a < s.len() && #[trigger] s[a] == t[k];
            let b = choose|b: int| 0 <= b < s.len() && #[trigger] s[b] == t[l];
            assert(!hits(s[a], s[b]));
        }
    }
    if no_touch(s) {
        assert forall|p: int, k: int|
            0 <= p < t.len() && 0 <= k < t.len() && (#[trigger] t[p]).is_player() implies !touches(t[p], #[trigger] t[k]) by {
            let a = choose|a: int| 0 <= a < s.len() && #[trigger] s[a] == t[p];
            let b = choose|b: int| 0 <= b < s.len() && #[trigger] s[b] == t[k];
            assert(s[a].is_player());
            assert(!touches(s[a], s[b]));
        }
    }
}

/// The part of the world that a frame changes, as plain values.
pub struct Snapshot {
    pub entities: Seq<Entity>,
    pub next_id: u64,
    pub score: Score,
    pub spawn_config: EnemySpawnConfig,
}

impl World {
    pub open spec fn snap(&self) -> Snapshot {
        Snapshot {
            entities: self.entities@,
            next_id: self.next_id,
            score: self.score,
            spawn_config: self.spawn_config,
        }
    }
}

/// The index of the player; meaningful where there is one.
pub open spec fn player_index(s: Seq<Entity>) -> int {
    choose|p: int| 0 <= p < s.len() && (#[trigger] s[p]).is_player()
}

/// Steering: the player, if any, moves by the held buttons.
pub open spec fn steered(f: Snapshot, input: Input, dt: int) -> Snapshot {
    if has_player(f.entities) {
        let p = player_index(f.entities);
        Snapshot {
            entities: f.entities.update(p, with_pos(f.entities[p], moved_player(f.entities[p].pos, input, dt))),
            ..f
        }
    } else {
        f
    }
}

/// The player's fire: its timer ticks, and a bullet appears above it while
/// the shoot button is held and the timer completed a period.
pub open spec fn fired(f: Snapshot, input: Input, dt: int) -> Snapshot {
    let p = player_index(f.entities);
    if has_player(f.entities) && f.entities[p].fire is Some {
        let e = f.entities[p];
        let c = e.fire.unwrap().ticked(dt);
        let updated = f.entities.update(p, with_fire(e, c));
        if input.shoot && c.finished && f.next_id < u64::MAX {
            Snapshot {
                entities: updated.push(with_id(new_player_bullet(e.pos), f.next_id)),
                next_id: (f.next_id + 1) as u64,
                ..f
            }
        } else {
            Snapshot { entities: updated, ..f }
        }
    } else {
        f
    }
}

/// `v` with consecutive ids from `start`.
pub open spec fn ids_from(v: Seq<Entity>, start: int) -> Seq<Entity> {
    Seq::new(v.len(), |x: int| with_id(v[x], (start + x) as u64))
}

/// The enemies' fire: while there is a player, every enemy's timer ticks and
/// the enemies that complete a period fire at it, in order.
pub open spec fn enemies_fired(f: Snapshot, dt: int) -> Snapshot {
    if has_player(f.entities) {
        let target = f.entities[player_index(f.entities)].pos;
        let v = volley(f.entities, f.entities.len() as int, target, dt);
        Snapshot {
            entities: f.entities.map_values(|e: Entity| enemy_ticked(e, dt)) + ids_from(v, f.next_id as int),
            next_id: (f.next_id + v.len()) as u64,
            ..f
        }
    } else {
        f
    }
}

/// Spawning: the spawn timer ticks, and when it completes a period an enemy
/// appears at offset `x` with sideways velocity `vx`.
pub open spec fn spawned(f: Snapshot, dt: int, x: int, vx: int) -> Snapshot {
    let cfg = EnemySpawnConfig { cooldown: f.spawn_config.cooldown.ticked(dt), ..f.spawn_config };
    if cfg.cooldown.finished && f.next_id < u64::MAX {
        Snapshot {
            entities: f.entities.push(with_id(new_enemy(x, vx, cfg.hp as int, cfg.attack as int), f.next_id)),
            next_id: (f.next_id + 1) as u64,
            spawn_config: cfg,
            ..f
        }
    } else {
        Snapshot { spawn_config: cfg, ..f }
    }
}

pub open spec fn accelerated_all(f: Snapshot, dt: int) -> Snapshot {
    Snapshot { entities: f.entities.map_values(|e: Entity| accelerated(e, dt)), ..f }
}

pub open spec fn moved_all(f: Snapshot, dt: int) -> Snapshot {
    Snapshot { entities: f.entities.map_values(|e: Entity| moved(e, dt)), ..f }
}

/// The bullet pass, and whether the player died in it.
pub open spec fn bullet_stage(f: Snapshot) -> (Snapshot, bool) {
    let r = bullet_pass_from(f.entities, f.score, 0);
    (Snapshot { entities: r.0, score: r.1, ..f }, r.2)
}

/// The contact pass, and whether the player died in it.
pub open spec fn contact_stage(f: Snapshot) -> (Snapshot, bool) {
    if has_player(f.entities) {
        let r = contact_pass_from(f.entities, f.score, player_index(f.entities), 0);
        (Snapshot { entities: r.0, score: r.1, ..f }, r.2)
    } else {
        (f, false)
    }
}

pub open spec fn culled(f: Snapshot) -> Snapshot {
    Snapshot { entities: f.entities.filter(kept(Sweep::OutOfField)), ..f }
}

/// The score display: the flag is cleared, and the score is handed out when
/// it was set.
pub open spec fn score_shown(f: Snapshot) -> (Snapshot, Option<i64>) {
    (
        Snapshot { score: Score { score: f.score.score, is_changed: false }, ..f },
        if f.score.is_changed { Some(f.score.score) } else { None },
    )
}

/// One frame of play with the spawn draw `(x, vx)`: the resulting snapshot,
/// the score to draw, and whether the player died (which ends the frame in
/// game over instead).
#[verifier::opaque]
pub open spec fn played(f: Snapshot, input: Input, dt: int, x: int, vx: int) -> (Snapshot, Option<i64>, bool) {
    let f6 = moved_all(accelerated_all(spawned(enemies_fired(fired(steered(f, input, dt), input, dt), dt), dt, x, vx), dt), dt);
    let (f7, d1) = bullet_stage(f6);
    if d1 {
        (f7, None, true)
    } else {
        let (f8, d2) = contact_stage(f7);
        if d2 {
            (f8, None, true)
        } else {
            let (f10, r) = score_shown(culled(f8));
            (f10, r, false)
        }
    }
}

/// In a well-formed table, the player's index is the one player found.
pub proof fn lemma_player_index(s: Seq<Entity>, next_id: u64, p: int)
    requires
        entities_wf(s, next_id),
        0 <= p < s.len(),
        s[p].is_player(),
    ensures
        has_player(s),
        player_index(s) == p,
{
    assert(has_player(s));
    let q = player_index(s);
    assert(s[q].is_player());
}

/// With no bullet on the field the bullet pass changes nothing: bodies that
/// overlap exchange no damage there.
pub proof fn lemma_no_bullet_no_change(s: Seq<Entity>, score: Score, i: int)
    requires
        0 <= i,
        forall|k: int| 0 <= k < s.len() ==> !(#[trigger] s[k]).is_bullet(),
    ensures
        bullet_pass_from(s, score, i) == (s, score, false),
    decreases s.len() - i,
{
    if i < s.len() {
        lemma_no_bullet_no_change(s, score, i + 1);
    }
}

/// The bullet pass never lowers the score, and raises it by at most one per
/// entity it removes besides the bullets.
pub proof fn lemma_bullet_pass_score(s: Seq<Entity>, score: Score, i: int)
    requires
        0 <= i,
        score.score >= 0,
    ensures
        bullet_pass_from(s, score, i).1.score >= score.score,
        bullet_pass_from(s, score, i).1.score - score.score <= s.len() - bullet_pass_from(s, score, i).0.len(),
    decreases s.len() - i,
{
    if 0 <= i < s.len() {
        if !s[i].is_bullet() {
            lemma_bullet_pass_score(s, score, i + 1);
        } else {
            match first_hit_from(s, i, 0) {
                None => lemma_bullet_pass_score(s, score, i + 1),
                Some(j) => if 0 <= j < s.len() && j != i {
                    let t = struck(s[j], attack_of(s[i]));
                    if !is_dead(t) {
                        lemma_bullet_pass_score(s.update(j, t).remove(i), score, i);
                    } else if s[j].is_enemy() {
                        lemma_bullet_pass_score(remove_pair(s, i, j), scored(score), if j < i { i - 1 } else { i });
                    }
                },
            }
        }
    }
}

/// The contact pass never lowers the score, and raises it by at most one per
/// enemy it removes.
pub proof fn lemma_contact_pass_score(s: Seq<Entity>, score: Score, p: int, i: int)
    requires
        0 <= i,
        score.score >= 0,
    ensures
        contact_pass_from(s, score, p, i).1.score >= score.score,
        contact_pass_from(s, score, p, i).1.score - score.score <= s.len() - contact_pass_from(s, score, p, i).0.len(),
    decreases s.len() - i,
{
    if 0 <= i < s.len() && 0 <= p < s.len() {
        if i != p && touches(s[p], s[i]) {
            let pl = struck(s[p], attack_of(s[i]));
            let en = struck(s[i], attack_of(s[p]));
            if !is_dead(pl) {
                lemma_contact_pass_score(
                    s.update(p, pl).remove(i),
                    if is_dead(en) { scored(score) } else { score },
                    if i < p { p - 1 } else { p },
                    i,
                );
            }
        } else {
            lemma_contact_pass_score(s, score, p, i + 1);
        }
    }
}

} // verus!
