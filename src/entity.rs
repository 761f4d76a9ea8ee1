//! Entities and the invariants of the entity table.
use vstd::prelude::*;
use crate::combat::{Status, Team};
use crate::cooldown::Cooldown;
use crate::geometry::{Collider, Vec2, POS_LIMIT, RATE_LIMIT};
use crate::movement::in_player_area;

verus! {

/// Largest attack power of any fighter.
pub const ATTACK_LIMIT: i32 = 1_000_000;

/// The texts the display shows.
#[derive(Clone, Copy, Debug, PartialEq, Eq, Structural)]
pub enum Label {
    Title,
    Controls,
    ScoreBoard,
    GameOver,
    RestartHint,
}

/// What an entity is. All but texts belong to a run and are cleared on
/// restart.
#[derive(Clone, Copy, Debug, PartialEq, Eq, Structural)]
pub enum Kind {
    Player,
    Enemy,
    Bullet,
    Text(Label),
}

/// What an entity needs to take part in combat.
#[derive(Clone, Copy, Debug, PartialEq, Eq, Structural)]
pub struct Fighter {
    pub team: Team,
    pub collider: Collider,
    pub status: Status,
}

/// One simulated object and its optional attributes.
#[derive(Clone, Copy, Debug, PartialEq, Eq, Structural)]
pub struct Entity {
    pub id: u64,
    pub kind: Kind,
    pub pos: Vec2,
    pub vel: Option<Vec2>,
    pub acc: Option<Vec2>,
    pub fighter: Option<Fighter>,
    pub fire: Option<Cooldown>,
}

impl Fighter {
    pub open spec fn wf(self) -> bool {
        &&& self.collider.wf()
        &&& self.status.hp > 0
        &&& 0 <= self.status.attack <= ATTACK_LIMIT
    }
}

impl Entity {
    pub open spec fn is_player(self) -> bool {
        self.kind == Kind::Player
    }

    pub open spec fn is_enemy(self) -> bool {
        self.kind == Kind::Enemy
    }

    pub open spec fn is_bullet(self) -> bool {
        self.kind == Kind::Bullet
    }

    pub open spec fn is_text(self) -> bool {
        self.kind is Text
    }

    /// Bounds on every attribute, a fighter exactly on the combat kinds, on
    /// the side its kind implies, and a player that stays in its area and is
    /// moved by steering alone.
    pub open spec fn wf(self) -> bool {
        &&& self.pos.within(POS_LIMIT as int)
        &&& (self.vel matches Some(v) ==> v.within(RATE_LIMIT as int))
        &&& (self.acc matches Some(a) ==> a.within(RATE_LIMIT as int))
        &&& (self.fire matches Some(c) ==> c.wf())
        &&& (self.fighter matches Some(f) ==> f.wf())
        &&& (self.is_text() <==> self.fighter is None)
        &&& (self.is_player() ==> self.fighter.unwrap().team == Team::Player)
        &&& (self.is_enemy() ==> self.fighter.unwrap().team == Team::Enemy)
        &&& (self.is_player() ==> in_player_area(self.pos) && self.vel is None)
    }
}

/// Every entity is well formed, has an id below `next_id`, no two share an
/// id, and there is at most one player.
pub open spec fn entities_wf(s: Seq<Entity>, next_id: u64) -> bool {
    &&& forall|k: int| 0 <= k < s.len() ==> (#[trigger] s[k]).wf() && s[k].id < next_id
    &&& forall|k: int, l: int|
        0 <= k < s.len() && 0 <= l < s.len() && k != l ==> (#[trigger] s[k]).id != (#[trigger] s[l]).id
    &&& forall|k: int, l: int|
        0 <= k < s.len() && 0 <= l < s.len() && (#[trigger] s[k]).is_player() && (#[trigger] s[l]).is_player() ==> k == l
}

pub open spec fn has_player(s: Seq<Entity>) -> bool {
    exists|k: int| 0 <= k < s.len() && (#[trigger] s[k]).is_player()
}

pub proof fn lemma_remove_wf(s: Seq<Entity>, next_id: u64, i: int)
    requires
        entities_wf(s, next_id),
        0 <= i < s.len(),
    ensures
        entities_wf(s.remove(i), next_id),
        !s[i].is_player() && has_player(s) ==> has_player(s.remove(i)),
        s[i].is_player() ==> !has_player(s.remove(i)),
        has_player(s.remove(i)) ==> has_player(s),
{
    let t = s.remove(i);
    assert forall|k: int| 0 <= k < t.len() implies t[k] == s[if k < i { k } else { k + 1 }] by {}
    assert forall|k: int, l: int|
        0 <= k < t.len() && 0 <= l < t.len() && k != l implies (#[trigger] t[k]).id != (#[trigger] t[l]).id by {
        let k2 = if k < i { k } else { k + 1 };
        let l2 = if l < i { l } else { l + 1 };
        assert(s[k2].id != s[l2].id);
    }
    assert forall|k: int, l: int|
        0 <= k < t.len() && 0 <= l < t.len() && (#[trigger] t[k]).is_player() && (#[trigger] t[l]).is_player() implies k == l by {
        let k2 = if k < i { k } else { k + 1 };
        let l2 = if l < i { l } else { l + 1 };
        assert(s[k2].is_player() && s[l2].is_player());
    }
    if !s[i].is_player() && has_player(s) {
        let k = choose|k: int| 0 <= k < s.len() && (#[trigger] s[k]).is_player();
        let k2 = if k < i { k } else { k - 1 };
        assert(t[k2].is_player());
    }
    if has_player(t) {
        let k = choose|k: int| 0 <= k < t.len() && (#[trigger] t[k]).is_player();
        let k2 = if k < i { k } else { k + 1 };
        assert(s[k2].is_player());
    }
    if s[i].is_player() {
        assert forall|k: int| 0 <= k < t.len() implies !(#[trigger] t[k]).is_player() by {
            let k2 = if k < i { k } else { k + 1 };
            assert(s[k2].is_player() ==> k2 == i);
        }
    }
}

/// Replacing an entity by one with the same id that is a player exactly when
/// the old one was keeps the table well formed.
pub proof fn lemma_update_wf(s: Seq<Entity>, next_id: u64, i: int, e: Entity)
    requires
        entities_wf(s, next_id),
        0 <= i < s.len(),
        e.wf(),
        e.id == s[i].id,
        e.is_player() == s[i].is_player(),
    ensures
        entities_wf(s.update(i, e), next_id),
        has_player(s.update(i, e)) == has_player(s),
{
    let t = s.update(i, e);
    assert forall|k: int, l: int|
        0 <= k < t.len() && 0 <= l < t.len() && (#[trigger] t[k]).is_player() && (#[trigger] t[l]).is_player() implies k == l by {
        assert(s[k].is_player() && s[l].is_player());
    }
    assert forall|k: int, l: int|
        0 <= k < t.len() && 0 <= l < t.len() && k != l implies (#[trigger] t[k]).id != (#[trigger] t[l]).id by {
        assert(s[k].id != s[l].id);
    }
    if has_player(s) {
        let k = choose|k: int| 0 <= k < s.len() && (#[trigger] s[k]).is_player();
        assert(t[k].is_player());
    }
    if has_player(t) {
        let k = choose|k: int| 0 <= k < t.len() && (#[trigger] t[k]).is_player();
        assert(s[k].is_player());
    }
}

/// Appending a fresh entity, a player only where there is none, keeps the
/// table well formed.
pub proof fn lemma_push_wf(s: Seq<Entity>, next_id: u64, e: Entity)
    requires
        entities_wf(s, next_id),
        next_id < u64::MAX,
        e.wf(),
        e.id == next_id,
        e.is_player() ==> !has_player(s),
    ensures
        entities_wf(s.push(e), (next_id + 1) as u64),
        has_player(s) ==> has_player(s.push(e)),
        has_player(s.push(e)) == (has_player(s) || e.is_player()),
{
    let t = s.push(e);
    assert forall|k: int, l: int|
        0 <= k < t.len() && 0 <= l < t.len() && (#[trigger] t[k]).is_player() && (#[trigger] t[l]).is_player() implies k == l by {
        if k < s.len() && l == s.len() {
            assert(s[k].is_player());
        } else if l < s.len() && k == s.len() {
            assert(s[l].is_player());
        }
    }
    if has_player(s) {
        let k = choose|k: int| 0 <= k < s.len() && (#[trigger] s[k]).is_player();
        assert(t[k].is_player());
    }
    if e.is_player() {
        assert(t[s.len() as int].is_player());
    }
    if has_player(t) {
        let k = choose|k: int| 0 <= k < t.len() && (#[trigger] t[k]).is_player();
        if k < s.len() {
            assert(s[k].is_player());
        }
    }
}

} // verus!
