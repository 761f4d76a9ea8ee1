//! Sides and combat status.
use vstd::prelude::*;

verus! {

/// Which side an entity fights for; only opposite sides collide.
#[derive(Clone, Copy, Debug, PartialEq, Eq, Structural)]
pub enum Team {
    Player,
    Enemy,
}

/// Hit points, attack power and the invincibility flag.
#[derive(Clone, Copy, Debug, PartialEq, Eq, Structural)]
pub struct Status {
    pub hp: i32,
    pub attack: i32,
    pub is_invincible: bool,
}

impl Status {
    /// The status after taking `attack` damage.
    pub open spec fn damaged(self, attack: int) -> Status {
        if self.is_invincible {
            self
        } else {
            Status { hp: (self.hp - attack) as i32, ..self }
        }
    }

    pub open spec fn dead(self) -> bool {
        self.hp <= 0
    }

    pub fn new(hp: i32, attack: i32) -> (r: Status)
        ensures
            r == (Status { hp, attack, is_invincible: false }),
    {
        Status { hp, attack, is_invincible: false }
    }

    /// Takes `attack` damage unless invincible.
    pub fn reduce_hp(&mut self, attack: i32)
        requires
            i32::MIN <= old(self).hp - attack <= i32::MAX,
        ensures
            *final(self) == old(self).damaged(attack as int),
    {
        if !self.is_invincible {
            self.hp = self.hp - attack;
        }
    }

    pub fn get_attack(&self) -> (r: i32)
        ensures
            r == self.attack,
    {
        self.attack
    }

    pub fn is_die(&self) -> (r: bool)
        ensures
            r == self.dead(),
    {
        self.hp <= 0
    }
}

} // verus!
