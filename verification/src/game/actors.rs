//! Those who act in the world, and what they are made of.

pub mod ai;
pub mod organs;
pub mod player;

use vstd::prelude::*;

verus! {

/// The difference `a - b`, held to the range of `i32`.
pub open spec fn saturating_sub(a: i32, b: i32) -> i32 {
    if a - b > i32::MAX {
        i32::MAX
    } else if a - b < i32::MIN {
        i32::MIN
    } else {
        (a - b) as i32
    }
}

/// Computes `a - b`, held to the range of `i32`.
pub fn sub_saturating(a: i32, b: i32) -> (r: i32)
    ensures
        r == saturating_sub(a, b),
{
    let wide: i64 = a as i64 - b as i64;
    if wide > i32::MAX as i64 {
        i32::MAX
    } else if wide < i32::MIN as i64 {
        i32::MIN
    } else {
        wide as i32
    }
}

/// What an entity needs to take part in combat.
#[derive(Clone, Copy, Debug, PartialEq, Eq, Structural)]
pub struct Actor {
    pub health_current: i32,
    pub health_max: i32,
    pub attack: i32,
    pub defense: i32,
}

impl Actor {
    /// An actor is sound while its health does not exceed its maximum.
    pub open spec fn wf(&self) -> bool {
        self.health_current <= self.health_max
    }

    /// What `self` becomes when it takes `amount` of damage: its health goes
    /// down by `amount`, held to the range of `i32`, and nothing else changes.
    /// Defense plays no part.
    pub open spec fn damaged(self, amount: i32) -> Actor {
        Actor { health_current: saturating_sub(self.health_current, amount), ..self }
    }

    /// An actor at full health.
    pub fn new(health: i32, attack: i32, defense: i32) -> (a: Actor)
        ensures
            a == (Actor { health_current: health, health_max: health, attack, defense }),
            a.wf(),
    {
        Actor { health_current: health, health_max: health, attack, defense }
    }

    /// Takes `amount` of damage.
    pub fn take_damage(&mut self, amount: i32)
        ensures
            *final(self) == old(self).damaged(amount),
            old(self).wf() && amount >= 0 ==> final(self).wf(),
            i32::MIN <= old(self).health_current - amount <= i32::MAX ==> final(self).health_current
                == old(self).health_current - amount,
    {
        self.health_current = sub_saturating(self.health_current, amount);
    }
}

} // verus!
