//! The per-round combat-resolution algorithm, as a pure function of the two
//! participants' moves and stats. The engine applies it to its registries;
//! tests can drive it with chosen values.

use vstd::prelude::*;
use crate::types::ATTACK_COST;
use crate::types::MOVE_ATTACK;
use crate::types::MOVE_DEFEND;

verus! {

/// One participant's view for a round: current health and mana from the
/// player record, attack and defense strengths from their token.
#[derive(Clone, Copy, PartialEq, Eq, Structural, Debug)]
pub struct Fighter {
    pub health: u64,
    pub mana: u64,
    pub attack: u64,
    pub defense: u64,
}

/// The outcome of resolving one round.
#[derive(Clone, Copy, PartialEq, Eq, Structural, Debug)]
pub enum RoundResult {
    /// One side's attack was lethal: the battle ends now.
    Finished { winner_is_one: bool },
    /// Nobody won: the round's damage and mana settlement, and which side
    /// counts as damaged for the round notification.
    Fought {
        health_one: u64,
        health_two: u64,
        mana_one: u64,
        mana_two: u64,
        damaged_one: bool,
        damaged_two: bool,
    },
}

/// Mana gained by a successful defense, saturating at the type's maximum.
pub open spec fn spec_mana_gain(m: u64) -> u64 {
    if m <= u64::MAX - ATTACK_COST {
        (m + ATTACK_COST) as u64
    } else {
        u64::MAX
    }
}

/// Adds the defense mana reward, saturating at the type's maximum.
pub fn mana_gain(m: u64) -> (r: u64)
    ensures
        r == spec_mana_gain(m),
{
    if m <= u64::MAX - ATTACK_COST {
        m + ATTACK_COST
    } else {
        u64::MAX
    }
}

/// The round-resolution rules.
///
/// Attack vs Attack: a lethal attack (at least the opponent's health, the
/// first fighter checked first) wins outright; otherwise each loses health
/// equal to the opponent's attack and pays the attack's mana cost.
///
/// Attack vs Defend: the defender's guard is health plus defense. A hit of
/// at least the guard wins outright; otherwise the defense absorbs the hit
/// fully (defense greater than the attack: no damage) or partially (health
/// becomes guard minus attack). The attacker pays mana, the defender gains
/// mana either way.
///
/// Defend vs Defend: no health change; both gain mana.
pub open spec fn spec_resolve_round(one: Fighter, two: Fighter, move_one: u8, move_two: u8) -> RoundResult
    recommends
        move_one == MOVE_ATTACK || move_one == MOVE_DEFEND,
        move_two == MOVE_ATTACK || move_two == MOVE_DEFEND,
{
    if move_one == MOVE_ATTACK && move_two == MOVE_ATTACK {
        if one.attack >= two.health {
            RoundResult::Finished { winner_is_one: true }
        } else if two.attack >= one.health {
            RoundResult::Finished { winner_is_one: false }
        } else {
            RoundResult::Fought {
                health_one: (one.health - two.attack) as u64,
                health_two: (two.health - one.attack) as u64,
                mana_one: (one.mana - ATTACK_COST) as u64,
                mana_two: (two.mana - ATTACK_COST) as u64,
                damaged_one: true,
                damaged_two: true,
            }
        }
    } else if move_one == MOVE_ATTACK {
        if one.attack >= two.health + two.defense {
            RoundResult::Finished { winner_is_one: true }
        } else {
            RoundResult::Fought {
                health_one: one.health,
                health_two: if two.defense > one.attack {
                    two.health
                } else {
                    (two.health + two.defense - one.attack) as u64
                },
                mana_one: (one.mana - ATTACK_COST) as u64,
                mana_two: spec_mana_gain(two.mana),
                damaged_one: false,
                damaged_two: two.defense <= one.attack,
            }
        }
    } else if move_two == MOVE_ATTACK {
        if two.attack >= one.health + one.defense {
            RoundResult::Finished { winner_is_one: false }
        } else {
            RoundResult::Fought {
                health_one: if one.defense > two.attack {
                    one.health
                } else {
                    (one.health + one.defense - two.attack) as u64
                },
                health_two: two.health,
                mana_one: spec_mana_gain(one.mana),
                mana_two: (two.mana - ATTACK_COST) as u64,
                damaged_one: one.defense <= two.attack,
                damaged_two: false,
            }
        }
    } else {
        RoundResult::Fought {
            health_one: one.health,
            health_two: two.health,
            mana_one: spec_mana_gain(one.mana),
            mana_two: spec_mana_gain(two.mana),
            damaged_one: false,
            damaged_two: false,
        }
    }
}

/// Resolves one round. The result is exactly `spec_resolve_round`; the
/// extra clauses record that a fought round never raises health, which is
/// what keeps health within its cap across rounds.
pub fn resolve_round(one: &Fighter, two: &Fighter, move_one: u8, move_two: u8) -> (r: RoundResult)
    requires
        move_one == MOVE_ATTACK || move_one == MOVE_DEFEND,
        move_two == MOVE_ATTACK || move_two == MOVE_DEFEND,
        move_one == MOVE_ATTACK ==> one.mana >= ATTACK_COST,
        move_two == MOVE_ATTACK ==> two.mana >= ATTACK_COST,
        one.health + one.defense <= u64::MAX,
        two.health + two.defense <= u64::MAX,
    ensures
        r == spec_resolve_round(*one, *two, move_one, move_two),
        r is Fought ==> r->health_one <= one.health && r->health_two <= two.health,
{
    if move_one == MOVE_ATTACK && move_two == MOVE_ATTACK {
        if one.attack >= two.health {
            RoundResult::Finished { winner_is_one: true }
        } else if two.attack >= one.health {
            RoundResult::Finished { winner_is_one: false }
        } else {
            RoundResult::Fought {
                health_one: one.health - two.attack,
                health_two: two.health - one.attack,
                mana_one: one.mana - ATTACK_COST,
                mana_two: two.mana - ATTACK_COST,
                damaged_one: true,
                damaged_two: true,
            }
        }
    } else if move_one == MOVE_ATTACK {
        let guard: u64 = two.health + two.defense;
        if one.attack >= guard {
            RoundResult::Finished { winner_is_one: true }
        } else {
            RoundResult::Fought {
                health_one: one.health,
                health_two: if two.defense > one.attack {
                    two.health
                } else {
                    guard - one.attack
                },
                mana_one: one.mana - ATTACK_COST,
                mana_two: mana_gain(two.mana),
                damaged_one: false,
                damaged_two: two.defense <= one.attack,
            }
        }
    } else if move_two == MOVE_ATTACK {
        let guard: u64 = one.health + one.defense;
        if two.attack >= guard {
            RoundResult::Finished { winner_is_one: false }
        } else {
            RoundResult::Fought {
                health_one: if one.defense > two.attack {
                    one.health
                } else {
                    guard - two.attack
                },
                health_two: two.health,
                mana_one: mana_gain(one.mana),
                mana_two: two.mana - ATTACK_COST,
                damaged_one: one.defense <= two.attack,
                damaged_two: false,
            }
        }
    } else {
        RoundResult::Fought {
            health_one: one.health,
            health_two: two.health,
            mana_one: mana_gain(one.mana),
            mana_two: mana_gain(two.mana),
            damaged_one: false,
            damaged_two: false,
        }
    }
}

} // verus!
