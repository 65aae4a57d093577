//! Random stat generation: a trusted draw of raw entropy, and verified
//! derivation of bounded values and attack/defense splits from it.

use vstd::prelude::*;
use crate::types::MAX_ATTACK_DEFEND_STRENGTH;
use crate::types::TOKEN_KINDS;

verus! {

/// Relies on `rand::random`: draws a uniform `u64` from the thread-local
/// generator. Nothing can be promised of a random value.
#[verifier::external_body]
pub fn random_u64() -> u64 {
    rand::random::<u64>()
}

/// What `num_from_draw` returns: the draw reduced modulo `max`, with a
/// zero residue replaced by `max / 2` to avoid a degenerate split.
pub open spec fn spec_num_from_draw(draw: u64, max: u64) -> u64
    recommends
        max >= 2,
{
    if draw as int % max as int == 0 {
        (max / 2) as u64
    } else {
        (draw as int % max as int) as u64
    }
}

/// Reduces a raw draw to a value in `1..max`. Deterministic in its
/// arguments, so tests can drive it with chosen draws.
pub fn num_from_draw(draw: u64, max: u64) -> (r: u64)
    requires
        max >= 2,
    ensures
        r == spec_num_from_draw(draw, max),
        1 <= r < max,
{
    let residue: u64 = draw % max;
    if residue == 0 {
        max / 2
    } else {
        residue
    }
}

/// Draws a pseudo-random value in `1..max` (never 0: a zero residue is
/// replaced by `max / 2`).
pub fn create_random_num(max: u64) -> (r: u64)
    requires
        max >= 2,
    ensures
        1 <= r < max,
{
    let draw: u64 = random_u64();
    num_from_draw(draw, max)
}

/// What `kind_from_draw` returns: a token kind id in `1..=TOKEN_KINDS`.
pub open spec fn spec_kind_from_draw(draw: u64) -> u64 {
    ((draw as int % 100) % TOKEN_KINDS as int + 1) as u64
}

/// Reduces a raw draw to a token kind id. Deterministic in its argument.
pub fn kind_from_draw(draw: u64) -> (r: u64)
    ensures
        r == spec_kind_from_draw(draw),
        1 <= r <= TOKEN_KINDS,
{
    draw % 100 % TOKEN_KINDS + 1
}

/// Rolls a token kind id uniformly, independent of the stat split.
pub fn roll_kind() -> (r: u64)
    ensures
        1 <= r <= TOKEN_KINDS,
{
    let draw: u64 = random_u64();
    kind_from_draw(draw)
}

/// Rolls a fresh attack/defense split: attack in `1..MAX_ATTACK_DEFEND_STRENGTH`
/// and defense its complement, so the two always sum to the constant.
pub fn roll_split() -> (r: (u64, u64))
    ensures
        r.0 + r.1 == MAX_ATTACK_DEFEND_STRENGTH,
        1 <= r.0 < MAX_ATTACK_DEFEND_STRENGTH,
        1 <= r.1 < MAX_ATTACK_DEFEND_STRENGTH,
{
    let attack: u64 = create_random_num(MAX_ATTACK_DEFEND_STRENGTH);
    (attack, MAX_ATTACK_DEFEND_STRENGTH - attack)
}

} // verus!
