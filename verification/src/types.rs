//! Core data model: players, game tokens, battles, and the error taxonomy.

use vstd::prelude::*;

verus! {

/// Every token's attack and defense strengths sum to this constant.
pub const MAX_ATTACK_DEFEND_STRENGTH: u64 = 10;

/// Health a player starts with, and is reset to when a battle ends.
pub const STARTING_HEALTH: u64 = 25;

/// Mana a player starts with, and is reset to when a battle ends.
pub const STARTING_MANA: u64 = 10;

/// Mana cost of an Attack move; also the mana gained by a successful defense.
pub const ATTACK_COST: u64 = 3;

/// Move code for an unset move slot.
pub const MOVE_UNSET: u8 = 0;

/// Move code for Attack.
pub const MOVE_ATTACK: u8 = 1;

/// Move code for Defend.
pub const MOVE_DEFEND: u8 = 2;

/// Number of distinct token kinds; a rolled kind id lies in `1..=TOKEN_KINDS`.
pub const TOKEN_KINDS: u64 = 6;

/// Everything that can go wrong with an engine operation. Every failure
/// leaves the state unchanged.
#[derive(Clone, Copy, PartialEq, Eq, Structural, Debug)]
pub enum GameError {
    /// The acting address is not a registered player.
    NotAPlayer,
    /// The acting address is already a registered player.
    AlreadyRegistered,
    /// The player (or the battle's creator) is already bound to a live battle.
    AlreadyInBattle,
    /// The battle name is already taken.
    NameTaken,
    /// No battle with the given name exists.
    NotFound,
    /// The battle has already been joined or has ended.
    NotPending,
    /// The battle is not in the Started state.
    NotStarted,
    /// A player tried to join their own battle.
    SelfJoin,
    /// The acting address is neither participant of the battle.
    NotAParticipant,
    /// The player already has a move recorded for this round.
    MoveAlreadySet,
    /// The move code is neither Attack nor Defend, or a slot index is not 0 or 1.
    InvalidChoice,
    /// The player cannot afford the mana cost of an Attack.
    InsufficientMana,
    /// The player has not minted a token yet.
    NoToken,
    /// Round resolution was requested before both moves were in.
    MovesNotReady,
}

/// Lifecycle of a battle: `Pending` (waiting for a joiner), `Started`
/// (both participants bound, rounds running), `Ended` (terminal).
#[derive(Clone, Copy, PartialEq, Eq, Structural, Debug)]
pub enum BattleStatus {
    Pending,
    Started,
    Ended,
}

/// A registered player. The address is the unique key.
pub struct Player {
    pub player_address: u64,
    pub player_name: String,
    pub player_mana: u64,
    pub player_health: u64,
    pub in_battle: bool,
}

/// A collectible combat token. `attack_strength + defense_strength`
/// always equals `MAX_ATTACK_DEFEND_STRENGTH`.
pub struct GameToken {
    pub name: String,
    pub kind: u64,
    pub attack_strength: u64,
    pub defense_strength: u64,
}

/// A named battle between the creator (`player_one`) and a joiner
/// (`player_two`, absent while the battle is Pending).
pub struct Battle {
    pub battle_status: BattleStatus,
    pub battle_hash: [u8; 32],
    pub name: String,
    pub player_one: u64,
    pub player_two: Option<u64>,
    pub move_one: u8,
    pub move_two: u8,
    pub winner: Option<u64>,
}

/// Maps a token owner to the index of their current token; minting again
/// overwrites the index (one active token per player).
pub struct TokenSlot {
    pub owner: u64,
    pub token_index: usize,
}

/// The notification a battle's termination emits: its name is known to the
/// caller; winner and loser are the two participants.
#[derive(Clone, Copy, PartialEq, Eq, Structural, Debug)]
pub struct BattleEnded {
    pub winner: u64,
    pub loser: u64,
}

/// What a submitted move led to.
#[derive(Clone, Copy, PartialEq, Eq, Structural, Debug)]
pub enum MoveOutcome {
    /// The move was recorded; the opponent has not moved yet.
    Waiting,
    /// Both moves were in; the round resolved without ending the battle.
    /// The flags say which side took health damage this round.
    RoundResolved { damaged_one: bool, damaged_two: bool },
    /// Both moves were in and resolution ended the battle.
    Ended { winner: u64, loser: u64 },
}

} // verus!
