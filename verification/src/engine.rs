//! The battle engine: registries for players, tokens and battles, the
//! lifecycle operations over them, and the invariants that tie them
//! together.
//!
//! Index 0 of each backing array is a reserved sentinel entry, so valid
//! entries live at indices 1 and up; `get_all_*` hands the arrays out
//! whole and callers skip the sentinel.

use vstd::prelude::*;
use crate::types::ATTACK_COST;
use crate::types::Battle;
use crate::types::BattleEnded;
use crate::types::BattleStatus;
use crate::types::GameError;
use crate::types::GameToken;
use crate::types::MAX_ATTACK_DEFEND_STRENGTH;
use crate::types::MOVE_ATTACK;
use crate::types::MOVE_DEFEND;
use crate::types::MOVE_UNSET;
use crate::types::MoveOutcome;
use crate::types::Player;
use crate::types::STARTING_HEALTH;
use crate::types::STARTING_MANA;
use crate::types::TOKEN_KINDS;
use crate::types::TokenSlot;
use crate::combat::Fighter;
use crate::combat::RoundResult;
use crate::combat::resolve_round;
use crate::combat::spec_resolve_round;
use crate::rng::roll_split;
use crate::rng::roll_kind;
use crate::hashing::keccak_hash;
use crate::hashing::keccak_of;

verus! {

/// The whole game state: one owned object instead of ambient globals.
pub struct GameState {
    pub players: Vec<Player>,
    pub tokens: Vec<GameToken>,
    pub token_slots: Vec<TokenSlot>,
    pub battles: Vec<Battle>,
    pub total_supply: u64,
}

/// Some player at index 1 or above carries this address.
pub open spec fn is_registered(ps: Seq<Player>, addr: u64) -> bool {
    exists|i: int| 1 <= i < ps.len() && ps[i].player_address == addr
}

/// The battle references this address in either participant slot.
pub open spec fn battle_refers_to(b: Battle, addr: u64) -> bool {
    b.player_one == addr || b.player_two == Some(addr)
}

/// Some Started battle references this address.
pub open spec fn in_started_battle(bs: Seq<Battle>, addr: u64) -> bool {
    exists|j: int|
        1 <= j < bs.len() && bs[j].battle_status is Started && battle_refers_to(bs[j], addr)
}

/// Some battle at index 1 or above carries this name.
pub open spec fn battle_exists(bs: Seq<Battle>, name: Seq<char>) -> bool {
    exists|j: int| 1 <= j < bs.len() && bs[j].name@ == name
}

/// Every player with this address (there is at most one) has at least
/// `need` mana.
pub open spec fn mana_of_at_least(ps: Seq<Player>, addr: u64, need: u64) -> bool {
    forall|i: int|
        1 <= i < ps.len() && ps[i].player_address == addr ==> ps[i].player_mana >= need
}

/// Player addresses are unique and health never exceeds its cap.
pub open spec fn players_ok(ps: Seq<Player>) -> bool {
    &&& ps.len() >= 1
    &&& (forall|i: int, j: int|
        1 <= i < j < ps.len() ==> ps[i].player_address != ps[j].player_address)
    &&& (forall|i: int| 1 <= i < ps.len() ==> ps[i].player_health <= STARTING_HEALTH)
}

/// A token's rolled stats: a nonzero split summing to the fixed constant,
/// and a kind id in range.
pub open spec fn token_stats_ok(t: GameToken) -> bool {
    &&& 1 <= t.attack_strength < MAX_ATTACK_DEFEND_STRENGTH
    &&& t.attack_strength + t.defense_strength == MAX_ATTACK_DEFEND_STRENGTH
    &&& 1 <= t.kind <= TOKEN_KINDS
}

pub open spec fn tokens_ok(ts: Seq<GameToken>) -> bool {
    &&& ts.len() >= 1
    &&& (forall|i: int| 1 <= i < ts.len() ==> token_stats_ok(ts[i]))
}

/// This address owns a token slot.
pub open spec fn has_token(slots: Seq<TokenSlot>, addr: u64) -> bool {
    exists|s: int| 0 <= s < slots.len() && slots[s].owner == addr
}

/// Slot owners are unique, registered, and point at real token entries.
pub open spec fn slots_ok(slots: Seq<TokenSlot>, tokens_len: int, ps: Seq<Player>) -> bool {
    &&& (forall|s: int, t: int| 0 <= s < t < slots.len() ==> slots[s].owner != slots[t].owner)
    &&& (forall|s: int|
        0 <= s < slots.len() ==> 1 <= slots[s].token_index < tokens_len && is_registered(
            ps,
            slots[s].owner,
        ))
}

pub open spec fn move_code_ok(m: u8) -> bool {
    m == MOVE_UNSET || m == MOVE_ATTACK || m == MOVE_DEFEND
}

/// The per-battle structural invariant, by status:
/// Pending battles have no joiner, no winner and no moves; Started battles
/// have two distinct registered participants who both own tokens, and any
/// recorded Attack move is backed by the mover's mana; Ended battles have
/// a winner who was a participant and cleared move slots.
pub open spec fn battle_ok(b: Battle, ps: Seq<Player>, slots: Seq<TokenSlot>) -> bool {
    &&& is_registered(ps, b.player_one)
    &&& move_code_ok(b.move_one)
    &&& move_code_ok(b.move_two)
    &&& match b.battle_status {
        BattleStatus::Pending => {
            &&& b.player_two is None
            &&& b.winner is None
            &&& b.move_one == MOVE_UNSET
            &&& b.move_two == MOVE_UNSET
        },
        BattleStatus::Started => {
            &&& b.player_two matches Some(p2) && {
                &&& p2 != b.player_one
                &&& is_registered(ps, p2)
                &&& has_token(slots, p2)
                &&& (b.move_two == MOVE_ATTACK ==> mana_of_at_least(ps, p2, ATTACK_COST))
            }
            &&& b.winner is None
            &&& has_token(slots, b.player_one)
            &&& (b.move_one == MOVE_ATTACK ==> mana_of_at_least(ps, b.player_one, ATTACK_COST))
        },
        BattleStatus::Ended => {
            &&& b.player_two matches Some(p2) && p2 != b.player_one && is_registered(ps, p2)
            &&& b.move_one == MOVE_UNSET
            &&& b.move_two == MOVE_UNSET
            &&& b.winner matches Some(w) && battle_refers_to(b, w)
        },
    }
}

/// Battle names are unique and every battle satisfies `battle_ok`.
pub open spec fn battles_ok(bs: Seq<Battle>, ps: Seq<Player>, slots: Seq<TokenSlot>) -> bool {
    &&& bs.len() >= 1
    &&& (forall|j: int| 1 <= j < bs.len() ==> battle_ok(bs[j], ps, slots))
    &&& (forall|i: int, j: int| 1 <= i < j < bs.len() ==> bs[i].name@ != bs[j].name@)
}

/// The two battles reference no common address.
pub open spec fn disjoint_battles(a: Battle, b: Battle) -> bool {
    &&& !battle_refers_to(b, a.player_one)
    &&& (a.player_two matches Some(p2) ==> !battle_refers_to(b, p2))
}

/// The cross-registry link: a player's `in_battle` flag holds exactly when
/// some Started battle references them, and no two Started battles share a
/// participant (at most one live battle per player).
pub open spec fn links_ok(ps: Seq<Player>, bs: Seq<Battle>) -> bool {
    &&& (forall|i: int|
        1 <= i < ps.len() ==> (ps[i].in_battle <==> in_started_battle(
            bs,
            ps[i].player_address,
        )))
    &&& (forall|j: int, k: int|
        1 <= j < bs.len() && 1 <= k < bs.len() && j != k && bs[j].battle_status is Started
            && bs[k].battle_status is Started ==> disjoint_battles(bs[j], bs[k]))
}

impl GameState {
    /// Well-formedness of the whole state; every operation preserves it.
    pub open spec fn wf(&self) -> bool {
        &&& players_ok(self.players@)
        &&& tokens_ok(self.tokens@)
        &&& slots_ok(self.token_slots@, self.tokens@.len() as int, self.players@)
        &&& battles_ok(self.battles@, self.players@, self.token_slots@)
        &&& links_ok(self.players@, self.battles@)
        &&& self.total_supply == self.tokens@.len() - 1
    }
}

/// A just-registered player: starting mana and health, not in a battle.
pub open spec fn fresh_player(p: Player, addr: u64, name: Seq<char>) -> bool {
    &&& p.player_address == addr
    &&& p.player_name@ == name
    &&& p.player_mana == STARTING_MANA
    &&& p.player_health == STARTING_HEALTH
    &&& !p.in_battle
}

/// A battle status may only move forward: Pending to Started, Started to
/// Ended, or stay where it is. Ended is terminal.
pub open spec fn status_step_ok(a: BattleStatus, b: BattleStatus) -> bool {
    match a {
        BattleStatus::Pending => !(b is Ended),
        BattleStatus::Started => !(b is Pending),
        BattleStatus::Ended => b is Ended,
    }
}

/// The battle state machine law: no operation removes a battle, every
/// battle's status steps forward at most one stage, and an Ended battle is
/// frozen whole (winner and all).
pub open spec fn battles_monotone(a: Seq<Battle>, b: Seq<Battle>) -> bool {
    &&& a.len() <= b.len()
    &&& (forall|j: int| 0 <= j < a.len() ==> status_step_ok(a[j].battle_status, b[j].battle_status))
    &&& (forall|j: int| 0 <= j < a.len() && a[j].battle_status is Ended ==> b[j] == a[j])
}

impl GameState {
    /// Creates the empty game state: each registry holds only its reserved
    /// sentinel entry.
    pub fn new() -> (s: GameState)
        ensures
            s.wf(),
            s.players@.len() == 1,
            s.tokens@.len() == 1,
            s.battles@.len() == 1,
            s.token_slots@.len() == 0,
            s.total_supply == 0,
    {
        let mut players: Vec<Player> = Vec::new();
        players.push(
            Player {
                player_address: 0,
                player_name: String::new(),
                player_mana: 0,
                player_health: 0,
                in_battle: false,
            },
        );
        let mut tokens: Vec<GameToken> = Vec::new();
        tokens.push(
            GameToken { name: String::new(), kind: 0, attack_strength: 0, defense_strength: 0 },
        );
        let mut battles: Vec<Battle> = Vec::new();
        battles.push(
            Battle {
                battle_status: BattleStatus::Pending,
                battle_hash: [0u8; 32],
                name: String::new(),
                player_one: 0,
                player_two: None,
                move_one: MOVE_UNSET,
                move_two: MOVE_UNSET,
                winner: None,
            },
        );
        GameState { players, tokens, token_slots: Vec::new(), battles, total_supply: 0 }
    }

    /// Finds the registry index of the player with this address.
    pub fn find_player(&self, addr: u64) -> (r: Option<usize>)
        ensures
            match r {
                Some(i) => 1 <= i < self.players@.len() && self.players@[i as int].player_address
                    == addr,
                None => !is_registered(self.players@, addr),
            },
    {
        if self.players.len() == 0 {
            return None;
        }
        let mut j: usize = 1;
        while j < self.players.len()
            invariant
                1 <= j <= self.players@.len(),
                forall|i: int| 1 <= i < j ==> self.players@[i].player_address != addr,
            decreases self.players@.len() - j,
        {
            if self.players[j].player_address == addr {
                return Some(j);
            }
            j = j + 1;
        }
        None
    }

    /// Whether this address is a registered player.
    pub fn is_player(&self, addr: u64) -> (r: bool)
        ensures
            r == is_registered(self.players@, addr),
    {
        self.find_player(addr).is_some()
    }

    /// The player registered under this address, if any.
    pub fn get_player(&self, addr: u64) -> (r: Option<&Player>)
        ensures
            match r {
                Some(p) => is_registered(self.players@, addr) && p.player_address == addr && (
                exists|i: int| 1 <= i < self.players@.len() && self.players@[i] == *p),
                None => !is_registered(self.players@, addr),
            },
    {
        match self.find_player(addr) {
            Some(i) => Some(&self.players[i]),
            None => None,
        }
    }

    /// All player entries in insertion order, the sentinel at position 0
    /// included: callers filter it.
    pub fn get_all_players(&self) -> (r: &Vec<Player>)
        ensures
            r@ == self.players@,
    {
        &self.players
    }

    /// Registers a new player with starting mana and health.
    pub fn register_player(&mut self, addr: u64, name: &str) -> (r: Result<(), GameError>)
        requires
            old(self).wf(),
        ensures
            final(self).wf(),
            battles_monotone(old(self).battles@, final(self).battles@),
            match r {
                Ok(()) => {
                    &&& !is_registered(old(self).players@, addr)
                    &&& final(self).players@.len() == old(self).players@.len() + 1
                    &&& (forall|i: int|
                        0 <= i < old(self).players@.len() ==> final(self).players@[i] == old(
                            self,
                        ).players@[i])
                    &&& fresh_player(final(self).players@.last(), addr, name@)
                    &&& final(self).tokens@ == old(self).tokens@
                    &&& final(self).token_slots@ == old(self).token_slots@
                    &&& final(self).battles@ == old(self).battles@
                    &&& final(self).total_supply == old(self).total_supply
                },
                Err(e) => {
                    &&& e == GameError::AlreadyRegistered
                    &&& is_registered(old(self).players@, addr)
                    &&& *final(self) == *old(self)
                },
            },
    {
        if self.is_player(addr) {
            return Err(GameError::AlreadyRegistered);
        }
        let p = Player {
            player_address: addr,
            player_name: name.to_owned(),
            player_mana: STARTING_MANA,
            player_health: STARTING_HEALTH,
            in_battle: false,
        };
        self.players.push(p);
        proof {
            let ps = self.players@;
            let ops = old(self).players@;
            let bs = self.battles@;
            assert forall|a: u64| a != addr implies is_registered(ops, a) == is_registered(
                ps,
                a,
            ) by {
                if is_registered(ops, a) {
                    let w = choose|k: int| 1 <= k < ops.len() && ops[k].player_address == a;
                    assert(ps[w].player_address == a);
                }
                if is_registered(ps, a) {
                    let w = choose|k: int| 1 <= k < ps.len() && ps[k].player_address == a;
                    assert(w < ops.len());
                    assert(ops[w].player_address == a);
                }
            }
            // Every battle participant was registered before the push, so no
            // battle references the new address.
            assert forall|j: int| 1 <= j < bs.len() implies battle_ok(bs[j], ps, self.token_slots@)
                by {
                assert(battle_ok(bs[j], ops, self.token_slots@));
                assert(bs[j].player_one != addr);
                if bs[j].player_two is Some {
                    let p2 = bs[j].player_two->0;
                    assert(is_registered(ops, p2));
                    assert(p2 != addr);
                }
            }
            assert forall|s: int| 0 <= s < self.token_slots@.len() implies is_registered(
                ps,
                self.token_slots@[s].owner,
            ) by {
                assert(is_registered(ops, self.token_slots@[s].owner));
                assert(self.token_slots@[s].owner != addr);
            }
            // The new player is referenced by no Started battle.
            assert(!in_started_battle(bs, addr));
            assert forall|i: int| 1 <= i < ps.len() implies (ps[i].in_battle <==> in_started_battle(
                bs,
                ps[i].player_address,
            )) by {
                if i < ops.len() {
                    assert(ps[i] == ops[i]);
                } else {
                    assert(ps[i].player_address == addr);
                }
            }
        }
        Ok(())
    }

    /// Finds the token-slot index owned by this address.
    pub fn find_token_slot(&self, addr: u64) -> (r: Option<usize>)
        ensures
            match r {
                Some(s) => 0 <= s < self.token_slots@.len() && self.token_slots@[s as int].owner
                    == addr,
                None => !has_token(self.token_slots@, addr),
            },
    {
        let mut j: usize = 0;
        while j < self.token_slots.len()
            invariant
                0 <= j <= self.token_slots@.len(),
                forall|i: int| 0 <= i < j ==> self.token_slots@[i].owner != addr,
            decreases self.token_slots@.len() - j,
        {
            if self.token_slots[j].owner == addr {
                return Some(j);
            }
            j = j + 1;
        }
        None
    }

    /// Whether this address currently owns a token.
    pub fn is_player_token(&self, addr: u64) -> (r: bool)
        ensures
            r == has_token(self.token_slots@, addr),
    {
        self.find_token_slot(addr).is_some()
    }

    /// The current token of this owner, if any.
    pub fn get_player_token(&self, addr: u64) -> (r: Option<&GameToken>)
        requires
            self.wf(),
        ensures
            match r {
                Some(t) => has_token(self.token_slots@, addr) && (exists|s: int|
                    0 <= s < self.token_slots@.len() && self.token_slots@[s].owner == addr && *t
                        == self.tokens@[self.token_slots@[s].token_index as int]),
                None => !has_token(self.token_slots@, addr),
            },
    {
        match self.find_token_slot(addr) {
            Some(s) => Some(&self.tokens[self.token_slots[s].token_index]),
            None => None,
        }
    }

    /// All token entries in insertion order, the sentinel at position 0
    /// included: callers filter it.
    pub fn get_all_player_tokens(&self) -> (r: &Vec<GameToken>)
        ensures
            r@ == self.tokens@,
    {
        &self.tokens
    }

    /// How many tokens have been minted.
    pub fn get_total_supply(&self) -> (r: u64)
        ensures
            r == self.total_supply,
    {
        self.total_supply
    }

    /// Mints a token with freshly rolled stats for a registered player,
    /// overwriting which token the player currently holds.
    fn create_game_token(&mut self, actor: u64, name: &str)
        requires
            old(self).wf(),
            is_registered(old(self).players@, actor),
        ensures
            final(self).wf(),
            minted(*old(self), *final(self), actor, name@),
    {
        let (attack, defense) = roll_split();
        let kind = roll_kind();
        let token = GameToken {
            name: name.to_owned(),
            kind,
            attack_strength: attack,
            defense_strength: defense,
        };
        let token_index = self.tokens.len();
        self.tokens.push(token);
        match self.find_token_slot(actor) {
            Some(s) => {
                self.token_slots[s] = TokenSlot { owner: actor, token_index };
            },
            None => {
                self.token_slots.push(TokenSlot { owner: actor, token_index });
            },
        }
        self.total_supply = self.total_supply + 1;
        proof {
            let os = old(self).token_slots@;
            let ns = self.token_slots@;
            let bs = self.battles@;
            let ps = self.players@;
            assert(has_token(ns, actor)) by {
                if os.len() == ns.len() {
                    let w = choose|s: int| 0 <= s < os.len() && os[s].owner == actor;
                    assert(ns[w].owner == actor);
                } else {
                    assert(ns[ns.len() - 1].owner == actor);
                }
            }
            assert forall|x: u64| has_token(os, x) implies has_token(ns, x) by {
                let w = choose|s: int| 0 <= s < os.len() && os[s].owner == x;
                if os[w].owner == actor {
                    assert(has_token(ns, actor));
                } else {
                    assert(ns[w] == os[w]);
                    assert(ns[w].owner == x);
                }
            }
            assert forall|j: int| 1 <= j < bs.len() implies battle_ok(bs[j], ps, ns) by {
                assert(battle_ok(bs[j], ps, os));
            }
        }
    }

    /// Mints a token for the actor, provided they are a registered player
    /// and not currently bound to a live battle.
    pub fn create_random_game_token(&mut self, actor: u64, name: &str) -> (r: Result<
        (),
        GameError,
    >)
        requires
            old(self).wf(),
        ensures
            final(self).wf(),
            battles_monotone(old(self).battles@, final(self).battles@),
            match r {
                Ok(()) => {
                    &&& is_registered(old(self).players@, actor)
                    &&& !in_started_battle(old(self).battles@, actor)
                    &&& minted(*old(self), *final(self), actor, name@)
                },
                Err(e) => {
                    &&& *final(self) == *old(self)
                    &&& if !is_registered(old(self).players@, actor) {
                        e == GameError::NotAPlayer
                    } else {
                        e == GameError::AlreadyInBattle && in_started_battle(
                            old(self).battles@,
                            actor,
                        )
                    }
                },
            },
    {
        let i = match self.find_player(actor) {
            Some(i) => i,
            None => {
                return Err(GameError::NotAPlayer);
            },
        };
        if self.players[i].in_battle {
            return Err(GameError::AlreadyInBattle);
        }
        self.create_game_token(actor, name);
        Ok(())
    }
}

/// What minting does to the state: one new token with valid stats appended,
/// the owner's slot created or redirected to it, supply up one, everything
/// else untouched.
pub open spec fn minted(pre: GameState, post: GameState, actor: u64, name: Seq<char>) -> bool {
    &&& post.players@ == pre.players@
    &&& post.battles@ == pre.battles@
    &&& post.tokens@.len() == pre.tokens@.len() + 1
    &&& (forall|i: int| 0 <= i < pre.tokens@.len() ==> post.tokens@[i] == pre.tokens@[i])
    &&& token_stats_ok(post.tokens@.last())
    &&& post.tokens@.last().name@ == name
    &&& post.total_supply == pre.total_supply + 1
    &&& has_token(post.token_slots@, actor)
    &&& (forall|s: int|
        0 <= s < post.token_slots@.len() && post.token_slots@[s].owner == actor
            ==> post.token_slots@[s].token_index == pre.tokens@.len())
    &&& slots_preserved_except(pre.token_slots@, post.token_slots@, actor)
}

/// The slot table changed at most by redirecting `addr`'s slot or appending
/// a slot for `addr`; every other owner's slot is untouched.
pub open spec fn slots_preserved_except(a: Seq<TokenSlot>, b: Seq<TokenSlot>, addr: u64) -> bool {
    &&& a.len() <= b.len() <= a.len() + 1
    &&& (forall|s: int| 0 <= s < a.len() && a[s].owner != addr ==> b[s] == a[s])
    &&& (forall|s: int| a.len() <= s < b.len() ==> b[s].owner == addr)
}

/// The index of the battle with this name (unique when names are unique).
pub open spec fn spec_battle_index(bs: Seq<Battle>, name: Seq<char>) -> int {
    choose|j: int| 1 <= j < bs.len() && bs[j].name@ == name
}

/// The index of the player with this address (unique when addresses are).
pub open spec fn spec_player_index(ps: Seq<Player>, addr: u64) -> int {
    choose|i: int| 1 <= i < ps.len() && ps[i].player_address == addr
}

/// With unique battle names, any index carrying the name is the chosen one.
pub proof fn lemma_battle_index_unique(bs: Seq<Battle>, name: Seq<char>, j: int)
    requires
        forall|i: int, k: int| 1 <= i < k < bs.len() ==> bs[i].name@ != bs[k].name@,
        1 <= j < bs.len(),
        bs[j].name@ == name,
    ensures
        spec_battle_index(bs, name) == j,
{
    let w = spec_battle_index(bs, name);
    assert(1 <= w < bs.len() && bs[w].name@ == name);
}

/// With unique addresses, any index carrying the address is the chosen one.
pub proof fn lemma_player_index_unique(ps: Seq<Player>, addr: u64, i: int)
    requires
        forall|a: int, b: int| 1 <= a < b < ps.len() ==> ps[a].player_address != ps[b].player_address,
        1 <= i < ps.len(),
        ps[i].player_address == addr,
    ensures
        spec_player_index(ps, addr) == i,
{
    let w = spec_player_index(ps, addr);
    assert(1 <= w < ps.len() && ps[w].player_address == addr);
}

/// A battle as `create_battle` records it: Pending, creator in the first
/// slot, the name's digest stored, nothing else filled in.
pub open spec fn fresh_battle(b: Battle, actor: u64, name: Seq<char>) -> bool {
    &&& b.battle_status is Pending
    &&& b.battle_hash@ == keccak_of(name)
    &&& b.name@ == name
    &&& b.player_one == actor
    &&& b.player_two is None
    &&& b.move_one == MOVE_UNSET
    &&& b.move_two == MOVE_UNSET
    &&& b.winner is None
}

/// Why a join must fail, or `None` if it may go ahead: the actor must be
/// registered, the battle known and Pending, not the actor's own, both
/// sides free of other live battles, and both sides holding a token.
pub open spec fn join_error(s: GameState, actor: u64, name: Seq<char>) -> Option<GameError> {
    let bs = s.battles@;
    if !is_registered(s.players@, actor) {
        Some(GameError::NotAPlayer)
    } else if !battle_exists(bs, name) {
        Some(GameError::NotFound)
    } else {
        let b = bs[spec_battle_index(bs, name)];
        if !(b.battle_status is Pending) {
            Some(GameError::NotPending)
        } else if b.player_one == actor {
            Some(GameError::SelfJoin)
        } else if in_started_battle(bs, actor) {
            Some(GameError::AlreadyInBattle)
        } else if in_started_battle(bs, b.player_one) {
            Some(GameError::AlreadyInBattle)
        } else if !has_token(s.token_slots@, actor) {
            Some(GameError::NoToken)
        } else if !has_token(s.token_slots@, b.player_one) {
            Some(GameError::NoToken)
        } else {
            None
        }
    }
}

/// What a successful join does: the battle gains its second participant
/// and starts; both participants are flagged as in battle.
pub open spec fn joined(pre: GameState, post: GameState, actor: u64, name: Seq<char>) -> bool {
    let j = spec_battle_index(pre.battles@, name);
    let b = pre.battles@[j];
    let i1 = spec_player_index(pre.players@, b.player_one);
    let i2 = spec_player_index(pre.players@, actor);
    &&& post.battles@ == pre.battles@.update(
        j,
        Battle { battle_status: BattleStatus::Started, player_two: Some(actor), ..b },
    )
    &&& post.players@ == pre.players@.update(
        i1,
        Player { in_battle: true, ..pre.players@[i1] },
    ).update(i2, Player { in_battle: true, ..pre.players@[i2] })
    &&& post.tokens@ == pre.tokens@
    &&& post.token_slots@ == pre.token_slots@
    &&& post.total_supply == pre.total_supply
}

impl GameState {
    /// Finds the registry index of the battle with this name.
    pub fn find_battle(&self, name: &str) -> (r: Option<usize>)
        ensures
            match r {
                Some(j) => 1 <= j < self.battles@.len() && self.battles@[j as int].name@ == name@,
                None => !battle_exists(self.battles@, name@),
            },
    {
        let key: String = name.to_owned();
        if self.battles.len() == 0 {
            return None;
        }
        let mut j: usize = 1;
        while j < self.battles.len()
            invariant
                1 <= j <= self.battles@.len(),
                key@ == name@,
                forall|i: int| 1 <= i < j ==> self.battles@[i].name@ != name@,
            decreases self.battles@.len() - j,
        {
            if self.battles[j].name == key {
                return Some(j);
            }
            j = j + 1;
        }
        None
    }

    /// Whether a battle with this name exists.
    pub fn is_battle(&self, name: &str) -> (r: bool)
        ensures
            r == battle_exists(self.battles@, name@),
    {
        self.find_battle(name).is_some()
    }

    /// The battle registered under this name, if any.
    pub fn get_battle(&self, name: &str) -> (r: Option<&Battle>)
        ensures
            match r {
                Some(b) => battle_exists(self.battles@, name@) && b.name@ == name@ && (exists|
                    j: int,
                |
                    1 <= j < self.battles@.len() && self.battles@[j] == *b),
                None => !battle_exists(self.battles@, name@),
            },
    {
        match self.find_battle(name) {
            Some(j) => Some(&self.battles[j]),
            None => None,
        }
    }

    /// All battle entries in insertion order, the sentinel at position 0
    /// included: callers filter it.
    pub fn get_all_battles(&self) -> (r: &Vec<Battle>)
        ensures
            r@ == self.battles@,
    {
        &self.battles
    }

    /// Creates a Pending battle under an unused name, creator in slot one.
    pub fn create_battle(&mut self, actor: u64, name: &str) -> (r: Result<(), GameError>)
        requires
            old(self).wf(),
        ensures
            final(self).wf(),
            battles_monotone(old(self).battles@, final(self).battles@),
            match r {
                Ok(()) => {
                    &&& is_registered(old(self).players@, actor)
                    &&& !battle_exists(old(self).battles@, name@)
                    &&& final(self).battles@.len() == old(self).battles@.len() + 1
                    &&& (forall|j: int|
                        0 <= j < old(self).battles@.len() ==> final(self).battles@[j] == old(
                            self,
                        ).battles@[j])
                    &&& fresh_battle(final(self).battles@.last(), actor, name@)
                    &&& final(self).players@ == old(self).players@
                    &&& final(self).tokens@ == old(self).tokens@
                    &&& final(self).token_slots@ == old(self).token_slots@
                    &&& final(self).total_supply == old(self).total_supply
                },
                Err(e) => {
                    &&& *final(self) == *old(self)
                    &&& if !is_registered(old(self).players@, actor) {
                        e == GameError::NotAPlayer
                    } else {
                        e == GameError::NameTaken && battle_exists(old(self).battles@, name@)
                    }
                },
            },
    {
        if !self.is_player(actor) {
            return Err(GameError::NotAPlayer);
        }
        if self.is_battle(name) {
            return Err(GameError::NameTaken);
        }
        let battle_hash = keccak_hash(name);
        let b = Battle {
            battle_status: BattleStatus::Pending,
            battle_hash,
            name: name.to_owned(),
            player_one: actor,
            player_two: None,
            move_one: MOVE_UNSET,
            move_two: MOVE_UNSET,
            winner: None,
        };
        self.battles.push(b);
        proof {
            let bs = self.battles@;
            let obs = old(self).battles@;
            let ps = self.players@;
            let n = obs.len() as int;
            assert forall|a: u64| in_started_battle(bs, a) implies in_started_battle(obs, a) by {
                let w = choose|j: int|
                    1 <= j < bs.len() && bs[j].battle_status is Started && battle_refers_to(
                        bs[j],
                        a,
                    );
                assert(w < n);
                assert(obs[w] == bs[w]);
            }
            assert forall|a: u64| in_started_battle(obs, a) implies in_started_battle(bs, a) by {
                let w = choose|j: int|
                    1 <= j < obs.len() && obs[j].battle_status is Started && battle_refers_to(
                        obs[j],
                        a,
                    );
                assert(bs[w] == obs[w]);
            }
        }
        Ok(())
    }

    /// Joins a Pending battle: the battle starts and both participants are
    /// bound to it.
    pub fn join_battle(&mut self, actor: u64, name: &str) -> (r: Result<(), GameError>)
        requires
            old(self).wf(),
        ensures
            final(self).wf(),
            battles_monotone(old(self).battles@, final(self).battles@),
            match r {
                Ok(()) => join_error(*old(self), actor, name@) is None && joined(
                    *old(self),
                    *final(self),
                    actor,
                    name@,
                ),
                Err(e) => *final(self) == *old(self) && join_error(*old(self), actor, name@)
                    == Some(e),
            },
    {
        if !self.is_player(actor) {
            return Err(GameError::NotAPlayer);
        }
        let j = match self.find_battle(name) {
            Some(j) => j,
            None => {
                return Err(GameError::NotFound);
            },
        };
        proof {
            lemma_battle_index_unique(self.battles@, name@, j as int);
        }
        let creator: u64 = self.battles[j].player_one;
        match self.battles[j].battle_status {
            BattleStatus::Pending => {},
            _ => {
                return Err(GameError::NotPending);
            },
        }
        if creator == actor {
            return Err(GameError::SelfJoin);
        }
        let i2 = self.find_player(actor).unwrap();
        proof {
            lemma_player_index_unique(self.players@, actor, i2 as int);
        }
        if self.players[i2].in_battle {
            return Err(GameError::AlreadyInBattle);
        }
        let i1 = self.find_player(creator).unwrap();
        proof {
            lemma_player_index_unique(self.players@, creator, i1 as int);
        }
        if self.players[i1].in_battle {
            return Err(GameError::AlreadyInBattle);
        }
        if !self.is_player_token(actor) {
            return Err(GameError::NoToken);
        }
        if !self.is_player_token(creator) {
            return Err(GameError::NoToken);
        }
        let started = Battle {
            battle_status: BattleStatus::Started,
            battle_hash: self.battles[j].battle_hash,
            name: self.battles[j].name.clone(),
            player_one: self.battles[j].player_one,
            player_two: Some(actor),
            move_one: self.battles[j].move_one,
            move_two: self.battles[j].move_two,
            winner: self.battles[j].winner,
        };
        self.battles[j] = started;
        let p1 = Player {
            player_address: self.players[i1].player_address,
            player_name: self.players[i1].player_name.clone(),
            player_mana: self.players[i1].player_mana,
            player_health: self.players[i1].player_health,
            in_battle: true,
        };
        self.players[i1] = p1;
        let p2 = Player {
            player_address: self.players[i2].player_address,
            player_name: self.players[i2].player_name.clone(),
            player_mana: self.players[i2].player_mana,
            player_health: self.players[i2].player_health,
            in_battle: true,
        };
        self.players[i2] = p2;
        proof {
            lemma_join_preserves_wf(*old(self), *self, actor, creator, name@, j as int, i1 as int, i2 as int);
        }
        Ok(())
    }
}

/// The whole well-formedness argument for `join_battle`, factored out: the
/// state after binding both players to the newly Started battle is again
/// well-formed, and the join is exactly `joined`.
proof fn lemma_join_preserves_wf(
    pre: GameState,
    post: GameState,
    actor: u64,
    creator: u64,
    name: Seq<char>,
    j: int,
    i1: int,
    i2: int,
)
    requires
        pre.wf(),
        1 <= j < pre.battles@.len(),
        pre.battles@[j].name@ == name,
        pre.battles@[j].battle_status is Pending,
        pre.battles@[j].player_one == creator,
        creator != actor,
        1 <= i1 < pre.players@.len(),
        pre.players@[i1].player_address == creator,
        !pre.players@[i1].in_battle,
        1 <= i2 < pre.players@.len(),
        pre.players@[i2].player_address == actor,
        !pre.players@[i2].in_battle,
        has_token(pre.token_slots@, actor),
        has_token(pre.token_slots@, creator),
        post.battles@ == pre.battles@.update(
            j,
            Battle { battle_status: BattleStatus::Started, player_two: Some(actor), ..pre.battles@[j] },
        ),
        post.players@ == pre.players@.update(
            i1,
            Player { in_battle: true, ..pre.players@[i1] },
        ).update(i2, Player { in_battle: true, ..pre.players@[i2] }),
        post.tokens@ == pre.tokens@,
        post.token_slots@ == pre.token_slots@,
        post.total_supply == pre.total_supply,
    ensures
        post.wf(),
        battles_monotone(pre.battles@, post.battles@),
        joined(pre, post, actor, name),
{
    let ps = pre.players@;
    let nps = post.players@;
    let bs = pre.battles@;
    let nbs = post.battles@;
    let slots = pre.token_slots@;
    assert(i1 != i2);
    lemma_battle_index_unique(bs, name, j);
    lemma_player_index_unique(ps, creator, i1);
    lemma_player_index_unique(ps, actor, i2);
    // Addresses, mana, and health are untouched.
    assert(forall|i: int|
        0 <= i < ps.len() ==> nps[i].player_address == ps[i].player_address
            && nps[i].player_mana == ps[i].player_mana && nps[i].player_health
            == ps[i].player_health);
    assert forall|x: u64| is_registered(nps, x) == is_registered(ps, x) by {
        if is_registered(ps, x) {
            let w = choose|i: int| 1 <= i < ps.len() && ps[i].player_address == x;
            assert(nps[w].player_address == x);
        }
        if is_registered(nps, x) {
            let w = choose|i: int| 1 <= i < nps.len() && nps[i].player_address == x;
            assert(ps[w].player_address == x);
        }
    }
    assert forall|x: u64, c: u64| mana_of_at_least(ps, x, c) implies mana_of_at_least(
        nps,
        x,
        c,
    ) by {
        assert forall|i: int|
            1 <= i < nps.len() && nps[i].player_address == x implies nps[i].player_mana >= c by {
            assert(ps[i].player_address == x);
            assert(ps[i].player_mana >= c);
        }
    }
    // The creator and joiner are in no Started battle before the join.
    assert(!in_started_battle(bs, actor) && !in_started_battle(bs, creator));
    // Every battle but j is unchanged; battle j becomes Started.
    assert(forall|k: int| 0 <= k < bs.len() && k != j ==> nbs[k] == bs[k]);
    assert forall|k: int| 1 <= k < nbs.len() implies battle_ok(nbs[k], nps, slots) by {
        assert(battle_ok(bs[k], ps, slots));
        if k == j {
            assert(nbs[k].player_two == Some(actor));
            assert(nbs[k].move_one == MOVE_UNSET && nbs[k].move_two == MOVE_UNSET);
        }
    }
    // The link invariant: both new participants are now flagged and
    // referenced by battle j; everyone else is untouched.
    assert forall|i: int| 1 <= i < nps.len() implies (nps[i].in_battle <==> in_started_battle(
        nbs,
        nps[i].player_address,
    )) by {
        let a = nps[i].player_address;
        if i == i1 || i == i2 {
            assert(nbs[j].battle_status is Started && battle_refers_to(nbs[j], a));
        } else {
            assert(nps[i] == ps[i]);
            assert(a != creator && a != actor);
            if in_started_battle(bs, a) {
                let w = choose|k: int|
                    1 <= k < bs.len() && bs[k].battle_status is Started && battle_refers_to(
                        bs[k],
                        a,
                    );
                assert(w != j);
                assert(nbs[w] == bs[w]);
                assert(in_started_battle(nbs, a));
            }
            if in_started_battle(nbs, a) {
                let w = choose|k: int|
                    1 <= k < nbs.len() && nbs[k].battle_status is Started && battle_refers_to(
                        nbs[k],
                        a,
                    );
                if w == j {
                    assert(battle_refers_to(nbs[j], a));
                    assert(false);
                } else {
                    assert(bs[w] == nbs[w]);
                    assert(in_started_battle(bs, a));
                }
            }
        }
    }
    // No two Started battles share a participant.
    assert forall|x: int, y: int|
        1 <= x < nbs.len() && 1 <= y < nbs.len() && x != y && nbs[x].battle_status is Started
            && nbs[y].battle_status is Started implies disjoint_battles(nbs[x], nbs[y]) by {
        if x != j && y != j {
            assert(nbs[x] == bs[x] && nbs[y] == bs[y]);
        } else if x == j {
            // Battle y is an old Started battle; it cannot reference the
            // creator or the joiner, who were in no Started battle.
            assert(nbs[y] == bs[y]);
            assert(bs[y].battle_status is Started);
            if battle_refers_to(bs[y], creator) {
                assert(in_started_battle(bs, creator));
            }
            if battle_refers_to(bs[y], actor) {
                assert(in_started_battle(bs, actor));
            }
        } else {
            assert(nbs[x] == bs[x]);
            assert(bs[x].battle_status is Started);
            if battle_refers_to(bs[x], creator) {
                assert(in_started_battle(bs, creator));
            }
            if battle_refers_to(bs[x], actor) {
                assert(in_started_battle(bs, actor));
            }
            assert(!battle_refers_to(bs[x], creator) && !battle_refers_to(bs[x], actor));
            assert(nbs[y].player_one == creator && nbs[y].player_two == Some(actor));
        }
    }
}

/// The second participant of a battle that has one (0 otherwise).
pub open spec fn second_player(b: Battle) -> u64 {
    match b.player_two {
        Some(p) => p,
        None => 0,
    }
}

/// The participant who is not the winner.
pub open spec fn spec_loser(b: Battle, winner: u64) -> u64 {
    if winner == b.player_one {
        second_player(b)
    } else {
        b.player_one
    }
}

/// A battle as ending it records it: Ended, the winner written once, the
/// move slots cleared.
pub open spec fn battle_ended(b: Battle, winner: u64) -> Battle {
    Battle {
        battle_status: BattleStatus::Ended,
        winner: Some(winner),
        move_one: MOVE_UNSET,
        move_two: MOVE_UNSET,
        ..b
    }
}

/// A player soft-reset after their battle ended: starting mana and health,
/// no longer bound to a battle.
pub open spec fn player_reset(p: Player) -> Player {
    Player {
        player_mana: STARTING_MANA,
        player_health: STARTING_HEALTH,
        in_battle: false,
        ..p
    }
}

/// What actually ending a Started battle does: the battle is frozen as
/// Ended with its winner, and both participants are soft-reset.
pub open spec fn ended(pre: GameState, post: GameState, j: int, winner: u64) -> bool {
    let b = pre.battles@[j];
    let i1 = spec_player_index(pre.players@, b.player_one);
    let i2 = spec_player_index(pre.players@, second_player(b));
    &&& post.battles@ == pre.battles@.update(j, battle_ended(b, winner))
    &&& post.players@ == pre.players@.update(i1, player_reset(pre.players@[i1])).update(
        i2,
        player_reset(pre.players@[i2]),
    )
    &&& post.tokens@ == pre.tokens@
    &&& post.token_slots@ == pre.token_slots@
    &&& post.total_supply == pre.total_supply
}

/// Why a quit must fail, or `None` if it may go ahead.
pub open spec fn quit_error(s: GameState, actor: u64, name: Seq<char>) -> Option<GameError> {
    let bs = s.battles@;
    if !battle_exists(bs, name) {
        Some(GameError::NotFound)
    } else {
        let b = bs[spec_battle_index(bs, name)];
        if !battle_refers_to(b, actor) {
            Some(GameError::NotAParticipant)
        } else if b.battle_status is Pending {
            Some(GameError::NotStarted)
        } else {
            None
        }
    }
}

impl GameState {
    /// Ends the battle at index `j`, recording `winner`. Ending an
    /// already-Ended battle is a no-op that changes nothing and emits no
    /// second termination notification, so ending is idempotent.
    fn end_battle_at(&mut self, j: usize, winner: u64) -> (r: Option<BattleEnded>)
        requires
            old(self).wf(),
            1 <= j < old(self).battles@.len(),
            !(old(self).battles@[j as int].battle_status is Pending),
            old(self).battles@[j as int].battle_status is Started ==> battle_refers_to(
                old(self).battles@[j as int],
                winner,
            ),
        ensures
            final(self).wf(),
            battles_monotone(old(self).battles@, final(self).battles@),
            old(self).battles@[j as int].battle_status is Ended ==> *final(self) == *old(self)
                && r is None,
            old(self).battles@[j as int].battle_status is Started ==> ended(
                *old(self),
                *final(self),
                j as int,
                winner,
            ) && r == Some(
                BattleEnded { winner, loser: spec_loser(old(self).battles@[j as int], winner) },
            ),
    {
        match self.battles[j].battle_status {
            BattleStatus::Ended => None,
            _ => {
                let b_p1: u64 = self.battles[j].player_one;
                let b_p2: u64 = self.battles[j].player_two.unwrap();
                proof {
                    assert(battle_ok(self.battles@[j as int], self.players@, self.token_slots@));
                }
                let i1 = self.find_player(b_p1).unwrap();
                let i2 = self.find_player(b_p2).unwrap();
                proof {
                    lemma_player_index_unique(self.players@, b_p1, i1 as int);
                    lemma_player_index_unique(self.players@, b_p2, i2 as int);
                    assert(b_p1 != b_p2);
                }
                let nb = Battle {
                    battle_status: BattleStatus::Ended,
                    battle_hash: self.battles[j].battle_hash,
                    name: self.battles[j].name.clone(),
                    player_one: self.battles[j].player_one,
                    player_two: self.battles[j].player_two,
                    move_one: MOVE_UNSET,
                    move_two: MOVE_UNSET,
                    winner: Some(winner),
                };
                self.battles[j] = nb;
                let r1 = Player {
                    player_address: self.players[i1].player_address,
                    player_name: self.players[i1].player_name.clone(),
                    player_mana: STARTING_MANA,
                    player_health: STARTING_HEALTH,
                    in_battle: false,
                };
                self.players[i1] = r1;
                let r2 = Player {
                    player_address: self.players[i2].player_address,
                    player_name: self.players[i2].player_name.clone(),
                    player_mana: STARTING_MANA,
                    player_health: STARTING_HEALTH,
                    in_battle: false,
                };
                self.players[i2] = r2;
                let loser: u64 = if winner == b_p1 {
                    b_p2
                } else {
                    b_p1
                };
                proof {
                    lemma_end_preserves_wf(*old(self), *self, j as int, winner, i1 as int, i2 as int);
                }
                Some(BattleEnded { winner, loser })
            },
        }
    }

    /// Quits a Started battle: the opponent of the quitter is declared the
    /// winner. Quitting an Ended battle is a no-op; a Pending battle has
    /// no opponent to hand the win to, so quitting it is rejected.
    pub fn quit_battle(&mut self, actor: u64, battle_name: &str) -> (r: Result<
        Option<BattleEnded>,
        GameError,
    >)
        requires
            old(self).wf(),
        ensures
            final(self).wf(),
            battles_monotone(old(self).battles@, final(self).battles@),
            match r {
                Ok(ev) => {
                    let j = spec_battle_index(old(self).battles@, battle_name@);
                    let b = old(self).battles@[j];
                    &&& quit_error(*old(self), actor, battle_name@) is None
                    &&& (b.battle_status is Ended ==> *final(self) == *old(self) && ev is None)
                    &&& (b.battle_status is Started ==> ended(
                        *old(self),
                        *final(self),
                        j,
                        spec_opponent(b, actor),
                    ) && ev == Some(
                        BattleEnded { winner: spec_opponent(b, actor), loser: actor },
                    ))
                },
                Err(e) => *final(self) == *old(self) && quit_error(*old(self), actor, battle_name@)
                    == Some(e),
            },
    {
        let j = match self.find_battle(battle_name) {
            Some(j) => j,
            None => {
                return Err(GameError::NotFound);
            },
        };
        proof {
            lemma_battle_index_unique(self.battles@, battle_name@, j as int);
        }
        let b_p1: u64 = self.battles[j].player_one;
        let is_p2: bool = match self.battles[j].player_two {
            Some(p) => p == actor,
            None => false,
        };
        if b_p1 != actor && !is_p2 {
            return Err(GameError::NotAParticipant);
        }
        match self.battles[j].battle_status {
            BattleStatus::Pending => {
                return Err(GameError::NotStarted);
            },
            _ => {},
        }
        let opponent: u64 = if b_p1 == actor {
            self.battles[j].player_two.unwrap()
        } else {
            b_p1
        };
        let ghost b = self.battles@[j as int];
        let ev = self.end_battle_at(j, opponent);
        proof {
            if b.battle_status is Started {
                assert(spec_loser(b, spec_opponent(b, actor)) == actor);
            }
        }
        Ok(ev)
    }
}

/// The other participant, seen from `actor`'s side.
pub open spec fn spec_opponent(b: Battle, actor: u64) -> u64 {
    if b.player_one == actor {
        second_player(b)
    } else {
        b.player_one
    }
}

/// The well-formedness argument for ending a battle: freezing a Started
/// battle as Ended and soft-resetting its two participants keeps the state
/// well-formed.
proof fn lemma_end_preserves_wf(
    pre: GameState,
    post: GameState,
    j: int,
    winner: u64,
    i1: int,
    i2: int,
)
    requires
        pre.wf(),
        1 <= j < pre.battles@.len(),
        pre.battles@[j].battle_status is Started,
        battle_refers_to(pre.battles@[j], winner),
        1 <= i1 < pre.players@.len(),
        pre.players@[i1].player_address == pre.battles@[j].player_one,
        1 <= i2 < pre.players@.len(),
        pre.players@[i2].player_address == second_player(pre.battles@[j]),
        post.battles@ == pre.battles@.update(j, battle_ended(pre.battles@[j], winner)),
        post.players@ == pre.players@.update(i1, player_reset(pre.players@[i1])).update(
            i2,
            player_reset(pre.players@[i2]),
        ),
        post.tokens@ == pre.tokens@,
        post.token_slots@ == pre.token_slots@,
        post.total_supply == pre.total_supply,
    ensures
        post.wf(),
        battles_monotone(pre.battles@, post.battles@),
        ended(pre, post, j, winner),
{
    let ps = pre.players@;
    let nps = post.players@;
    let bs = pre.battles@;
    let nbs = post.battles@;
    let slots = pre.token_slots@;
    let b = bs[j];
    let p1 = b.player_one;
    let p2 = second_player(b);
    assert(p1 != p2);
    assert(i1 != i2);
    lemma_player_index_unique(ps, p1, i1);
    lemma_player_index_unique(ps, p2, i2);
    assert(forall|i: int|
        0 <= i < ps.len() ==> nps[i].player_address == ps[i].player_address);
    assert(forall|i: int| 1 <= i < nps.len() ==> nps[i].player_health <= STARTING_HEALTH);
    assert forall|x: u64| is_registered(nps, x) == is_registered(ps, x) by {
        if is_registered(ps, x) {
            let w = choose|i: int| 1 <= i < ps.len() && ps[i].player_address == x;
            assert(nps[w].player_address == x);
        }
        if is_registered(nps, x) {
            let w = choose|i: int| 1 <= i < nps.len() && nps[i].player_address == x;
            assert(ps[w].player_address == x);
        }
    }
    assert forall|x: u64, c: u64|
        mana_of_at_least(ps, x, c) && c <= STARTING_MANA implies mana_of_at_least(nps, x, c) by {
        assert forall|i: int|
            1 <= i < nps.len() && nps[i].player_address == x implies nps[i].player_mana >= c by {
            assert(ps[i].player_address == x);
            if i != i1 && i != i2 {
                assert(nps[i] == ps[i]);
            }
        }
    }
    assert(forall|k: int| 0 <= k < bs.len() && k != j ==> nbs[k] == bs[k]);
    assert forall|k: int| 1 <= k < nbs.len() implies battle_ok(nbs[k], nps, slots) by {
        assert(battle_ok(bs[k], ps, slots));
        if k == j {
            assert(nbs[k].winner == Some(winner));
            assert(battle_refers_to(nbs[k], winner));
        }
    }
    // Battle j was the only Started battle referencing its participants.
    assert forall|a: u64, k: int|
        1 <= k < bs.len() && k != j && bs[k].battle_status is Started && (a == p1 || a
            == p2) implies !battle_refers_to(bs[k], a) by {
        assert(disjoint_battles(bs[j], bs[k]));
    }
    assert forall|i: int| 1 <= i < nps.len() implies (nps[i].in_battle <==> in_started_battle(
        nbs,
        nps[i].player_address,
    )) by {
        let a = nps[i].player_address;
        if i == i1 || i == i2 {
            assert(!nps[i].in_battle);
            if in_started_battle(nbs, a) {
                let w = choose|k: int|
                    1 <= k < nbs.len() && nbs[k].battle_status is Started && battle_refers_to(
                        nbs[k],
                        a,
                    );
                assert(w != j);
                assert(bs[w] == nbs[w]);
                assert(!battle_refers_to(bs[w], a));
                assert(false);
            }
        } else {
            assert(nps[i] == ps[i]);
            assert(a != p1 && a != p2);
            if in_started_battle(bs, a) {
                let w = choose|k: int|
                    1 <= k < bs.len() && bs[k].battle_status is Started && battle_refers_to(
                        bs[k],
                        a,
                    );
                assert(w != j || !battle_refers_to(bs[j], a));
                if w != j {
                    assert(nbs[w] == bs[w]);
                    assert(in_started_battle(nbs, a));
                } else {
                    assert(battle_refers_to(b, a));
                    assert(false);
                }
            }
            if in_started_battle(nbs, a) {
                let w = choose|k: int|
                    1 <= k < nbs.len() && nbs[k].battle_status is Started && battle_refers_to(
                        nbs[k],
                        a,
                    );
                assert(w != j);
                assert(bs[w] == nbs[w]);
                assert(in_started_battle(bs, a));
            }
        }
    }
    assert forall|x: int, y: int|
        1 <= x < nbs.len() && 1 <= y < nbs.len() && x != y && nbs[x].battle_status is Started
            && nbs[y].battle_status is Started implies disjoint_battles(nbs[x], nbs[y]) by {
        assert(x != j && y != j);
        assert(nbs[x] == bs[x] && nbs[y] == bs[y]);
    }
}

/// The token-slot position owned by this address (unique when owners are).
pub open spec fn spec_token_slot(slots: Seq<TokenSlot>, addr: u64) -> int {
    choose|s: int| 0 <= s < slots.len() && slots[s].owner == addr
}

/// The token index this address's slot points at.
pub open spec fn spec_token_index(slots: Seq<TokenSlot>, addr: u64) -> int {
    slots[spec_token_slot(slots, addr)].token_index as int
}

/// With unique owners, any slot carrying the owner is the chosen one.
pub proof fn lemma_token_slot_unique(slots: Seq<TokenSlot>, addr: u64, s: int)
    requires
        forall|a: int, b: int| 0 <= a < b < slots.len() ==> slots[a].owner != slots[b].owner,
        0 <= s < slots.len(),
        slots[s].owner == addr,
    ensures
        spec_token_slot(slots, addr) == s,
{
    let w = spec_token_slot(slots, addr);
    assert(0 <= w < slots.len() && slots[w].owner == addr);
}

/// A participant's view for a round: health and mana from their player
/// record, attack and defense from their current token.
pub open spec fn fighter_of(s: GameState, addr: u64) -> Fighter {
    let p = s.players@[spec_player_index(s.players@, addr)];
    let t = s.tokens@[spec_token_index(s.token_slots@, addr)];
    Fighter {
        health: p.player_health,
        mana: p.player_mana,
        attack: t.attack_strength,
        defense: t.defense_strength,
    }
}

/// The battle with `actor`'s move slot set to `choice`.
pub open spec fn with_move(b: Battle, actor: u64, choice: u8) -> Battle {
    if b.player_one == actor {
        Battle { move_one: choice, ..b }
    } else {
        Battle { move_two: choice, ..b }
    }
}

/// The battle with the numbered move slot set to `choice`.
pub open spec fn with_move_slot(b: Battle, player: u8, choice: u8) -> Battle {
    if player == 0 {
        Battle { move_one: choice, ..b }
    } else {
        Battle { move_two: choice, ..b }
    }
}

/// Only the battle at index `j` changed; every other registry is untouched.
pub open spec fn only_battle_changed(pre: GameState, post: GameState, j: int) -> bool {
    &&& post.battles@ == pre.battles@.update(j, post.battles@[j])
    &&& post.players@ == pre.players@
    &&& post.tokens@ == pre.tokens@
    &&& post.token_slots@ == pre.token_slots@
    &&& post.total_supply == pre.total_supply
}

/// A token after a re-roll: same name and kind, fresh valid stats.
pub open spec fn token_rerolled(t: GameToken, n: GameToken) -> bool {
    &&& n.name == t.name
    &&& n.kind == t.kind
    &&& token_stats_ok(n)
}

/// The token table after re-rolling the entries at `t1` and `t2`.
pub open spec fn rerolled(ts: Seq<GameToken>, nts: Seq<GameToken>, t1: int, t2: int) -> bool {
    &&& nts.len() == ts.len()
    &&& (forall|i: int| 0 <= i < ts.len() && i != t1 && i != t2 ==> nts[i] == ts[i])
    &&& token_rerolled(ts[t1], nts[t1])
    &&& token_rerolled(ts[t2], nts[t2])
}

/// What a resolved round that nobody won does to the state: damage and
/// mana applied, both move slots cleared, both tokens re-rolled.
pub open spec fn round_fought(
    pre: GameState,
    post: GameState,
    j: int,
    health_one: u64,
    health_two: u64,
    mana_one: u64,
    mana_two: u64,
) -> bool {
    let b = pre.battles@[j];
    let i1 = spec_player_index(pre.players@, b.player_one);
    let i2 = spec_player_index(pre.players@, second_player(b));
    &&& post.battles@ == pre.battles@.update(
        j,
        Battle { move_one: MOVE_UNSET, move_two: MOVE_UNSET, ..b },
    )
    &&& post.players@ == pre.players@.update(
        i1,
        Player { player_health: health_one, player_mana: mana_one, ..pre.players@[i1] },
    ).update(i2, Player { player_health: health_two, player_mana: mana_two, ..pre.players@[i2] })
    &&& rerolled(
        pre.tokens@,
        post.tokens@,
        spec_token_index(pre.token_slots@, b.player_one),
        spec_token_index(pre.token_slots@, second_player(b)),
    )
    &&& post.token_slots@ == pre.token_slots@
    &&& post.total_supply == pre.total_supply
}

/// What resolving the battle at `j` with the given effective moves does:
/// either somebody's attack was lethal and the battle ends, or the round's
/// settlement is applied and the next round begins.
pub open spec fn resolution(
    pre: GameState,
    post: GameState,
    j: int,
    move_one: u8,
    move_two: u8,
    outcome: MoveOutcome,
) -> bool {
    let b = pre.battles@[j];
    let p1 = b.player_one;
    let p2 = second_player(b);
    match spec_resolve_round(fighter_of(pre, p1), fighter_of(pre, p2), move_one, move_two) {
        RoundResult::Finished { winner_is_one } => {
            let w = if winner_is_one { p1 } else { p2 };
            let l = if winner_is_one { p2 } else { p1 };
            ended(pre, post, j, w) && outcome == (MoveOutcome::Ended { winner: w, loser: l })
        },
        RoundResult::Fought { health_one, health_two, mana_one, mana_two, damaged_one, damaged_two } => {
            round_fought(pre, post, j, health_one, health_two, mana_one, mana_two) && outcome == (
            MoveOutcome::RoundResolved { damaged_one, damaged_two })
        },
    }
}

/// Why a move submission must fail, or `None` if it may go ahead, checked
/// in this order: the move code, the battle's existence and state, the
/// actor's participation, the free move slot, and the mana cost.
pub open spec fn submit_error(s: GameState, actor: u64, choice: u8, name: Seq<char>) -> Option<
    GameError,
> {
    if choice != MOVE_ATTACK && choice != MOVE_DEFEND {
        Some(GameError::InvalidChoice)
    } else if !battle_exists(s.battles@, name) {
        Some(GameError::NotFound)
    } else {
        let b = s.battles@[spec_battle_index(s.battles@, name)];
        if !(b.battle_status is Started) {
            Some(GameError::NotStarted)
        } else if !battle_refers_to(b, actor) {
            Some(GameError::NotAParticipant)
        } else if (if b.player_one == actor {
            b.move_one
        } else {
            b.move_two
        }) != MOVE_UNSET {
            Some(GameError::MoveAlreadySet)
        } else if choice == MOVE_ATTACK && !mana_of_at_least(s.players@, actor, ATTACK_COST) {
            Some(GameError::InsufficientMana)
        } else {
            None
        }
    }
}

/// Why a slot-addressed move recording must fail, or `None`.
pub open spec fn record_error(s: GameState, player: u8, choice: u8, name: Seq<char>) -> Option<
    GameError,
> {
    if choice != MOVE_ATTACK && choice != MOVE_DEFEND {
        Some(GameError::InvalidChoice)
    } else if player > 1 {
        Some(GameError::InvalidChoice)
    } else if !battle_exists(s.battles@, name) {
        Some(GameError::NotFound)
    } else {
        let b = s.battles@[spec_battle_index(s.battles@, name)];
        let mover = if player == 0 {
            b.player_one
        } else {
            second_player(b)
        };
        if !(b.battle_status is Started) {
            Some(GameError::NotStarted)
        } else if (if player == 0 {
            b.move_one
        } else {
            b.move_two
        }) != MOVE_UNSET {
            Some(GameError::MoveAlreadySet)
        } else if choice == MOVE_ATTACK && !mana_of_at_least(s.players@, mover, ATTACK_COST) {
            Some(GameError::InsufficientMana)
        } else {
            None
        }
    }
}

/// Why a resolution request must fail, or `None`: the battle must exist,
/// the actor must be a participant, and both moves must be in.
pub open spec fn await_error(s: GameState, actor: u64, name: Seq<char>) -> Option<GameError> {
    if !battle_exists(s.battles@, name) {
        Some(GameError::NotFound)
    } else {
        let b = s.battles@[spec_battle_index(s.battles@, name)];
        if !battle_refers_to(b, actor) {
            Some(GameError::NotAParticipant)
        } else if b.move_one == MOVE_UNSET || b.move_two == MOVE_UNSET {
            Some(GameError::MovesNotReady)
        } else {
            None
        }
    }
}

/// The link invariant only watches each battle's status and participants
/// and each player's address and flag: when a change keeps those, the
/// links survive.
proof fn lemma_links_frame(ps: Seq<Player>, nps: Seq<Player>, bs: Seq<Battle>, nbs: Seq<Battle>)
    requires
        links_ok(ps, bs),
        nps.len() == ps.len(),
        forall|i: int|
            0 <= i < ps.len() ==> nps[i].player_address == ps[i].player_address
                && nps[i].in_battle == ps[i].in_battle,
        nbs.len() == bs.len(),
        forall|k: int|
            0 <= k < bs.len() ==> nbs[k].battle_status == bs[k].battle_status
                && nbs[k].player_one == bs[k].player_one && nbs[k].player_two == bs[k].player_two,
    ensures
        links_ok(nps, nbs),
{
    assert forall|a: u64| in_started_battle(nbs, a) == in_started_battle(bs, a) by {
        if in_started_battle(bs, a) {
            let w = choose|k: int|
                1 <= k < bs.len() && bs[k].battle_status is Started && battle_refers_to(bs[k], a);
            assert(nbs[w].battle_status is Started && battle_refers_to(nbs[w], a));
        }
        if in_started_battle(nbs, a) {
            let w = choose|k: int|
                1 <= k < nbs.len() && nbs[k].battle_status is Started && battle_refers_to(
                    nbs[k],
                    a,
                );
            assert(bs[w].battle_status is Started && battle_refers_to(bs[w], a));
        }
    }
    assert forall|x: int, y: int|
        1 <= x < nbs.len() && 1 <= y < nbs.len() && x != y && nbs[x].battle_status is Started
            && nbs[y].battle_status is Started implies disjoint_battles(nbs[x], nbs[y]) by {
        assert(disjoint_battles(bs[x], bs[y]));
        assert(!battle_refers_to(bs[y], bs[x].player_one));
    }
}

/// Replacing one battle with a version that keeps its name, status and
/// participants, and is itself well-formed, keeps the state well-formed.
proof fn lemma_battle_update_preserves_wf(pre: GameState, post: GameState, j: int, nb: Battle)
    requires
        pre.wf(),
        1 <= j < pre.battles@.len(),
        pre.battles@[j].battle_status is Started,
        battle_ok(nb, pre.players@, pre.token_slots@),
        nb.name == pre.battles@[j].name,
        nb.battle_status == pre.battles@[j].battle_status,
        nb.player_one == pre.battles@[j].player_one,
        nb.player_two == pre.battles@[j].player_two,
        post.battles@ == pre.battles@.update(j, nb),
        post.players@ == pre.players@,
        post.tokens@ == pre.tokens@,
        post.token_slots@ == pre.token_slots@,
        post.total_supply == pre.total_supply,
    ensures
        post.wf(),
        battles_monotone(pre.battles@, post.battles@),
{
    let bs = pre.battles@;
    let nbs = post.battles@;
    assert(forall|k: int| 0 <= k < bs.len() && k != j ==> nbs[k] == bs[k]);
    assert forall|k: int| 1 <= k < nbs.len() implies battle_ok(nbs[k], post.players@, post.token_slots@) by {
        assert(battle_ok(bs[k], pre.players@, pre.token_slots@));
    }
    lemma_links_frame(pre.players@, post.players@, bs, nbs);
}

/// The well-formedness argument for a fought round: applying the damage
/// and mana settlement, clearing the move slots and re-rolling both
/// participants' tokens keeps the state well-formed.
proof fn lemma_round_preserves_wf(
    pre: GameState,
    post: GameState,
    j: int,
    i1: int,
    i2: int,
    s1: int,
    s2: int,
    health_one: u64,
    health_two: u64,
    mana_one: u64,
    mana_two: u64,
)
    requires
        pre.wf(),
        1 <= j < pre.battles@.len(),
        pre.battles@[j].battle_status is Started,
        1 <= i1 < pre.players@.len(),
        pre.players@[i1].player_address == pre.battles@[j].player_one,
        1 <= i2 < pre.players@.len(),
        pre.players@[i2].player_address == second_player(pre.battles@[j]),
        0 <= s1 < pre.token_slots@.len(),
        pre.token_slots@[s1].owner == pre.battles@[j].player_one,
        0 <= s2 < pre.token_slots@.len(),
        pre.token_slots@[s2].owner == second_player(pre.battles@[j]),
        health_one <= pre.players@[i1].player_health,
        health_two <= pre.players@[i2].player_health,
        post.battles@ == pre.battles@.update(
            j,
            Battle { move_one: MOVE_UNSET, move_two: MOVE_UNSET, ..pre.battles@[j] },
        ),
        post.players@ == pre.players@.update(
            i1,
            Player { player_health: health_one, player_mana: mana_one, ..pre.players@[i1] },
        ).update(
            i2,
            Player { player_health: health_two, player_mana: mana_two, ..pre.players@[i2] },
        ),
        rerolled(
            pre.tokens@,
            post.tokens@,
            pre.token_slots@[s1].token_index as int,
            pre.token_slots@[s2].token_index as int,
        ),
        post.token_slots@ == pre.token_slots@,
        post.total_supply == pre.total_supply,
    ensures
        post.wf(),
        battles_monotone(pre.battles@, post.battles@),
        round_fought(pre, post, j, health_one, health_two, mana_one, mana_two),
{
    let ps = pre.players@;
    let nps = post.players@;
    let bs = pre.battles@;
    let nbs = post.battles@;
    let slots = pre.token_slots@;
    let b = bs[j];
    let p1 = b.player_one;
    let p2 = second_player(b);
    let t1 = slots[s1].token_index as int;
    let t2 = slots[s2].token_index as int;
    assert(p1 != p2);
    assert(i1 != i2);
    lemma_player_index_unique(ps, p1, i1);
    lemma_player_index_unique(ps, p2, i2);
    lemma_token_slot_unique(slots, p1, s1);
    lemma_token_slot_unique(slots, p2, s2);
    assert(forall|i: int|
        0 <= i < ps.len() ==> nps[i].player_address == ps[i].player_address && nps[i].in_battle
            == ps[i].in_battle);
    assert(forall|i: int| 1 <= i < nps.len() ==> nps[i].player_health <= STARTING_HEALTH);
    assert forall|x: u64| is_registered(nps, x) == is_registered(ps, x) by {
        if is_registered(ps, x) {
            let w = choose|i: int| 1 <= i < ps.len() && ps[i].player_address == x;
            assert(nps[w].player_address == x);
        }
        if is_registered(nps, x) {
            let w = choose|i: int| 1 <= i < nps.len() && nps[i].player_address == x;
            assert(ps[w].player_address == x);
        }
    }
    assert(1 <= t1 < pre.tokens@.len() && 1 <= t2 < pre.tokens@.len());
    assert forall|i: int| 1 <= i < post.tokens@.len() implies token_stats_ok(post.tokens@[i]) by {
        if i != t1 && i != t2 {
            assert(post.tokens@[i] == pre.tokens@[i]);
        }
    }
    // Mana of anyone outside the fighting pair is untouched.
    assert forall|x: u64, c: u64|
        mana_of_at_least(ps, x, c) && x != p1 && x != p2 implies mana_of_at_least(nps, x, c) by {
        assert forall|i: int|
            1 <= i < nps.len() && nps[i].player_address == x implies nps[i].player_mana >= c by {
            assert(ps[i].player_address == x);
            assert(i != i1 && i != i2);
            assert(nps[i] == ps[i]);
        }
    }
    assert(forall|k: int| 0 <= k < bs.len() && k != j ==> nbs[k] == bs[k]);
    assert forall|k: int| 1 <= k < nbs.len() implies battle_ok(nbs[k], nps, slots) by {
        assert(battle_ok(bs[k], ps, slots));
        if k == j {
            assert(nbs[k].move_one == MOVE_UNSET && nbs[k].move_two == MOVE_UNSET);
        } else {
            if bs[k].battle_status is Started {
                assert(disjoint_battles(bs[j], bs[k]));
                assert(!battle_refers_to(bs[k], p1) && !battle_refers_to(bs[k], p2));
            }
        }
    }
    lemma_links_frame(ps, nps, bs, nbs);
}

impl GameState {
    /// The two move slots of the named battle's current round.
    pub fn get_battle_moves(&self, battle_name: &str) -> (r: Result<(u8, u8), GameError>)
        requires
            self.wf(),
        ensures
            match r {
                Ok(m) => battle_exists(self.battles@, battle_name@) && {
                    let b = self.battles@[spec_battle_index(self.battles@, battle_name@)];
                    m.0 == b.move_one && m.1 == b.move_two
                },
                Err(e) => e == GameError::NotFound && !battle_exists(self.battles@, battle_name@),
            },
    {
        let j = match self.find_battle(battle_name) {
            Some(j) => j,
            None => {
                return Err(GameError::NotFound);
            },
        };
        proof {
            lemma_battle_index_unique(self.battles@, battle_name@, j as int);
        }
        Ok((self.battles[j].move_one, self.battles[j].move_two))
    }

    /// Records a move for the numbered participant slot of a battle. This
    /// only stores the move; resolution is triggered by
    /// `attack_or_defend_choice` or `await_battle_results`.
    pub fn register_player_move(&mut self, player: u8, choice: u8, battle_name: &str) -> (r:
        Result<(), GameError>)
        requires
            old(self).wf(),
        ensures
            final(self).wf(),
            battles_monotone(old(self).battles@, final(self).battles@),
            match r {
                Ok(()) => {
                    let j = spec_battle_index(old(self).battles@, battle_name@);
                    &&& record_error(*old(self), player, choice, battle_name@) is None
                    &&& only_battle_changed(*old(self), *final(self), j)
                    &&& final(self).battles@[j] == with_move_slot(
                        old(self).battles@[j],
                        player,
                        choice,
                    )
                },
                Err(e) => *final(self) == *old(self) && record_error(
                    *old(self),
                    player,
                    choice,
                    battle_name@,
                ) == Some(e),
            },
    {
        if choice != MOVE_ATTACK && choice != MOVE_DEFEND {
            return Err(GameError::InvalidChoice);
        }
        if player > 1 {
            return Err(GameError::InvalidChoice);
        }
        let j = match self.find_battle(battle_name) {
            Some(j) => j,
            None => {
                return Err(GameError::NotFound);
            },
        };
        proof {
            lemma_battle_index_unique(self.battles@, battle_name@, j as int);
        }
        match self.battles[j].battle_status {
            BattleStatus::Started => {},
            _ => {
                return Err(GameError::NotStarted);
            },
        }
        proof {
            assert(battle_ok(self.battles@[j as int], self.players@, self.token_slots@));
        }
        let mover: u64 = if player == 0 {
            self.battles[j].player_one
        } else {
            self.battles[j].player_two.unwrap()
        };
        let cur: u8 = if player == 0 {
            self.battles[j].move_one
        } else {
            self.battles[j].move_two
        };
        if cur != MOVE_UNSET {
            return Err(GameError::MoveAlreadySet);
        }
        if choice == MOVE_ATTACK {
            let ia = self.find_player(mover).unwrap();
            proof {
                lemma_player_index_unique(self.players@, mover, ia as int);
            }
            if self.players[ia].player_mana < ATTACK_COST {
                proof {
                    assert(!mana_of_at_least(self.players@, mover, ATTACK_COST));
                }
                return Err(GameError::InsufficientMana);
            }
            proof {
                assert forall|i: int|
                    1 <= i < self.players@.len() && self.players@[i].player_address
                        == mover implies self.players@[i].player_mana >= ATTACK_COST by {
                    lemma_player_index_unique(self.players@, mover, i);
                }
            }
        }
        let nb = Battle {
            battle_status: BattleStatus::Started,
            battle_hash: self.battles[j].battle_hash,
            name: self.battles[j].name.clone(),
            player_one: self.battles[j].player_one,
            player_two: self.battles[j].player_two,
            move_one: if player == 0 {
                choice
            } else {
                self.battles[j].move_one
            },
            move_two: if player == 0 {
                self.battles[j].move_two
            } else {
                choice
            },
            winner: self.battles[j].winner,
        };
        let ghost preb = self.battles@[j as int];
        self.battles[j] = nb;
        proof {
            assert(nb == with_move_slot(preb, player, choice));
            assert(battle_ok(nb, self.players@, self.token_slots@));
            lemma_battle_update_preserves_wf(*old(self), *self, j as int, nb);
        }
        Ok(())
    }

    /// Resolves the battle at index `j` with the given effective moves.
    fn resolve_with(&mut self, j: usize, move_one: u8, move_two: u8) -> (r: MoveOutcome)
        requires
            old(self).wf(),
            1 <= j < old(self).battles@.len(),
            old(self).battles@[j as int].battle_status is Started,
            move_one == MOVE_ATTACK || move_one == MOVE_DEFEND,
            move_two == MOVE_ATTACK || move_two == MOVE_DEFEND,
            move_one == MOVE_ATTACK ==> mana_of_at_least(
                old(self).players@,
                old(self).battles@[j as int].player_one,
                ATTACK_COST,
            ),
            move_two == MOVE_ATTACK ==> mana_of_at_least(
                old(self).players@,
                second_player(old(self).battles@[j as int]),
                ATTACK_COST,
            ),
        ensures
            final(self).wf(),
            battles_monotone(old(self).battles@, final(self).battles@),
            resolution(*old(self), *final(self), j as int, move_one, move_two, r),
    {
        proof {
            assert(battle_ok(self.battles@[j as int], self.players@, self.token_slots@));
        }
        let b_p1: u64 = self.battles[j].player_one;
        let b_p2: u64 = self.battles[j].player_two.unwrap();
        let i1 = self.find_player(b_p1).unwrap();
        let i2 = self.find_player(b_p2).unwrap();
        let s1 = self.find_token_slot(b_p1).unwrap();
        let s2 = self.find_token_slot(b_p2).unwrap();
        proof {
            lemma_player_index_unique(self.players@, b_p1, i1 as int);
            lemma_player_index_unique(self.players@, b_p2, i2 as int);
            lemma_token_slot_unique(self.token_slots@, b_p1, s1 as int);
            lemma_token_slot_unique(self.token_slots@, b_p2, s2 as int);
        }
        let t1 = self.token_slots[s1].token_index;
        let t2 = self.token_slots[s2].token_index;
        let f1 = Fighter {
            health: self.players[i1].player_health,
            mana: self.players[i1].player_mana,
            attack: self.tokens[t1].attack_strength,
            defense: self.tokens[t1].defense_strength,
        };
        let f2 = Fighter {
            health: self.players[i2].player_health,
            mana: self.players[i2].player_mana,
            attack: self.tokens[t2].attack_strength,
            defense: self.tokens[t2].defense_strength,
        };
        proof {
            assert(f1 == fighter_of(*old(self), b_p1));
            assert(f2 == fighter_of(*old(self), b_p2));
            assert(token_stats_ok(old(self).tokens@[t1 as int]));
            assert(token_stats_ok(old(self).tokens@[t2 as int]));
        }
        let result = resolve_round(&f1, &f2, move_one, move_two);
        match result {
            RoundResult::Finished { winner_is_one } => {
                let w: u64 = if winner_is_one {
                    b_p1
                } else {
                    b_p2
                };
                let l: u64 = if winner_is_one {
                    b_p2
                } else {
                    b_p1
                };
                let ev = self.end_battle_at(j, w);
                MoveOutcome::Ended { winner: w, loser: l }
            },
            RoundResult::Fought {
                health_one,
                health_two,
                mana_one,
                mana_two,
                damaged_one,
                damaged_two,
            } => {
                let nb = Battle {
                    battle_status: BattleStatus::Started,
                    battle_hash: self.battles[j].battle_hash,
                    name: self.battles[j].name.clone(),
                    player_one: self.battles[j].player_one,
                    player_two: self.battles[j].player_two,
                    move_one: MOVE_UNSET,
                    move_two: MOVE_UNSET,
                    winner: self.battles[j].winner,
                };
                self.battles[j] = nb;
                let q1 = Player {
                    player_address: self.players[i1].player_address,
                    player_name: self.players[i1].player_name.clone(),
                    player_mana: mana_one,
                    player_health: health_one,
                    in_battle: self.players[i1].in_battle,
                };
                self.players[i1] = q1;
                let q2 = Player {
                    player_address: self.players[i2].player_address,
                    player_name: self.players[i2].player_name.clone(),
                    player_mana: mana_two,
                    player_health: health_two,
                    in_battle: self.players[i2].in_battle,
                };
                self.players[i2] = q2;
                let (na1, nd1) = roll_split();
                let tk1 = GameToken {
                    name: self.tokens[t1].name.clone(),
                    kind: self.tokens[t1].kind,
                    attack_strength: na1,
                    defense_strength: nd1,
                };
                self.tokens[t1] = tk1;
                let (na2, nd2) = roll_split();
                let tk2 = GameToken {
                    name: self.tokens[t2].name.clone(),
                    kind: self.tokens[t2].kind,
                    attack_strength: na2,
                    defense_strength: nd2,
                };
                self.tokens[t2] = tk2;
                proof {
                    lemma_round_preserves_wf(
                        *old(self),
                        *self,
                        j as int,
                        i1 as int,
                        i2 as int,
                        s1 as int,
                        s2 as int,
                        health_one,
                        health_two,
                        mana_one,
                        mana_two,
                    );
                }
                MoveOutcome::RoundResolved { damaged_one, damaged_two }
            },
        }
    }

    /// Submits the actor's move for the current round. When the opponent
    /// has not moved yet the move is merely recorded; when this was the
    /// round's second move, resolution runs synchronously before control
    /// returns.
    pub fn attack_or_defend_choice(&mut self, actor: u64, choice: u8, battle_name: &str) -> (r:
        Result<MoveOutcome, GameError>)
        requires
            old(self).wf(),
        ensures
            final(self).wf(),
            battles_monotone(old(self).battles@, final(self).battles@),
            match r {
                Ok(outcome) => {
                    let j = spec_battle_index(old(self).battles@, battle_name@);
                    let b = old(self).battles@[j];
                    &&& submit_error(*old(self), actor, choice, battle_name@) is None
                    &&& if (if b.player_one == actor {
                        b.move_two
                    } else {
                        b.move_one
                    }) == MOVE_UNSET {
                        &&& outcome == MoveOutcome::Waiting
                        &&& only_battle_changed(*old(self), *final(self), j)
                        &&& final(self).battles@[j] == with_move(b, actor, choice)
                    } else {
                        resolution(
                            *old(self),
                            *final(self),
                            j,
                            if b.player_one == actor {
                                choice
                            } else {
                                b.move_one
                            },
                            if b.player_one == actor {
                                b.move_two
                            } else {
                                choice
                            },
                            outcome,
                        )
                    }
                },
                Err(e) => *final(self) == *old(self) && submit_error(
                    *old(self),
                    actor,
                    choice,
                    battle_name@,
                ) == Some(e),
            },
    {
        if choice != MOVE_ATTACK && choice != MOVE_DEFEND {
            return Err(GameError::InvalidChoice);
        }
        let j = match self.find_battle(battle_name) {
            Some(j) => j,
            None => {
                return Err(GameError::NotFound);
            },
        };
        proof {
            lemma_battle_index_unique(self.battles@, battle_name@, j as int);
        }
        match self.battles[j].battle_status {
            BattleStatus::Started => {},
            _ => {
                return Err(GameError::NotStarted);
            },
        }
        proof {
            assert(battle_ok(self.battles@[j as int], self.players@, self.token_slots@));
        }
        let b_p1: u64 = self.battles[j].player_one;
        let b_p2: u64 = self.battles[j].player_two.unwrap();
        if actor != b_p1 && actor != b_p2 {
            return Err(GameError::NotAParticipant);
        }
        let my_move: u8 = if b_p1 == actor {
            self.battles[j].move_one
        } else {
            self.battles[j].move_two
        };
        if my_move != MOVE_UNSET {
            return Err(GameError::MoveAlreadySet);
        }
        if choice == MOVE_ATTACK {
            let ia = self.find_player(actor).unwrap();
            proof {
                lemma_player_index_unique(self.players@, actor, ia as int);
            }
            if self.players[ia].player_mana < ATTACK_COST {
                proof {
                    assert(!mana_of_at_least(self.players@, actor, ATTACK_COST));
                }
                return Err(GameError::InsufficientMana);
            }
            proof {
                assert forall|i: int|
                    1 <= i < self.players@.len() && self.players@[i].player_address
                        == actor implies self.players@[i].player_mana >= ATTACK_COST by {
                    lemma_player_index_unique(self.players@, actor, i);
                }
            }
        }
        let other_move: u8 = if b_p1 == actor {
            self.battles[j].move_two
        } else {
            self.battles[j].move_one
        };
        if other_move == MOVE_UNSET {
            let nb = Battle {
                battle_status: BattleStatus::Started,
                battle_hash: self.battles[j].battle_hash,
                name: self.battles[j].name.clone(),
                player_one: b_p1,
                player_two: self.battles[j].player_two,
                move_one: if b_p1 == actor {
                    choice
                } else {
                    self.battles[j].move_one
                },
                move_two: if b_p1 == actor {
                    self.battles[j].move_two
                } else {
                    choice
                },
                winner: self.battles[j].winner,
            };
            let ghost preb = self.battles@[j as int];
            self.battles[j] = nb;
            proof {
                assert(nb == with_move(preb, actor, choice));
                assert(battle_ok(nb, self.players@, self.token_slots@));
                lemma_battle_update_preserves_wf(*old(self), *self, j as int, nb);
            }
            Ok(MoveOutcome::Waiting)
        } else {
            let m1: u8 = if b_p1 == actor {
                choice
            } else {
                self.battles[j].move_one
            };
            let m2: u8 = if b_p1 == actor {
                self.battles[j].move_two
            } else {
                choice
            };
            let outcome = self.resolve_with(j, m1, m2);
            Ok(outcome)
        }
    }

    /// Resolves the current round of a battle whose two moves are both in.
    pub fn await_battle_results(&mut self, actor: u64, battle_name: &str) -> (r: Result<
        MoveOutcome,
        GameError,
    >)
        requires
            old(self).wf(),
        ensures
            final(self).wf(),
            battles_monotone(old(self).battles@, final(self).battles@),
            match r {
                Ok(outcome) => {
                    let j = spec_battle_index(old(self).battles@, battle_name@);
                    let b = old(self).battles@[j];
                    &&& await_error(*old(self), actor, battle_name@) is None
                    &&& resolution(
                        *old(self),
                        *final(self),
                        j,
                        b.move_one,
                        b.move_two,
                        outcome,
                    )
                },
                Err(e) => *final(self) == *old(self) && await_error(
                    *old(self),
                    actor,
                    battle_name@,
                ) == Some(e),
            },
    {
        let j = match self.find_battle(battle_name) {
            Some(j) => j,
            None => {
                return Err(GameError::NotFound);
            },
        };
        proof {
            lemma_battle_index_unique(self.battles@, battle_name@, j as int);
        }
        let b_p1: u64 = self.battles[j].player_one;
        let is_p2: bool = match self.battles[j].player_two {
            Some(p) => p == actor,
            None => false,
        };
        if b_p1 != actor && !is_p2 {
            return Err(GameError::NotAParticipant);
        }
        let m1: u8 = self.battles[j].move_one;
        let m2: u8 = self.battles[j].move_two;
        if m1 == MOVE_UNSET || m2 == MOVE_UNSET {
            return Err(GameError::MovesNotReady);
        }
        proof {
            assert(battle_ok(self.battles@[j as int], self.players@, self.token_slots@));
            assert(self.battles@[j as int].battle_status is Started);
        }
        let outcome = self.resolve_with(j, m1, m2);
        Ok(outcome)
    }
}

/// In every well-formed state, each minted token's attack and defense
/// strengths sum to `MAX_ATTACK_DEFEND_STRENGTH`, and both are nonzero:
/// this holds at creation and is kept by every re-roll.
pub proof fn lemma_token_split_invariant(s: GameState)
    requires
        s.wf(),
    ensures
        forall|i: int|
            1 <= i < s.tokens@.len() ==> s.tokens@[i].attack_strength
                + s.tokens@[i].defense_strength == MAX_ATTACK_DEFEND_STRENGTH
                && 1 <= s.tokens@[i].attack_strength < MAX_ATTACK_DEFEND_STRENGTH,
{
}

/// In every well-formed state, a player is flagged `in_battle` exactly
/// when some Started battle lists them as a participant, and no two
/// Started battles share a participant.
pub proof fn lemma_in_battle_iff(s: GameState)
    requires
        s.wf(),
    ensures
        forall|i: int|
            1 <= i < s.players@.len() ==> (s.players@[i].in_battle <==> in_started_battle(
                s.battles@,
                s.players@[i].player_address,
            )),
        forall|j: int, k: int|
            1 <= j < s.battles@.len() && 1 <= k < s.battles@.len() && j != k
                && s.battles@[j].battle_status is Started && s.battles@[k].battle_status is Started
                ==> disjoint_battles(s.battles@[j], s.battles@[k]),
{
}

/// Ending a Started battle records the winner and freezes the battle as
/// Ended; from there, `battles_monotone` (an ensures of every mutating
/// operation) keeps the battle, winner and all, unchanged forever, and a
/// repeated ending is a no-op that emits nothing.
pub proof fn lemma_ended_records_winner(pre: GameState, post: GameState, j: int, winner: u64)
    requires
        1 <= j < pre.battles@.len(),
        ended(pre, post, j, winner),
    ensures
        post.battles@[j].battle_status is Ended,
        post.battles@[j].winner == Some(winner),
        post.battles@[j].move_one == MOVE_UNSET && post.battles@[j].move_two == MOVE_UNSET,
{
}

/// Where a battle's status can end up, across any number of forward
/// steps: a Started battle never becomes Pending again, and Ended is
/// terminal.
pub open spec fn status_reachable(a: BattleStatus, b: BattleStatus) -> bool {
    match a {
        BattleStatus::Pending => true,
        BattleStatus::Started => !(b is Pending),
        BattleStatus::Ended => b is Ended,
    }
}

/// The battle state machine only moves forward, across any chain of
/// operations: two monotone steps compose into reachability, and a battle
/// once Ended stays frozen, winner and all, through every later operation.
pub proof fn lemma_battles_monotone_trans(a: Seq<Battle>, b: Seq<Battle>, c: Seq<Battle>)
    requires
        battles_monotone(a, b),
        battles_monotone(b, c),
    ensures
        a.len() <= c.len(),
        forall|j: int|
            0 <= j < a.len() ==> status_reachable(a[j].battle_status, c[j].battle_status),
        forall|j: int| 0 <= j < a.len() && a[j].battle_status is Ended ==> c[j] == a[j],
{
    assert forall|j: int|
        0 <= j < a.len() implies status_reachable(a[j].battle_status, c[j].battle_status) by {
        assert(status_step_ok(a[j].battle_status, b[j].battle_status));
        assert(status_step_ok(b[j].battle_status, c[j].battle_status));
    }
    assert forall|j: int| 0 <= j < a.len() && a[j].battle_status is Ended implies c[j] == a[j] by {
        assert(b[j] == a[j]);
    }
}

} // verus!
