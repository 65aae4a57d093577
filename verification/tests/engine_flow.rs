use ava_arena::engine::GameState;
use ava_arena::types::{BattleEnded, BattleStatus, GameError, MoveOutcome};

const ALICE: u64 = 1;
const BOB: u64 = 2;
const CAROL: u64 = 3;

/// Registers Alice and Bob, mints their tokens, and starts the battle
/// "arena" between them (Alice created it, Bob joined).
fn started_battle() -> GameState {
    let mut s = GameState::new();
    assert_eq!(s.register_player(ALICE, "alice"), Ok(()));
    assert_eq!(s.register_player(BOB, "bob"), Ok(()));
    assert_eq!(s.create_random_game_token(ALICE, "sword"), Ok(()));
    assert_eq!(s.create_random_game_token(BOB, "shield"), Ok(()));
    assert_eq!(s.create_battle(ALICE, "arena"), Ok(()));
    assert_eq!(s.join_battle(BOB, "arena"), Ok(()));
    s
}

#[test]
fn registration_and_lookup() {
    let mut s = GameState::new();
    assert!(!s.is_player(ALICE));
    assert_eq!(s.register_player(ALICE, "alice"), Ok(()));
    assert!(s.is_player(ALICE));
    let p = s.get_player(ALICE).unwrap();
    assert_eq!(p.player_address, ALICE);
    assert_eq!(p.player_name, "alice");
    assert_eq!(p.player_mana, 10);
    assert_eq!(p.player_health, 25);
    assert!(!p.in_battle);
    assert_eq!(s.register_player(ALICE, "again"), Err(GameError::AlreadyRegistered));
    // The sentinel entry occupies position 0.
    assert_eq!(s.get_all_players().len(), 2);
}

#[test]
fn token_stats_always_sum_to_the_constant() {
    let mut s = GameState::new();
    assert_eq!(s.register_player(ALICE, "alice"), Ok(()));
    assert_eq!(s.create_random_game_token(ALICE, "sword"), Ok(()));
    let t = s.get_player_token(ALICE).unwrap();
    assert_eq!(t.attack_strength + t.defense_strength, 10);
    assert!(t.attack_strength >= 1 && t.attack_strength <= 9);
    assert!(t.kind >= 1 && t.kind <= 6);
    assert_eq!(t.name, "sword");
}

#[test]
fn minting_requires_registration_and_freedom() {
    let mut s = GameState::new();
    assert_eq!(s.create_random_game_token(ALICE, "sword"), Err(GameError::NotAPlayer));
    let mut s = started_battle();
    assert_eq!(s.create_random_game_token(ALICE, "axe"), Err(GameError::AlreadyInBattle));
}

#[test]
fn minting_again_overwrites_the_current_token() {
    let mut s = GameState::new();
    assert_eq!(s.register_player(ALICE, "alice"), Ok(()));
    assert_eq!(s.create_random_game_token(ALICE, "sword"), Ok(()));
    assert_eq!(s.create_random_game_token(ALICE, "axe"), Ok(()));
    assert_eq!(s.get_total_supply(), 2);
    // Sentinel plus both minted tokens stay in the arena.
    assert_eq!(s.get_all_player_tokens().len(), 3);
    // The owner's current token is the newest one.
    assert_eq!(s.get_player_token(ALICE).unwrap().name, "axe");
}

#[test]
fn create_battle_records_a_pending_battle() {
    let mut s = GameState::new();
    assert_eq!(s.create_battle(ALICE, "arena"), Err(GameError::NotAPlayer));
    assert_eq!(s.register_player(ALICE, "alice"), Ok(()));
    assert_eq!(s.create_battle(ALICE, "arena"), Ok(()));
    assert!(s.is_battle("arena"));
    let b = s.get_battle("arena").unwrap();
    assert_eq!(b.battle_status, BattleStatus::Pending);
    assert_eq!(b.player_one, ALICE);
    assert_eq!(b.player_two, None);
    assert_eq!(b.winner, None);
    assert_eq!((b.move_one, b.move_two), (0, 0));
    assert_eq!(s.create_battle(ALICE, "arena"), Err(GameError::NameTaken));
}

#[test]
fn join_battle_binds_both_players() {
    let s = started_battle();
    let b = s.get_battle("arena").unwrap();
    assert_eq!(b.battle_status, BattleStatus::Started);
    assert_eq!(b.player_two, Some(BOB));
    assert!(s.get_player(ALICE).unwrap().in_battle);
    assert!(s.get_player(BOB).unwrap().in_battle);
}

#[test]
fn join_guards() {
    let mut s = GameState::new();
    assert_eq!(s.register_player(ALICE, "alice"), Ok(()));
    assert_eq!(s.register_player(BOB, "bob"), Ok(()));
    assert_eq!(s.join_battle(BOB, "arena"), Err(GameError::NotFound));
    assert_eq!(s.create_battle(ALICE, "arena"), Ok(()));
    assert_eq!(s.join_battle(CAROL, "arena"), Err(GameError::NotAPlayer));
    // The creator may not join their own battle.
    assert_eq!(s.join_battle(ALICE, "arena"), Err(GameError::SelfJoin));
    // Both sides need a minted token before the battle can start.
    assert_eq!(s.join_battle(BOB, "arena"), Err(GameError::NoToken));
    assert_eq!(s.create_random_game_token(BOB, "shield"), Ok(()));
    assert_eq!(s.join_battle(BOB, "arena"), Err(GameError::NoToken));
    assert_eq!(s.create_random_game_token(ALICE, "sword"), Ok(()));
    assert_eq!(s.join_battle(BOB, "arena"), Ok(()));
    // A Started battle cannot be joined again.
    assert_eq!(s.register_player(CAROL, "carol"), Ok(()));
    assert_eq!(s.create_random_game_token(CAROL, "club"), Ok(()));
    assert_eq!(s.join_battle(CAROL, "arena"), Err(GameError::NotPending));
    // A player already bound to a live battle cannot join another.
    assert_eq!(s.create_battle(CAROL, "pit"), Ok(()));
    assert_eq!(s.join_battle(BOB, "pit"), Err(GameError::AlreadyInBattle));
}

#[test]
fn double_defend_round_resets_moves_and_pays_mana() {
    let mut s = started_battle();
    assert_eq!(s.attack_or_defend_choice(ALICE, 2, "arena"), Ok(MoveOutcome::Waiting));
    assert_eq!(s.get_battle_moves("arena"), Ok((2, 0)));
    let r = s.attack_or_defend_choice(BOB, 2, "arena").unwrap();
    assert_eq!(
        r,
        MoveOutcome::RoundResolved { damaged_one: false, damaged_two: false }
    );
    // After a non-terminal round both move slots are clear again.
    assert_eq!(s.get_battle_moves("arena"), Ok((0, 0)));
    assert_eq!(s.get_player(ALICE).unwrap().player_mana, 13);
    assert_eq!(s.get_player(BOB).unwrap().player_mana, 13);
    assert_eq!(s.get_player(ALICE).unwrap().player_health, 25);
    assert_eq!(s.get_player(BOB).unwrap().player_health, 25);
}

#[test]
fn double_attack_round_applies_damage_and_rerolls() {
    let mut s = started_battle();
    let alice_attack = s.get_player_token(ALICE).unwrap().attack_strength;
    let bob_attack = s.get_player_token(BOB).unwrap().attack_strength;
    assert_eq!(s.attack_or_defend_choice(ALICE, 1, "arena"), Ok(MoveOutcome::Waiting));
    let r = s.attack_or_defend_choice(BOB, 1, "arena").unwrap();
    assert_eq!(r, MoveOutcome::RoundResolved { damaged_one: true, damaged_two: true });
    assert_eq!(s.get_player(ALICE).unwrap().player_health, 25 - bob_attack);
    assert_eq!(s.get_player(BOB).unwrap().player_health, 25 - alice_attack);
    assert_eq!(s.get_player(ALICE).unwrap().player_mana, 7);
    assert_eq!(s.get_player(BOB).unwrap().player_mana, 7);
    assert_eq!(s.get_battle_moves("arena"), Ok((0, 0)));
    // Both tokens were re-rolled and still satisfy the split invariant.
    let ta = s.get_player_token(ALICE).unwrap();
    let tb = s.get_player_token(BOB).unwrap();
    assert_eq!(ta.attack_strength + ta.defense_strength, 10);
    assert_eq!(tb.attack_strength + tb.defense_strength, 10);
}

#[test]
fn submit_move_guards() {
    let mut s = started_battle();
    assert_eq!(s.attack_or_defend_choice(ALICE, 3, "arena"), Err(GameError::InvalidChoice));
    assert_eq!(s.attack_or_defend_choice(ALICE, 0, "arena"), Err(GameError::InvalidChoice));
    assert_eq!(s.attack_or_defend_choice(ALICE, 1, "nowhere"), Err(GameError::NotFound));
    assert_eq!(s.attack_or_defend_choice(CAROL, 1, "arena"), Err(GameError::NotAParticipant));
    assert_eq!(s.attack_or_defend_choice(ALICE, 1, "arena"), Ok(MoveOutcome::Waiting));
    assert_eq!(s.attack_or_defend_choice(ALICE, 2, "arena"), Err(GameError::MoveAlreadySet));
}

#[test]
fn submit_move_on_pending_battle_is_rejected() {
    let mut s = GameState::new();
    assert_eq!(s.register_player(ALICE, "alice"), Ok(()));
    assert_eq!(s.create_battle(ALICE, "arena"), Ok(()));
    assert_eq!(s.attack_or_defend_choice(ALICE, 1, "arena"), Err(GameError::NotStarted));
}

#[test]
fn attacking_without_mana_is_rejected() {
    let mut s = started_battle();
    // Alice attacks, Bob defends; only Alice pays mana: 10, 7, 4, then 1.
    for _ in 0..3 {
        assert_eq!(s.attack_or_defend_choice(ALICE, 1, "arena"), Ok(MoveOutcome::Waiting));
        let r = s.attack_or_defend_choice(BOB, 2, "arena").unwrap();
        assert!(matches!(r, MoveOutcome::RoundResolved { .. }));
    }
    assert_eq!(s.get_player(ALICE).unwrap().player_mana, 1);
    assert_eq!(s.attack_or_defend_choice(ALICE, 1, "arena"), Err(GameError::InsufficientMana));
    // Defending is free and still accepted.
    assert_eq!(s.attack_or_defend_choice(ALICE, 2, "arena"), Ok(MoveOutcome::Waiting));
}

#[test]
fn register_player_move_then_await_resolves() {
    let mut s = started_battle();
    assert_eq!(s.await_battle_results(ALICE, "arena"), Err(GameError::MovesNotReady));
    assert_eq!(s.register_player_move(0, 2, "arena"), Ok(()));
    assert_eq!(s.await_battle_results(ALICE, "arena"), Err(GameError::MovesNotReady));
    assert_eq!(s.register_player_move(1, 2, "arena"), Ok(()));
    assert_eq!(s.await_battle_results(CAROL, "arena"), Err(GameError::NotAParticipant));
    let r = s.await_battle_results(ALICE, "arena").unwrap();
    assert_eq!(r, MoveOutcome::RoundResolved { damaged_one: false, damaged_two: false });
    assert_eq!(s.get_battle_moves("arena"), Ok((0, 0)));
}

#[test]
fn register_player_move_guards() {
    let mut s = started_battle();
    assert_eq!(s.register_player_move(0, 5, "arena"), Err(GameError::InvalidChoice));
    assert_eq!(s.register_player_move(2, 1, "arena"), Err(GameError::InvalidChoice));
    assert_eq!(s.register_player_move(0, 1, "nowhere"), Err(GameError::NotFound));
    assert_eq!(s.register_player_move(0, 1, "arena"), Ok(()));
    assert_eq!(s.register_player_move(0, 2, "arena"), Err(GameError::MoveAlreadySet));
}

#[test]
fn quitting_hands_the_win_to_the_opponent() {
    let mut s = started_battle();
    let ev = s.quit_battle(ALICE, "arena").unwrap();
    assert_eq!(ev, Some(BattleEnded { winner: BOB, loser: ALICE }));
    let b = s.get_battle("arena").unwrap();
    assert_eq!(b.battle_status, BattleStatus::Ended);
    assert_eq!(b.winner, Some(BOB));
    assert_eq!((b.move_one, b.move_two), (0, 0));
    // Both players are soft-reset.
    for addr in [ALICE, BOB] {
        let p = s.get_player(addr).unwrap();
        assert!(!p.in_battle);
        assert_eq!(p.player_health, 25);
        assert_eq!(p.player_mana, 10);
    }
}

#[test]
fn ending_twice_is_idempotent() {
    let mut s = started_battle();
    let first = s.quit_battle(ALICE, "arena").unwrap();
    assert_eq!(first, Some(BattleEnded { winner: BOB, loser: ALICE }));
    // A second quit is a no-op: no second termination notification, and
    // the recorded winner does not change.
    let second = s.quit_battle(BOB, "arena").unwrap();
    assert_eq!(second, None);
    assert_eq!(s.get_battle("arena").unwrap().winner, Some(BOB));
    let third = s.quit_battle(ALICE, "arena").unwrap();
    assert_eq!(third, None);
    assert_eq!(s.get_battle("arena").unwrap().winner, Some(BOB));
}

#[test]
fn quit_guards() {
    let mut s = GameState::new();
    assert_eq!(s.quit_battle(ALICE, "arena"), Err(GameError::NotFound));
    assert_eq!(s.register_player(ALICE, "alice"), Ok(()));
    assert_eq!(s.create_battle(ALICE, "arena"), Ok(()));
    assert_eq!(s.quit_battle(BOB, "arena"), Err(GameError::NotAParticipant));
    // A Pending battle has no opponent to hand the win to.
    assert_eq!(s.quit_battle(ALICE, "arena"), Err(GameError::NotStarted));
}

#[test]
fn lethal_round_ends_battle_and_resets_players() {
    let mut s = started_battle();
    // Fight attack-vs-attack rounds until somebody's attack is lethal;
    // pay for the attacks by defending when mana runs low. Health only
    // goes down during a battle, so this terminates.
    let mut rounds = 0;
    loop {
        rounds += 1;
        assert!(rounds < 200);
        let alice_mana = s.get_player(ALICE).unwrap().player_mana;
        let bob_mana = s.get_player(BOB).unwrap().player_mana;
        let alice_move = if alice_mana >= 3 { 1 } else { 2 };
        let bob_move = if bob_mana >= 3 { 1 } else { 2 };
        assert_eq!(
            s.attack_or_defend_choice(ALICE, alice_move, "arena"),
            Ok(MoveOutcome::Waiting)
        );
        match s.attack_or_defend_choice(BOB, bob_move, "arena").unwrap() {
            MoveOutcome::Waiting => panic!("second move must resolve the round"),
            MoveOutcome::RoundResolved { .. } => continue,
            MoveOutcome::Ended { winner, loser } => {
                assert!(winner == ALICE || winner == BOB);
                assert!(loser == ALICE || loser == BOB);
                assert_ne!(winner, loser);
                let b = s.get_battle("arena").unwrap();
                assert_eq!(b.battle_status, BattleStatus::Ended);
                assert_eq!(b.winner, Some(winner));
                for addr in [ALICE, BOB] {
                    let p = s.get_player(addr).unwrap();
                    assert!(!p.in_battle);
                    assert_eq!(p.player_health, 25);
                    assert_eq!(p.player_mana, 10);
                }
                // No further moves are accepted for the ended battle.
                assert_eq!(
                    s.attack_or_defend_choice(ALICE, 1, "arena"),
                    Err(GameError::NotStarted)
                );
                break;
            },
        }
    }
}

#[test]
fn players_can_battle_again_after_an_end() {
    let mut s = started_battle();
    assert_eq!(s.quit_battle(BOB, "arena").unwrap(), Some(BattleEnded { winner: ALICE, loser: BOB }));
    // Freed players can form a new battle under a fresh name.
    assert_eq!(s.create_battle(BOB, "rematch"), Ok(()));
    assert_eq!(s.join_battle(ALICE, "rematch"), Ok(()));
    assert_eq!(s.get_battle("rematch").unwrap().battle_status, BattleStatus::Started);
    assert_eq!(s.get_battle("arena").unwrap().battle_status, BattleStatus::Ended);
    // The ended battle keeps its name registered.
    assert_eq!(s.create_battle(CAROL, "arena"), Err(GameError::NotAPlayer));
    assert_eq!(s.register_player(CAROL, "carol"), Ok(()));
    assert_eq!(s.create_battle(CAROL, "arena"), Err(GameError::NameTaken));
}
