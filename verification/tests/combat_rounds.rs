use ava_arena::combat::{mana_gain, resolve_round, Fighter, RoundResult};

fn fighter(health: u64, mana: u64, attack: u64, defense: u64) -> Fighter {
    Fighter { health, mana, attack, defense }
}

#[test]
fn double_attack_damages_both() {
    // Both choose Attack with full health: each loses health equal to the
    // opponent's attack and pays the attack cost.
    let one = fighter(25, 10, 6, 4);
    let two = fighter(25, 10, 4, 6);
    let r = resolve_round(&one, &two, 1, 1);
    assert_eq!(
        r,
        RoundResult::Fought {
            health_one: 21,
            health_two: 19,
            mana_one: 7,
            mana_two: 7,
            damaged_one: true,
            damaged_two: true,
        }
    );
}

#[test]
fn attack_into_guard_partial_damage() {
    // Attack 9 against health 25 + defense 4: the guard is not breached,
    // the defense absorbs part of the hit, health becomes 29 - 9 = 20.
    let one = fighter(25, 10, 9, 1);
    let two = fighter(25, 10, 5, 4);
    let r = resolve_round(&one, &two, 1, 2);
    assert_eq!(
        r,
        RoundResult::Fought {
            health_one: 25,
            health_two: 20,
            mana_one: 7,
            mana_two: 13,
            damaged_one: false,
            damaged_two: true,
        }
    );
}

#[test]
fn attack_equal_to_defense_marks_damage_without_loss() {
    // At the boundary the guard exactly cancels the hit: health is
    // unchanged, but the defender still counts as the damaged party.
    let one = fighter(25, 10, 4, 6);
    let two = fighter(25, 10, 5, 4);
    let r = resolve_round(&one, &two, 1, 2);
    assert_eq!(
        r,
        RoundResult::Fought {
            health_one: 25,
            health_two: 25,
            mana_one: 7,
            mana_two: 13,
            damaged_one: false,
            damaged_two: true,
        }
    );
}

#[test]
fn defense_greater_than_attack_no_damage_flag() {
    let one = fighter(25, 10, 3, 7);
    let two = fighter(25, 10, 5, 5);
    let r = resolve_round(&one, &two, 1, 2);
    assert_eq!(
        r,
        RoundResult::Fought {
            health_one: 25,
            health_two: 25,
            mana_one: 7,
            mana_two: 13,
            damaged_one: false,
            damaged_two: false,
        }
    );
}

#[test]
fn lethal_attack_ends_battle() {
    // Attack at least the defender's health wins outright.
    let one = fighter(25, 10, 30, 0);
    let two = fighter(25, 10, 4, 6);
    let r = resolve_round(&one, &two, 1, 1);
    assert_eq!(r, RoundResult::Finished { winner_is_one: true });
}

#[test]
fn lethal_attack_through_guard_ends_battle() {
    let one = fighter(25, 10, 31, 0);
    let two = fighter(25, 10, 4, 6);
    let r = resolve_round(&one, &two, 1, 2);
    assert_eq!(r, RoundResult::Finished { winner_is_one: true });
}

#[test]
fn second_attacker_wins_when_first_is_not_lethal() {
    let one = fighter(5, 10, 4, 6);
    let two = fighter(25, 10, 9, 1);
    let r = resolve_round(&one, &two, 1, 1);
    assert_eq!(r, RoundResult::Finished { winner_is_one: false });
}

#[test]
fn first_attacker_checked_before_second() {
    // Both attacks are lethal: the first fighter wins the tie-break.
    let one = fighter(5, 10, 30, 0);
    let two = fighter(25, 10, 30, 0);
    let r = resolve_round(&one, &two, 1, 1);
    assert_eq!(r, RoundResult::Finished { winner_is_one: true });
}

#[test]
fn double_defend_only_gains_mana() {
    let one = fighter(20, 4, 6, 4);
    let two = fighter(19, 7, 4, 6);
    let r = resolve_round(&one, &two, 2, 2);
    assert_eq!(
        r,
        RoundResult::Fought {
            health_one: 20,
            health_two: 19,
            mana_one: 7,
            mana_two: 10,
            damaged_one: false,
            damaged_two: false,
        }
    );
}

#[test]
fn defend_against_attack_symmetric_case() {
    let one = fighter(25, 10, 5, 4);
    let two = fighter(25, 10, 9, 1);
    let r = resolve_round(&one, &two, 2, 1);
    assert_eq!(
        r,
        RoundResult::Fought {
            health_one: 20,
            health_two: 25,
            mana_one: 13,
            mana_two: 7,
            damaged_one: true,
            damaged_two: false,
        }
    );
}

#[test]
fn mana_gain_adds_the_reward() {
    assert_eq!(mana_gain(5), 8);
    assert_eq!(mana_gain(0), 3);
}

#[test]
fn mana_gain_saturates_at_max() {
    assert_eq!(mana_gain(u64::MAX), u64::MAX);
    assert_eq!(mana_gain(u64::MAX - 1), u64::MAX);
    assert_eq!(mana_gain(u64::MAX - 3), u64::MAX);
    assert_eq!(mana_gain(u64::MAX - 4), u64::MAX - 1);
}
