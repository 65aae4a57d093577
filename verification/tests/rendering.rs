use ava_arena::decimal::uint_to_str;
use ava_arena::engine::GameState;
use ava_arena::hashing::keccak_hash;
use ava_arena::rng::{create_random_num, kind_from_draw, num_from_draw, roll_kind, roll_split};
use sha3::{Digest, Keccak256};

#[test]
fn renders_small_numbers() {
    assert_eq!(uint_to_str(0), "0");
    assert_eq!(uint_to_str(7), "7");
    assert_eq!(uint_to_str(10), "10");
}

#[test]
fn renders_larger_numbers() {
    assert_eq!(uint_to_str(12345), "12345");
    assert_eq!(uint_to_str(1000000), "1000000");
    assert_eq!(uint_to_str(u64::MAX), "18446744073709551615");
}

#[test]
fn battle_hash_is_the_keccak_digest_of_the_name() {
    let direct: [u8; 32] = Keccak256::digest("arena".as_bytes()).into();
    assert_eq!(keccak_hash("arena"), direct);
    let mut s = GameState::new();
    assert_eq!(s.register_player(1, "alice"), Ok(()));
    assert_eq!(s.create_battle(1, "arena"), Ok(()));
    assert_eq!(s.get_battle("arena").unwrap().battle_hash, direct);
}

#[test]
fn different_names_hash_differently() {
    assert_ne!(keccak_hash("arena"), keccak_hash("pit"));
    assert_eq!(keccak_hash("arena"), keccak_hash("arena"));
}

#[test]
fn num_from_draw_reduces_and_avoids_zero() {
    // A zero residue is replaced by half the bound.
    assert_eq!(num_from_draw(0, 10), 5);
    assert_eq!(num_from_draw(20, 10), 5);
    assert_eq!(num_from_draw(23, 10), 3);
    assert_eq!(num_from_draw(9, 10), 9);
    assert_eq!(num_from_draw(7, 2), 1);
}

#[test]
fn kind_from_draw_lands_in_range() {
    // 599 % 100 = 99, 99 % 6 = 3, plus one.
    assert_eq!(kind_from_draw(599), 4);
    assert_eq!(kind_from_draw(0), 1);
    for d in 0..1000u64 {
        let k = kind_from_draw(d);
        assert!((1..=6).contains(&k));
    }
}

#[test]
fn random_rolls_stay_in_their_ranges() {
    for _ in 0..200 {
        let n = create_random_num(10);
        assert!((1..=9).contains(&n));
        let (attack, defense) = roll_split();
        assert_eq!(attack + defense, 10);
        assert!((1..=9).contains(&attack));
        let k = roll_kind();
        assert!((1..=6).contains(&k));
    }
}
