use infinishield::common::password::password_to_seed;
use infinishield::common::scramble::{
    generate_permutation, scramble, scramble_with_password, unscramble, unscramble_with_seed,
};

#[test]
fn test_scramble_unscramble_round_trip() {
    let seed = [42u8; 32];
    let bits: Vec<bool> = vec![true, false, true, true, false, false, true, false];
    let perm = generate_permutation(bits.len(), &seed);
    let scrambled = scramble(&bits, &perm);
    let recovered = unscramble(&scrambled, &perm);
    assert_eq!(bits, recovered);
}

#[test]
fn test_permutation_is_valid() {
    let seed = [7u8; 32];
    let n = 100;
    let perm = generate_permutation(n, &seed);

    // All indices present exactly once
    let mut sorted = perm.clone();
    sorted.sort();
    let expected: Vec<usize> = (0..n).collect();
    assert_eq!(sorted, expected);
}

#[test]
fn test_permutation_deterministic() {
    let seed = [99u8; 32];
    let n = 50;
    let perm1 = generate_permutation(n, &seed);
    let perm2 = generate_permutation(n, &seed);
    assert_eq!(perm1, perm2);
}

#[test]
fn test_different_seeds_different_permutations() {
    let seed1 = [1u8; 32];
    let seed2 = [2u8; 32];
    let n = 50;
    let perm1 = generate_permutation(n, &seed1);
    let perm2 = generate_permutation(n, &seed2);
    assert_ne!(perm1, perm2);
}

#[test]
fn scramble_places_bits_at_permuted_positions() {
    let bits = vec![true, false, false, true];
    let perm = vec![2usize, 0, 3, 1];
    let s = scramble(&bits, &perm);
    assert_eq!(s, vec![false, true, true, false]);
    assert_eq!(unscramble(&s, &perm), bits);
}

#[test]
fn scramble_with_non_permutation_keeps_last_write() {
    // Indices 0 and 0: the second write wins; position 1 stays false.
    let s = scramble(&[true, false], &[0, 0]);
    assert_eq!(s, vec![false, false]);
}

#[test]
fn scramble_then_unscramble_with_password() {
    let bits: Vec<bool> = (0..200).map(|i| i % 3 == 0 || i % 7 == 1).collect();
    let s = scramble_with_password(&bits, "d1ng0");
    assert_eq!(s.seed, password_to_seed("d1ng0"));
    assert_eq!(unscramble_with_seed(&s.bits, &s.seed), bits);
    assert_eq!(unscramble(&s.bits, &s.perm), bits);
}

#[test]
fn permutation_of_zero_and_one() {
    assert!(generate_permutation(0, &[0u8; 32]).is_empty());
    assert_eq!(generate_permutation(1, &[0u8; 32]), vec![0]);
}
