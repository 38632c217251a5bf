use infinishield::common::password::password_to_seed;
use infinishield::common::pn::{pn_key, pn_signs};

#[test]
fn test_deterministic() {
    let s1 = password_to_seed("d1ng0");
    let s2 = password_to_seed("d1ng0");
    assert_eq!(s1, s2);
}

#[test]
fn test_different_passwords() {
    let s1 = password_to_seed("d1ng0");
    let s2 = password_to_seed("wrong");
    assert_ne!(s1, s2);
}

#[test]
fn test_password_to_seed_deterministic() {
    let s1 = password_to_seed("test123");
    let s2 = password_to_seed("test123");
    assert_eq!(s1, s2);
}

#[test]
fn test_password_to_seed_different() {
    let s1 = password_to_seed("password1");
    let s2 = password_to_seed("password2");
    assert_ne!(s1, s2);
}

#[test]
fn password_seed_is_sha256() {
    // SHA-256("abc")
    let expected: [u8; 32] = [
        0xba, 0x78, 0x16, 0xbf, 0x8f, 0x01, 0xcf, 0xea, 0x41, 0x41, 0x40, 0xde, 0x5d, 0xae, 0x22,
        0x23, 0xb0, 0x03, 0x61, 0xa3, 0x96, 0x17, 0x7a, 0x9c, 0xb4, 0x10, 0xff, 0x61, 0xf2, 0x00,
        0x15, 0xad,
    ];
    assert_eq!(password_to_seed("abc"), expected);
}

#[test]
fn pn_key_hashes_seed_then_index() {
    // The key of index 1 hashes the 32 seed bytes then 01 00 00 00 00 00 00 00.
    let seed = [0u8; 32];
    let k1 = pn_key(&seed, 1);
    let k2 = pn_key(&seed, 256);
    assert_ne!(k1, k2);
    assert_ne!(k1, password_to_seed(""));
}

#[test]
fn pn_signs_deterministic_and_index_dependent() {
    let seed = [42u8; 32];
    let a = pn_signs(&seed, 0, 256);
    let b = pn_signs(&seed, 0, 256);
    let c = pn_signs(&seed, 1, 256);
    assert_eq!(a.len(), 256);
    assert_eq!(a, b);
    assert_ne!(a, c);
    // Roughly balanced coins.
    let ones = a.iter().filter(|&&x| x).count();
    assert!(ones > 64 && ones < 192);
}

#[test]
fn pn_signs_shorter_run_is_a_prefix() {
    let seed = [7u8; 32];
    let long = pn_signs(&seed, 3, 64);
    let short = pn_signs(&seed, 3, 10);
    assert_eq!(&long[..10], &short[..]);
    assert_eq!(
        infinishield::vector::generate_pn(&seed, 3),
        long[0]
    );
    assert_eq!(infinishield::raster::patch_pn_chip(&seed, 3), long);
}
