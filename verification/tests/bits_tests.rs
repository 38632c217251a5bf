use infinishield::bits::{pack_bits, tally_votes, unpack_bytes, votes_to_bits};

#[test]
fn bits_unpack_is_msb_first() {
    let bits = unpack_bytes(&[0xA5, 0x01]);
    let expected = vec![
        true, false, true, false, false, true, false, true, false, false, false, false, false,
        false, false, true,
    ];
    assert_eq!(bits, expected);
}

#[test]
fn bits_pack_undoes_unpack() {
    let bytes: Vec<u8> = (0u8..=255).collect();
    assert_eq!(pack_bits(&unpack_bytes(&bytes)), bytes);
}

#[test]
fn bits_pack_drops_a_partial_byte() {
    let bits = vec![true, true, true, true, true, true, true, true, true, false];
    assert_eq!(pack_bits(&bits), vec![0xFF]);
}

#[test]
fn bits_majority_is_strict() {
    // 2 of 4 is a tie (false), 3 of 4 is a majority, no votes is false.
    let bits = votes_to_bits(&[2, 3, 0, 1], &[4, 4, 0, 1]);
    assert_eq!(bits, vec![false, true, false, true]);
}

#[test]
fn bits_tally_counts_each_voter_once() {
    let votes = vec![
        vec![Some(true), None, Some(false)],
        vec![Some(true), Some(false), Some(false)],
        vec![Some(false), Some(true), None],
    ];
    let (ones, totals) = tally_votes(&votes, 3);
    assert_eq!(ones, vec![2, 1, 0]);
    assert_eq!(totals, vec![3, 2, 2]);
    assert_eq!(votes_to_bits(&ones, &totals), vec![true, false, false]);
}

#[test]
fn bits_tally_without_voters_is_zero() {
    let votes: Vec<Vec<Option<bool>>> = Vec::new();
    let (ones, totals) = tally_votes(&votes, 4);
    assert_eq!(ones, vec![0, 0, 0, 0]);
    assert_eq!(totals, vec![0, 0, 0, 0]);
}
