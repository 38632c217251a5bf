use infinishield::common::ecc::{decode, encode, max_message_bytes, total_encoded_bits, REPETITION_FACTOR};

#[test]
fn test_encode_decode_round_trip() {
    let message = b"Hello, World!";
    // Need enough blocks: (2 + 13) * 8 * 3 = 360 blocks minimum
    let num_blocks = 400;
    let encoded = encode(message, num_blocks).unwrap();
    let decoded = decode(&encoded).unwrap();
    assert_eq!(decoded, message);
}

#[test]
fn test_error_correction() {
    let message = b"Test";
    let num_blocks = 256;
    let mut encoded = encode(message, num_blocks).unwrap();

    // Flip some bits (within correction capability)
    // Each original bit has 3 copies; flipping 1 of 3 should be correctable
    for i in (0..encoded.len()).step_by(REPETITION_FACTOR) {
        encoded[i] = !encoded[i]; // flip first copy of each group
    }

    let decoded = decode(&encoded).unwrap();
    assert_eq!(decoded, message);
}

#[test]
fn test_max_message_bytes() {
    // 1024 blocks, rep factor 3: 1024/3 = 341 bits = 42 bytes - 2 header = 40
    assert_eq!(max_message_bytes(1024), 40);
    // 256 blocks: 256/3 = 85 bits = 10 bytes - 2 header = 8
    assert_eq!(max_message_bytes(256), 8);
}

#[test]
fn test_total_encoded_bits() {
    // 256 blocks: 256/3=85 bits, 85/8=10 bytes, 10*8*3 = 240 bits
    assert_eq!(total_encoded_bits(256), 240);
}

#[test]
fn test_padded_output_is_fixed_size() {
    let num_blocks = 256;
    let expected_len = total_encoded_bits(num_blocks);

    let short = encode(b"Hi", num_blocks).unwrap();
    let long = encode(b"Longer!!", num_blocks).unwrap();
    assert_eq!(short.len(), expected_len);
    assert_eq!(long.len(), expected_len);
}

#[test]
fn test_empty_message_rejected() {
    let result = decode(&vec![false; 48]); // 48 bits = 2 header bytes (all zero)
    assert!(result.is_err()); // msg_len = 0 is invalid
}

#[test]
fn ecc_small_capacity_is_refused() {
    // 48 blocks hold 16 bits = 2 bytes: only the header fits.
    assert_eq!(max_message_bytes(48), 0);
    assert_eq!(
        encode(b"A", 48).unwrap_err(),
        "Image too small: insufficient capacity"
    );
    assert_eq!(max_message_bytes(0), 0);
    assert_eq!(total_encoded_bits(0), 0);
}

#[test]
fn ecc_too_long_message_text() {
    assert_eq!(
        encode(b"123456789", 256).unwrap_err(),
        "Message too long: max 8 bytes, got 9 bytes"
    );
    assert!(encode(b"12345678", 256).is_ok());
}

#[test]
fn ecc_encoding_layout_exact() {
    // 72 blocks: 24 bits -> 3 payload bytes: [0, 1, 'A'] repeated bit by bit.
    let bits = encode(b"A", 72).unwrap();
    let mut expected = Vec::new();
    for byte in [0u8, 1, b'A'] {
        for i in (0..8).rev() {
            let b = (byte >> i) & 1 == 1;
            expected.extend([b, b, b]);
        }
    }
    assert_eq!(bits, expected);
}

#[test]
fn ecc_decode_error_texts() {
    assert_eq!(
        decode(&vec![true; 47]).unwrap_err(),
        "Not enough data to decode (need at least 2 header bytes)"
    );
    assert_eq!(decode(&vec![false; 48]).unwrap_err(), "Invalid message length: 0");
    // Header announces 0xFFFF bytes, only 0 follow.
    assert_eq!(
        decode(&vec![true; 48]).unwrap_err(),
        "Message length 65535 exceeds available data 0"
    );
}

#[test]
fn ecc_two_flips_in_a_group_are_not_corrected() {
    let mut bits = encode(b"A", 72).unwrap();
    // The last bit of the second header byte (value 1) is at position 15.
    bits[45] = false;
    bits[46] = false;
    assert!(decode(&bits).is_err());
}

#[test]
fn ecc_round_trip_every_length() {
    let num_blocks = 1024;
    for len in 1..=max_message_bytes(num_blocks) {
        let msg: Vec<u8> = (0..len).map(|i| (i * 37 + 11) as u8).collect();
        let enc = encode(&msg, num_blocks).unwrap();
        assert_eq!(enc.len(), total_encoded_bits(num_blocks));
        assert_eq!(decode(&enc).unwrap(), msg);
    }
}
