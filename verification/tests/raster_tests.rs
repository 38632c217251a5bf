use infinishield::common::engine::EmbedInfo;
use infinishield::common::scramble::unscramble;
use infinishield::raster::features::has_keypoint_area;
use infinishield::raster::{
    auto_intensity, block_pn_chip, check_capacity, count_blocks, feature_point_bits, fp_decode,
    fp_encode, global_block_of_bit, global_dwt_bits, light_fp_floor, mode_capacity, patch_pixel, patch_pn_chip, recover_feature_point,
    recover_global_dwt, resolve_intensity, use_feature_points, BLOCKS_PER_PATCH, FP_MAX_MESSAGE,
};

#[test]
fn test_fp_encode_decode_round_trip() {
    let msg = b"Infini";
    let bits = fp_encode(msg).unwrap();
    assert_eq!(bits.len(), BLOCKS_PER_PATCH);
    let decoded = fp_decode(&bits).unwrap();
    assert_eq!(decoded, msg);
}

#[test]
fn test_fp_max_message() {
    assert_eq!(FP_MAX_MESSAGE, 7); // 64/8 - 1 = 7
    let msg = vec![b'A'; FP_MAX_MESSAGE];
    assert!(fp_encode(&msg).is_ok());
    let msg_too_long = vec![b'A'; FP_MAX_MESSAGE + 1];
    assert!(fp_encode(&msg_too_long).is_err());
}

#[test]
fn fp_error_texts() {
    assert_eq!(
        fp_encode(&[0u8; 8]).unwrap_err(),
        "Message too long for feature-point mode: max 7 bytes, got 8"
    );
    assert_eq!(fp_decode(&[true; 7]).unwrap_err(), "Not enough bits");
    assert_eq!(fp_decode(&[false; 64]).unwrap_err(), "Invalid message length");
    // Length byte 255 with only 7 bytes after it.
    assert_eq!(fp_decode(&[true; 64]).unwrap_err(), "Invalid message length");
}

#[test]
fn fp_frame_layout() {
    let bits = fp_encode(b"A").unwrap();
    // [1, 'A', 0, 0, 0, 0, 0, 0]
    let expected_first: Vec<bool> = [0u8, 0, 0, 0, 0, 0, 0, 1].iter().map(|&b| b == 1).collect();
    assert_eq!(&bits[..8], &expected_first[..]);
    let a: Vec<bool> = (0..8).rev().map(|i| (b'A' >> i) & 1 == 1).collect();
    assert_eq!(&bits[8..16], &a[..]);
    assert!(bits[16..].iter().all(|&b| !b));
}

#[test]
fn auto_intensity_thresholds() {
    assert_eq!(auto_intensity(100, 100), 7);
    assert_eq!(auto_intensity(1000, 499), 7); // 499 000 px
    assert_eq!(auto_intensity(1000, 500), 5); // exactly 0.5 MP
    assert_eq!(auto_intensity(2000, 999), 5);
    assert_eq!(auto_intensity(2000, 1000), 4); // exactly 2 MP
    assert_eq!(auto_intensity(4000, 1999), 4);
    assert_eq!(auto_intensity(4000, 2000), 3); // exactly 8 MP
    assert_eq!(auto_intensity(u32::MAX, u32::MAX), 3);
}

#[test]
fn resolve_intensity_rules() {
    // 512×512 is below 0.5 MP: automatic intensity 7.
    assert_eq!(resolve_intensity(0, 512, 512), 7);
    // A manual value scales the automatic one: 5 keeps it, 1 halves it, 10 doubles it.
    assert_eq!(resolve_intensity(5, 512, 512), 7);
    assert_eq!(resolve_intensity(5, 526, 524), resolve_intensity(0, 526, 524));
    assert_eq!(resolve_intensity(1, 512, 512), 4);
    assert_eq!(resolve_intensity(6, 512, 512), 8);
    assert_eq!(resolve_intensity(10, 512, 512), 10); // 14, kept at 10
    assert_eq!(resolve_intensity(11, 512, 512), 10);
    assert_eq!(resolve_intensity(255, 1, 1), 10);
    // 64 MP: automatic intensity 3.
    assert_eq!(resolve_intensity(0, 8000, 8000), 3);
    assert_eq!(resolve_intensity(1, 8000, 8000), 2);
    assert_eq!(resolve_intensity(5, 8000, 8000), 3);
    assert_eq!(resolve_intensity(10, 8000, 8000), 6);
}

#[test]
fn block_counting() {
    assert_eq!(count_blocks(256, 256), (16, 16, 256));
    assert_eq!(count_blocks(15, 300), (0, 18, 0));
    assert_eq!(count_blocks(33, 47), (2, 2, 4));
}

#[test]
fn mode_choice() {
    assert!(use_feature_points(10, 7));
    assert!(!use_feature_points(9, 1));
    assert!(!use_feature_points(200, 8));
    let (mode, cap) = mode_capacity(true, 0);
    assert_eq!((mode.as_str(), cap), ("feature-point", 7));
    let (mode, cap) = mode_capacity(false, 1024);
    assert_eq!((mode.as_str(), cap), ("global-dwt", 40));
}

fn info(bytes: usize, cap: usize) -> EmbedInfo {
    EmbedInfo {
        status: "ok".to_string(),
        mode: "global-dwt".to_string(),
        message: "x".repeat(bytes),
        message_bytes: bytes,
        intensity: 5,
        width: 512,
        height: 512,
        keypoints: 0,
        max_capacity: cap,
        output_path: "out.png".to_string(),
    }
}

#[test]
fn dry_run_capacity_check() {
    assert!(check_capacity(&info(8, 8)).is_ok());
    assert_eq!(
        check_capacity(&info(9, 8)).unwrap_err(),
        "Message too long: 9 bytes, max capacity: 8 bytes (mode: global-dwt)"
    );
}

#[test]
fn keypoint_area() {
    assert!(!has_keypoint_area(32, 32));
    assert!(!has_keypoint_area(80, 200));
    assert!(has_keypoint_area(81, 81));
}

#[test]
fn pn_chip_sizes() {
    let seed = [3u8; 32];
    assert_eq!(patch_pn_chip(&seed, 5).len(), 64);
    assert_eq!(block_pn_chip(&seed, 5).len(), 256);
    assert_eq!(block_pn_chip(&seed, 5), block_pn_chip(&seed, 5));
    assert_eq!(&block_pn_chip(&seed, 5)[..64], &patch_pn_chip(&seed, 5)[..]);
}

#[test]
fn feature_point_pipeline_round_trip() {
    let s = feature_point_bits(b"Infini", "d1ng0").unwrap();
    assert_eq!(s.bits.len(), 64);
    assert_eq!(unscramble(&s.bits, &s.perm), fp_encode(b"Infini").unwrap());
    // Three keypoints vote; one of them disagrees everywhere.
    let ones: Vec<usize> = s.bits.iter().map(|&b| if b { 2 } else { 1 }).collect();
    let totals = vec![3usize; 64];
    assert_eq!(recover_feature_point(&ones, &totals, &s.seed).unwrap(), b"Infini");
    // A tie is a zero.
    let tie: Vec<usize> = vec![1; 64];
    let two = vec![2usize; 64];
    assert!(recover_feature_point(&tie, &two, &s.seed).is_err());
}

#[test]
fn feature_point_refuses_long_message() {
    assert!(feature_point_bits(b"12345678", "pw").is_err());
}

#[test]
fn global_pipeline_round_trip() {
    let s = global_dwt_bits(b"Copyright: InfiniLabs", "d1ng0", 1024).unwrap();
    assert_eq!(s.bits.len(), 1008);
    assert_eq!(recover_global_dwt(&s.bits, &s.seed).unwrap(), b"Copyright: InfiniLabs");
    let wrong = infinishield::common::password::password_to_seed("wrong_d1ng0");
    assert_ne!(
        recover_global_dwt(&s.bits, &wrong).ok(),
        Some(b"Copyright: InfiniLabs".to_vec())
    );
    assert_eq!(
        global_dwt_bits(b"x", "d1ng0", 0).err().unwrap(),
        "Image too small for watermarking"
    );
}

#[test]
fn patch_layout() {
    // Bit 0, cell (0, 0) is the top-left corner of the patch.
    assert_eq!(patch_pixel(100, 100, 0, 0, 0, 512, 512), Some((68, 68)));
    // Bit 9 is block row 1, column 1.
    assert_eq!(patch_pixel(100, 100, 9, 2, 3, 512, 512), Some((78, 79)));
    // Bit 63, cell (7, 7) is the bottom-right corner.
    assert_eq!(patch_pixel(100, 100, 63, 7, 7, 512, 512), Some((131, 131)));
    // Outside the image.
    assert_eq!(patch_pixel(10, 10, 0, 0, 0, 512, 512), None);
    assert_eq!(patch_pixel(500, 500, 63, 7, 7, 512, 512), None);
}

#[test]
fn auto_intensity_of_the_sample_images() {
    assert_eq!(auto_intensity(526, 524), 7); // 0.28 MP
    assert_eq!(auto_intensity(700, 496), 7); // 0.35 MP
    assert_eq!(auto_intensity(1832, 4016), 4); // 7.4 MP
    assert_eq!(auto_intensity(3840, 2160), 3); // 8.3 MP
}

#[test]
fn global_blocks_fill_row_by_row() {
    assert_eq!(global_block_of_bit(0, 2, 3), Some((0, 0)));
    assert_eq!(global_block_of_bit(4, 2, 3), Some((1, 1)));
    assert_eq!(global_block_of_bit(5, 2, 3), Some((1, 2)));
    assert_eq!(global_block_of_bit(6, 2, 3), None);
}

#[test]
fn feature_point_floor_by_size() {
    assert!(light_fp_floor(526, 524));
    assert!(light_fp_floor(999, 1000));
    assert!(!light_fp_floor(1000, 1000));
    assert!(!light_fp_floor(3840, 2160));
    assert!(!light_fp_floor(u32::MAX, u32::MAX));
}
