//! Raster engine decisions: the feature-point framing, intensity selection,
//! block counting and mode choice. Pixel arithmetic is done by the caller.
use vstd::prelude::*;

pub mod features;

use crate::bits::{bytes_to_bits, lemma_bits_bytes_round_trip, unpack_bytes};
use crate::bits::{majority_votes, votes_to_bits};
use crate::common::ecc::{at_most_one_flip_per_group, data_bytes, ecc_payload, lemma_ecc_corrects_single_flips, decode_outcome, ecc_encoding, encode, decode, spec_max_message_bytes, spec_total_encoded_bits};
use crate::common::pn::{pn_sign_seq, pn_signs};
use crate::common::scramble::{keyed_permutation, lemma_keyed_permutation_is_permutation, lemma_unscramble_scramble, gather, is_permutation, scatter, scramble_with_password, unscramble_with_seed, Scrambled};
use crate::common::sha::sha256_digest;
use vstd::string::StringSliceAdditionalSpecFns;
use crate::common::engine::EmbedInfo;
use crate::frame::{decode_short, short_decode_outcome, short_payload, short_payload_bytes};
use crate::text::{dec, push_decimal, push_str};
use features::PATCH_SIZE;

verus! {

/// Embedding channel index (green = 1).
pub const EMBED_CHANNEL: usize = 1;

/// Channel used for keypoint detection (red = 0).
/// MUST be different from EMBED_CHANNEL to ensure keypoints are stable
/// after watermark embedding (embedding modifies green, detection uses red).
pub const DETECT_CHANNEL: usize = 0;

/// Block size for global DWT mode (16×16).
pub const GLOBAL_BLOCK_SIZE: usize = 16;

/// Block size for feature-point patch mode (8×8).
/// 64×64 patch / 8 = 8×8 = 64 blocks → 64 bits per patch.
pub const PATCH_BLOCK_SIZE: usize = 8;

/// Pixels per feature-point block.
pub const PATCH_COEFFS_PER_BLOCK: usize = PATCH_BLOCK_SIZE * PATCH_BLOCK_SIZE;

/// Number of blocks in a patch (PATCH_SIZE / PATCH_BLOCK_SIZE)².
pub const BLOCKS_PER_PATCH: usize = (PATCH_SIZE / PATCH_BLOCK_SIZE) * (PATCH_SIZE / PATCH_BLOCK_SIZE);

/// Minimum keypoints required for feature-point mode.
pub const MIN_KEYPOINTS: usize = 10;

/// Maximum keypoints to use for embedding.
pub const MAX_KEYPOINTS: usize = 200;

/// Max message bytes in feature-point mode: 64 bits - 8-bit header = 7 bytes.
pub const FP_MAX_MESSAGE: usize = BLOCKS_PER_PATCH / 8 - 1;

/// The raster watermark engine for JPEG/PNG/WebP images.
///
/// Uses feature-point-based Local Feature Regions (LFRs) for cropping resistance.
/// Falls back to global DWT for images with insufficient keypoints.
pub struct RasterEngine;

/// What `fp_encode` returns: the 64 frame bits, or the error text.
pub open spec fn fp_encode_outcome(message: Seq<u8>) -> Result<Seq<bool>, Seq<char>> {
    if message.len() > 7 {
        Err(
            "Message too long for feature-point mode: max "@ + dec(7) + " bytes, got "@ + dec(
                message.len(),
            ),
        )
    } else {
        Ok(bytes_to_bits(short_payload(message, 8)))
    }
}

/// Encode message to bits for feature-point mode.
/// Format: [1-byte length] + [message bytes], no repetition ECC.
pub fn fp_encode(message: &[u8]) -> (r: Result<Vec<bool>, String>)
    ensures
        match r {
            Ok(bits) => fp_encode_outcome(message@) == Ok::<Seq<bool>, Seq<char>>(bits@),
            Err(e) => fp_encode_outcome(message@) == Err::<Seq<bool>, Seq<char>>(e@),
        },
        r matches Ok(bits) ==> bits@.len() == BLOCKS_PER_PATCH,
{
    if message.len() > FP_MAX_MESSAGE {
        let mut e = String::from_str("Message too long for feature-point mode: max ");
        push_decimal(&mut e, FP_MAX_MESSAGE as u64);
        push_str(&mut e, " bytes, got ");
        push_decimal(&mut e, message.len() as u64);
        return Err(e);
    }
    let payload = short_payload_bytes(message, BLOCKS_PER_PATCH / 8);
    Ok(unpack_bytes(payload.as_slice()))
}

/// Decode bits from feature-point extraction.
pub fn fp_decode(bits: &[bool]) -> (r: Result<Vec<u8>, String>)
    ensures
        match r {
            Ok(m) => short_decode_outcome(bits@) == Ok::<Seq<u8>, Seq<char>>(m@),
            Err(e) => short_decode_outcome(bits@) == Err::<Seq<u8>, Seq<char>>(e@),
        },
{
    decode_short(bits)
}

/// Round trip of the feature-point framing: every message of 1 to 7 bytes is
/// encoded into 64 bits that decode to it.
pub proof fn lemma_fp_round_trip(message: Seq<u8>)
    requires
        1 <= message.len() <= 7,
    ensures
        fp_encode_outcome(message) matches Ok(bits) && bits.len() == 64
            && short_decode_outcome(bits) == Ok::<Seq<u8>, Seq<char>>(message),
{
    let p = short_payload(message, 8);
    assert(p.len() == 8);
    lemma_bits_bytes_round_trip(p);
    assert(p.subrange(1, 1 + p[0] as int) =~= message);
}

/// The automatic intensity for an image of `width × height` pixels: 7 below
/// 0.5 megapixels, 5 below 2, 4 below 8, 3 from 8 megapixels on.
pub open spec fn auto_intensity_spec(width: nat, height: nat) -> u8 {
    if width * height < 500_000 {
        7
    } else if width * height < 2_000_000 {
        5
    } else if width * height < 8_000_000 {
        4
    } else {
        3
    }
}

/// Choose intensity automatically based on image dimensions.
/// Smaller images need higher intensity; larger images can use lower intensity
/// for better invisibility.
///
/// | Megapixels | Auto Intensity |
/// |-----------|----------------|
/// | < 0.5 MP  | 7              |
/// | 0.5-2 MP  | 5              |
/// | 2-8 MP    | 4              |
/// | > 8 MP    | 3              |
pub fn auto_intensity(width: u32, height: u32) -> (r: u8)
    ensures
        r == auto_intensity_spec(width as nat, height as nat),
{
    proof {
        vstd::arithmetic::mul::lemma_mul_upper_bound(
            width as int,
            u32::MAX as int,
            height as int,
            u32::MAX as int,
        );
    }
    let pixels: u64 = (width as u64) * (height as u64);
    if pixels < 500_000 {
        7
    } else if pixels < 2_000_000 {
        5
    } else if pixels < 8_000_000 {
        4
    } else {
        3
    }
}

/// Twice the percentage of the automatic intensity that a manual intensity
/// asks for: 1 is 50%, 5 is 100% and 10 is 200%, linear in between (12.5
/// points a step up to 5, 20 points a step above).
pub open spec fn manual_percent_x2(level: nat) -> nat {
    if level <= 5 {
        (100 + (level - 1) * 25) as nat
    } else {
        (200 + (level - 5) * 40) as nat
    }
}

/// `auto` scaled by the manual level, rounded half up and kept in 1..=10.
pub open spec fn scaled_intensity(level: nat, auto: nat) -> u8 {
    let v = (auto * manual_percent_x2(level) + 100) / 200;
    if v < 1 {
        1
    } else if v > 10 {
        10
    } else {
        v as u8
    }
}

/// The intensity actually used: the automatic one for 0; otherwise the manual
/// value (values above 10 count as 10) scales the automatic one, so that the
/// strength still follows the image size.
pub open spec fn resolve_intensity_spec(intensity: u8, width: nat, height: nat) -> u8 {
    if intensity == 0 {
        auto_intensity_spec(width, height)
    } else {
        scaled_intensity(
            if intensity > 10 {
                10
            } else {
                intensity as nat
            },
            auto_intensity_spec(width, height) as nat,
        )
    }
}

/// Resolve intensity: 0 means auto-detect from image dimensions; a manual
/// value 1..=10 is a relative multiplier on the automatic value (1 = 50%,
/// 5 = the automatic value, 10 = 200%), kept in 1..=10.
pub fn resolve_intensity(intensity: u8, width: u32, height: u32) -> (r: u8)
    ensures
        r == resolve_intensity_spec(intensity, width as nat, height as nat),
        1 <= r <= 10,
{
    let auto = auto_intensity(width, height);
    if intensity == 0 {
        return auto;
    }
    let level: u32 = if intensity > 10 {
        10
    } else {
        intensity as u32
    };
    let pct_x2: u32 = if level <= 5 {
        100 + (level - 1) * 25
    } else {
        200 + (level - 5) * 40
    };
    assert(auto as u32 * pct_x2 <= 7 * 400) by (nonlinear_arith)
        requires
            auto <= 7,
            pct_x2 <= 400,
    ;
    let v = (auto as u32 * pct_x2 + 100) / 200;
    if v < 1 {
        1
    } else if v > 10 {
        10
    } else {
        v as u8
    }
}

/// A manual intensity of 5 is the automatic intensity, whatever the image
/// size.
pub proof fn lemma_manual_five_is_auto(width: nat, height: nat)
    ensures
        resolve_intensity_spec(5, width, height) == resolve_intensity_spec(0, width, height),
{
}

/// A higher manual intensity never gives a weaker watermark, and every manual
/// value lands between half (rounded) and twice the automatic intensity.
pub proof fn lemma_manual_intensity_monotone(a: u8, b: u8, width: nat, height: nat)
    requires
        1 <= a <= b <= 10,
    ensures
        resolve_intensity_spec(a, width, height) <= resolve_intensity_spec(b, width, height),
        2 * resolve_intensity_spec(a, width, height) + 1 >= auto_intensity_spec(width, height),
        resolve_intensity_spec(a, width, height) <= 2 * auto_intensity_spec(width, height),
{
    let auto = auto_intensity_spec(width, height) as nat;
    let pa = manual_percent_x2(a as nat);
    let pb = manual_percent_x2(b as nat);
    assert(pa <= pb);
    assert(100 <= pa <= 400);
    assert(auto * pa <= auto * pb) by (nonlinear_arith)
        requires
            pa <= pb,
    ;
    vstd::arithmetic::div_mod::lemma_div_is_ordered(
        (auto * pa + 100) as int,
        (auto * pb + 100) as int,
        200,
    );
    assert(auto * 100 <= auto * pa && auto * pa <= auto * 400) by (nonlinear_arith)
        requires
            100 <= pa <= 400,
    ;
}

/// Feature-point embedding on an image below one megapixel uses the lighter
/// strength floor: every changed pixel shows more on a small image.
pub fn light_fp_floor(width: u32, height: u32) -> (r: bool)
    ensures
        r == (width * height < 1_000_000),
{
    proof {
        vstd::arithmetic::mul::lemma_mul_upper_bound(
            width as int,
            u32::MAX as int,
            height as int,
            u32::MAX as int,
        );
    }
    (width as u64) * (height as u64) < 1_000_000
}

/// Whole 16×16 blocks along each side of a subband, and their product.
pub fn count_blocks(subband_rows: usize, subband_cols: usize) -> (r: (usize, usize, usize))
    requires
        (subband_rows / 16) * (subband_cols / 16) <= usize::MAX,
    ensures
        r.0 == subband_rows / 16,
        r.1 == subband_cols / 16,
        r.2 == r.0 * r.1,
{
    let blocks_r = subband_rows / GLOBAL_BLOCK_SIZE;
    let blocks_c = subband_cols / GLOBAL_BLOCK_SIZE;
    (blocks_r, blocks_c, blocks_r * blocks_c)
}

/// Feature-point mode is used when enough keypoints were found and the
/// message fits in one patch.
pub fn use_feature_points(num_keypoints: usize, message_len: usize) -> (r: bool)
    ensures
        r == (num_keypoints >= 10 && message_len <= 7),
{
    num_keypoints >= MIN_KEYPOINTS && message_len <= FP_MAX_MESSAGE
}

/// The mode name and message capacity of the chosen mode; `num_blocks` (the
/// 16×16 blocks of the DWT subband) matters only to the global mode.
pub fn mode_capacity(use_fp: bool, num_blocks: usize) -> (r: (String, usize))
    ensures
        use_fp ==> r.0@ == "feature-point"@ && r.1 == 7,
        !use_fp ==> r.0@ == "global-dwt"@ && r.1 == spec_max_message_bytes(num_blocks as nat),
{
    if use_fp {
        (String::from_str("feature-point"), FP_MAX_MESSAGE)
    } else {
        (String::from_str("global-dwt"), crate::common::ecc::max_message_bytes(num_blocks))
    }
}

/// The dry-run refusal text for a message longer than the mode's capacity.
pub open spec fn capacity_error_text(info: EmbedInfo) -> Seq<char> {
    "Message too long: "@ + dec(info.message_bytes as nat) + " bytes, max capacity: "@ + dec(
        info.max_capacity as nat,
    ) + " bytes (mode: "@ + info.mode@ + ")"@
}

/// A dry run refuses a message longer than the chosen mode's capacity.
pub fn check_capacity(info: &EmbedInfo) -> (r: Result<(), String>)
    ensures
        r is Ok <==> info.message_bytes <= info.max_capacity,
        r matches Err(e) ==> e@ == capacity_error_text(*info),
{
    if info.message_bytes > info.max_capacity {
        let mut e = String::from_str("Message too long: ");
        push_decimal(&mut e, info.message_bytes as u64);
        push_str(&mut e, " bytes, max capacity: ");
        push_decimal(&mut e, info.max_capacity as u64);
        push_str(&mut e, " bytes (mode: ");
        push_str(&mut e, info.mode.as_str());
        push_str(&mut e, ")");
        return Err(e);
    }
    Ok(())
}

/// The subband block (row, column) that carries bit `bit_idx` in global
/// mode: bits fill the `blocks_r × blocks_c` grid of 16×16 blocks row by row,
/// and there is no block for a bit past the end of the grid.
pub fn global_block_of_bit(bit_idx: usize, blocks_r: usize, blocks_c: usize) -> (r: Option<(usize, usize)>)
    requires
        blocks_c > 0,
    ensures
        r == (if bit_idx / blocks_c < blocks_r {
            Some((bit_idx / blocks_c, bit_idx % blocks_c))
        } else {
            None
        }),
{
    let br = bit_idx / blocks_c;
    if br < blocks_r {
        Some((br, bit_idx % blocks_c))
    } else {
        None
    }
}

/// Feature-point mode is chosen for `num_keypoints` keypoints and a message
/// of `message_bytes` bytes.
pub open spec fn raster_uses_fp(num_keypoints: nat, message_bytes: nat) -> bool {
    num_keypoints >= 10 && message_bytes <= 7
}

/// The name of the raster mode.
pub open spec fn raster_mode(use_fp: bool) -> Seq<char> {
    if use_fp {
        "feature-point"@
    } else {
        "global-dwt"@
    }
}

/// The message capacity of the raster mode; `num_blocks` (the 16×16 blocks
/// of the DWT subband) counts only in global mode.
pub open spec fn raster_capacity(use_fp: bool, num_blocks: nat) -> nat {
    if use_fp {
        7
    } else {
        spec_max_message_bytes(num_blocks)
    }
}

/// `info` is what the raster engine reports for `message` at the requested
/// `intensity` on a `width × height` image with `num_keypoints` keypoints
/// and `num_blocks` subband blocks, written to `output_path`.
pub open spec fn is_raster_info(
    info: EmbedInfo,
    message: &str,
    intensity: u8,
    width: u32,
    height: u32,
    num_keypoints: usize,
    num_blocks: usize,
    output_path: &str,
) -> bool {
    let fp = raster_uses_fp(num_keypoints as nat, message.spec_bytes().len());
    &&& info.status@ == "ok"@
    &&& info.mode@ == raster_mode(fp)
    &&& info.message@ == message@
    &&& info.message_bytes == message.spec_bytes().len()
    &&& info.intensity == resolve_intensity_spec(intensity, width as nat, height as nat)
    &&& info.width == width
    &&& info.height == height
    &&& info.keypoints == num_keypoints
    &&& info.max_capacity == raster_capacity(fp, num_blocks as nat)
    &&& info.output_path@ == output_path@
}

/// What the raster engine reports (shared by the embedding and the dry run),
/// and whether it uses feature-point mode. `num_blocks` is read only in
/// global mode.
pub fn raster_info(
    message: &str,
    intensity: u8,
    width: u32,
    height: u32,
    num_keypoints: usize,
    num_blocks: usize,
    output_path: &str,
) -> (r: (EmbedInfo, bool))
    ensures
        is_raster_info(r.0, message, intensity, width, height, num_keypoints, num_blocks, output_path),
        r.1 == raster_uses_fp(num_keypoints as nat, message.spec_bytes().len()),
{
    let message_bytes = message.as_bytes().len();
    let use_fp = use_feature_points(num_keypoints, message_bytes);
    let (mode, max_capacity) = mode_capacity(use_fp, num_blocks);
    let info = EmbedInfo {
        status: String::from_str("ok"),
        mode,
        message: String::from_str(message),
        message_bytes,
        intensity: resolve_intensity(intensity, width, height),
        width,
        height,
        keypoints: num_keypoints,
        max_capacity,
        output_path: String::from_str(output_path),
    };
    (info, use_fp)
}

/// The raster dry run: the info the embedding would report, or the refusal
/// of a message longer than the chosen mode's capacity.
pub fn raster_dry_run(
    message: &str,
    intensity: u8,
    width: u32,
    height: u32,
    num_keypoints: usize,
    num_blocks: usize,
    output_path: &str,
) -> (r: Result<EmbedInfo, String>)
    ensures
        ({
            let fp = raster_uses_fp(num_keypoints as nat, message.spec_bytes().len());
            let cap = raster_capacity(fp, num_blocks as nat);
            &&& r is Ok <==> message.spec_bytes().len() <= cap
            &&& r matches Ok(info) ==> is_raster_info(info, message, intensity, width, height, num_keypoints, num_blocks, output_path)
            &&& r matches Err(e) ==> e@ == "Message too long: "@ + dec(message.spec_bytes().len())
                + " bytes, max capacity: "@ + dec(cap) + " bytes (mode: "@ + raster_mode(fp) + ")"@
        }),
{
    let (info, _) = raster_info(message, intensity, width, height, num_keypoints, num_blocks, output_path);
    match check_capacity(&info) {
        Ok(()) => Ok(info),
        Err(e) => Err(e),
    }
}

/// The dry run reports exactly what the embedding reports: any two infos the
/// raster engine gives for the same inputs agree in every field.
pub proof fn lemma_dry_run_info_is_embed_info(
    a: EmbedInfo,
    b: EmbedInfo,
    message: &str,
    intensity: u8,
    width: u32,
    height: u32,
    num_keypoints: usize,
    num_blocks: usize,
    output_path: &str,
)
    requires
        is_raster_info(a, message, intensity, width, height, num_keypoints, num_blocks, output_path),
        is_raster_info(b, message, intensity, width, height, num_keypoints, num_blocks, output_path),
    ensures
        a.status@ == b.status@,
        a.mode@ == b.mode@,
        a.message@ == b.message@,
        a.message_bytes == b.message_bytes,
        a.intensity == b.intensity,
        a.width == b.width,
        a.height == b.height,
        a.keypoints == b.keypoints,
        a.max_capacity == b.max_capacity,
        a.output_path@ == b.output_path@,
{
}

/// The pixel (row, column) that cell `(i, j)` of the block of bit `bit_idx`
/// covers in the 64×64 patch centred on keypoint `(kx, ky)`: the bits are laid
/// out row by row in an 8×8 grid of 8×8 blocks. `None` when the pixel falls
/// outside the `height × width` image.
pub open spec fn patch_pixel_spec(kx: int, ky: int, bit_idx: int, i: int, j: int, height: int, width: int) -> Option<(usize, usize)> {
    let py = ky - 32 + (bit_idx / 8) * 8 + i;
    let px = kx - 32 + (bit_idx % 8) * 8 + j;
    if 0 <= py < height && 0 <= px < width {
        Some((py as usize, px as usize))
    } else {
        None
    }
}

/// The blocks of a patch never overlap: two cells of different bits (or two
/// different cells of one bit) never cover the same pixel. Bits fill the
/// 8×8 grid row by row, so bit `b` covers block row `b / 8` and block column
/// `b % 8`, and its cell `(i, j)` lies `i` rows and `j` columns into it.
pub proof fn lemma_patch_cells_distinct(
    kx: int,
    ky: int,
    b1: int,
    i1: int,
    j1: int,
    b2: int,
    i2: int,
    j2: int,
    height: int,
    width: int,
)
    requires
        0 <= b1 < 64,
        0 <= b2 < 64,
        0 <= i1 < 8,
        0 <= j1 < 8,
        0 <= i2 < 8,
        0 <= j2 < 8,
        (b1, i1, j1) != (b2, i2, j2),
        height <= usize::MAX,
        width <= usize::MAX,
        patch_pixel_spec(kx, ky, b1, i1, j1, height, width) is Some,
    ensures
        patch_pixel_spec(kx, ky, b1, i1, j1, height, width) != patch_pixel_spec(
            kx,
            ky,
            b2,
            i2,
            j2,
            height,
            width,
        ),
        patch_pixel_spec(kx, ky, b1, i1, j1, height, width) == Some(
            ((ky - 32 + (b1 / 8) * 8 + i1) as usize, (kx - 32 + (b1 % 8) * 8 + j1) as usize),
        ),
        b1 / 8 < 8 && b1 % 8 < 8 && b1 == 8 * (b1 / 8) + b1 % 8,
{
    vstd::arithmetic::div_mod::lemma_fundamental_div_mod(b1, 8);
    vstd::arithmetic::div_mod::lemma_fundamental_div_mod(b2, 8);
    if patch_pixel_spec(kx, ky, b2, i2, j2, height, width) is Some {
        let r1 = b1 / 8;
        let c1 = b1 % 8;
        let r2 = b2 / 8;
        let c2 = b2 % 8;
        let py1 = ky - 32 + r1 * 8 + i1;
        let py2 = ky - 32 + r2 * 8 + i2;
        let px1 = kx - 32 + c1 * 8 + j1;
        let px2 = kx - 32 + c2 * 8 + j2;
        if py1 == py2 && px1 == px2 {
            assert(r1 * 8 + i1 == r2 * 8 + i2);
            assert(c1 * 8 + j1 == c2 * 8 + j2);
            assert(r1 == r2 && i1 == i2) by (nonlinear_arith)
                requires
                    r1 * 8 + i1 == r2 * 8 + i2,
                    0 <= i1 < 8,
                    0 <= i2 < 8,
            ;
            assert(c1 == c2 && j1 == j2) by (nonlinear_arith)
                requires
                    c1 * 8 + j1 == c2 * 8 + j2,
                    0 <= j1 < 8,
                    0 <= j2 < 8,
            ;
            assert(b1 == b2);
        }
        assert(py1 != py2 || px1 != px2);
        assert(0 <= py1 < height && 0 <= py2 < height && 0 <= px1 < width && 0 <= px2 < width);
        assert(py1 != py2 ==> py1 as usize != py2 as usize);
        assert(px1 != px2 ==> px1 as usize != px2 as usize);
    }
}

/// The image pixel of a feature-point block cell, if inside the image.
pub fn patch_pixel(kx: u32, ky: u32, bit_idx: usize, i: usize, j: usize, height: usize, width: usize) -> (r: Option<(usize, usize)>)
    requires
        bit_idx < BLOCKS_PER_PATCH,
        i < PATCH_BLOCK_SIZE,
        j < PATCH_BLOCK_SIZE,
    ensures
        r == patch_pixel_spec(kx as int, ky as int, bit_idx as int, i as int, j as int, height as int, width as int),
{
    let half = (PATCH_SIZE / 2) as i64;
    let blocks_per_row = PATCH_SIZE / PATCH_BLOCK_SIZE;
    let block_r = bit_idx / blocks_per_row;
    let block_c = bit_idx % blocks_per_row;
    let py = ky as i64 - half + (block_r * PATCH_BLOCK_SIZE + i) as i64;
    let px = kx as i64 - half + (block_c * PATCH_BLOCK_SIZE + j) as i64;
    if py >= 0 && px >= 0 && (py as u64) < (height as u64) && (px as u64) < (width as u64) {
        Some((py as usize, px as usize))
    } else {
        None
    }
}

/// The 64 pseudo-noise signs of feature-point bit `bit_idx` (`true` for +1).
pub fn patch_pn_chip(seed: &[u8; 32], bit_idx: u64) -> (signs: Vec<bool>)
    ensures
        signs@ == pn_sign_seq(seed@, bit_idx as nat, 64),
{
    pn_signs(seed, bit_idx, PATCH_COEFFS_PER_BLOCK)
}

/// The 256 pseudo-noise signs of global-mode block `block_idx` (`true` for +1).
pub fn block_pn_chip(seed: &[u8; 32], block_idx: u64) -> (signs: Vec<bool>)
    ensures
        signs@ == pn_sign_seq(seed@, block_idx as nat, 256),
{
    pn_signs(seed, block_idx, GLOBAL_BLOCK_SIZE * GLOBAL_BLOCK_SIZE)
}

/// The computing part of feature-point embedding: the message framed in 64
/// bits and scrambled under the password.
pub fn feature_point_bits(message: &[u8], password: &str) -> (r: Result<Scrambled, String>)
    ensures
        match r {
            Ok(s) => {
                &&& fp_encode_outcome(message@) matches Ok(framed)
                &&& s.seed@ == sha256_digest(password.spec_bytes())
                &&& s.perm@ == keyed_permutation(s.seed@, 64)
                &&& is_permutation(s.perm@, 64)
                &&& s.bits@ == scatter(framed, s.perm@, 64)
                &&& s.bits@.len() == 64
            },
            Err(e) => fp_encode_outcome(message@) == Err::<Seq<bool>, Seq<char>>(e@),
        },
{
    let encoded = match fp_encode(message) {
        Ok(b) => b,
        Err(e) => return Err(e),
    };
    Ok(scramble_with_password(encoded.as_slice(), password))
}

/// The computing part of feature-point extraction: per-bit votes gathered over
/// all keypoints are decided by strict majority, unscrambled and decoded.
pub fn recover_feature_point(ones: &[usize], totals: &[usize], seed: &[u8; 32]) -> (r: Result<Vec<u8>, String>)
    requires
        ones@.len() == totals@.len(),
    ensures
        match r {
            Ok(m) => short_decode_outcome(
                gather(majority_votes(ones@, totals@), keyed_permutation(seed@, ones@.len())),
            ) == Ok::<Seq<u8>, Seq<char>>(m@),
            Err(e) => short_decode_outcome(
                gather(majority_votes(ones@, totals@), keyed_permutation(seed@, ones@.len())),
            ) == Err::<Seq<u8>, Seq<char>>(e@),
        },
{
    let scrambled_bits = votes_to_bits(ones, totals);
    let bits = unscramble_with_seed(scrambled_bits.as_slice(), seed);
    fp_decode(bits.as_slice())
}

/// The computing part of global-mode embedding: the message repetition-coded
/// for `num_blocks` blocks and scrambled under the password.
pub fn global_dwt_bits(message: &[u8], password: &str, num_blocks: usize) -> (r: Result<Scrambled, String>)
    ensures
        num_blocks == 0 ==> (r matches Err(e) && e@ == "Image too small for watermarking"@),
        num_blocks > 0 ==> match r {
            Ok(s) => {
                &&& crate::common::ecc::encode_outcome(message@, num_blocks as nat) matches Ok(encoded)
                &&& s.seed@ == sha256_digest(password.spec_bytes())
                &&& s.perm@ == keyed_permutation(s.seed@, encoded.len())
                &&& is_permutation(s.perm@, encoded.len())
                &&& s.bits@ == scatter(encoded, s.perm@, encoded.len())
                &&& s.bits@.len() == spec_total_encoded_bits(num_blocks as nat)
            },
            Err(e) => crate::common::ecc::encode_outcome(message@, num_blocks as nat) == Err::<Seq<bool>, Seq<char>>(e@),
        },
{
    if num_blocks == 0 {
        return Err(String::from_str("Image too small for watermarking"));
    }
    let encoded = match encode(message, num_blocks) {
        Ok(b) => b,
        Err(e) => return Err(e),
    };
    Ok(scramble_with_password(encoded.as_slice(), password))
}

/// The computing part of global-mode extraction: the extracted bits are
/// unscrambled along the permutation drawn from `seed` and decoded.
pub fn recover_global_dwt(scrambled_bits: &[bool], seed: &[u8; 32]) -> (r: Result<Vec<u8>, String>)
    ensures
        match r {
            Ok(m) => decode_outcome(
                gather(scrambled_bits@, keyed_permutation(seed@, scrambled_bits@.len())),
            ) == Ok::<Seq<u8>, Seq<char>>(m@),
            Err(e) => decode_outcome(
                gather(scrambled_bits@, keyed_permutation(seed@, scrambled_bits@.len())),
            ) == Err::<Seq<u8>, Seq<char>>(e@),
        },
{
    let bits = unscramble_with_seed(scrambled_bits, seed);
    decode(bits.as_slice())
}

/// Global mode end to end: bits scrambled along a permutation and unscrambled
/// along the same permutation decode to the message — also when, on the way,
/// at most one of the three copies of each payload bit was changed.
pub proof fn lemma_global_dwt_round_trip(message: Seq<u8>, num_blocks: nat, perm: Seq<usize>, received: Seq<bool>)
    requires
        1 <= message.len() <= spec_max_message_bytes(num_blocks),
        message.len() < 65536,
        is_permutation(perm, spec_total_encoded_bits(num_blocks)),
        received == scatter(ecc_encoding(message, num_blocks), perm, spec_total_encoded_bits(num_blocks))
            || (received.len() == spec_total_encoded_bits(num_blocks) && at_most_one_flip_per_group(
            gather(received, perm),
            bytes_to_bits(ecc_payload(message, data_bytes(num_blocks))),
        )),
    ensures
        decode_outcome(gather(received, perm)) == Ok::<Seq<u8>, Seq<char>>(message),
{
    let enc = ecc_encoding(message, num_blocks);
    assert(enc.len() == spec_total_encoded_bits(num_blocks)) by {
        assert(ecc_payload(message, data_bytes(num_blocks)).len() == data_bytes(num_blocks));
    }
    if received == scatter(enc, perm, spec_total_encoded_bits(num_blocks)) {
        lemma_unscramble_scramble(enc, perm);
    }
    lemma_ecc_corrects_single_flips(message, num_blocks, gather(received, perm));
}

/// Feature-point mode end to end: when the strict majority of the keypoint
/// votes for every position equals the scrambled frame, unscrambling along
/// the same permutation decodes to the message.
pub proof fn lemma_feature_point_round_trip(message: Seq<u8>, perm: Seq<usize>, ones: Seq<usize>, totals: Seq<usize>)
    requires
        1 <= message.len() <= 7,
        is_permutation(perm, 64),
        ones.len() == 64,
        majority_votes(ones, totals) == scatter(bytes_to_bits(short_payload(message, 8)), perm, 64),
    ensures
        short_decode_outcome(gather(majority_votes(ones, totals), perm)) == Ok::<Seq<u8>, Seq<char>>(message),
{
    lemma_fp_round_trip(message);
    let framed = bytes_to_bits(short_payload(message, 8));
    lemma_unscramble_scramble(framed, perm);
}

/// Global mode under a password: bits scrambled with the seed's permutation
/// and read back with the same seed decode to the message, also when at most
/// one of the three copies of each payload bit changed on the way.
pub proof fn lemma_global_dwt_seed_round_trip(message: Seq<u8>, seed: Seq<u8>, num_blocks: nat, received: Seq<bool>)
    requires
        1 <= message.len() <= spec_max_message_bytes(num_blocks),
        message.len() < 65536,
        num_blocks <= usize::MAX,
        received == scatter(
            ecc_encoding(message, num_blocks),
            keyed_permutation(seed, spec_total_encoded_bits(num_blocks)),
            spec_total_encoded_bits(num_blocks),
        ) || (received.len() == spec_total_encoded_bits(num_blocks) && at_most_one_flip_per_group(
            gather(received, keyed_permutation(seed, spec_total_encoded_bits(num_blocks))),
            bytes_to_bits(ecc_payload(message, data_bytes(num_blocks))),
        )),
    ensures
        decode_outcome(gather(received, keyed_permutation(seed, spec_total_encoded_bits(num_blocks))))
            == Ok::<Seq<u8>, Seq<char>>(message),
{
    let t = spec_total_encoded_bits(num_blocks);
    assert(t <= num_blocks) by (nonlinear_arith)
        requires
            t == num_blocks / 3 / 8 * 8 * 3,
    ;
    lemma_keyed_permutation_is_permutation(seed, t);
    lemma_global_dwt_round_trip(message, num_blocks, keyed_permutation(seed, t), received);
}

/// Feature-point mode under a password: when the strict majority of the
/// keypoint votes equals the frame scrambled with the seed's permutation,
/// reading it back with the same seed decodes to the message.
pub proof fn lemma_feature_point_seed_round_trip(message: Seq<u8>, seed: Seq<u8>, ones: Seq<usize>, totals: Seq<usize>)
    requires
        1 <= message.len() <= 7,
        ones.len() == 64,
        majority_votes(ones, totals) == scatter(
            bytes_to_bits(short_payload(message, 8)),
            keyed_permutation(seed, 64),
            64,
        ),
    ensures
        short_decode_outcome(gather(majority_votes(ones, totals), keyed_permutation(seed, 64)))
            == Ok::<Seq<u8>, Seq<char>>(message),
{
    lemma_keyed_permutation_is_permutation(seed, 64);
    lemma_feature_point_round_trip(message, keyed_permutation(seed, 64), ones, totals);
}

} // verus!
