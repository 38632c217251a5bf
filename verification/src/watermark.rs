//! The first, single-mode embedding (global DWT only): its block count, its
//! pseudo-noise chips and its success message.
use vstd::prelude::*;

use crate::common::engine::robustness_label;
use crate::common::pn::{pn_sign_seq, pn_signs};
use crate::text::push_str;

verus! {

/// Block side in the DWT subband.
pub const BLOCK_SIZE: usize = 16;

/// Coefficients per block.
pub const COEFFS_PER_BLOCK: usize = BLOCK_SIZE * BLOCK_SIZE;

/// Result of a successful watermark embedding.
#[derive(Debug)]
pub struct EmbedResult {
    /// Human-readable status message.
    pub message: String,
}

/// Count available 16x16 blocks in the embedding subband.
pub fn count_blocks(subband_rows: usize, subband_cols: usize) -> (r: (usize, usize, usize))
    requires
        (subband_rows / 16) * (subband_cols / 16) <= usize::MAX,
    ensures
        r.0 == subband_rows / 16,
        r.1 == subband_cols / 16,
        r.2 == r.0 * r.1,
{
    let blocks_r = subband_rows / BLOCK_SIZE;
    let blocks_c = subband_cols / BLOCK_SIZE;
    (blocks_r, blocks_c, blocks_r * blocks_c)
}

/// The 256 pseudo-noise signs (`true` for +1) of a block, seeded by the
/// password seed and the block index.
pub fn generate_pn_chip(seed: &[u8; 32], block_idx: u64) -> (signs: Vec<bool>)
    ensures
        signs@ == pn_sign_seq(seed@, block_idx as nat, 256),
{
    pn_signs(seed, block_idx, COEFFS_PER_BLOCK)
}

/// Intensities outside 1..=10 are clamped into it.
pub fn clamp_intensity(intensity: u8) -> (r: u8)
    ensures
        r == (if intensity < 1 {
            1
        } else if intensity > 10 {
            10
        } else {
            intensity
        }),
{
    if intensity < 1 {
        1
    } else if intensity > 10 {
        10
    } else {
        intensity
    }
}

/// The success text of an embedding written to `output_path`.
pub open spec fn success_text(output_path: Seq<char>, intensity: u8) -> Seq<char> {
    "[成功] 水印已嵌入。输出文件: "@ + output_path + "。预计抗压缩率: "@ + robustness_label(intensity) + "。"@
}

/// The success message of an embedding written to `output_path`.
pub fn success_message(output_path: &str, intensity: u8) -> (s: String)
    ensures
        s@ == success_text(output_path@, intensity),
{
    let mut s = String::from_str("[成功] 水印已嵌入。输出文件: ");
    push_str(&mut s, output_path);
    push_str(&mut s, "。预计抗压缩率: ");
    let label = if 1 <= intensity && intensity <= 3 {
        "低"
    } else if 4 <= intensity && intensity <= 7 {
        "中"
    } else {
        "高"
    };
    push_str(&mut s, label);
    push_str(&mut s, "。");
    s
}

} // verus!
