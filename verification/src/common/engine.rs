//! What an embedding reports: its parameters and the console summaries.
use vstd::prelude::*;

use crate::text::{dec, push_decimal, push_str};

verus! {

/// Metadata about an embedding operation (returned by both embed and dry_run).
#[derive(Debug, Clone)]
pub struct EmbedInfo {
    /// Human-readable status message.
    pub status: String,
    /// Embedding mode used: "feature-point" or "global-dwt".
    pub mode: String,
    /// Message that was (or would be) embedded.
    pub message: String,
    /// Message length in bytes.
    pub message_bytes: usize,
    /// Resolved intensity (1-10).
    pub intensity: u8,
    /// Image width in pixels.
    pub width: u32,
    /// Image height in pixels.
    pub height: u32,
    /// Number of feature keypoints detected (0 for global DWT mode).
    pub keypoints: usize,
    /// Maximum message capacity in bytes for the chosen mode.
    pub max_capacity: usize,
    /// Output file path.
    pub output_path: String,
}

/// Result of a successful watermark embedding (kept for backward compat).
#[derive(Debug)]
pub struct EmbedResult {
    /// Human-readable status message.
    pub message: String,
    /// Detailed embedding info.
    pub info: EmbedInfo,
}

/// The compression-robustness label of an intensity: low for 1-3, medium for
/// 4-7, high otherwise.
pub open spec fn robustness_label(intensity: u8) -> Seq<char> {
    if 1 <= intensity <= 3 {
        "低"@
    } else if 4 <= intensity <= 7 {
        "中"@
    } else {
        "高"@
    }
}

/// The summary: the first line `head`, then the lines of `summary_body`.
pub open spec fn summary_text(info: EmbedInfo, head: Seq<char>) -> Seq<char> {
    head + summary_body(info)
}

/// The summary lines that follow the first line, each after a line break.
pub open spec fn summary_body(info: EmbedInfo) -> Seq<char> {
    "\n[信息] 模式: "@ + info.mode@ + " | 消息: \""@ + info.message@ + "\" ("@ + dec(
        info.message_bytes as nat,
    ) + " 字节) | 强度: "@ + dec(info.intensity as nat) + " | 抗压缩率: "@ + robustness_label(
        info.intensity,
    ) + "\n[信息] 图像: "@ + dec(info.width as nat) + "x"@ + dec(info.height as nat)
        + " | 特征点: "@ + dec(info.keypoints as nat) + " | 容量上限: "@ + dec(
        info.max_capacity as nat,
    ) + " 字节\n[信息] 输出: "@ + info.output_path@
}

fn robustness(intensity: u8) -> (s: &'static str)
    ensures
        s@ == robustness_label(intensity),
{
    match intensity {
        1..=3 => "低",
        4..=7 => "中",
        _ => "高",
    }
}

impl EmbedInfo {
    fn render(&self, head: &str) -> (s: String)
        ensures
            s@ == summary_text(*self, head@),
    {
        let mut s = String::from_str(head);
        push_str(&mut s, "\n[信息] 模式: ");
        push_str(&mut s, self.mode.as_str());
        push_str(&mut s, " | 消息: \"");
        push_str(&mut s, self.message.as_str());
        push_str(&mut s, "\" (");
        push_decimal(&mut s, self.message_bytes as u64);
        push_str(&mut s, " 字节) | 强度: ");
        push_decimal(&mut s, self.intensity as u64);
        push_str(&mut s, " | 抗压缩率: ");
        push_str(&mut s, robustness(self.intensity));
        push_str(&mut s, "\n[信息] 图像: ");
        push_decimal(&mut s, self.width as u64);
        push_str(&mut s, "x");
        push_decimal(&mut s, self.height as u64);
        push_str(&mut s, " | 特征点: ");
        push_decimal(&mut s, self.keypoints as u64);
        push_str(&mut s, " | 容量上限: ");
        push_decimal(&mut s, self.max_capacity as u64);
        push_str(&mut s, " 字节\n[信息] 输出: ");
        push_str(&mut s, self.output_path.as_str());
        s
    }

    /// Format a summary string for console output.
    pub fn summary(&self) -> (s: String)
        ensures
            s@ == summary_text(*self, "[成功] 水印已嵌入。"@),
    {
        self.render("[成功] 水印已嵌入。")
    }

    /// Format a dry-run summary (no file written).
    pub fn dry_run_summary(&self) -> (s: String)
        ensures
            s@ == summary_text(*self, "[模拟] 水印嵌入预览 (未生成文件):"@),
    {
        self.render("[模拟] 水印嵌入预览 (未生成文件):")
    }
}

/// The dry-run summary is the embedding summary with its first line replaced:
/// the two texts differ only in the heading before the first line break.
pub proof fn lemma_dry_run_summary_replaces_first_line(info: EmbedInfo)
    ensures
        summary_text(info, "[模拟] 水印嵌入预览 (未生成文件):"@) == "[模拟] 水印嵌入预览 (未生成文件):"@
            + summary_text(info, "[成功] 水印已嵌入。"@).skip("[成功] 水印已嵌入。"@.len() as int),
        summary_text(info, "[成功] 水印已嵌入。"@)["[成功] 水印已嵌入。"@.len() as int] == '\n',
        forall|k: int| 0 <= k < "[成功] 水印已嵌入。"@.len() ==> "[成功] 水印已嵌入。"@[k] != '\n',
{
    reveal_strlit("[成功] 水印已嵌入。");
    let head = "[成功] 水印已嵌入。"@;
    let first = "\n[信息] 模式: "@;
    let body = summary_body(info);
    assert((head + body).skip(head.len() as int) =~= body);
    reveal_strlit("\n[信息] 模式: ");
    assert(body[0] == '\n');
    assert((head + body)[head.len() as int] == body[0]);
}

/// The robustness label bands: intensities 1 to 3 read low (低), 4 to 7
/// medium (中), and every other intensity high (高); the three labels differ.
pub proof fn lemma_robustness_bands(intensity: u8)
    ensures
        (1 <= intensity <= 3) <==> robustness_label(intensity) == "低"@,
        (4 <= intensity <= 7) <==> robustness_label(intensity) == "中"@,
        !(1 <= intensity <= 7) <==> robustness_label(intensity) == "高"@,
{
    reveal_strlit("低");
    reveal_strlit("中");
    reveal_strlit("高");
    assert("低"@[0] != "中"@[0]);
    assert("低"@[0] != "高"@[0]);
    assert("中"@[0] != "高"@[0]);
}

/// The automatic intensity of a small image (7) and the lowest automatic one
/// (3) sit in different bands, and every intensity of one band reads alike.
pub proof fn lemma_robustness_same_band(a: u8, b: u8)
    ensures
        (4 <= a <= 7 && 4 <= b <= 7) ==> robustness_label(a) == robustness_label(b),
        (1 <= a <= 3 && 4 <= b <= 7) ==> robustness_label(a) != robustness_label(b),
        (4 <= a <= 7 && 8 <= b) ==> robustness_label(a) != robustness_label(b),
{
    lemma_robustness_bands(a);
    lemma_robustness_bands(b);
}

} // verus!
