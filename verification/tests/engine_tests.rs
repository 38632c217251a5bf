use infinishield::cli::{cli_intensity, engine_for_extension, lossy_output_warning, EngineKind};
use infinishield::common::engine::EmbedInfo;
use infinishield::text::decimal;
use infinishield::video::{check_dry_run_length, check_embed_length, most_frequent};
use infinishield::watermark::{clamp_intensity, count_blocks, generate_pn_chip, success_message};

fn sample(intensity: u8) -> EmbedInfo {
    EmbedInfo {
        status: "ok".to_string(),
        mode: "feature-point".to_string(),
        message: "Infini".to_string(),
        message_bytes: 6,
        intensity,
        width: 640,
        height: 480,
        keypoints: 200,
        max_capacity: 7,
        output_path: "out.png".to_string(),
    }
}

#[test]
fn summary_text_exact() {
    assert_eq!(
        sample(5).summary(),
        "[成功] 水印已嵌入。\n[信息] 模式: feature-point | 消息: \"Infini\" (6 字节) | 强度: 5 | 抗压缩率: 中\n[信息] 图像: 640x480 | 特征点: 200 | 容量上限: 7 字节\n[信息] 输出: out.png"
    );
    assert!(sample(1).summary().contains("抗压缩率: 低"));
    assert!(sample(0).summary().contains("抗压缩率: 高"));
    assert!(sample(10).summary().contains("抗压缩率: 高"));
}

#[test]
fn dry_run_summary_text_exact() {
    assert_eq!(
        sample(8).dry_run_summary(),
        "[模拟] 水印嵌入预览 (未生成文件):\n[信息] 模式: feature-point | 消息: \"Infini\" (6 字节) | 强度: 8 | 抗压缩率: 高\n[信息] 图像: 640x480 | 特征点: 200 | 容量上限: 7 字节\n[信息] 输出: out.png"
    );
}

#[test]
fn decimal_rendering() {
    assert_eq!(decimal(0), "0");
    assert_eq!(decimal(7), "7");
    assert_eq!(decimal(10), "10");
    assert_eq!(decimal(u64::MAX), u64::MAX.to_string());
}

#[test]
fn cli_decisions() {
    assert_eq!(engine_for_extension("png"), Ok(EngineKind::Raster));
    assert_eq!(engine_for_extension("tif"), Ok(EngineKind::Raster));
    assert_eq!(engine_for_extension("svg"), Ok(EngineKind::Vector));
    assert_eq!(engine_for_extension("mp4"), Ok(EngineKind::Video));
    assert_eq!(engine_for_extension("mkv"), Ok(EngineKind::Video));
    assert_eq!(
        engine_for_extension("txt").unwrap_err(),
        "Unsupported file format: .txt. Supported: jpg, jpeg, png, webp, bmp, tiff, tif, gif, svg, mp4, webm, mov, avi, mkv"
    );
    assert!(engine_for_extension("").is_err());
    assert!(lossy_output_warning("png").is_none());
    assert!(lossy_output_warning("jpeg").unwrap().contains("JPEG"));
    assert!(lossy_output_warning("gif").unwrap().contains("GIF"));
    assert!(lossy_output_warning("webp").unwrap().contains("WebP"));
    assert_eq!(cli_intensity(None).unwrap(), 0);
    assert_eq!(cli_intensity(Some(10)).unwrap(), 10);
    assert!(cli_intensity(Some(0)).is_err());
    assert!(cli_intensity(Some(11)).is_err());
}

#[test]
fn video_decisions() {
    assert!(check_embed_length(7).is_ok());
    assert_eq!(check_embed_length(8).unwrap_err(), "Message too long: max 7 bytes, got 8");
    assert_eq!(check_dry_run_length(8).unwrap_err(), "Message too long: 8 bytes, max: 7");
    let msgs: Vec<String> = vec!["a", "b", "b", "a", "c"].into_iter().map(String::from).collect();
    assert_eq!(most_frequent(&msgs), Some((0, 2)));
    let msgs: Vec<String> = vec!["c", "b", "b"].into_iter().map(String::from).collect();
    assert_eq!(most_frequent(&msgs), Some((1, 2)));
    assert_eq!(most_frequent(&Vec::new()), None);
}

#[test]
fn legacy_watermark_helpers() {
    assert_eq!(count_blocks(256, 100), (16, 6, 96));
    assert_eq!(generate_pn_chip(&[1u8; 32], 0).len(), 256);
    assert_eq!(clamp_intensity(0), 1);
    assert_eq!(clamp_intensity(12), 10);
    assert_eq!(
        success_message("o.png", 5),
        "[成功] 水印已嵌入。输出文件: o.png。预计抗压缩率: 中。"
    );
}

#[test]
fn dry_run_summary_is_summary_with_other_first_line() {
    for intensity in [1u8, 4, 9] {
        let info = sample(intensity);
        let s = info.summary();
        let i = s.find('\n').unwrap();
        assert_eq!(
            info.dry_run_summary(),
            "[模拟] 水印嵌入预览 (未生成文件):".to_string() + &s[i..]
        );
    }
}
