use infinishield::raster::{raster_dry_run, raster_info};
use infinishield::vector::{svg_decode, svg_dry_run_info, svg_encode_n, vector_info};

#[test]
fn raster_info_feature_point_mode() {
    let (info, fp) = raster_info("Infini", 0, 526, 524, 200, 0, "out.png");
    assert!(fp);
    assert_eq!(info.status, "ok");
    assert_eq!(info.mode, "feature-point");
    assert_eq!(info.message, "Infini");
    assert_eq!(info.message_bytes, 6);
    assert_eq!(info.intensity, 7);
    assert_eq!((info.width, info.height), (526, 524));
    assert_eq!(info.keypoints, 200);
    assert_eq!(info.max_capacity, 7);
    assert_eq!(info.output_path, "out.png");
}

#[test]
fn raster_info_global_mode() {
    // Few keypoints: global mode, capacity from the subband blocks.
    let (info, fp) = raster_info("Infini", 5, 512, 512, 3, 1024, "o.png");
    assert!(!fp);
    assert_eq!(info.mode, "global-dwt");
    assert_eq!(info.max_capacity, 40); // 1024 / 3 / 8 - 2
    assert_eq!(info.intensity, 7);
}

#[test]
fn raster_dry_run_matches_embed_info_or_refuses() {
    let (embed_info, _) = raster_info("hello world", 0, 800, 800, 50, 1024, "o.png");
    let dry = raster_dry_run("hello world", 0, 800, 800, 50, 1024, "o.png").unwrap();
    assert_eq!(dry.mode, embed_info.mode);
    assert_eq!(dry.max_capacity, embed_info.max_capacity);
    assert_eq!(dry.intensity, embed_info.intensity);
    assert_eq!(dry.keypoints, embed_info.keypoints);
    assert_eq!(
        raster_dry_run("a much longer message", 0, 100, 100, 50, 64, "o.png").unwrap_err(),
        "Message too long: 21 bytes, max capacity: 0 bytes (mode: global-dwt)"
    );
}

#[test]
fn svg_dry_run_decisions() {
    let path = (0..30).map(|i| format!("{}.5", i)).collect::<Vec<_>>().join(" ");
    let svg = format!("<svg><path d=\"{}\"/><path d=\"1 2\"/></svg>", path);
    let info = svg_dry_run_info(&svg, "Hi", "o.svg").unwrap();
    assert_eq!(info.mode, "vector-qim");
    assert_eq!(info.keypoints, 1);
    assert_eq!(info.max_capacity, 7);
    assert_eq!(info.intensity, 0);
    assert_eq!(info.message_bytes, 2);
    assert_eq!(
        svg_dry_run_info("<svg/>", "Hi", "o.svg").unwrap_err(),
        "SVG has no qualifying paths for this message"
    );
    assert_eq!(
        svg_dry_run_info(&svg, "12345678", "o.svg").unwrap_err(),
        "Message too long: 8 bytes, max: 7 (mode: vector-qim)"
    );
    let e = vector_info("Hi", 3, "x.svg");
    assert_eq!((e.keypoints, e.message.as_str(), e.output_path.as_str()), (3, "Hi", "x.svg"));
}

#[test]
fn svg_round_trip_longer_frames() {
    for t in [16usize, 17, 24, 64, 1000] {
        let bits = svg_encode_n(b"A", t).unwrap();
        assert_eq!(bits.len(), t);
        assert_eq!(svg_decode(&bits).unwrap(), b"A");
    }
}
