use infinishield::common::scramble::unscramble;
use infinishield::vector::scan::{
    count_numbers, count_qualifying_paths, embedding_targets, find_path_d_attrs,
    parse_number_tokens, replace_spans,
};
use infinishield::vector::{
    check_dry_run_length, check_embed_length, generate_pn, recover_svg_message, svg_bit_count,
    svg_decode, svg_embedding_plan, svg_encode_n, MAX_COORDS, SVG_MAX_MESSAGE,
};

#[test]
fn test_svg_encode_decode() {
    let msg = b"Hi";
    let bits = svg_encode_n(msg, 24).unwrap(); // 3 bytes = 24 bits
    assert_eq!(bits.len(), 24);
    assert_eq!(svg_decode(&bits).unwrap(), msg);
}

#[test]
fn test_svg_max_message() {
    assert_eq!(SVG_MAX_MESSAGE, 7);
    assert!(svg_encode_n(&vec![b'A'; 7], MAX_COORDS).is_ok());
    assert!(svg_encode_n(&vec![b'A'; 8], MAX_COORDS).is_err());
}

#[test]
fn test_find_path_d_attrs() {
    let svg = r#"<svg><path d="M 0 0 L 10 10 Z"/><path d="M 5 5 L 15 15 Z"/></svg>"#;
    let attrs = find_path_d_attrs(svg);
    assert_eq!(attrs.len(), 2);
}

#[test]
fn test_parse_numbers_with_whitespace() {
    // Ensure no infinite loop on newlines, tabs, etc.
    let d = "M 100,200\n L 300\t400\rZ";
    let nums: Vec<f64> = parse_number_tokens(d).iter().map(|t| t.text.parse::<f64>().unwrap()).collect();
    assert_eq!(nums.len(), 4);
    assert_eq!(nums[0], 100.0);
    assert_eq!(nums[1], 200.0);
    assert_eq!(nums[2], 300.0);
    assert_eq!(nums[3], 400.0);
}

#[test]
fn test_parse_numbers_negative() {
    let d = "M -10.5 -20.3 L 30 -40";
    let nums: Vec<f64> = parse_number_tokens(d).iter().map(|t| t.text.parse::<f64>().unwrap()).collect();
    assert_eq!(nums.len(), 4);
    assert_eq!(nums[0], -10.5);
    assert_eq!(nums[1], -20.3);
}

#[test]
fn find_path_d_attrs_values() {
    let svg = r#"<svg><path d="M 0 0 L 10 10 Z"/><g d="x"/><path id="p" d="M 5 5"/></svg>"#;
    assert_eq!(find_path_d_attrs(svg), vec!["M 0 0 L 10 10 Z", "x", "M 5 5"]);
    // No closing quote: the value is not reported.
    assert!(find_path_d_attrs("<path d=\"M 1 2").is_empty());
    assert!(find_path_d_attrs("").is_empty());
    // Non-ASCII text around the attribute.
    assert_eq!(find_path_d_attrs("<路径 d=\"1 2\"/>"), vec!["1 2"]);
}

#[test]
fn number_tokens_and_positions() {
    let toks = parse_number_tokens("M1.5e3-2E-1,.5 +7 1.2.3 4e 5. - .");
    let texts: Vec<&str> = toks.iter().map(|t| t.text.as_str()).collect();
    // "1.2.3" has two dots and "4e" lacks exponent digits: both are skipped,
    // as f64 parsing rejects them.
    assert_eq!(texts, vec!["1.5e3", "-2E-1", ".5", "+7", "5."]);
    for t in &toks {
        assert!(t.text.parse::<f64>().is_ok());
    }
    assert_eq!((toks[0].start, toks[0].end), (1, 6));
    assert_eq!(count_numbers("M1.5e3-2E-1,.5 +7 1.2.3 4e 5. - ."), 5);
    assert_eq!(count_numbers("no numbers here"), 0);
}

#[test]
fn qualifying_paths_counted() {
    let svg = r#"<svg><path d="1 2 3 4"/><path d="1 2"/><path d="1 2 3 4 5"/></svg>"#;
    assert_eq!(count_qualifying_paths(svg, 4), 2);
    assert_eq!(count_qualifying_paths(svg, 2), 3);
    assert_eq!(count_qualifying_paths(svg, 6), 0);
}

#[test]
fn targets_and_splice() {
    let svg = r#"<svg><path d="M 1 2 L 3 4"/><path d="M 9 9"/></svg>"#;
    let targets = embedding_targets(svg, 3);
    assert_eq!(targets.len(), 1);
    let texts: Vec<&str> = targets[0].iter().map(|t| t.text.as_str()).collect();
    assert_eq!(texts, vec!["1", "2", "3"]);
    let spans: Vec<(usize, usize)> = targets[0].iter().map(|t| (t.start, t.end)).collect();
    for (t, &(a, e)) in targets[0].iter().zip(spans.iter()) {
        assert_eq!(&svg[a..e], t.text);
    }
    let reps = vec!["1.015625".to_string(), "2.046875".to_string(), "3.015625".to_string()];
    let out = replace_spans(svg, &spans, &reps);
    assert_eq!(
        out,
        r#"<svg><path d="M 1.015625 2.046875 L 3.015625 4"/><path d="M 9 9"/></svg>"#
    );
    // Overlapping or out-of-range spans are left alone.
    assert_eq!(replace_spans("abcdef", &[(1, 3), (2, 4), (5, 9)], &["X".into(), "Y".into(), "Z".into()]), "aXdef");
}

#[test]
fn svg_bits_and_limits() {
    assert_eq!(svg_bit_count(1), 16);
    assert_eq!(svg_bit_count(7), 64);
    assert!(check_embed_length(7).is_ok());
    assert_eq!(check_embed_length(8).unwrap_err(), "Message too long for SVG: max 7 bytes, got 8");
    assert_eq!(
        check_dry_run_length(9).unwrap_err(),
        "Message too long: 9 bytes, max: 7 (mode: vector-qim)"
    );
    assert_eq!(svg_encode_n(b"Hello", 16).unwrap_err(), "Message too long: max 1 bytes, got 5");
    assert_eq!(svg_encode_n(b"", 0).unwrap_err(), "Message too long: max 0 bytes, got 0");
    // A partial last byte is cut.
    assert_eq!(svg_encode_n(b"A", 20).unwrap().len(), 20);
}

#[test]
fn svg_plan_round_trip() {
    let path = (0..30).map(|i| format!("{}.5", i)).collect::<Vec<_>>().join(" ");
    let svg = format!("<svg><path d=\"{}\"/><path d=\"1 2\"/></svg>", path);
    let plan = svg_embedding_plan(&svg, b"Hi", "d1ng0").unwrap();
    assert_eq!(plan.bits.len(), 24);
    assert_eq!(plan.pn.len(), 24);
    assert_eq!(plan.targets.len(), 1);
    assert_eq!(plan.targets[0].len(), 24);
    assert_eq!(unscramble(&plan.bits, &plan.perm), svg_encode_n(b"Hi", 24).unwrap());
    assert_eq!(plan.pn[3], generate_pn(&plan.seed, 3));
    let ones: Vec<usize> = plan.bits.iter().map(|&b| b as usize).collect();
    let totals = vec![1usize; 24];
    assert_eq!(recover_svg_message(&ones, &totals, &plan.seed).unwrap(), b"Hi");
    assert_eq!(
        svg_embedding_plan("<svg/>", b"Hi", "d1ng0").err().unwrap(),
        "SVG has no paths with ≥24 coordinates for this message"
    );
    assert!(svg_embedding_plan(&svg, b"12345678", "d1ng0").is_err());
}
