use xpress_core::pipeline::{parse, pipeline_destination, to_dsl, step_output_ext, ByteSize, CropArgs, Factor, Step};
use xpress_core::result::OptimiseOptions;

#[test]
fn parse_chain() {
    let steps = parse("crop(width: 1600) -> convert(to: webp) -> downscale(factor: 50%)").unwrap();
    assert_eq!(steps.len(), 3);
    assert!(matches!(
        steps[0],
        Step::Crop(CropArgs {
            width: Some(1600),
            ..
        })
    ));
    assert!(matches!(&steps[1], Step::Convert { to } if to == "webp"));
    match &steps[2] {
        Step::Downscale { factor: Factor::Percent(p) } => {
            let factor = p.parse::<f64>().unwrap() / 100.0;
            assert!((factor - 0.5).abs() < 1e-9);
        }
        other => panic!("unexpected {other:?}"),
    }
}

#[test]
fn ratio_and_longedge() {
    let steps = parse("crop(ratio: 16:9) -> crop(longEdge: 1920)").unwrap();
    assert!(matches!(
        steps[0],
        Step::Crop(CropArgs {
            aspect: Some((16, 9)),
            ..
        })
    ));
    assert!(matches!(
        steps[1],
        Step::Crop(CropArgs {
            long_edge: Some(1920),
            ..
        })
    ));
}

#[test]
fn every_step_kind() {
    let steps = parse(
        "optimize -> stripExif -> removeAudio -> changeSpeed(factor: '2') -> capFps(fps: 24) \
         -> lower_bitrate(kbps: 96) -> targetSize(kb: 1.5MB) -> adaptive -> ",
    )
    .unwrap();
    assert_eq!(
        steps,
        vec![
            Step::Optimise,
            Step::StripExif,
            Step::RemoveAudio,
            Step::ChangeSpeed { factor: Factor::Plain("2".to_string()) },
            Step::CapFps { fps: 24 },
            Step::LowerBitrate { kbps: 96 },
            Step::TargetSize {
                size: ByteSize { number: "1.5".to_string(), unit: 1_000_000 }
            },
            Step::Adaptive,
        ]
    );
}

#[test]
fn errors_stop_at_the_first_bad_step() {
    assert_eq!(parse("explode"), Err("unknown step 'explode'".to_string()));
    assert_eq!(parse("crop(width: 5"), Err("missing ')' in step 'crop(width: 5'".to_string()));
    assert_eq!(parse("crop(width 5)"), Err("expected 'key: value' in 'width 5'".to_string()));
    assert_eq!(parse("crop(smart: true)"), Err("crop requires width:, height:, longEdge: or ratio:".to_string()));
    assert_eq!(parse("crop(width: x)"), Err("bad width".to_string()));
    assert_eq!(parse("downscale(factor: half)"), Err("bad factor 'half'".to_string()));
    assert_eq!(parse("downscale(factor: x%)"), Err("bad percent 'x%'".to_string()));
    assert_eq!(parse("downscale"), Err("downscale requires factor:".to_string()));
    assert_eq!(parse("capFps(fps: 2.5)"), Err("bad fps".to_string()));
    assert_eq!(parse("targetSize(bytes: lots)"), Err("bad size 'lots'".to_string()));
    assert_eq!(parse("convert()"), Err("convert requires to:".to_string()));
    assert_eq!(parse("crop(ratio: 169)"), Err("bad ratio '169'".to_string()));
    assert_eq!(parse("optimise -> nope -> alsonope"), Err("unknown step 'nope'".to_string()));
    assert_eq!(parse("  "), Ok(vec![]));
}

#[test]
fn factors_follow_the_float_grammar() {
    for ok in ["1e3", ".5", "5.", "+2", "-0.25E-2", "inf", "NaN", "Infinity"] {
        let dsl = format!("downscale(factor: {ok})");
        assert!(parse(&dsl).is_ok(), "{ok}");
        assert!(ok.parse::<f64>().is_ok());
    }
    for bad in [".", "1e", "e5", "1.2.3", "--1", "0x10"] {
        let dsl = format!("downscale(factor: {bad})");
        assert!(parse(&dsl).is_err(), "{bad}");
        assert!(bad.parse::<f64>().is_err());
    }
}

#[test]
fn crop_args_become_a_crop_spec() {
    let a = CropArgs { width: Some(3), height: None, long_edge: Some(9), aspect: Some((1, 2)), smart: true };
    let s = a.to_spec();
    assert_eq!((s.width, s.height, s.long_edge, s.aspect, s.smart), (Some(3), None, Some(9), Some((1, 2)), true));
}

#[test]
fn step_outputs_carry_the_right_extension() {
    let to = |t: &str| Step::Convert { to: t.to_string() };
    assert_eq!(step_output_ext(&to("GIF"), "/w/clip.mov"), "gif");
    assert_eq!(step_output_ext(&to("jpeg"), "/w/a.png"), "jpg");
    assert_eq!(step_output_ext(&to("m4a"), "/w/a.wav"), "m4a");
    assert_eq!(step_output_ext(&to("nope"), "/w/a.PNG"), "png");
    assert_eq!(step_output_ext(&Step::RemoveAudio, "/w/clip.mov"), "mp4");
    assert_eq!(step_output_ext(&Step::Optimise, "/w/clip.webm"), "mp4");
    assert_eq!(step_output_ext(&Step::Optimise, "/w/photo.jpg"), "jpg");
    assert_eq!(step_output_ext(&Step::StripExif, "/w/clip.mov"), "mov");
    assert_eq!(step_output_ext(&Step::Optimise, "/w/noext"), "bin");
}

#[test]
fn pipeline_results_are_placed_by_type() {
    let mut o = OptimiseOptions::default();
    o.backup = true;
    assert_eq!(pipeline_destination("/p/a.png", "/w/s2.png", &o), ("/p/a.png".to_string(), true));
    assert_eq!(pipeline_destination("/p/a.png", "/w/s2.webp", &o), ("/p/a.webp".to_string(), false));
    o.backup = false;
    assert_eq!(pipeline_destination("/p/a.PNG", "/w/s1.png", &o), ("/p/a.PNG".to_string(), false));
    o.output = Some("/out/x.png".to_string());
    assert_eq!(pipeline_destination("/p/a.png", "/w/s1.webp", &o), ("/out/x.png".to_string(), false));
}

#[test]
fn roundtrip_dsl() {
    let dsl = "crop(width: 1200, height: 630) -> optimise";
    let steps = parse(dsl).unwrap();
    let back = to_dsl(&steps);
    assert_eq!(parse(&back).unwrap(), steps);
}

#[test]
fn canonical_dsl_text() {
    let steps = parse("crop(height: 630, width: 1200) -> optimize").unwrap();
    assert_eq!(to_dsl(&steps), "crop(width: 1200, height: 630) -> optimise");
    let steps = parse(
        "downscale(factor: 50 %) -> convert(to: 'webp') -> targetSize(kb: 1.5MB) -> crop(aspect: 16:9, smart: true, long_edge: 1920)",
    )
    .unwrap();
    let text = to_dsl(&steps);
    assert_eq!(
        text,
        "downscale(factor: 50%) -> convert(to: webp) -> targetSize(bytes: 1.5mb) -> crop(longEdge: 1920, ratio: 16:9, smart: true)"
    );
    assert_eq!(parse(&text).unwrap(), steps);
    let steps = parse("changeSpeed(factor: 2) -> capFps(fps: -3) -> lowerBitrate(kbps: 96) -> stripExif -> remove_audio -> adaptive -> targetSize(bytes: 500kb) -> targetSize(bytes: 700)").unwrap();
    let text = to_dsl(&steps);
    assert_eq!(
        text,
        "changeSpeed(factor: 2) -> capFps(fps: -3) -> lowerBitrate(kbps: 96) -> stripExif -> removeAudio -> adaptive -> targetSize(bytes: 500kb) -> targetSize(bytes: 700)"
    );
    assert_eq!(parse(&text).unwrap(), steps);
    assert_eq!(to_dsl(&[]), "");
    assert_eq!(parse("convert(to:)").map(|s| to_dsl(&s)), Ok("convert(to: )".to_string()));
}
