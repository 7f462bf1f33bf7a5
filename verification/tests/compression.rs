use xpress_core::compression::{CompressionQuality, CompressionTier};

#[test]
fn normal_preset_anchors() {
    let cq = CompressionQuality::normal();
    assert_eq!(cq.jpeg_max_quality(), 85);
    assert_eq!(cq.pngquant_quality(), "0-100");
    assert_eq!(cq.pngquant_speed(), 4);
    assert_eq!(cq.gifsicle_args(), vec!["-O2", "--lossy=30"]);
    assert_eq!(cq.conversion_quality(), 60);
}

#[test]
fn aggressive_preset_anchors() {
    let cq = CompressionQuality::aggressive();
    assert!(cq.image_is_aggressive());
    assert_eq!(cq.gifsicle_args(), vec!["-O3", "--lossy=80", "--colors=202"]);
}

#[test]
fn video_crf_bounds() {
    assert_eq!(CompressionQuality::factor(5).video_h264_crf(), 18);
    assert_eq!(CompressionQuality::factor(100).video_h264_crf(), 30);
}

#[test]
fn factors_are_clamped_to_the_scale() {
    assert_eq!(CompressionQuality::factor(250).factor, 100);
    assert_eq!(CompressionQuality::factor(-4).factor, 0);
    assert_eq!(CompressionQuality::default().factor, 50);
}

#[test]
fn formulas_round_half_away_from_zero() {
    // 85 - (100 - 30) * 55 / 70 = 30
    assert_eq!(CompressionQuality::factor(100).jpeg_max_quality(), 30);
    // 90 - 20 * 60 / 70 = 72.857.. -> 73
    assert_eq!(CompressionQuality::factor(50).jpeg_secondary_max_quality(), 73);
    // 75 - 25 * 0.5 = 62.5 -> 63
    assert_eq!(CompressionQuality::factor(25).conversion_quality(), 63);
    assert_eq!(CompressionQuality::factor(25).jxl_quality(), 63);
    assert_eq!(CompressionQuality::factor(80).jxl_effort(), 9);
    assert_eq!(CompressionQuality::factor(50).video_h264_crf(), 24);
}

#[test]
fn more_compression_never_raises_quality() {
    let mut prev = CompressionQuality::factor(0);
    for f in 1..=100 {
        let cq = CompressionQuality::factor(f);
        assert!(cq.jpeg_max_quality() <= prev.jpeg_max_quality());
        assert!(cq.video_h264_crf() >= prev.video_h264_crf());
        assert!(cq.pngquant_speed() <= prev.pngquant_speed());
        prev = cq;
    }
}

#[test]
fn h264_arguments_by_tier() {
    let lossless = CompressionQuality::new(CompressionTier::Lossless, 30);
    assert_eq!(
        lossless.video_h264_args(false),
        vec!["-vcodec", "h264", "-tag:v", "avc1", "-crf", "17"]
    );
    let fast = CompressionQuality::new(CompressionTier::Fast, 100);
    assert_eq!(
        fast.video_h264_args(true),
        vec!["-vcodec", "h264_videotoolbox", "-q:v", "25", "-tag:v", "avc1"]
    );
    let auto = CompressionQuality::new(CompressionTier::Custom, 0);
    assert!(auto.video_uses_auto_crf());
    assert_eq!(
        auto.video_h264_args(false),
        vec!["-vcodec", "h264", "-tag:v", "avc1", "-preset", "slower"]
    );
    assert_eq!(CompressionQuality::factor(30).video_h264_preset(), "fast");
}
