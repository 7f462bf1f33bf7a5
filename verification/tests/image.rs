use xpress_core::compression::CompressionQuality;
use xpress_core::image::{
    adaptive_placement, candidate_formats, cjxl_args, flatten_alpha, header_has_alpha, heif_enc_args, meta_for, smallest_candidate,
    webp_with_icc, ImageFormat, Meta,
};
use xpress_core::result::Placement;

#[test]
fn formats_by_name() {
    assert_eq!(ImageFormat::from_str("JPG"), Some(ImageFormat::Jpeg));
    assert_eq!(ImageFormat::from_str("heif"), Some(ImageFormat::Heic));
    assert_eq!(ImageFormat::from_str("gif"), None);
    for f in [ImageFormat::Webp, ImageFormat::Avif, ImageFormat::Heic, ImageFormat::Jxl, ImageFormat::Png, ImageFormat::Jpeg] {
        assert_eq!(ImageFormat::from_str(f.extension()), Some(f));
    }
}

#[test]
fn alpha_is_composited_onto_white() {
    let rgba = [0u8, 0, 0, 0, 10, 20, 30, 255, 200, 100, 0, 128, 9];
    // transparent black -> white; opaque keeps colour; half-transparent mixes.
    let rgb = flatten_alpha(&rgba);
    assert_eq!(rgb, vec![255, 255, 255, 10, 20, 30, 227, 177, 127]);
}

fn le(n: u32) -> [u8; 4] {
    n.to_le_bytes()
}

#[test]
fn icc_profile_is_added_to_a_simple_webp() {
    let mut webp = b"RIFF".to_vec();
    webp.extend(le(4 + 8 + 3 + 1));
    webp.extend(b"WEBP");
    webp.extend(b"VP8 ");
    webp.extend(le(3));
    webp.extend([1, 2, 3, 0]);
    let out = webp_with_icc(&webp, &[7, 8, 9], 640, 480, false).unwrap();
    let mut want = b"WEBP".to_vec();
    want.extend(b"VP8X");
    want.extend(le(10));
    want.extend([0x20, 0, 0, 0, 0x7f, 0x02, 0x00, 0xdf, 0x01, 0x00]);
    want.extend(b"ICCP");
    want.extend(le(3));
    want.extend([7, 8, 9, 0]);
    want.extend(b"VP8 ");
    want.extend(le(3));
    want.extend([1, 2, 3, 0]);
    let mut riff = b"RIFF".to_vec();
    riff.extend(le(want.len() as u32));
    riff.extend(want);
    assert_eq!(out, riff);
}

#[test]
fn existing_header_is_flagged_and_old_profile_replaced() {
    let mut webp = b"RIFF".to_vec();
    webp.extend(le(0));
    webp.extend(b"WEBP");
    webp.extend(b"VP8X");
    webp.extend(le(10));
    webp.extend([0, 0, 0, 0, 1, 0, 0, 1, 0, 0]);
    webp.extend(b"ICCP");
    webp.extend(le(2));
    webp.extend([5, 5]);
    webp.extend(b"ALPH");
    webp.extend(le(1));
    webp.extend([9]);
    let out = webp_with_icc(&webp, &[1, 2], 1, 1, false).unwrap();
    assert_eq!(&out[20..21], &[0x30], "ICC and alpha flags");
    assert_eq!(&out[30..34], b"ICCP");
    assert_eq!(&out[38..40], &[1, 2]);
    assert_eq!(&out[40..44], b"ALPH", "the old profile is gone, the rest follows");
    assert_eq!(out.len(), 49, "the missing padding byte stays missing");
    assert_eq!(webp_with_icc(b"RIFX....WEBP", &[1], 1, 1, false), None);
    let mut cut = b"RIFF\0\0\0\0WEBP".to_vec();
    cut.extend(b"VP8 ");
    cut.extend(le(100));
    assert_eq!(webp_with_icc(&cut, &[1], 1, 1, false), None, "chunk runs past the end");
}

#[test]
fn stripping_keeps_the_colour_profile() {
    let m = Meta { icc: Some(vec![1]), exif: Some(vec![2]) };
    let s = meta_for(m.clone(), true);
    assert_eq!((s.icc, s.exif), (Some(vec![1]), None));
    let k = meta_for(m, false);
    assert_eq!(k.exif, Some(vec![2]));
}

#[test]
fn adaptive_candidates_never_flatten_transparency() {
    assert_eq!(candidate_formats(true), vec![ImageFormat::Png]);
    assert_eq!(candidate_formats(false), vec![ImageFormat::Jpeg, ImageFormat::Png]);
}

#[test]
fn adaptive_keeps_the_first_smallest_nonempty_candidate() {
    assert_eq!(smallest_candidate(&[300, 0, 120, 120, 500]), Some(2));
    assert_eq!(smallest_candidate(&[0, 0]), None);
    assert_eq!(smallest_candidate(&[]), None);
    assert_eq!(smallest_candidate(&[7]), Some(0));
}

#[test]
fn adaptive_winner_placement() {
    let (dest, p) = adaptive_placement("/x/photo.JPG", ImageFormat::Jpeg);
    assert_eq!(dest, "/x/photo.JPG");
    assert_eq!(p, Placement { size_guard: true, backup: true, replace_source: false });
    let (dest, p) = adaptive_placement("/x/photo.png", ImageFormat::Jpeg);
    assert_eq!(dest, "/x/photo.jpg");
    assert_eq!(p, Placement { size_guard: true, backup: false, replace_source: false });
}

#[test]
fn conversion_tool_arguments() {
    let cq = CompressionQuality::factor(30);
    assert_eq!(cjxl_args(cq, "a.png", "a.jxl"), vec!["-q", "60", "-e", "7", "a.png", "a.jxl"]);
    assert_eq!(cjxl_args(CompressionQuality::factor(80), "a.png", "a.jxl")[3], "9");
    assert_eq!(heif_enc_args(cq, "a.png", "a.heic"), vec!["-q", "60", "-o", "a.heic", "a.png"]);
}

#[test]
fn png_alpha_from_the_header() {
    let mut h = vec![0u8; 26];
    h[25] = 6;
    assert!(header_has_alpha("a.PNG", &h));
    h[25] = 4;
    assert!(header_has_alpha("a.png", &h));
    h[25] = 2;
    assert!(!header_has_alpha("a.png", &h));
    h[25] = 6;
    assert!(!header_has_alpha("a.jpg", &h));
    assert!(!header_has_alpha("a.png", &h[..25]));
}
