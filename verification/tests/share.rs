use xpress_core::filetype::MediaKind;
use xpress_core::image::ImageFormat;
use xpress_core::share::Target;

#[test]
fn parses_targets() {
    assert_eq!(Target::parse("Discord"), Ok(Target::Discord));
    assert_eq!(Target::parse("gmail"), Ok(Target::Email));
    assert!(Target::parse("myspace").is_err());
}

#[test]
fn limits_sit_under_the_published_ones() {
    assert!(Target::Discord.max_bytes(MediaKind::Video) < 20_000_000);
    assert!(Target::Github.max_bytes(MediaKind::Image) < 10_000_000);
    assert!(Target::Github.max_bytes(MediaKind::Pdf) < 25_000_000);
    // 14 MB * 4/3 (base64) stays under Outlook's 20 MB.
    assert!(Target::Email.max_bytes(MediaKind::Image) * 4 / 3 < 20_000_000);
}

#[test]
fn converts_only_what_the_target_cant_show() {
    assert_eq!(
        Target::Github.image_conversion("a.webp", false),
        Some(ImageFormat::Jpeg)
    );
    assert_eq!(
        Target::Github.image_conversion("logo.webp", true),
        Some(ImageFormat::Png)
    );
    assert_eq!(Target::Github.image_conversion("a.jpg", false), None);
    assert_eq!(
        Target::Email.image_conversion("IMG_1.HEIC", false),
        Some(ImageFormat::Jpeg)
    );
    assert_eq!(Target::Email.image_conversion("a.webp", false), None);
    assert_eq!(Target::Discord.image_conversion("a.heic", false), None);
}

#[test]
fn target_names_parse_back() {
    for t in [Target::Discord, Target::Github, Target::Email] {
        assert_eq!(Target::parse(t.name()), Ok(t));
    }
    assert_eq!(Target::parse("  GH "), Ok(Target::Github));
    assert_eq!(
        Target::parse(" MySpace "),
        Err("unknown share target 'myspace': use discord, github or email".to_string())
    );
}
