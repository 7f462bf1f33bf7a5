use xpress_core::web::web_formats;
use xpress_core::image::ImageFormat;
use xpress_core::web::{picture_html, plan_widths, Variant};

#[test]
fn widths_are_capped_at_the_source() {
    assert_eq!(plan_widths(&[640, 1024, 1600, 2048], 1200), vec![640, 1024]);
    assert_eq!(plan_widths(&[640, 1024], 300), vec![300], "never upscale");
    assert_eq!(plan_widths(&[1024, 640, 640], 4000), vec![640, 1024]);
}

#[test]
fn picture_markup() {
    let v = |f: ImageFormat, w: u32| Variant {
        path: format!("hero-{w}.{}", f.extension()),
        format: f,
        width: w,
        height: w / 2,
        size: 1,
    };
    let variants = vec![
        v(ImageFormat::Avif, 640),
        v(ImageFormat::Avif, 1024),
        v(ImageFormat::Jpeg, 640),
        v(ImageFormat::Jpeg, 1024),
    ];
    let html = picture_html(
        &variants,
        &[ImageFormat::Avif, ImageFormat::Webp],
        ImageFormat::Jpeg,
        "(max-width: 800px) 100vw, 800px",
        "A \"hero\" & more",
    );
    assert!(html.contains(
        r#"<source type="image/avif" srcset="hero-640.avif 640w, hero-1024.avif 1024w""#
    ));
    assert!(!html.contains("image/webp"), "no empty source");
    assert!(html.contains(r#"<img src="hero-1024.jpg""#));
    assert!(html.contains(r#"width="1024" height="512""#));
    assert!(html.contains(r#"alt="A &quot;hero&quot; &amp; more""#));
    assert!(html.contains(r#"sizes="(max-width: 800px) 100vw, 800px""#));
}

#[test]
fn whole_picture_element() {
    let variants = vec![Variant {
        path: "dir/a<b>.png".to_string(),
        format: ImageFormat::Png,
        width: 10,
        height: 5,
        size: 3,
    }];
    let html = picture_html(&variants, &[ImageFormat::Webp], ImageFormat::Png, "1vw", "");
    assert_eq!(
        html,
        "<picture>\n  <img src=\"a&lt;b&gt;.png\" srcset=\"a&lt;b&gt;.png 10w\" sizes=\"1vw\" width=\"10\" height=\"5\" alt=\"\" loading=\"lazy\" decoding=\"async\">\n</picture>\n"
    );
    assert_eq!(plan_widths(&[0, 5], 0), vec![0]);
}

#[test]
fn fallback_comes_last_and_only_once() {
    let req = [ImageFormat::Avif, ImageFormat::Jpeg, ImageFormat::Webp];
    assert_eq!(web_formats(&req, false), vec![ImageFormat::Avif, ImageFormat::Webp, ImageFormat::Jpeg]);
    assert_eq!(web_formats(&req, true), vec![ImageFormat::Avif, ImageFormat::Jpeg, ImageFormat::Webp, ImageFormat::Png]);
    assert_eq!(web_formats(&[], true), vec![ImageFormat::Png]);
}
