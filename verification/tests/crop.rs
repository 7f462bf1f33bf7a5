use xpress_core::crop::{plan_for_image, video_filter, CropSpec, Plan};
use xpress_core::result::OptimiseError;

#[test]
fn parses_sizes_ratios_and_single_numbers() {
    let s = CropSpec::parse(" 1200x630 ").unwrap();
    assert_eq!((s.width, s.height, s.aspect), (Some(1200), Some(630), None));
    let s = CropSpec::parse("0x720").unwrap();
    assert_eq!((s.width, s.height), (None, Some(720)));
    let s = CropSpec::parse("16 : 9").unwrap();
    assert_eq!(s.aspect, Some((16, 9)));
    let s = CropSpec::parse("1920").unwrap().with_long_edge(true);
    assert_eq!((s.width, s.height, s.long_edge), (None, None, Some(1920)));
    assert!(CropSpec::parse("1920").unwrap().with_smart(true).smart);
}

#[test]
fn parse_errors_name_the_argument() {
    assert_eq!(CropSpec::parse("0:9"), Err("ratio parts must be > 0 in '0:9'".to_string()));
    assert_eq!(CropSpec::parse("a:9"), Err("bad ratio 'a:9'".to_string()));
    assert_eq!(CropSpec::parse("wx5"), Err("bad width in 'wx5'".to_string()));
    assert_eq!(CropSpec::parse("5xh"), Err("bad height in '5xh'".to_string()));
    assert_eq!(CropSpec::parse(" big "), Err("bad size 'big'".to_string()));
}

#[test]
fn plans_follow_the_request() {
    let long = CropSpec::parse("1000").unwrap().with_long_edge(true);
    // 1000 * 1080 / 1920 = 562.5 -> 563 -> even 562
    assert_eq!(plan_for_image(1920, 1080, &long), Plan::Resize(1000, 562));
    assert_eq!(plan_for_image(1080, 1920, &long), Plan::Resize(562, 1000));
    let ratio = CropSpec::parse("1:1").unwrap();
    assert_eq!(plan_for_image(1920, 1080, &ratio), Plan::CropOnly(1080, 1080));
    let wide = CropSpec::parse("16:9").unwrap();
    assert_eq!(plan_for_image(1000, 1000, &wide), Plan::CropOnly(1000, 563));
    assert_eq!(plan_for_image(1920, 1080, &CropSpec::size(800, 600)), Plan::Cover(800, 600));
    assert_eq!(plan_for_image(1920, 1080, &CropSpec::size(960, 0)), Plan::Resize(960, 540));
    assert_eq!(plan_for_image(1920, 1080, &CropSpec::size(0, 0)), Plan::Resize(1920, 1080));
    assert_eq!(plan_for_image(1, 1, &ratio), Plan::CropOnly(2, 2), "never below 2x2");
}

#[test]
fn video_filters() {
    let long = CropSpec::parse("720").unwrap().with_long_edge(true);
    assert_eq!(
        video_filter(&long).unwrap(),
        "scale='if(gt(iw,ih),720,-2)':'if(gt(iw,ih),-2,720)'"
    );
    assert_eq!(
        video_filter(&CropSpec::parse("4:3").unwrap()).unwrap(),
        "crop='min(iw,ih*4/3)':'min(ih,iw*3/4)'"
    );
    assert_eq!(video_filter(&CropSpec::size(640, 0)).unwrap(), "scale=640:-2");
    assert_eq!(video_filter(&CropSpec::size(0, 480)).unwrap(), "scale=-2:480");
    assert_eq!(
        video_filter(&CropSpec::size(640, 480)).unwrap(),
        "scale=640:480:force_original_aspect_ratio=increase,crop=640:480"
    );
    assert_eq!(
        video_filter(&CropSpec::size(0, 0)),
        Err(OptimiseError::Other("crop: no target size given".to_string()))
    );
}

#[test]
fn sizes_that_do_not_parse() {
    assert_eq!(CropSpec::parse("16:0"), Err("ratio parts must be > 0 in '16:0'".to_string()));
    assert_eq!(CropSpec::parse("abc"), Err("bad size 'abc'".to_string()));
    assert_eq!(CropSpec::parse("1200X630"), Err("bad size '1200X630'".to_string()));
}
