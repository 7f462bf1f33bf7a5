use xpress_core::template::shellexpand_home;
use xpress_core::template::{expand, expand_with, is_template};

#[test]
fn expands_tokens() {
    let mut c = 1;
    let out = expand("%f-thumb.%e", "/a/b/photo.png", &mut c, None);
    assert_eq!(out, "photo-thumb.png");
}

#[test]
fn auto_increment_and_literal_percent() {
    let mut c = 5;
    let p = "img.jpg";
    assert_eq!(expand("n%i", p, &mut c, None), "n5");
    assert_eq!(expand("n%i", p, &mut c, None), "n6");
    assert_eq!(expand("100%%", p, &mut c, None), "100%");
}

#[test]
fn template_expands_output() {
    let mut c = 1;
    let out = expand("%f-small.%e", "/x/photo.png", &mut c, None);
    assert_eq!(out, "photo-small.png");
}

#[test]
fn dates_and_random_tokens() {
    let mut c = 0;
    // 2024-02-29 13:05:09 UTC
    let secs = 1_709_211_909;
    let out = expand_with("%y-%m-%d %H:%M:%S %P/%q%", "/pics/cat.jpg", &mut c, None, secs, &[]);
    assert_eq!(out, "2024-02-29 13:05:09 /pics/%q%");
    let out = expand_with("%y/%m/%d", "x", &mut c, None, -1, &[]);
    assert_eq!(out, "1969/12/31");
    let r = expand_with("%r", "x", &mut c, None, 0, &[1]);
    assert_eq!(r.len(), 6);
    assert!(r.chars().all(|ch| ch.is_ascii_lowercase() || ch.is_ascii_digit()));
    assert_eq!(r, expand_with("%r", "y", &mut c, None, 99, &[1]), "same seed, same characters");
    assert_eq!(c, 0);
}

#[test]
fn home_and_missing_parts() {
    let mut c = 0;
    assert_eq!(expand("~/out/%f.%e", "noext", &mut c, Some("/home/u")), "/home/u/out/noext.");
    assert_eq!(expand("~/x", "a.b", &mut c, None), "~/x");
    assert!(is_template("a%b"));
    assert!(!is_template("plain.png"));
}

#[test]
fn home_is_expanded_only_before_a_slash() {
    assert_eq!(shellexpand_home("~/Pictures/in", Some("/home/u")), "/home/u/Pictures/in");
    assert_eq!(shellexpand_home("~/Pictures", None), "~/Pictures");
    assert_eq!(shellexpand_home("~other/x", Some("/home/u")), "~other/x");
    assert_eq!(shellexpand_home("/abs/dir", Some("/home/u")), "/abs/dir");
}
