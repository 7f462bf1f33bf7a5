use xpress_core::update::{is_newer, release_info};

#[test]
fn version_comparison() {
    assert!(is_newer("0.5.0", "0.4.0"));
    assert!(is_newer("1.0.0", "0.9.9"));
    assert!(is_newer("0.4.1", "0.4.0"));
    assert!(!is_newer("0.4.0", "0.4.0"));
    assert!(!is_newer("0.3.9", "0.4.0"));
    assert!(is_newer("v0.5.0", "v0.4.0")); // tolerant of leading text stripped by caller
    assert!(!is_newer("0.4.0-rc1", "0.4.0")); // pre-release ignored -> equal core
}

#[test]
fn newer_is_a_strict_order() {
    let vs = ["0.1.0", "0.1.1", "0.2.0", "1.0.0", "1.0.0-beta", "10.0.0"];
    for a in vs {
        assert!(!is_newer(a, a));
        for b in vs {
            assert!(!(is_newer(a, b) && is_newer(b, a)));
        }
    }
}

#[test]
fn release_report_strips_the_v() {
    let r = release_info("v0.4.0", "vv0.5.1\n", "https://example.org/r".to_string(), "notes".to_string());
    assert_eq!(r.current, "0.4.0");
    assert_eq!(r.latest, "0.5.1");
    assert!(r.newer);
    assert_eq!(r.url, "https://example.org/r");
    assert_eq!(r.notes, "notes");
    let same = release_info("0.4.0", "v0.4.0", String::new(), String::new());
    assert_eq!(same.latest, "0.4.0");
    assert!(!same.newer);
}

#[test]
fn numeric_versions_order_like_their_numbers() {
    assert!(is_newer("1.10.0", "1.9.9"));
    assert!(is_newer("2.0.0", "1.99.99"));
    assert!(!is_newer("1.2.3", "1.2.3+build"));
}
