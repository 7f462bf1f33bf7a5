use xpress_core::guard::excluded;

#[test]
fn excludes_by_directory_name() {
    let ex = vec!["node_modules".to_string()];
    assert!(excluded("web/node_modules/pkg/logo.png", &ex));
    assert!(!excluded("web/assets/logo.png", &ex));
}

#[test]
fn nothing_excluded_without_names() {
    assert!(!excluded("a/b/c.png", &[]));
    assert!(excluded("/tmp/x.png", &["tmp".to_string(), "y".to_string()]));
}
