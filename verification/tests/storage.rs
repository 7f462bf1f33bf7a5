use xpress_core::store::{watch_target, WatchTarget};
use xpress_core::config::{config_dir, Config, ConfigEnv, Platform};
use xpress_core::result::{backup_path, original_for_backup, OptimisationResult};
use xpress_core::filetype::MediaKind;
use xpress_core::store::{all_type, is_ignored_name, type_matches, Automation, Store};
use xpress_core::template::counter_token_count;

fn env<'a>(platform: Platform, home: Option<&'a str>, xdg: Option<&'a str>) -> ConfigEnv<'a> {
    ConfigEnv { platform, home, appdata: Some("C:/AppData"), xdg_config_home: xdg }
}

#[test]
fn config_locations() {
    assert_eq!(
        Config::path(&env(Platform::Other, Some("/home/u"), None)),
        Some("/home/u/.config/xpress/config.json".to_string())
    );
    assert_eq!(
        Config::path(&env(Platform::Other, Some("/home/u"), Some("/cfg"))),
        Some("/cfg/xpress/config.json".to_string())
    );
    assert_eq!(
        Store::path(&env(Platform::MacOs, Some("/Users/u"), None)),
        Some("/Users/u/Library/Application Support/xpress/pipelines.json".to_string())
    );
    assert_eq!(config_dir(&env(Platform::MacOs, None, Some("/cfg"))), None);
    let c = Config::default();
    assert_eq!((c.compression, c.aggressive, c.backup, c.strip_metadata, c.preserve_dates), (30, false, true, false, true));
    assert!(Store::default().pipelines.is_empty());
    assert_eq!(all_type(), "all");
}

#[test]
fn backup_then_restore_names() {
    let b = backup_path("/tmp/dir/photo.png");
    assert_eq!(b, "/tmp/dir/.photo.png.orig");
    assert_eq!(original_for_backup(&b), Some("/tmp/dir/photo.png".to_string()));
    assert_eq!(original_for_backup("/tmp/dir/..orig"), None);
    assert_eq!(original_for_backup("/tmp/dir/photo.png"), None);
}

#[test]
fn savings() {
    let r = OptimisationResult {
        kind: MediaKind::Image,
        source: "a".into(),
        output: "a".into(),
        backup: None,
        old_size: 100,
        new_size: 60,
        aggressive: false,
        cached: false,
    };
    assert_eq!(r.saved_bytes(), 40);
    assert!(r.improved());
}

#[test]
fn automations_match_kinds_and_skip_scratch_files() {
    assert!(type_matches("all", MediaKind::Pdf));
    assert!(type_matches("", MediaKind::Video));
    assert!(type_matches("image", MediaKind::Image));
    assert!(!type_matches("image", MediaKind::Video));
    assert!(type_matches("whatever", MediaKind::Audio));
    assert!(is_ignored_name(".hidden.png"));
    assert!(is_ignored_name("photo.png.orig"));
    assert!(is_ignored_name("draft.txt~"));
    assert!(!is_ignored_name("photo.png"));
    assert!(!is_ignored_name(""));
}

#[test]
fn counter_tokens_are_counted() {
    assert_eq!(counter_token_count("%i-%i-%%i"), 2);
    assert_eq!(counter_token_count("plain"), 0);
    assert_eq!(counter_token_count("%"), 0);
}

#[test]
fn watched_files_go_to_the_first_matching_automation() {
    let t = |folder: &str, ty: &str| WatchTarget { folder: folder.to_string(), file_type: ty.to_string() };
    let targets = vec![t("/home/u/Downloads", "all"), t("/home/u/Pictures", "video"), t("/home/u/Pictures", "image")];
    assert_eq!(watch_target("/home/u/Pictures/shot.png", &targets), Some(2));
    assert_eq!(watch_target("/home/u/Downloads/clip.mov", &targets), Some(0));
    assert_eq!(watch_target("/home/u/Pictures/.shot.png", &targets), None);
    assert_eq!(watch_target("/home/u/Pictures/shot.png~", &targets), None);
    assert_eq!(watch_target("/home/u/Pictures/notes.txt", &targets), None);
    assert_eq!(watch_target("/home/u/Pictures2/shot.png", &targets), None);
    assert_eq!(watch_target("/home/u/Pictures/sub/shot.png", &targets), Some(2));
}

#[test]
fn attaching_replaces_and_detaching_removes() {
    let auto = |s: &str, p: &str| Automation { source: s.to_string(), file_type: "all".to_string(), pipeline: p.to_string() };
    let mut store = Store::default();
    store.attach(auto("/in", "optimise"));
    store.attach(auto("clipboard", "optimise"));
    store.attach(auto("/in", "convert(to: webp)"));
    let sources: Vec<(&str, &str)> = store.automations.iter().map(|a| (a.source.as_str(), a.pipeline.as_str())).collect();
    assert_eq!(sources, vec![("clipboard", "optimise"), ("/in", "convert(to: webp)")]);
    assert!(store.detach("/in"));
    assert!(!store.detach("/in"));
    assert_eq!(store.automations.len(), 1);
    assert_eq!(store.automations[0].source, "clipboard");
}
