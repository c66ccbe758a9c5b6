use app_index::app::App;
use app_index::dir_times::ModTime;
use app_index::scanner::{
    app_directories, executable_path, find_app_bundles, icns_path, icon_cache_file, is_app_bundle,
    needs_conversion, parse_app_bundle, parse_app_bundles, sanitize_filename, BundleCandidate,
    BundleMetadata,
};
use app_index::text::{contains, join_path};

fn meta(name: Option<&str>, exec: Option<&str>, icon: Option<&str>) -> BundleMetadata {
    BundleMetadata {
        name: name.map(String::from),
        executable: exec.map(String::from),
        icon_file: icon.map(String::from),
    }
}

#[test]
fn malformed_bundle_is_skipped() {
    let candidates = vec![
        BundleCandidate {
            path: "/Applications/Good.app".to_string(),
            metadata: meta(Some("Good"), Some("good"), None),
            icon_path: None,
        },
        BundleCandidate {
            path: "/Applications/Broken.app".to_string(),
            metadata: meta(Some("Broken"), None, None),
            icon_path: None,
        },
    ];
    let apps = parse_app_bundles(candidates);
    assert_eq!(apps.len(), 1);
    assert_eq!(apps[0].name, "Good");
    assert_eq!(apps[0].executable_path.as_deref(), Some("/Applications/Good.app/Contents/MacOS/good"));
}

#[test]
fn bundle_without_name_is_skipped() {
    assert_eq!(parse_app_bundle("/Applications/X.app", meta(None, Some("x"), None), None), None);
}

#[test]
fn bundle_record_carries_icon() {
    let a = parse_app_bundle(
        "/Applications/Notes.app",
        meta(Some("Notes"), Some("Notes"), Some("AppIcon")),
        Some("/cache/icons/Notes.png".to_string()),
    )
    .unwrap();
    assert_eq!(
        a,
        App::new("Notes".to_string())
            .with_exec(Some("/Applications/Notes.app/Contents/MacOS/Notes".to_string()))
            .with_icon_path(Some("/cache/icons/Notes.png".to_string()))
    );
}

#[test]
fn sanitize_replaces_hostile_and_drops_control() {
    assert_eq!(sanitize_filename("a/b\\c:d*e?f\"g<h>i|j"), "a_b_c_d_e_f_g_h_i_j");
    assert_eq!(sanitize_filename("tab\there\u{7f}\u{85}"), "tabhere");
    assert_eq!(sanitize_filename("Visual Studio Code"), "Visual Studio Code");
    assert_eq!(sanitize_filename(""), "");
}

#[test]
fn app_bundle_detection() {
    assert!(is_app_bundle("Safari.app", true));
    assert!(!is_app_bundle("Safari.app", false));
    assert!(!is_app_bundle(".app", true));
    assert!(!is_app_bundle("Safari.apps", true));
    assert!(!is_app_bundle("Utilities", true));
    assert!(is_app_bundle("a..app", true));
}

#[test]
fn bundles_found_in_entry_order() {
    let entries = vec![
        ("Zed.app".to_string(), true),
        ("notes.txt".to_string(), false),
        ("Fake.app".to_string(), false),
        ("Utilities".to_string(), true),
        ("Mail.app".to_string(), true),
    ];
    assert_eq!(
        find_app_bundles("/Applications", &entries),
        vec!["/Applications/Zed.app".to_string(), "/Applications/Mail.app".to_string()]
    );
}

#[test]
fn icon_paths() {
    assert_eq!(icns_path("/Applications/X.app", "AppIcon"), "/Applications/X.app/Contents/Resources/AppIcon.icns");
    assert_eq!(icns_path("/Applications/X.app", "icon.icns"), "/Applications/X.app/Contents/Resources/icon.icns");
    assert_eq!(icns_path("/Applications/X.app", ".hidden"), "/Applications/X.app/Contents/Resources/.hidden.icns");
    assert_eq!(icon_cache_file("/c/icons", "A/B: C"), "/c/icons/A_B_ C.png");
    assert_eq!(icon_cache_file("/c/icons/", "Mail"), "/c/icons/Mail.png");
}

#[test]
fn executable_path_joins() {
    assert_eq!(executable_path("/Applications/X.app", "x"), "/Applications/X.app/Contents/MacOS/x");
    assert_eq!(executable_path("/Applications/X.app", "/usr/bin/x"), "/usr/bin/x");
}

#[test]
fn conversion_decision() {
    let png = ModTime { secs: 50, nanos: 0 };
    assert!(needs_conversion(None));
    assert!(needs_conversion(Some((png, ModTime { secs: 51, nanos: 0 }))));
    assert!(needs_conversion(Some((png, ModTime { secs: 50, nanos: 1 }))));
    assert!(!needs_conversion(Some((png, png))));
    assert!(!needs_conversion(Some((png, ModTime { secs: 49, nanos: 0 }))));
}

#[test]
fn path_join_rules() {
    assert_eq!(join_path("/a", "b"), "/a/b");
    assert_eq!(join_path("/a/", "b"), "/a/b");
    assert_eq!(join_path("", "b"), "b");
    assert_eq!(join_path("/a", "/b"), "/b");
}

#[test]
fn substring_search() {
    assert!(contains("hello world", "lo w"));
    assert!(contains("abc", ""));
    assert!(!contains("abc", "abcd"));
    assert!(!contains("abc", "acb"));
}

#[test]
fn default_directories() {
    assert_eq!(app_directories(), vec!["/Applications".to_string(), "/System/Applications".to_string()]);
}
