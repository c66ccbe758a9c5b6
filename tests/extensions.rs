use app_index::extensions::{
    command_file_path, confirmation_needed, find_common_prefix, package_json_path, AppleScriptHeuristic,
    HeuristicViolation, InstallResult, MacOSPathHeuristic,
};
use app_index::soulver::initialize;

fn names(v: &[&str]) -> Vec<String> {
    v.iter().map(|s| s.to_string()).collect()
}

#[test]
fn common_prefix_shared_by_all() {
    let n = names(&["ext-main/package.json", "ext-main/index.js", "ext-main/assets/icon.png"]);
    assert_eq!(find_common_prefix(&n), Some("ext-main".to_string()));
}

#[test]
fn common_prefix_absent() {
    assert_eq!(find_common_prefix(&names(&["a/package.json", "b/index.js"])), None);
    assert_eq!(find_common_prefix(&names(&["only/one.js"])), None);
    assert_eq!(find_common_prefix(&names(&[])), None);
    assert_eq!(find_common_prefix(&names(&["ext/a.js", "extra/b.js"])), None);
    assert_eq!(find_common_prefix(&names(&["ext", "ext/b.js"])), Some("ext".to_string()));
}

#[test]
fn common_prefix_of_absolute_names_is_the_root() {
    assert_eq!(find_common_prefix(&names(&["/a", "/b/c"])), Some("/".to_string()));
    assert_eq!(find_common_prefix(&names(&["/a", "b"])), None);
    assert_eq!(find_common_prefix(&names(&["a/x", "/a/y"])), None);
}

#[test]
fn apple_script_flagged() {
    let v = AppleScriptHeuristic.check("Open", "await runAppleScript('x')").unwrap();
    assert_eq!(v.command_name, "Open");
    assert_eq!(v.reason, "Possible usage of AppleScript (runAppleScript)");
    assert!(AppleScriptHeuristic.check("Open", "console.log(1)").is_none());
}

#[test]
fn macos_path_flagged_first_match() {
    let v = MacOSPathHeuristic.check("Cmd", "read('/Users/me') and '/Library/x'").unwrap();
    assert_eq!(v.command_name, "Cmd");
    assert_eq!(v.reason, "Potential hardcoded macOS path: '/Library/'");
    assert!(MacOSPathHeuristic.check("Cmd", "/home/me").is_none());
}

#[test]
fn archive_paths() {
    assert_eq!(package_json_path(&None), "package.json");
    assert_eq!(package_json_path(&Some("ext".to_string())), "ext/package.json");
    assert_eq!(command_file_path(&Some("ext".to_string()), "search"), "ext/search.js");
    assert_eq!(command_file_path(&None, "search"), "search.js");
}

#[test]
fn confirmation_only_with_violations() {
    assert_eq!(confirmation_needed(vec![]), None);
    let v = HeuristicViolation { command_name: "c".to_string(), reason: "r".to_string() };
    assert_eq!(
        confirmation_needed(vec![v.clone()]),
        Some(InstallResult::RequiresConfirmation { violations: vec![v] })
    );
}

#[test]
fn initialize_is_harmless() {
    initialize("/nonexistent/SoulverCore");
}
