use untest::paths::should_include_entry;

#[test]
fn test_should_include_entry() {
    let input_dir = "/base";
    let excludes = vec![
        "/target".to_string(),
        "/target/my/long/path.txt".to_string(),
        "node_modules".to_string(),
    ];

    // .git should always be excluded
    assert!(!should_include_entry("/base/.git", input_dir, &excludes));
    assert!(!should_include_entry("/base/src/.git", input_dir, &excludes));

    // Absolute-style excludes
    assert!(!should_include_entry("/base/target", input_dir, &excludes));
    assert!(!should_include_entry("/base/target/file.txt", input_dir, &excludes));
    assert!(!should_include_entry("/base/target/my/long/path.txt", input_dir, &excludes));
    assert!(should_include_entry("/base/src/target", input_dir, &excludes));

    // Relative-style excludes
    assert!(!should_include_entry("/base/node_modules", input_dir, &excludes));
    assert!(!should_include_entry("/base/src/node_modules", input_dir, &excludes));

    // Normal files
    assert!(should_include_entry("/base/src/main.rs", input_dir, &excludes));
}

use untest::paths::{output_path_for, plan_entry, EntryAction};

#[test]
fn rust_files_are_stripped_and_others_copied() {
    assert_eq!(plan_entry("/in/src/lib.rs", false), EntryAction::StripTests);
    assert_eq!(plan_entry("/in/README.md", false), EntryAction::CopyFile);
    assert_eq!(plan_entry("/in/.rs", false), EntryAction::CopyFile);
    assert_eq!(plan_entry("/in/rs", false), EntryAction::CopyFile);
    assert_eq!(plan_entry("/in/src", true), EntryAction::CreateDir);
    assert_eq!(plan_entry("/in/src.rs", true), EntryAction::CreateDir);
}

#[test]
fn git_components_are_never_kept() {
    assert!(!should_include_entry("/base/.git/config", "/base", &[]));
    assert!(should_include_entry("/base/.github/ci.yml", "/base", &[]));
    assert!(should_include_entry("/base/src/a.git", "/base", &[]));
}

#[test]
fn anchored_patterns_apply_to_the_relative_path() {
    let excludes = vec!["/tests".to_string()];
    assert!(!should_include_entry("/base/tests", "/base", &excludes));
    assert!(!should_include_entry("/base/tests/a.rs", "/base", &excludes));
    assert!(should_include_entry("/base/tests_more/a.rs", "/base", &excludes));
    assert!(should_include_entry("/base/src/tests", "/base", &excludes));
    // Outside the input directory the whole path is matched.
    assert!(!should_include_entry("tests/a.rs", "/base", &excludes));
}

#[test]
fn more_patterns_keep_less() {
    let few = vec!["target".to_string()];
    let more = vec!["target".to_string(), "src".to_string()];
    assert!(should_include_entry("/base/src/main.rs", "/base", &few));
    assert!(!should_include_entry("/base/src/main.rs", "/base", &more));
}

#[test]
fn plain_patterns_match_the_relative_path() {
    let excludes = vec!["base".to_string()];
    assert!(should_include_entry("/base/src/main.rs", "/base", &excludes));
    assert!(!should_include_entry("/base/src/base/x.rs", "/base", &excludes));
    assert!(!should_include_entry("/base/database.rs", "/base", &excludes));
}

#[test]
fn output_paths_follow_the_relative_path() {
    assert_eq!(
        output_path_for("/in/src/lib.rs", "/in", "/out").as_deref(),
        Some("/out/src/lib.rs")
    );
    assert_eq!(output_path_for("/in", "/in", "/out").as_deref(), Some("/out/"));
    assert_eq!(output_path_for("/elsewhere/a.rs", "/in", "/out"), None);
}
