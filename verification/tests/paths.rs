use rust_macros_analyzer::cargo::{CargoToml, CargoTomlWorkspace, LibExists};
use rust_macros_analyzer::crate_paths::{find_repo_path, get_repo_path, CratePaths};
use rust_macros_analyzer::error::{Error, ErrorMessage};
use rust_macros_analyzer::lines_count::LinesCount;
use rust_macros_analyzer::path_map::PathMap;
use rust_macros_analyzer::results::CharLineCount;
use rust_macros_analyzer::tree::Point;
use rust_macros_analyzer::utils::{
    is_ignored_file, is_ignored_folder, is_source_extension, remove_data_prefix, str_equal,
    str_starts_with,
};

#[test]
fn the_repository_is_the_first_four_segments() {
    assert_eq!(get_repo_path("./data/repos/owner.repo/crates/core"), "./data/repos/owner.repo");
    assert_eq!(get_repo_path("./data/repos/owner.repo"), "./data/repos/owner.repo");
    assert_eq!(get_repo_path("a/b/c/d/e/f"), "a/b/c/d");
    assert_eq!(get_repo_path("a/b/c/"), "a/b/c/");
    assert_eq!(get_repo_path("a/b/c//e"), "a/b/c/");
    assert_eq!(get_repo_path("///"), "///");
    assert_eq!(get_repo_path("é/ü/ö/ä/x"), "é/ü/ö/ä");
}

#[test]
fn a_short_path_has_no_repository() {
    assert_eq!(find_repo_path("a/b/c"), None);
    assert_eq!(find_repo_path(""), None);
    assert_eq!(find_repo_path("a/b/c/d"), Some("a/b/c/d".to_string()));
    assert_eq!(find_repo_path("a/b/c/d/e"), Some("a/b/c/d".to_string()));
}

#[test]
fn the_data_prefix_is_removed() {
    assert_eq!(remove_data_prefix("./data/repos/owner.repo/src/lib.rs"), "owner.repo/src/lib.rs");
    assert_eq!(remove_data_prefix("data/repos/owner.repo/src/lib.rs"), "owner.repo/src/lib.rs");
    assert_eq!(remove_data_prefix("other/data/repos/x"), "other/data/repos/x");
    assert_eq!(remove_data_prefix("./data/repos/"), "");
    assert_eq!(remove_data_prefix("./data/repos"), "./data/repos");
    assert_eq!(remove_data_prefix(""), "");
    assert_eq!(remove_data_prefix("data/repos/é"), "é");
}

#[test]
fn texts_are_compared() {
    assert!(str_equal("abc", "abc"));
    assert!(!str_equal("abc", "abd"));
    assert!(!str_equal("abc", "ab"));
    assert!(str_equal("", ""));
    assert!(str_starts_with("abc", "ab"));
    assert!(str_starts_with("abc", ""));
    assert!(!str_starts_with("ab", "abc"));
    assert!(!str_starts_with("xbc", "ab"));
    assert!(str_starts_with("éa", "é"));
}

#[test]
fn the_walk_ignores_some_names() {
    assert!(is_ignored_folder("target"));
    assert!(is_ignored_folder("malformed"));
    assert!(!is_ignored_folder("src"));
    assert!(is_ignored_file(".macro-expanded.rs"));
    assert!(!is_ignored_file("lib.rs"));
    assert!(is_source_extension("rs"));
    assert!(!is_source_extension("toml"));
}

#[test]
fn an_error_is_tied_to_a_path() {
    let error = Error::new(ErrorMessage::DeriveMacroExpectedTokenTree);
    assert!(error.path.is_none());
    assert_eq!(error.describe(), "Error: DeriveMacroExpectedTokenTree");
    let tied = error.add_path("src/lib.rs");
    assert_eq!(tied.path.as_deref(), Some("src/lib.rs"));
    assert_eq!(tied.message, ErrorMessage::DeriveMacroExpectedTokenTree);
    assert_eq!(tied.describe(), "[Path: src/lib.rs] Error: DeriveMacroExpectedTokenTree");
    let other = Error::new(ErrorMessage::FailedToReadDirectory).add_path("x");
    assert_eq!(other.describe(), "[Path: x] Error: FailedToReadDirectory");
    let placed = ErrorMessage::FailedToFindMacroIdentifier(Point { row: 120, column: 0 });
    assert_eq!(placed.as_str(), "FailedToFindMacroIdentifier");
    assert_eq!(
        Error::new(placed).describe(),
        "Error: FailedToFindMacroIdentifier(Point { row: 120, column: 0 })"
    );
    let far = ErrorMessage::FailedToFindMacroIdentifier(Point { row: 9, column: 1005 });
    assert_eq!(
        Error::new(far).add_path("p").describe(),
        "[Path: p] Error: FailedToFindMacroIdentifier(Point { row: 9, column: 1005 })"
    );
    assert_eq!(format!("{:?}", far), "FailedToFindMacroIdentifier(Point { row: 9, column: 1005 })");
    assert_eq!(ErrorMessage::FailedToParseFile.as_str(), "FailedToParseFile");
}

#[test]
fn crate_paths_are_listed() {
    let paths = CratePaths(vec!["a".to_string(), "b/c".to_string(), "d".to_string()]);
    assert_eq!(paths.len(), 3);
    assert_eq!(paths.get(1), Some(&"b/c".to_string()));
    assert_eq!(paths.get(3), None);
    assert_eq!(paths.describe(), "a, b/c, d");
    assert_eq!(CratePaths::new().describe(), "");
    assert_eq!(CratePaths(vec!["only".to_string()]).describe(), "only");
}

#[test]
fn counts_add_up() {
    let sum = CharLineCount(10, 2).add(CharLineCount(5, 1));
    assert_eq!(sum, CharLineCount(15, 3));
    let mut count = CharLineCount(1, 1);
    count.add_assign(CharLineCount(2, 3));
    assert_eq!(count, CharLineCount(3, 4));
    assert!(CharLineCount(usize::MAX, 0).can_add(CharLineCount(0, usize::MAX)));
    assert!(!CharLineCount(usize::MAX, 0).can_add(CharLineCount(1, 0)));
    assert_eq!(CharLineCount(usize::MAX, 0).checked_add(CharLineCount(1, 0)), None);
    assert_eq!(CharLineCount(1, 2).checked_add(CharLineCount(3, 4)), Some(CharLineCount(4, 6)));
}

#[test]
fn a_path_map_keeps_one_value_per_path() {
    let mut map: PathMap<usize> = PathMap::new();
    assert_eq!(map.len(), 0);
    map.insert("a".to_string(), 1);
    map.insert("b".to_string(), 2);
    map.insert("a".to_string(), 3);
    assert_eq!(map.len(), 2);
    assert_eq!(map.get("a"), Some(&3));
    assert_eq!(map.get("b"), Some(&2));
    assert_eq!(map.get("c"), None);
    assert!(map.contains_key("b"));
    assert!(!map.contains_key("c"));
    assert_eq!(map.position("b"), Some(1));
    assert_eq!(map.path_at(0), "a");
    assert_eq!(*map.value_at(1), 2);
    map.set_value_at(1, 9);
    assert_eq!(map.get("b"), Some(&9));
}

#[test]
fn lines_are_totalled() {
    let mut map: PathMap<usize> = PathMap::new();
    map.insert("a".to_string(), 10);
    map.insert("b".to_string(), 32);
    let lines = LinesCount(map);
    assert_eq!(lines.total(), 42);
    assert_eq!(lines.checked_total(), Some(42));
    assert_eq!(LinesCount(PathMap::new()).total(), 0);
    let mut big: PathMap<usize> = PathMap::new();
    big.insert("a".to_string(), usize::MAX);
    big.insert("b".to_string(), 1);
    assert_eq!(LinesCount(big).checked_total(), None);
}

#[test]
fn a_manifest_tells_workspace_from_crate() {
    let plain = CargoToml::new();
    assert!(!plain.is_workspace());
    assert!(!plain.has_lib());
    let workspace = CargoToml {
        workspace: Some(CargoTomlWorkspace { members: vec!["a".to_string()] }),
        lib: Some(LibExists),
    };
    assert!(workspace.is_workspace());
    assert!(workspace.has_lib());
}
