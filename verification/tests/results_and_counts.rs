use rust_macros_analyzer::analyzis::{DeriveMacroUsage, MacroAnalyzis};
use rust_macros_analyzer::count_code::{
    count_chars, count_file_chars, count_file_code, decide_skip, try_count_chars, Skip, SkipRule,
};
use rust_macros_analyzer::crate_paths::CratePaths;
use rust_macros_analyzer::data::derive_statistics;
use rust_macros_analyzer::error::ErrorMessage;
use rust_macros_analyzer::classifier::try_count_macro_usage;
use rust_macros_analyzer::clear_cfg::{clear_file, CfgPolicy};
use rust_macros_analyzer::github::{
    folder_name, repositories, ReposQuerySearch, ReposQuerySearchNodes,
    ReposQuerySearchNodesOnRepository, ReposQuerySearchNodesOnRepositoryOwner,
    ReposQuerySearchNodesOnRepositoryOwnerOn, ReposQuerySearchNodesOnRepositoryStargazers,
    ResponseData,
};
use rust_macros_analyzer::results::{
    calculate_overall, find_stars, total_macro_usage, try_calculate_overall, AnalyzisResults, CharLineCount, CrateAnalyzis, RepoAnalyzis,
    ResultsError,
};
use rust_macros_analyzer::tree::{NodeKind, SyntaxNode};
use rust_macros_analyzer::utils::parse_file;
use rust_macros_analyzer::walker::{decide_entry, EntryKind, WalkAction, WalkTask};

fn repository(login: &str, name: &str, stars: i64) -> ReposQuerySearchNodesOnRepository {
    ReposQuerySearchNodesOnRepository {
        name: name.to_string(),
        name_with_owner: format!("{}/{}", login, name),
        owner: ReposQuerySearchNodesOnRepositoryOwner {
            login: login.to_string(),
            on: ReposQuerySearchNodesOnRepositoryOwnerOn::User,
        },
        url: format!("https://example.org/{}/{}", login, name),
        stargazers: ReposQuerySearchNodesOnRepositoryStargazers { total_count: stars },
    }
}

fn usage(invocations: &[&str], points: &[&[&str]]) -> MacroAnalyzis {
    let mut record = MacroAnalyzis::new();
    for name in invocations {
        record.macro_invocations.add_assign(name);
    }
    for point in points {
        record.derive_macro_usage.add_point(point.iter().map(|s| s.to_string()).collect());
    }
    record
}

fn node(kind: NodeKind, start: usize, end: usize, rows: (usize, usize), children: Vec<SyntaxNode>) -> SyntaxNode {
    SyntaxNode { kind, start_byte: start, end_byte: end, start_row: rows.0, start_column: 0, end_row: rows.1, children }
}

#[test]
fn only_repositories_are_kept() {
    let data = ResponseData {
        search: ReposQuerySearch {
            repository_count: 3,
            nodes: Some(vec![
                Some(ReposQuerySearchNodes::Repository(repository("a", "x", 10))),
                None,
                Some(ReposQuerySearchNodes::User),
                Some(ReposQuerySearchNodes::Repository(repository("b", "y", 5))),
                Some(ReposQuerySearchNodes::Issue),
            ]),
        },
    };
    let found = repositories(data);
    assert_eq!(found.len(), 2);
    assert_eq!(found[0].name_with_owner, "a/x");
    assert_eq!(found[1].name_with_owner, "b/y");
    assert_eq!(folder_name(&found[0]), "a.x");
    let none = repositories(ResponseData {
        search: ReposQuerySearch { repository_count: 0, nodes: None },
    });
    assert!(none.is_empty());
}

#[test]
fn stars_are_found_by_folder() {
    let all = vec![repository("a", "x", 10), repository("b", "y", 5), repository("a", "x", 7)];
    assert_eq!(find_stars(&all, "a.x"), Some(10));
    assert_eq!(find_stars(&all, "b.y"), Some(5));
    assert_eq!(find_stars(&all, "c.z"), None);
    assert_eq!(find_stars(&vec![], "a.x"), None);
}

#[test]
fn results_are_set_up_from_the_crate_paths() {
    let paths = CratePaths(vec![
        "a/b/c/d/one".to_string(),
        "a/b/c/d/two".to_string(),
        "a/b/c/e".to_string(),
        "a/b/c/d/one".to_string(),
    ]);
    let all = vec![repository("a/b/c/d", "", 1), repository("a/b/c/e", "", 2)];
    // The directory of a repository is the login, a dot and the name.
    assert!(AnalyzisResults::from_paths(&paths, &all).is_none());
    let all = vec![repository("a/b/c/", "d", 0), repository("a/b/c/", "e", 0)];
    assert!(AnalyzisResults::from_paths(&paths, &all).is_none());
    let paths = CratePaths(vec![
        "a/b/c/o.d/one".to_string(),
        "a/b/c/o.d/two".to_string(),
        "a/b/c/o.e".to_string(),
        "a/b/c/o.d/one".to_string(),
    ]);
    let all = vec![repository("a/b/c/o", "d", 11), repository("a/b/c/o", "e", 22)];
    let results = AnalyzisResults::from_paths(&paths, &all).unwrap();
    assert_eq!(results.crates.len(), 3);
    assert_eq!(results.repos.len(), 2);
    let d = results.repos.get("a/b/c/o.d").unwrap();
    assert_eq!(d.path, "a/b/c/o.d");
    assert_eq!(d.crates_count, 3);
    assert_eq!(d.star_count, 11);
    assert!(d.macro_usage.is_none());
    let e = results.repos.get("a/b/c/o.e").unwrap();
    assert_eq!(e.crates_count, 1);
    assert_eq!(e.star_count, 22);
    let one = results.crates.get("a/b/c/o.d/one").unwrap();
    assert!(one.macro_usage.is_none() && one.source_count.is_none());
    assert!(one.expanded_count.is_none());
    assert!(results.overall.macro_usage.is_none());
    let short = CratePaths(vec!["a/b".to_string()]);
    assert!(AnalyzisResults::from_paths(&short, &all).is_none());
}

#[test]
fn crates_and_repositories_are_updated() {
    let paths = CratePaths(vec!["a/b/c/o.d/one".to_string(), "a/b/c/o.d/two".to_string()]);
    let all = vec![repository("a/b/c/o", "d", 11)];
    let mut results = AnalyzisResults::from_paths(&paths, &all).unwrap();
    let first = usage(&["println", "vec"], &[&["Debug"]]);
    let second = usage(&["println"], &[&["Debug", "Clone"], &[]]);
    for (path, record) in [("a/b/c/o.d/one", first), ("a/b/c/o.d/two", second)] {
        let mut entry = results.crates.get(path).unwrap().duplicate();
        entry.macro_usage = Some(record.duplicate());
        entry.source_count = Some(CharLineCount(100, 10));
        results.update_crate(path, entry);
        let mut repo = results.repos.get("a/b/c/o.d").unwrap().duplicate();
        assert!(repo.can_add_macro_usage(&record));
        repo.add_macro_usage(record);
        assert!(repo.add_source_count(CharLineCount(100, 10)));
        results.update_repo("a/b/c/o.d", repo);
    }
    let repo = results.repos.get("a/b/c/o.d").unwrap();
    assert_eq!(repo.source_count, Some(CharLineCount(200, 20)));
    assert_eq!(repo.crates_count, 2);
    let combined = repo.macro_usage.as_ref().unwrap();
    assert_eq!(combined.macro_invocations.count_of("println"), 2);
    assert_eq!(combined.macro_invocations.count_of("vec"), 1);
    assert_eq!(combined.derive_macro_usage.count(), 3);
    assert_eq!(combined.derive_macro_usage.total(), 3);
    let one = results.crates.get("a/b/c/o.d/one").unwrap();
    assert_eq!(one.macro_usage.as_ref().unwrap().macro_invocations.count_of("vec"), 1);
    assert_eq!(one.source_count, Some(CharLineCount(100, 10)));

    assert_eq!(try_calculate_overall(&mut results), Ok(()));
    let overall = results.overall.macro_usage.as_ref().unwrap();
    assert_eq!(overall.macro_invocations.count_of("println"), 2);
    assert_eq!(results.overall.source_count, Some(CharLineCount(200, 20)));
    // A second calculation adds to the first.
    calculate_overall(&mut results);
    let overall = results.overall.macro_usage.as_ref().unwrap();
    assert_eq!(overall.macro_invocations.count_of("println"), 4);
    assert_eq!(results.overall.source_count, Some(CharLineCount(400, 40)));
}

#[test]
fn overall_results_need_every_repository() {
    let paths = CratePaths(vec!["a/b/c/o.d/one".to_string()]);
    let all = vec![repository("a/b/c/o", "d", 11)];
    let mut results = AnalyzisResults::from_paths(&paths, &all).unwrap();
    assert_eq!(try_calculate_overall(&mut results), Err(ResultsError::MissingData));
    assert!(results.overall.macro_usage.is_none());
    let mut repo = results.repos.get("a/b/c/o.d").unwrap().duplicate();
    repo.add_macro_usage(usage(&["m"], &[]));
    repo.source_count = Some(CharLineCount(usize::MAX, 1));
    results.update_repo("a/b/c/o.d", repo);
    assert_eq!(try_calculate_overall(&mut results), Ok(()));
    assert_eq!(try_calculate_overall(&mut results), Err(ResultsError::Overflow));
    assert_eq!(results.overall.source_count, Some(CharLineCount(usize::MAX, 1)));
    let mut empty = AnalyzisResults::new();
    assert_eq!(try_calculate_overall(&mut empty), Ok(()));
    assert!(empty.overall.macro_usage.is_none());
}

#[test]
fn expansion_outcomes_are_recorded() {
    let mut entry = CrateAnalyzis::new();
    entry.set_expanded_count(CharLineCount(5, 1));
    assert_eq!(entry.expanded_count, Some(Ok(CharLineCount(5, 1))));
    entry.set_expanded_count(CharLineCount(9, 9));
    assert_eq!(entry.expanded_count, Some(Ok(CharLineCount(5, 1))));
    let mut failed = CrateAnalyzis::new();
    failed.expanded_count = Some(Err("no".to_string()));
    failed.set_expanded_count(CharLineCount(9, 9));
    assert_eq!(failed.expanded_count, Some(Err("no".to_string())));
    assert_eq!(failed.duplicate().expanded_count, Some(Err("no".to_string())));

    let mut repo = RepoAnalyzis::new("r".to_string(), 3);
    assert!(repo.add_expanded_count(CharLineCount(5, 1)));
    assert!(repo.add_expanded_count(CharLineCount(6, 2)));
    assert_eq!(repo.expanded_count, Some(Ok(CharLineCount(11, 3))));
    assert!(!repo.add_expanded_count(CharLineCount(usize::MAX, 0)));
    assert_eq!(repo.expanded_count, Some(Ok(CharLineCount(11, 3))));
    repo.add_expand_failure();
    assert_eq!(repo.expanded_count, Some(Err(1)));
    repo.add_expand_failure();
    assert_eq!(repo.expanded_count, Some(Err(2)));
    assert!(repo.add_expanded_count(CharLineCount(1, 1)));
    assert_eq!(repo.expanded_count, Some(Err(2)));
    assert!(!RepoAnalyzis {
        source_count: Some(CharLineCount(usize::MAX, 0)),
        ..RepoAnalyzis::new("r".to_string(), 0)
    }
    .add_source_count(CharLineCount(1, 0)));
}

#[test]
fn the_samples_of_a_record_give_its_statistics() {
    let mut stats = DeriveMacroUsage::new();
    assert!(derive_statistics(&stats).is_none());
    for arity in [3usize, 1, 2, 1, 2] {
        stats.add_point((0..arity).map(|i| format!("T{}", i)).collect());
    }
    let mut samples = stats.samples().clone();
    samples.sort();
    assert_eq!(samples, vec![1, 1, 2, 2, 3]);
    let derived = derive_statistics(&stats).unwrap();
    assert_eq!(derived.sorted_data, vec![1, 1, 2, 2, 3]);
    assert_eq!(derived.mode, vec![1, 2]);
    assert_eq!(derived.median_low, 2);
    assert_eq!((derived.sum, derived.count, derived.max), (9, 5, 3));
    let more = {
        let mut more = DeriveMacroUsage::new();
        more.add_point(vec![]);
        more
    };
    let both = stats.add(more);
    assert_eq!(derive_statistics(&both).unwrap().sorted_data, vec![0, 1, 1, 2, 2, 3]);
}

#[test]
fn invocations_and_definitions_are_counted() {
    let mut record = usage(&["a", "b", "a"], &[&["X", "Y"]]);
    record.attribute_macro_invocations.add_assign("route");
    assert!(record.builtin_attribute_macro_invocations.add_builtin("cfg").is_some());
    assert!(record.builtin_attribute_macro_invocations.add_builtin("cfg").is_some());
    assert_eq!(record.invocation_count(), Some(6));
    assert_eq!(record.definition_count(), Some(0));
    record.procedural_macro_definitions.add_assign("sql");
    record.attribute_macro_definitions.add_assign("route");
    record.declarative_macro_definitions.add_assign("twice");
    record.declarative_macro_definitions.add_assign("thrice");
    record.derive_macro_definitions.add_assign("my_derive");
    assert_eq!(record.definition_count(), Some(5));
    let mut big = MacroAnalyzis::new();
    big.macro_invocations.add_count(b"a", usize::MAX);
    big.attribute_macro_invocations.add_count(b"b", 1);
    assert_eq!(big.invocation_count(), None);
    big.procedural_macro_definitions.add_count(b"p", usize::MAX / 2 + 1);
    assert_eq!(big.definition_count(), None);
}

#[test]
fn the_corpus_total_combines_the_repositories() {
    let paths = CratePaths(vec!["a/b/c/o.d/one".to_string(), "a/b/c/o.e".to_string()]);
    let all = vec![repository("a/b/c/o", "d", 1), repository("a/b/c/o", "e", 2)];
    let mut results = AnalyzisResults::from_paths(&paths, &all).unwrap();
    assert_eq!(total_macro_usage(&results).unwrap_err(), ResultsError::MissingData);
    for (path, record) in [
        ("a/b/c/o.d", usage(&["println", "vec"], &[&["Debug"]])),
        ("a/b/c/o.e", usage(&["println"], &[&["Debug", "Clone"]])),
    ] {
        let mut repo = results.repos.get(path).unwrap().duplicate();
        repo.add_macro_usage(record);
        results.update_repo(path, repo);
    }
    let total = total_macro_usage(&results).unwrap();
    assert_eq!(total.macro_invocations.count_of("println"), 2);
    assert_eq!(total.macro_invocations.count_of("vec"), 1);
    assert_eq!(total.derive_macro_usage.count(), 2);
    assert_eq!(total.derive_macro_usage.total(), 3);
    let mut repo = results.repos.get("a/b/c/o.e").unwrap().duplicate();
    let mut big = MacroAnalyzis::new();
    big.macro_invocations.add_count(b"println", usize::MAX);
    repo.macro_usage = Some(big);
    results.update_repo("a/b/c/o.e", repo);
    assert_eq!(total_macro_usage(&results).unwrap_err(), ResultsError::Overflow);
    let empty = total_macro_usage(&AnalyzisResults::new()).unwrap();
    assert_eq!(empty.macro_invocations.len(), 0);
}

#[test]
fn bucket_totals() {
    let record = usage(&["a", "b", "a"], &[&["X", "Y"]]);
    assert_eq!(record.macro_invocations.total(), Some(3));
    assert_eq!(record.derive_macro_usage.derives().total(), Some(2));
    assert_eq!(record.attribute_macro_invocations.total(), Some(0));
    let mut big = MacroAnalyzis::new();
    big.macro_invocations.add_count(b"a", usize::MAX);
    big.macro_invocations.add_count(b"b", 1);
    assert_eq!(big.macro_invocations.total(), None);
}

#[test]
fn code_is_counted_without_spaces() {
    let source = "fn f() { 1 }\n";
    assert_eq!(count_file_code(source.as_bytes()).unwrap(), CharLineCount(8, 1));
    assert_eq!(count_file_chars(source.as_bytes()).unwrap(), 8);
    let source = "fn f() {\n    let x = 1;\n}\n";
    // `fn`, `f`, `()`, `{`, `letx=1;`, `}`
    assert_eq!(count_file_code(source.as_bytes()).unwrap(), CharLineCount(14, 3));
    assert_eq!(count_file_code(b"").unwrap(), CharLineCount(0, 0));
}

#[test]
fn conditional_code_is_not_counted() {
    let plain = "fn g() { 2 }\n";
    let guarded = "#[cfg(test)]\nfn f() { 1 }\nfn g() { 2 }\n";
    let plain_count = count_file_code(plain.as_bytes()).unwrap();
    let guarded_count = count_file_code(guarded.as_bytes()).unwrap();
    assert_eq!(guarded_count.0, plain_count.0);
    assert_eq!(guarded_count.1, 3);
    // Under the other rule `cfg(test)` is left out too, `cfg(unix)` is not.
    assert_eq!(count_file_chars(guarded.as_bytes()).unwrap(), plain_count.0);
    let unix = "#[cfg(unix)]\nfn f() { 1 }\n";
    assert_eq!(count_file_code(unix.as_bytes()).unwrap().0, 0);
    assert_eq!(count_file_chars(unix.as_bytes()).unwrap(), "#[cfg(unix)]".len() + 8);
}

#[test]
fn the_skip_rules_decide_at_each_node() {
    let source = "#[cfg(test)] #[test] #[doc(test)]";
    let tree = parse_file(format!("{}\nfn f() {{}}\n", source).as_bytes()).unwrap();
    let bytes = format!("{}\nfn f() {{}}\n", source);
    let bytes = bytes.as_bytes();
    assert_eq!(decide_skip(SkipRule::Conditional, &tree.children[0], bytes), Skip::NodeAndNext);
    assert_eq!(decide_skip(SkipRule::TestOrWindows, &tree.children[0], bytes), Skip::NodeAndNext);
    assert_eq!(decide_skip(SkipRule::Conditional, &tree.children[1], bytes), Skip::Nothing);
    assert_eq!(decide_skip(SkipRule::TestOrWindows, &tree.children[1], bytes), Skip::Nothing);
    assert_eq!(decide_skip(SkipRule::Conditional, &tree.children[2], bytes), Skip::Nothing);
    assert_eq!(decide_skip(SkipRule::TestOrWindows, &tree.children[2], bytes), Skip::NodeAndNext);
    assert_eq!(decide_skip(SkipRule::Conditional, &tree.children[3], bytes), Skip::Nothing);
    let nameless = node(NodeKind::AttributeItem, 0, 3, (0, 0), vec![]);
    assert_eq!(decide_skip(SkipRule::Conditional, &nameless, bytes), Skip::Node);
    assert_eq!(decide_skip(SkipRule::TestOrWindows, &nameless, bytes), Skip::Nothing);
}

#[test]
fn counting_needs_nested_spans() {
    let source = b"ab cd";
    let nested = node(
        NodeKind::Other,
        0,
        5,
        (0, 1),
        vec![node(NodeKind::Other, 0, 2, (0, 0), vec![]), node(NodeKind::Other, 2, 5, (0, 0), vec![])],
    );
    assert!(nested.is_nested());
    assert_eq!(count_chars(&nested, source, SkipRule::Conditional), 4);
    assert_eq!(try_count_chars(&nested, source, SkipRule::Conditional), Some(4));
    let overlapping = node(
        NodeKind::Other,
        0,
        5,
        (0, 1),
        vec![node(NodeKind::Other, 0, 3, (0, 0), vec![]), node(NodeKind::Other, 2, 5, (0, 0), vec![])],
    );
    assert!(!overlapping.is_nested());
    assert_eq!(try_count_chars(&overlapping, source, SkipRule::Conditional), None);
    let outside = node(NodeKind::Other, 0, 2, (0, 1), vec![node(NodeKind::Other, 1, 3, (0, 0), vec![])]);
    assert!(!outside.is_nested());
    assert!(!node(NodeKind::Other, 3, 2, (0, 0), vec![]).is_nested());
    assert_eq!(nested.node_count(), Some(3));
    assert_eq!(SyntaxNode::leaf(NodeKind::Other, 0, 0).node_count(), Some(1));
}

#[test]
fn parsed_trees_have_nested_spans() {
    let source = "#[derive(Debug)]\nstruct S { a: u8 }\nfn f() { println!(\"{}\", 1); }\n";
    let tree = parse_file(source.as_bytes()).unwrap();
    assert!(tree.is_nested());
    assert!(tree.end_byte <= source.len());
    assert!(tree.node_count().unwrap() > 10);
    let record = try_count_macro_usage(&tree, source.as_bytes()).unwrap().unwrap();
    assert_eq!(record.macro_invocations.count_of("println"), 1);
    assert_eq!(record.derive_macro_usage.count(), 1);
}

#[test]
fn a_file_is_cleared_in_one_step() {
    let source = "#[cfg(windows)]\nfn f() {}\n\nfn g() {}\n";
    assert_eq!(clear_file(source, CfgPolicy::RemoveGuarded).unwrap(), "fn g() {}");
    assert_eq!(clear_file(source, CfgPolicy::RemoveNegatedFeature).unwrap(), source.replace("\n\n", "\n").trim_end());
    assert_eq!(ErrorMessage::FailedToRewriteFile.as_str(), "FailedToRewriteFile");
}

#[test]
fn the_walker_decides_by_kind_name_and_extension() {
    assert_eq!(decide_entry(WalkTask::MacroUsage, EntryKind::Directory, "src", None), WalkAction::Descend);
    assert_eq!(decide_entry(WalkTask::MacroUsage, EntryKind::Directory, "target", None), WalkAction::Skip);
    assert_eq!(decide_entry(WalkTask::MacroUsage, EntryKind::Directory, "malformed", None), WalkAction::Skip);
    assert_eq!(decide_entry(WalkTask::CfgRanges, EntryKind::Directory, "target", None), WalkAction::Descend);
    assert_eq!(decide_entry(WalkTask::CodeCount, EntryKind::Directory, "target", None), WalkAction::Descend);
    for task in [WalkTask::MacroUsage, WalkTask::CfgRanges, WalkTask::CodeCount] {
        assert_eq!(decide_entry(task, EntryKind::File, "lib.rs", Some("rs")), WalkAction::Analyze);
        assert_eq!(decide_entry(task, EntryKind::File, ".macro-expanded.rs", Some("rs")), WalkAction::Skip);
        assert_eq!(decide_entry(task, EntryKind::File, "Cargo.toml", Some("toml")), WalkAction::Skip);
        assert_eq!(decide_entry(task, EntryKind::File, "LICENSE", None), WalkAction::Skip);
        assert_eq!(decide_entry(task, EntryKind::Other, "link.rs", Some("rs")), WalkAction::Skip);
    }
}
