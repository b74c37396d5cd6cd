use rust_macros_analyzer::analyzis::{DeriveMacroUsage, MacroAnalyzis};
use rust_macros_analyzer::usage::{is_builtin, MacroUsage};

fn bucket(names: &[&str]) -> MacroUsage {
    let mut usage = MacroUsage::new();
    for name in names {
        usage.add_assign(name);
    }
    usage
}

fn entries(usage: &MacroUsage) -> Vec<(Vec<u8>, usize)> {
    let mut all = Vec::new();
    let mut i = 0;
    while let Some(entry) = usage.entry(i) {
        all.push(entry);
        i += 1;
    }
    all.sort();
    all
}

fn derive_stats(points: &[&[&str]]) -> DeriveMacroUsage {
    let mut stats = DeriveMacroUsage::new();
    for point in points {
        stats.add_point(point.iter().map(|s| s.to_string()).collect());
    }
    stats
}

fn record(invocations: &[&str], builtin: &[&str], points: &[&[&str]]) -> MacroAnalyzis {
    let mut record = MacroAnalyzis::new();
    for name in invocations {
        record.macro_invocations.add_assign(name);
    }
    for name in builtin {
        assert!(record.builtin_attribute_macro_invocations.add_builtin(name).is_some());
    }
    for point in points {
        record.derive_macro_usage.add_point(point.iter().map(|s| s.to_string()).collect());
    }
    record
}

fn snapshot(record: &MacroAnalyzis) -> Vec<Vec<(Vec<u8>, usize)>> {
    vec![
        entries(&record.attribute_macro_definitions),
        entries(&record.declarative_macro_definitions),
        entries(&record.procedural_macro_definitions),
        entries(&record.derive_macro_definitions),
        entries(record.derive_macro_usage.derives()),
        entries(&record.attribute_macro_invocations),
        entries(&record.builtin_attribute_macro_invocations),
        entries(&record.macro_invocations),
        vec![(
            Vec::new(),
            record.derive_macro_usage.count() * 1000 + record.derive_macro_usage.total(),
        )],
    ]
}

#[test]
fn empty_bucket_counts_nothing() {
    let usage = MacroUsage::new();
    assert_eq!(usage.len(), 0);
    assert_eq!(usage.count_of("println"), 0);
    assert!(usage.entry(0).is_none());
}

#[test]
fn bucket_counts_each_name() {
    let usage = bucket(&["println", "vec", "println", "println"]);
    assert_eq!(usage.count_of("println"), 3);
    assert_eq!(usage.count_of("vec"), 1);
    assert_eq!(usage.count_of("format"), 0);
    assert_eq!(usage.get(b"vec"), 1);
    assert_eq!(usage.len(), 2);
    assert_eq!(usage.entry(0), Some((b"println".to_vec(), 3)));
    assert_eq!(usage.entry(1), Some((b"vec".to_vec(), 1)));
    assert_eq!(usage.entry(2), None);
}

#[test]
fn add_count_adds_many_at_once() {
    let mut usage = bucket(&["a"]);
    usage.add_count(b"a", 4);
    usage.add_count(b"b", 2);
    usage.add_count(b"c", 0);
    assert_eq!(usage.count_of("a"), 5);
    assert_eq!(usage.count_of("b"), 2);
    assert_eq!(usage.count_of("c"), 0);
    assert_eq!(usage.len(), 2);
}

#[test]
fn add_multiple_counts_every_occurrence() {
    let mut usage = MacroUsage::new();
    usage.add_multiple(vec!["Debug".to_string(), "Clone".to_string(), "Debug".to_string()]);
    assert_eq!(usage.count_of("Debug"), 2);
    assert_eq!(usage.count_of("Clone"), 1);
    usage.add_names(&vec![b"Clone".to_vec(), b"Eq".to_vec()]);
    assert_eq!(usage.count_of("Clone"), 2);
    assert_eq!(usage.count_of("Eq"), 1);
}

#[test]
fn builtin_names_are_a_closed_set() {
    assert!(is_builtin(b"cfg"));
    assert!(is_builtin(b"derive"));
    assert!(is_builtin(b"debugger_visualizer"));
    assert!(!is_builtin(b"my_custom_attr"));
    assert!(!is_builtin(b"cfg2"));
    assert!(!is_builtin(b""));
}

#[test]
fn add_builtin_records_only_builtin_names() {
    let mut usage = MacroUsage::new();
    assert_eq!(usage.add_builtin("cfg"), Some(()));
    assert_eq!(usage.add_builtin("cfg"), Some(()));
    assert_eq!(usage.add_builtin("my_custom_attr"), None);
    assert_eq!(usage.count_of("cfg"), 2);
    assert_eq!(usage.count_of("my_custom_attr"), 0);
    assert_eq!(usage.len(), 1);
}

#[test]
fn tool_attributes_collapse_into_the_bucket_of_their_prefix() {
    let mut usage = MacroUsage::new();
    assert_eq!(usage.add_builtin("rustfmt::skip"), Some(()));
    assert_eq!(usage.add_builtin("rustfmt::skip::macros"), Some(()));
    assert_eq!(usage.add_builtin("clippy::too_many_arguments"), Some(()));
    assert_eq!(usage.count_of("rustfmt::"), 2);
    assert_eq!(usage.count_of("clippy::"), 1);
    assert_eq!(usage.count_of("rustfmt::skip"), 0);
    assert_eq!(usage.len(), 2);
}

#[test]
fn buckets_combine_by_summing_per_name() {
    let left = bucket(&["a", "b", "a"]);
    let right = bucket(&["b", "c"]);
    assert!(left.can_add(&right));
    let sum = left.add(right);
    assert_eq!(sum.count_of("a"), 2);
    assert_eq!(sum.count_of("b"), 2);
    assert_eq!(sum.count_of("c"), 1);
    assert_eq!(sum.len(), 3);
}

#[test]
fn buckets_that_would_overflow_cannot_be_added() {
    let mut left = MacroUsage::new();
    left.add_count(b"a", usize::MAX);
    let right = bucket(&["a"]);
    assert!(!left.can_add(&right));
    let other = bucket(&["b"]);
    assert!(left.can_add(&other));
}

#[test]
fn duplicate_is_an_equal_copy() {
    let usage = bucket(&["x", "y", "x"]);
    let copy = usage.duplicate();
    assert_eq!(entries(&usage), entries(&copy));
}

#[test]
fn derive_statistic_counts_points_and_arities() {
    let stats = derive_stats(&[&["Debug", "Clone"], &[], &["Debug"]]);
    assert_eq!(stats.count(), 3);
    assert_eq!(stats.total(), 3);
    assert_eq!(stats.derives().count_of("Debug"), 2);
    assert_eq!(stats.derives().count_of("Clone"), 1);
    let mean = stats.total() as f64 / stats.count() as f64;
    assert!((mean - 1.0).abs() < 1e-12);
}

#[test]
fn derive_statistic_record_takes_names_as_bytes() {
    let mut stats = DeriveMacroUsage::new();
    stats.record(&vec![b"Debug".to_vec(), b"Eq".to_vec(), b"Hash".to_vec()]);
    assert_eq!(stats.count(), 1);
    assert_eq!(stats.total(), 3);
    assert_eq!(stats.derives().count_of("Hash"), 1);
}

#[test]
fn combining_with_an_empty_statistic_changes_nothing() {
    let stats = derive_stats(&[&["Debug", "Clone"], &["Eq"]]);
    let empty = DeriveMacroUsage::new();
    assert!(stats.can_add(&empty));
    let left = DeriveMacroUsage::new().add(stats.duplicate());
    let right = stats.duplicate().add(empty);
    for sum in [left, right] {
        assert_eq!(sum.count(), 2);
        assert_eq!(sum.total(), 3);
        assert_eq!(entries(sum.derives()), entries(stats.derives()));
    }
}

#[test]
fn weighted_combination_of_two_means() {
    // (n1, avg1) = (2, 1.5) and (n2, avg2) = (3, 2.0) give (5, 1.8).
    let a = derive_stats(&[&["A", "B"], &["A"]]);
    let b = derive_stats(&[&["A", "B"], &["C", "D"], &["E", "F"]]);
    let sum = a.add(b);
    assert_eq!(sum.count(), 5);
    assert_eq!(sum.total(), 9);
    let mean = sum.total() as f64 / sum.count() as f64;
    assert!((mean - (1.5 * 2.0 + 2.0 * 3.0) / 5.0).abs() < 1e-12);
    assert_eq!(sum.derives().count_of("A"), 3);
    assert_eq!(sum.derives().count_of("B"), 2);
}

#[test]
fn mean_does_not_depend_on_the_partition() {
    let points: [&[&str]; 6] =
        [&["A"], &["A", "B", "C"], &[], &["D", "E"], &["A", "B", "C", "D"], &["Z"]];
    let whole = derive_stats(&points);
    for cut in 1..points.len() {
        for second in cut + 1..points.len() {
            let first = derive_stats(&points[..cut]);
            let middle = derive_stats(&points[cut..second]);
            let last = derive_stats(&points[second..]);
            let combined = first.add(middle).add(last);
            assert_eq!(combined.count(), whole.count());
            assert_eq!(combined.total(), whole.total());
            assert_eq!(entries(combined.derives()), entries(whole.derives()));
            let regrouped = derive_stats(&points[..cut])
                .add(derive_stats(&points[cut..second]).add(derive_stats(&points[second..])));
            assert_eq!(regrouped.count(), whole.count());
            assert_eq!(regrouped.total(), whole.total());
        }
    }
    assert_eq!(whole.count(), 6);
    assert_eq!(whole.total(), 11);
}

#[test]
fn records_combine_commutatively() {
    let a = record(&["println", "vec"], &["cfg"], &[&["Debug"]]);
    let b = record(&["println"], &["derive", "cfg"], &[&["Debug", "Clone"], &["Eq"]]);
    assert!(a.can_add(&b));
    let ab = a.duplicate().add(b.duplicate());
    let ba = b.add(a);
    assert_eq!(snapshot(&ab), snapshot(&ba));
    assert_eq!(ab.macro_invocations.count_of("println"), 2);
    assert_eq!(ab.builtin_attribute_macro_invocations.count_of("cfg"), 2);
    assert_eq!(ab.derive_macro_usage.count(), 3);
    assert_eq!(ab.derive_macro_usage.total(), 4);
}

#[test]
fn records_combine_associatively() {
    let a = record(&["a", "b"], &["cfg"], &[&["X"]]);
    let b = record(&["b", "c"], &["test"], &[]);
    let c = record(&["c", "a", "a"], &["cfg", "inline"], &[&["X", "Y"], &["Z"]]);
    let left = a.duplicate().add(b.duplicate()).add(c.duplicate());
    let right = a.add(b.add(c));
    assert_eq!(snapshot(&left), snapshot(&right));
    assert_eq!(left.macro_invocations.count_of("a"), 3);
    assert_eq!(left.derive_macro_usage.count(), 3);
}

#[test]
fn the_empty_record_is_neutral() {
    let a = record(&["a"], &["cfg"], &[&["X"]]);
    let left = MacroAnalyzis::new().add(a.duplicate());
    let right = a.duplicate().add(MacroAnalyzis::new());
    assert_eq!(snapshot(&left), snapshot(&a));
    assert_eq!(snapshot(&right), snapshot(&a));
}
