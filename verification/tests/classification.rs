use rust_macros_analyzer::analyzis::MacroAnalyzis;
use rust_macros_analyzer::classifier::{count_file_macro_usage, count_macro_usage};
use rust_macros_analyzer::error::ErrorMessage;
use rust_macros_analyzer::tree::{
    collect_identifiers, find_identifier, find_next_non_macro, NodeKind, Point, SyntaxNode,
};
use rust_macros_analyzer::usage::MacroUsage;
use rust_macros_analyzer::utils::parse_file;

fn classify(source: &str) -> MacroAnalyzis {
    let tree = parse_file(source.as_bytes()).expect("the source parses");
    count_macro_usage(&tree, source.as_bytes()).expect("the source classifies")
}

fn entries(usage: &MacroUsage) -> Vec<(String, usize)> {
    let mut all = Vec::new();
    let mut i = 0;
    while let Some((name, count)) = usage.entry(i) {
        all.push((String::from_utf8(name).unwrap(), count));
        i += 1;
    }
    all.sort();
    all
}

fn snapshot(record: &MacroAnalyzis) -> Vec<Vec<(String, usize)>> {
    vec![
        entries(&record.attribute_macro_definitions),
        entries(&record.declarative_macro_definitions),
        entries(&record.procedural_macro_definitions),
        entries(&record.derive_macro_definitions),
        entries(record.derive_macro_usage.derives()),
        entries(&record.attribute_macro_invocations),
        entries(&record.builtin_attribute_macro_invocations),
        entries(&record.macro_invocations),
        vec![
            ("count".to_string(), record.derive_macro_usage.count()),
            ("total".to_string(), record.derive_macro_usage.total()),
        ],
    ]
}

/// A node spanning `text` at its first occurrence in `source`.
fn at(source: &str, text: &str, kind: NodeKind, children: Vec<SyntaxNode>) -> SyntaxNode {
    let start = source.find(text).expect("the text occurs");
    SyntaxNode {
        kind,
        start_byte: start,
        end_byte: start + text.len(),
        start_row: 0,
        start_column: 0,
        end_row: 0,
        children,
    }
}

fn root(children: Vec<SyntaxNode>) -> SyntaxNode {
    SyntaxNode {
        kind: NodeKind::Other,
        start_byte: 0,
        end_byte: 0,
        start_row: 0,
        start_column: 0,
        end_row: 0,
        children,
    }
}

/// An attribute item `#[name]` or `#[name(args)]` as the grammar shapes it.
fn attribute(source: &str, whole: &str, name: &str, arguments: Option<Vec<SyntaxNode>>) -> SyntaxNode {
    let mut inner = vec![at(source, name, NodeKind::Identifier, vec![])];
    if let Some(arguments) = arguments {
        inner.push(at(source, whole, NodeKind::TokenTree, arguments));
    }
    at(
        source,
        whole,
        NodeKind::AttributeItem,
        vec![
            at(source, "#", NodeKind::Other, vec![]),
            at(source, "[", NodeKind::Other, vec![]),
            at(source, whole, NodeKind::Other, inner),
            at(source, "]", NodeKind::Other, vec![]),
        ],
    )
}

#[test]
fn a_builtin_attribute_goes_to_the_builtin_bucket() {
    let record = classify("#[cfg(test)]\nmod tests {}\n");
    assert_eq!(record.builtin_attribute_macro_invocations.count_of("cfg"), 1);
    assert_eq!(record.attribute_macro_invocations.len(), 0);
}

#[test]
fn a_custom_attribute_goes_to_the_attribute_bucket() {
    let record = classify("#[my_custom_attr]\nfn f() {}\n");
    assert_eq!(record.attribute_macro_invocations.count_of("my_custom_attr"), 1);
    assert_eq!(record.builtin_attribute_macro_invocations.len(), 0);
}

#[test]
fn tool_attributes_are_counted_under_their_prefix() {
    let record = classify("#[rustfmt::skip]\nfn f() {}\n#[clippy::pedantic]\nfn g() {}\n");
    assert_eq!(record.builtin_attribute_macro_invocations.count_of("rustfmt::"), 1);
    assert_eq!(record.builtin_attribute_macro_invocations.count_of("clippy::"), 1);
    assert_eq!(record.attribute_macro_invocations.len(), 0);
}

#[test]
fn macro_definitions_and_invocations_are_counted() {
    let source = "macro_rules! twice { ($e:expr) => { $e; $e } }\n\
                  fn main() { println!(\"a\"); println!(\"b\"); let v = vec![1]; twice!(v); }\n";
    let record = classify(source);
    assert_eq!(entries(&record.declarative_macro_definitions), vec![("twice".to_string(), 1)]);
    assert_eq!(
        entries(&record.macro_invocations),
        vec![("println".to_string(), 2), ("twice".to_string(), 1), ("vec".to_string(), 1)]
    );
}

#[test]
fn derives_feed_the_running_statistic() {
    let source = "#[derive(Debug, Clone)]\nstruct A;\n#[derive(Debug)]\nstruct B;\n\
                  mod m { #[derive(PartialEq, Eq, Hash)] pub struct C; }\n";
    let record = classify(source);
    assert_eq!(record.derive_macro_usage.count(), 3);
    assert_eq!(record.derive_macro_usage.total(), 6);
    assert_eq!(
        entries(record.derive_macro_usage.derives()),
        vec![
            ("Clone".to_string(), 1),
            ("Debug".to_string(), 2),
            ("Eq".to_string(), 1),
            ("Hash".to_string(), 1),
            ("PartialEq".to_string(), 1),
        ]
    );
    assert_eq!(record.builtin_attribute_macro_invocations.count_of("derive"), 3);
}

#[test]
fn a_definition_is_named_after_the_item_behind_the_attributes() {
    let source = "#[doc = \"Derives it.\"]\n#[allow(unused)]\n#[proc_macro_derive(MyTrait)]\n\
                  pub fn my_derive(input: TokenStream) -> TokenStream { input }\n";
    let record = classify(source);
    assert_eq!(entries(&record.derive_macro_definitions), vec![("my_derive".to_string(), 1)]);
    assert_eq!(record.builtin_attribute_macro_invocations.count_of("proc_macro_derive"), 1);
    assert_eq!(record.builtin_attribute_macro_invocations.count_of("doc"), 1);
    assert_eq!(record.builtin_attribute_macro_invocations.count_of("allow"), 1);
}

#[test]
fn a_definition_marker_looks_past_the_attributes_after_it() {
    let source = "#[proc_macro_attribute]\n#[doc(hidden)]\n#[inline]\n\
                  pub fn route(args: TokenStream, input: TokenStream) -> TokenStream { input }\n\
                  #[proc_macro]\npub fn sql(input: TokenStream) -> TokenStream { input }\n";
    let record = classify(source);
    assert_eq!(entries(&record.attribute_macro_definitions), vec![("route".to_string(), 1)]);
    assert_eq!(entries(&record.procedural_macro_definitions), vec![("sql".to_string(), 1)]);
    assert_eq!(record.derive_macro_definitions.len(), 0);
}

#[test]
fn classification_is_repeatable() {
    let source = "#[derive(Debug)]\nstruct A;\n#[cfg(test)]\nmod t { fn f() { assert!(true); } }\n\
                  macro_rules! m { () => {} }\n#[custom]\nfn g() { m!(); }\n";
    let first = classify(source);
    let second = classify(source);
    assert_eq!(snapshot(&first), snapshot(&second));
    assert_eq!(first.macro_invocations.count_of("assert"), 1);
    assert_eq!(first.attribute_macro_invocations.count_of("custom"), 1);
}

#[test]
fn a_file_is_the_combination_of_its_parts() {
    let a = "#[derive(Debug)]\nstruct A;\nfn f() { println!(\"x\"); }\n";
    let b = "#[derive(Clone, Copy)]\nstruct B;\n#[test]\nfn t() { assert_eq!(1, 1); }\n";
    let whole = format!("{}{}", a, b);
    let combined = classify(a).add(classify(b));
    assert_eq!(snapshot(&combined), snapshot(&classify(&whole)));
}

#[test]
fn a_derive_without_arguments_is_an_error() {
    let source = "#[derive]";
    let tree = root(vec![attribute(source, "#[derive]", "derive", None)]);
    let error = count_macro_usage(&tree, source.as_bytes()).unwrap_err();
    assert_eq!(error.message, ErrorMessage::DeriveMacroExpectedTokenTree);
    assert!(error.path.is_none());
}

#[test]
fn a_definition_without_identifier_is_an_error() {
    let source = "#[proc_macro] {}";
    let tree = root(vec![
        attribute(source, "#[proc_macro]", "proc_macro", None),
        at(source, "{}", NodeKind::Other, vec![at(source, "{", NodeKind::Other, vec![])]),
    ]);
    let error = count_macro_usage(&tree, source.as_bytes()).unwrap_err();
    assert_eq!(error.message, ErrorMessage::FailedToFindMacroIdentifier(Point { row: 0, column: 0 }));
}

#[test]
fn a_definition_marker_without_an_item_is_an_error() {
    let source = "#[proc_macro]";
    let tree = root(vec![attribute(source, "#[proc_macro]", "proc_macro", None)]);
    let error = count_macro_usage(&tree, source.as_bytes()).unwrap_err();
    assert_eq!(error.message, ErrorMessage::FailedToFindMacroIdentifier(Point { row: 0, column: 0 }));
    // Nothing but attributes behind the marker is no item either.
    let source = "#[proc_macro_derive(A)] #[doc(hidden)]";
    let tree = root(vec![
        attribute(source, "#[proc_macro_derive(A)]", "proc_macro_derive", None),
        attribute(source, "#[doc(hidden)]", "doc", None),
    ]);
    let error = count_macro_usage(&tree, source.as_bytes()).unwrap_err();
    assert_eq!(error.message, ErrorMessage::FailedToFindMacroIdentifier(Point { row: 0, column: 0 }));
    let parsed = count_file_macro_usage(b"#[proc_macro_attribute]\n", "src/lib.rs").unwrap_err();
    assert_eq!(parsed.message, ErrorMessage::FailedToFindMacroIdentifier(Point { row: 0, column: 0 }));
    assert_eq!(parsed.path.as_deref(), Some("src/lib.rs"));
    let placed = count_file_macro_usage(b"fn f() {}\n\n  #[proc_macro]\n", "a.rs").unwrap_err();
    assert_eq!(
        placed.message,
        ErrorMessage::FailedToFindMacroIdentifier(Point { row: 2, column: 2 })
    );
    assert_eq!(
        placed.describe(),
        "[Path: a.rs] Error: FailedToFindMacroIdentifier(Point { row: 2, column: 2 })"
    );
}

#[test]
fn an_attribute_without_a_name_is_skipped() {
    let source = "#[]";
    let nameless = at(
        source,
        "#[]",
        NodeKind::AttributeItem,
        vec![at(source, "#", NodeKind::Other, vec![]), at(source, "[", NodeKind::Other, vec![])],
    );
    let record = count_macro_usage(&root(vec![nameless]), source.as_bytes()).unwrap();
    assert_eq!(record.builtin_attribute_macro_invocations.len(), 0);
    assert_eq!(record.attribute_macro_invocations.len(), 0);
}

#[test]
fn a_hand_built_derive_is_counted() {
    let source = "#[derive(Debug, Clone)] struct S;";
    let arguments = vec![
        at(source, "(", NodeKind::Other, vec![]),
        at(source, "Debug", NodeKind::Identifier, vec![]),
        at(source, ",", NodeKind::Other, vec![]),
        at(source, "Clone", NodeKind::Identifier, vec![]),
        at(source, ")", NodeKind::Other, vec![]),
    ];
    let tree = root(vec![
        attribute(source, "#[derive(Debug, Clone)]", "derive", Some(arguments)),
        at(source, "struct S;", NodeKind::Other, vec![at(source, "S", NodeKind::Identifier, vec![])]),
    ]);
    let record = count_macro_usage(&tree, source.as_bytes()).unwrap();
    assert_eq!(record.derive_macro_usage.count(), 1);
    assert_eq!(record.derive_macro_usage.total(), 2);
    assert_eq!(record.derive_macro_usage.derives().count_of("Debug"), 1);
    assert_eq!(record.derive_macro_usage.derives().count_of("Clone"), 1);
    assert_eq!(record.builtin_attribute_macro_invocations.count_of("derive"), 1);
}

#[test]
fn a_node_outside_the_source_has_no_text() {
    let source = "m!()";
    let invocation = SyntaxNode {
        kind: NodeKind::MacroInvocation,
        start_byte: 0,
        end_byte: 4,
        start_row: 0,
        start_column: 0,
        end_row: 0,
        children: vec![SyntaxNode::leaf(NodeKind::Identifier, 2, 9)],
    };
    let record = count_macro_usage(&root(vec![invocation]), source.as_bytes()).unwrap();
    assert_eq!(record.macro_invocations.count_of(""), 1);
    assert_eq!(record.macro_invocations.len(), 1);
}

#[test]
fn siblings_and_identifiers_are_found() {
    let source = "#[a] #[b] fn f() {}";
    let siblings = vec![
        attribute(source, "#[a]", "a", None),
        attribute(source, "#[b]", "b", None),
        at(
            source,
            "fn f() {}",
            NodeKind::Other,
            vec![
                at(source, "fn", NodeKind::Other, vec![]),
                at(source, "f", NodeKind::Identifier, vec![]),
                at(source, "()", NodeKind::Other, vec![]),
            ],
        ),
    ];
    assert_eq!(find_next_non_macro(&siblings, 0), Some(2));
    assert_eq!(find_next_non_macro(&siblings, 1), Some(2));
    assert_eq!(find_next_non_macro(&siblings, 2), None);
    assert_eq!(find_next_non_macro(&siblings, 7), None);
    assert_eq!(find_identifier(&siblings[2].children), Some(1));
    assert_eq!(find_identifier(&siblings[0].children), None);
    assert_eq!(collect_identifiers(&siblings[2].children, source.as_bytes()), vec![b"f".to_vec()]);
    assert_eq!(siblings[2].text(source.as_bytes()), b"fn f() {}".to_vec());
    assert_eq!(siblings[2].child_count(), 3);
}

#[test]
fn a_file_error_names_the_file() {
    let source = "#[derive]\nstruct S;\n";
    let outcome = count_file_macro_usage(source.as_bytes(), "src/lib.rs");
    match outcome {
        Ok(record) => {
            // The grammar gave the attribute an argument list after all.
            assert_eq!(record.builtin_attribute_macro_invocations.count_of("derive"), 1);
        },
        Err(error) => {
            assert_eq!(error.message, ErrorMessage::DeriveMacroExpectedTokenTree);
            assert_eq!(error.path.as_deref(), Some("src/lib.rs"));
        },
    }
    let fine = count_file_macro_usage(b"fn f() { println!(); }", "a.rs").unwrap();
    assert_eq!(fine.macro_invocations.count_of("println"), 1);
}

#[test]
fn the_parser_gives_a_tree_of_the_source() {
    let source = "fn f() {}\n#[test]\nfn g() {}\n";
    let tree = parse_file(source.as_bytes()).unwrap();
    assert_eq!(tree.start_byte, 0);
    assert_eq!(tree.end_byte, source.len());
    assert_eq!(tree.children.len(), 3);
    assert_eq!(tree.children[1].kind, NodeKind::AttributeItem);
    assert_eq!(tree.children[1].text(source.as_bytes()), b"#[test]".to_vec());
    assert_eq!(tree.children[1].start_row, 1);
    assert_eq!(tree.children[1].end_row, 1);
    assert_eq!(tree.children[1].children.len(), 4);
    let name = &tree.children[1].children[2].children[0];
    assert_eq!(name.kind, NodeKind::Identifier);
    assert_eq!(name.text(source.as_bytes()), b"test".to_vec());
    let function = &tree.children[2];
    assert_eq!(function.start_row, 2);
    let identifier = find_identifier(&function.children).unwrap();
    assert_eq!(function.children[identifier].text(source.as_bytes()), b"g".to_vec());
}
