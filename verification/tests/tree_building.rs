use rust_macros_analyzer::parser::{build_tree, parse_records, NodeRecord};
use rust_macros_analyzer::tree::{NodeKind, SyntaxNode};

fn record(kind: &str, start: usize, end: usize, descendants: usize) -> NodeRecord {
    NodeRecord {
        kind: kind.to_string(),
        start_byte: start,
        end_byte: end,
        start_row: 0,
        start_column: 0,
        end_row: 0,
        descendants,
    }
}

fn shape(node: &SyntaxNode) -> String {
    let children: Vec<String> = node.children.iter().map(shape).collect();
    format!("({}..{} {})", node.start_byte, node.end_byte, children.join(""))
}

#[test]
fn a_tree_is_built_from_its_nodes_in_walk_order() {
    let records = vec![
        record("source_file", 0, 20, 6),
        record("attribute_item", 0, 7, 3),
        record("#", 0, 1, 1),
        record("identifier", 2, 6, 1),
        record("function_item", 8, 20, 2),
        record("identifier", 11, 12, 1),
    ];
    let tree = build_tree(&records, 0, records.len(), 0, 20);
    assert_eq!(shape(&tree), "(0..20 (0..7 (0..1 )(2..6 ))(8..20 (11..12 )))");
    assert_eq!(tree.kind, NodeKind::Other);
    assert_eq!(tree.children[0].kind, NodeKind::AttributeItem);
    assert_eq!(tree.children[0].children[1].kind, NodeKind::Identifier);
    assert_eq!(tree.node_count(), Some(6));
    assert!(tree.is_nested());
}

#[test]
fn the_kinds_are_told_apart_by_name() {
    assert_eq!(NodeKind::from_name(b"attribute_item"), NodeKind::AttributeItem);
    assert_eq!(NodeKind::from_name(b"macro_definition"), NodeKind::MacroDefinition);
    assert_eq!(NodeKind::from_name(b"macro_invocation"), NodeKind::MacroInvocation);
    assert_eq!(NodeKind::from_name(b"identifier"), NodeKind::Identifier);
    assert_eq!(NodeKind::from_name(b"token_tree"), NodeKind::TokenTree);
    assert_eq!(NodeKind::from_name(b"function_item"), NodeKind::Other);
    assert_eq!(NodeKind::from_name(b""), NodeKind::Other);
}

#[test]
fn subtree_sizes_are_brought_into_their_parent() {
    // The second node claims more nodes than its parent has left, the third
    // one claims none.
    let records = vec![
        record("a", 0, 9, 4),
        record("b", 0, 4, 9),
        record("c", 1, 2, 0),
        record("d", 2, 3, 1),
    ];
    let tree = build_tree(&records, 0, records.len(), 0, 9);
    assert_eq!(shape(&tree), "(0..9 (0..4 (1..2 )(2..3 )))");
    assert_eq!(tree.node_count(), Some(4));
    // A root that claims fewer nodes than there are still takes them all.
    let records = vec![record("a", 0, 9, 1), record("b", 0, 4, 1), record("c", 5, 6, 1)];
    let tree = build_tree(&records, 0, records.len(), 0, 9);
    assert_eq!(shape(&tree), "(0..9 (0..4 )(5..6 ))");
}

#[test]
fn spans_are_brought_into_their_place() {
    let records = vec![
        record("a", 2, 30, 4),
        // Starts before its parent.
        record("b", 0, 5, 1),
        // Overlaps the sibling before it.
        record("c", 3, 8, 1),
        // Ends after its parent, and before it starts.
        record("d", 12, 4, 1),
    ];
    let tree = build_tree(&records, 0, records.len(), 0, 10);
    assert_eq!(shape(&tree), "(2..10 (2..5 )(5..8 )(10..10 ))");
    assert!(tree.is_nested());
    let within = build_tree(&records, 0, records.len(), 4, 6);
    assert_eq!(shape(&within), "(4..6 (4..5 )(5..6 )(6..6 ))");
}

#[test]
fn the_parser_hands_out_its_nodes_in_walk_order() {
    let source = "fn f() {}";
    let records = parse_records(source.as_bytes()).unwrap();
    assert_eq!(records[0].kind, "source_file");
    assert_eq!(records[0].descendants, records.len());
    assert_eq!((records[0].start_byte, records[0].end_byte), (0, source.len()));
    assert_eq!(records[1].kind, "function_item");
    assert_eq!(records[1].descendants, records.len() - 1);
    assert_eq!(records[2].kind, "fn");
    assert_eq!((records[2].start_byte, records[2].end_byte), (0, 2));
    assert_eq!(records[3].kind, "identifier");
    let last = records.last().unwrap();
    assert_eq!(last.kind, "}");
    assert_eq!(last.descendants, 1);
    for (i, record) in records.iter().enumerate() {
        assert!(record.descendants >= 1 && i + record.descendants <= records.len());
        assert!(record.start_byte <= record.end_byte && record.end_byte <= source.len());
    }
    let rows = parse_records(b"fn f() {\n}\n").unwrap();
    assert_eq!((rows[0].start_row, rows[0].end_row), (0, 2));
    assert_eq!((rows[1].start_row, rows[1].end_row), (0, 1));
    let columns = parse_records(b"  fn f() {}\n").unwrap();
    assert_eq!((columns[1].start_row, columns[1].start_column), (0, 2));
    assert_eq!(columns[3].kind, "identifier");
    assert_eq!(columns[3].start_column, 5);
}
