//! The tree provider: the Rust grammar of tree-sitter, and how its trees are
//! read into this library's own.
//!
//! A parsed tree is read as the list of its nodes in the order of a
//! depth-first walk, each with the number of nodes in its subtree. That list
//! is all this library takes from the parser; the tree is built from it here.

use vstd::prelude::*;
use vstd::string::StringSliceAdditionalSpecFns;
use vstd::utf8::encode_utf8;

use crate::tree::{
    children_nested, floor_at, kind_of_name, lemma_children_nested_push, lemma_sizes_push,
    lemma_view_children, size, sizes, spans_nested, trees_of, NodeKind, SyntaxNode, TreeView,
};

verus! {

/// What the parser tells of one node.
#[derive(Debug)]
pub struct NodeRecord {
    /// The grammar's name of the node's kind.
    pub kind: String,
    pub start_byte: usize,
    pub end_byte: usize,
    pub start_row: usize,
    pub start_column: usize,
    pub end_row: usize,
    /// The number of nodes in the node's subtree, the node included.
    pub descendants: usize,
}

/// What a `NodeRecord` holds.
pub ghost struct NodeFacts {
    pub kind: Seq<char>,
    pub start_byte: usize,
    pub end_byte: usize,
    pub start_row: usize,
    pub start_column: usize,
    pub end_row: usize,
    pub descendants: usize,
}

impl View for NodeRecord {
    type V = NodeFacts;

    open spec fn view(&self) -> NodeFacts {
        NodeFacts {
            kind: self.kind@,
            start_byte: self.start_byte,
            end_byte: self.end_byte,
            start_row: self.start_row,
            start_column: self.start_column,
            end_row: self.end_row,
            descendants: self.descendants,
        }
    }
}

/// What a list of records holds.
pub open spec fn facts_of(records: Seq<NodeRecord>) -> Seq<NodeFacts> {
    Seq::new(records.len(), |i: int| records[i]@)
}

/// `tree_sitter::Tree`: a parsed syntax tree. Nothing of its inside is known
/// here; it is read through the functions below.
#[verifier::external_type_specification]
#[verifier::external_body]
pub struct ExTree(tree_sitter::Tree);

/// `tree_sitter::TreeCursor`: a cursor that walks a parsed syntax tree.
/// Nothing of its inside is known here.
#[verifier::external_type_specification]
#[verifier::external_body]
pub struct ExTreeCursor<'a>(tree_sitter::TreeCursor<'a>);

/// The nodes of the syntax tree that the Rust grammar gives for a source
/// text, in the order of a depth-first walk; none where the parser gives no
/// tree.
pub uninterp spec fn rust_syntax(bytes: Seq<u8>) -> Option<Seq<NodeFacts>>;

/// The nodes of a parsed tree, in the order of a depth-first walk.
pub uninterp spec fn tree_nodes(tree: tree_sitter::Tree) -> Seq<NodeFacts>;

/// The nodes of the tree that a cursor walks, in the order of a depth-first
/// walk, wherever the cursor stands.
pub uninterp spec fn cursor_nodes(cursor: tree_sitter::TreeCursor<'_>) -> Seq<NodeFacts>;

/// `Parser::new`, `Parser::set_language` with `tree_sitter_rust::language`,
/// then `Parser::parse` without an earlier tree: the tree of `bytes` under
/// the Rust grammar. A fresh parser has no time limit and no cancellation
/// flag, so the outcome depends on `bytes` alone; the contract names it.
/// Where the grammar does not fit the parser's version there is no tree.
#[verifier::external_body]
fn parse_rust(bytes: &[u8]) -> (tree: Option<tree_sitter::Tree>)
    ensures
        match tree {
            Some(t) => rust_syntax(bytes@) == Some(tree_nodes(t)),
            None => rust_syntax(bytes@).is_none(),
        },
{
    let mut parser = tree_sitter::Parser::new();
    if parser.set_language(&tree_sitter_rust::language()).is_err() {
        return None;
    }
    parser.parse(bytes, None)
}

/// `Node::descendant_count` of `Tree::root_node`: the number of nodes of the
/// tree.
#[verifier::external_body]
fn tree_node_count(tree: &tree_sitter::Tree) -> (count: usize)
    ensures
        count == tree_nodes(*tree).len(),
{
    tree.root_node().descendant_count()
}

/// `Tree::walk`: a cursor over the nodes of the tree.
#[verifier::external_body]
fn tree_walk<'a>(tree: &'a tree_sitter::Tree) -> (cursor: tree_sitter::TreeCursor<'a>)
    ensures
        cursor_nodes(cursor) == tree_nodes(*tree),
{
    tree.walk()
}

/// `TreeCursor::goto_descendant`, then `TreeCursor::node`: the `i`-th node
/// of the tree in the order of a depth-first walk, told by `Node::kind`,
/// `start_byte`, `end_byte`, `start_position`, `end_position` and
/// `descendant_count`. The cursor walks the same tree afterwards.
#[verifier::external_body]
fn cursor_record(cursor: &mut tree_sitter::TreeCursor<'_>, i: usize) -> (record: NodeRecord)
    ensures
        cursor_nodes(*final(cursor)) == cursor_nodes(*old(cursor)),
        i < cursor_nodes(*old(cursor)).len() ==> record@ == cursor_nodes(*old(cursor))[i as int],
{
    cursor.goto_descendant(i);
    let node = cursor.node();
    NodeRecord {
        kind: node.kind().to_string(),
        start_byte: node.start_byte(),
        end_byte: node.end_byte(),
        start_row: node.start_position().row,
        start_column: node.start_position().column,
        end_row: node.end_position().row,
        descendants: node.descendant_count(),
    }
}

/// Where the subtree of the node at position `at` ends, among the nodes
/// before `limit`: after as many nodes as the record says, but at least
/// after the node itself and at most at `limit`.
pub open spec fn subtree_end(nodes: Seq<NodeFacts>, at: int, limit: int) -> int {
    let count = nodes[at].descendants as int;
    if count < 1 {
        at + 1
    } else if at + count > limit {
        limit
    } else {
        at + count
    }
}

/// The number in `[lo, hi]` that is nearest to `x`.
pub open spec fn clamped(x: int, lo: int, hi: int) -> int {
    if x < lo {
        lo
    } else if x > hi {
        hi
    } else {
        x
    }
}

/// The tree of the node at position `at`, whose subtree is the nodes in
/// `[at, end)`. The span of the node is brought into `[lo, hi]`, and the
/// spans of its children into the span of the node, each behind the one
/// before it: whatever the records say, the spans of the tree are nested.
/// A span that lies in its place already stays as it is.
pub open spec fn lifted(nodes: Seq<NodeFacts>, at: int, end: int, lo: usize, hi: usize) -> TreeView
    decreases end - at, 0nat,
{
    let start = clamped(nodes[at].start_byte as int, lo as int, hi as int) as usize;
    let stop = clamped(nodes[at].end_byte as int, start as int, hi as int) as usize;
    TreeView {
        kind: kind_of_name(encode_utf8(nodes[at].kind)),
        start_byte: start,
        end_byte: stop,
        start_row: nodes[at].start_row,
        start_column: nodes[at].start_column,
        end_row: nodes[at].end_row,
        children: if at < end {
            lifted_children(nodes, at + 1, end, start, stop)
        } else {
            Seq::empty()
        },
    }
}

/// The trees of the nodes in `[from, end)` that are children of one node,
/// with their spans in `[lo, hi]`.
pub open spec fn lifted_children(
    nodes: Seq<NodeFacts>,
    from: int,
    end: int,
    lo: usize,
    hi: usize,
) -> Seq<TreeView>
    decreases end - from, 1nat,
{
    if from >= end {
        Seq::empty()
    } else {
        let next = subtree_end(nodes, from, end);
        let child = lifted(nodes, from, next, lo, hi);
        seq![child] + lifted_children(nodes, next, end, child.end_byte, hi)
    }
}

/// The tree of a source text of `len` bytes, from the nodes that the parser
/// gives for it.
pub open spec fn syntax_tree(nodes: Option<Seq<NodeFacts>>, len: usize) -> Option<TreeView> {
    match nodes {
        Some(list) => if list.len() > 0 {
            Some(lifted(list, 0, list.len() as int, 0, len))
        } else {
            None
        },
        None => None,
    }
}

/// `x`, brought into `[lo, hi]`.
fn clamp(x: usize, lo: usize, hi: usize) -> (y: usize)
    requires
        lo <= hi,
    ensures
        y == clamped(x as int, lo as int, hi as int),
        lo <= y <= hi,
{
    if x < lo {
        lo
    } else if x > hi {
        hi
    } else {
        x
    }
}

/// Builds the tree of the node at position `at`, whose subtree is the
/// records in `[at, end)`, with its spans in `[lo, hi]`.
pub fn build_tree(records: &Vec<NodeRecord>, at: usize, end: usize, lo: usize, hi: usize) -> (node:
    SyntaxNode)
    requires
        at < end <= records@.len(),
        lo <= hi,
    ensures
        node@ == lifted(facts_of(records@), at as int, end as int, lo, hi),
        size(node@) == end - at,
        spans_nested(node@),
        lo <= node.start_byte <= node.end_byte <= hi,
    decreases end - at,
{
    let ghost nodes = facts_of(records@);
    let record = &records[at];
    let start = clamp(record.start_byte, lo, hi);
    let stop = clamp(record.end_byte, start, hi);
    let mut children: Vec<SyntaxNode> = Vec::new();
    let mut from: usize = at + 1;
    let mut floor: usize = start;
    proof {
        assert(trees_of(children@) + lifted_children(
            nodes,
            from as int,
            end as int,
            floor,
            stop,
        ) =~= lifted_children(nodes, at as int + 1, end as int, start, stop));
    }
    while from < end
        invariant
            at < from <= end <= records@.len(),
            nodes == facts_of(records@),
            start <= floor <= stop,
            floor == floor_at(trees_of(children@), children@.len() as int, start),
            trees_of(children@) + lifted_children(
                nodes,
                from as int,
                end as int,
                floor,
                stop,
            ) == lifted_children(nodes, at as int + 1, end as int, start, stop),
            children_nested(
                trees_of(children@),
                children@.len() as int,
                start,
                stop,
            ),
            sizes(trees_of(children@), children@.len() as int) == from - at - 1,
        decreases end - from,
    {
        let count = records[from].descendants;
        let next = if count < 1 {
            from + 1
        } else if count > end - from {
            end
        } else {
            from + count
        };
        let child = build_tree(records, from, next, floor, stop);
        let ghost before = trees_of(children@);
        let ghost rest = lifted_children(
            nodes,
            from as int,
            end as int,
            floor,
            stop,
        );
        let child_end = child.end_byte;
        children.push(child);
        proof {
            let tree = children@[before.len() as int]@;
            assert(trees_of(children@) =~= before.push(tree));
            lemma_sizes_push(before, tree, before.len() as int);
            lemma_children_nested_push(
                before,
                tree,
                before.len() as int,
                start,
                stop,
            );
            assert(trees_of(children@) + lifted_children(
                nodes,
                next as int,
                end as int,
                child_end,
                stop,
            ) =~= before + rest);
        }
        floor = child_end;
        from = next;
    }
    let kind = NodeKind::from_name(record.kind.as_str().as_bytes());
    let node = SyntaxNode {
        kind,
        start_byte: start,
        end_byte: stop,
        start_row: record.start_row,
        start_column: record.start_column,
        end_row: record.end_row,
        children,
    };
    proof {
        lemma_view_children(&node);
        assert(trees_of(children@) =~= trees_of(children@) + lifted_children(
            nodes,
            end as int,
            end as int,
            floor,
            stop,
        ));
    }
    node
}

/// Parses `bytes` under the Rust grammar and reads the nodes of the tree.
pub fn parse_records(bytes: &[u8]) -> (records: Option<Vec<NodeRecord>>)
    ensures
        match records {
            Some(list) => rust_syntax(bytes@) == Some(facts_of(list@)),
            None => rust_syntax(bytes@).is_none(),
        },
{
    let tree = match parse_rust(bytes) {
        Some(tree) => tree,
        None => {
            return None;
        },
    };
    let count = tree_node_count(&tree);
    let mut cursor = tree_walk(&tree);
    let mut records: Vec<NodeRecord> = Vec::new();
    let mut i: usize = 0;
    while i < count
        invariant
            i <= count,
            count == tree_nodes(tree).len(),
            cursor_nodes(cursor) == tree_nodes(tree),
            records@.len() == i,
            forall|j: int| 0 <= j < i ==> (#[trigger] records@[j])@ == tree_nodes(tree)[j],
        decreases count - i,
    {
        let record = cursor_record(&mut cursor, i);
        records.push(record);
        i += 1;
    }
    assert(facts_of(records@) =~= tree_nodes(tree));
    Some(records)
}

} // verus!
