//! Syntax trees: the typed nodes of one parsed file, each with its place in
//! the source.

use vstd::prelude::*;
use vstd::string::StringSliceAdditionalSpecFns;

use crate::text::{copy_between, name_is, text_between};

verus! {

/// The kinds of node that the analyses tell apart.
#[derive(Clone, Copy, Debug, PartialEq, Eq, Structural)]
pub enum NodeKind {
    AttributeItem,
    MacroDefinition,
    MacroInvocation,
    Identifier,
    TokenTree,
    Other,
}

/// The kind that the grammar's name of a node stands for.
pub open spec fn kind_of_name(name: Seq<u8>) -> NodeKind {
    if name == "attribute_item".spec_bytes() {
        NodeKind::AttributeItem
    } else if name == "macro_definition".spec_bytes() {
        NodeKind::MacroDefinition
    } else if name == "macro_invocation".spec_bytes() {
        NodeKind::MacroInvocation
    } else if name == "identifier".spec_bytes() {
        NodeKind::Identifier
    } else if name == "token_tree".spec_bytes() {
        NodeKind::TokenTree
    } else {
        NodeKind::Other
    }
}

impl NodeKind {
    /// The kind that the grammar's name of a node stands for.
    pub fn from_name(name: &[u8]) -> (kind: NodeKind)
        ensures
            kind == kind_of_name(name@),
    {
        if name_is(name, "attribute_item") {
            NodeKind::AttributeItem
        } else if name_is(name, "macro_definition") {
            NodeKind::MacroDefinition
        } else if name_is(name, "macro_invocation") {
            NodeKind::MacroInvocation
        } else if name_is(name, "identifier") {
            NodeKind::Identifier
        } else if name_is(name, "token_tree") {
            NodeKind::TokenTree
        } else {
            NodeKind::Other
        }
    }
}

/// A place in a source text: a row and a column, both counted from zero.
#[derive(Clone, Copy, Debug, PartialEq, Eq, Structural)]
pub struct Point {
    pub row: usize,
    pub column: usize,
}

/// A node of a syntax tree: its kind, the bytes and the rows of the source
/// that it spans, the column at which it starts, and its children in source
/// order.
#[derive(Debug)]
pub struct SyntaxNode {
    pub kind: NodeKind,
    pub start_byte: usize,
    pub end_byte: usize,
    pub start_row: usize,
    pub start_column: usize,
    pub end_row: usize,
    pub children: Vec<SyntaxNode>,
}

/// What a `SyntaxNode` holds, as a mathematical tree.
pub ghost struct TreeView {
    pub kind: NodeKind,
    pub start_byte: usize,
    pub end_byte: usize,
    pub start_row: usize,
    pub start_column: usize,
    pub end_row: usize,
    pub children: Seq<TreeView>,
}

/// The mathematical tree of a node.
pub open spec fn tree_of(node: SyntaxNode) -> TreeView
    decreases node,
{
    TreeView {
        kind: node.kind,
        start_byte: node.start_byte,
        end_byte: node.end_byte,
        start_row: node.start_row,
        start_column: node.start_column,
        end_row: node.end_row,
        children: Seq::new(
            node.children@.len(),
            |i: int|
                if 0 <= i < node.children@.len() {
                    tree_of(node.children@[i])
                } else {
                    arbitrary()
                },
        ),
    }
}

impl View for SyntaxNode {
    type V = TreeView;

    open spec fn view(&self) -> TreeView {
        tree_of(*self)
    }
}

/// The place at which a node starts.
pub open spec fn start_point(t: TreeView) -> Point {
    Point { row: t.start_row, column: t.start_column }
}

/// The trees that a list of nodes holds.
pub open spec fn trees_of(nodes: Seq<SyntaxNode>) -> Seq<TreeView> {
    Seq::new(nodes.len(), |i: int| nodes[i]@)
}

/// The children of a node's tree are the trees of its children.
pub proof fn lemma_view_children(node: &SyntaxNode)
    ensures
        node@.children == trees_of(node.children@),
{
    assert(node@.children =~= trees_of(node.children@));
}

/// The number of nodes of a tree.
pub open spec fn size(t: TreeView) -> nat
    decreases t, 0nat,
{
    1 + sizes(t.children, t.children.len() as int)
}

/// The number of nodes of the first `k` trees of `s`.
pub open spec fn sizes(s: Seq<TreeView>, k: int) -> nat
    decreases s, k,
{
    if k <= 0 || k > s.len() {
        0
    } else {
        sizes(s, k - 1) + size(s[k - 1])
    }
}

/// The number of children of the first `k` trees of `s`.
pub open spec fn child_counts(s: Seq<TreeView>, k: int) -> nat
    decreases k,
{
    if k <= 0 || k > s.len() {
        0
    } else {
        child_counts(s, k - 1) + s[k - 1].children.len()
    }
}

/// The number of grandchildren of the first `k` trees of `s`.
pub open spec fn grandchild_counts(s: Seq<TreeView>, k: int) -> nat
    decreases k,
{
    if k <= 0 || k > s.len() {
        0
    } else {
        grandchild_counts(s, k - 1) + child_counts(
            s[k - 1].children,
            s[k - 1].children.len() as int,
        )
    }
}

/// The number of names that an attribute item can derive: the number of
/// nodes directly under its argument list, the second child of its third
/// child.
pub open spec fn derive_weight(t: TreeView) -> nat {
    if t.children.len() > 2 && t.children[2].children.len() > 1 {
        t.children[2].children[1].children.len()
    } else {
        0
    }
}

/// The sum of the derive weights of all the nodes below the root of `t`.
pub open spec fn derive_budget(t: TreeView) -> nat
    decreases t, 0nat,
{
    derive_budgets(t.children, t.children.len() as int)
}

/// The sum of the derive weights of the first `k` trees of `s` and of all
/// the nodes below them.
pub open spec fn derive_budgets(s: Seq<TreeView>, k: int) -> nat
    decreases s, k,
{
    if k <= 0 || k > s.len() {
        0
    } else {
        derive_budgets(s, k - 1) + derive_weight(s[k - 1]) + derive_budget(s[k - 1])
    }
}

/// More trees have no fewer nodes.
pub proof fn lemma_sizes_monotone(s: Seq<TreeView>, j: int, k: int)
    requires
        0 <= j <= k <= s.len(),
    ensures
        sizes(s, j) <= sizes(s, k),
    decreases k - j,
{
    if j < k {
        lemma_sizes_monotone(s, j, k - 1);
    }
}

/// The children of one of the first `k` trees are among the children of them
/// all.
proof fn lemma_child_counts_term(s: Seq<TreeView>, j: int, k: int)
    requires
        0 <= j < k <= s.len(),
    ensures
        s[j].children.len() <= child_counts(s, k),
    decreases k,
{
    if j < k - 1 {
        lemma_child_counts_term(s, j, k - 1);
    }
}

/// The grandchildren of one of the first `k` trees are among the
/// grandchildren of them all.
proof fn lemma_grandchild_counts_term(s: Seq<TreeView>, j: int, k: int)
    requires
        0 <= j < k <= s.len(),
    ensures
        child_counts(s[j].children, s[j].children.len() as int) <= grandchild_counts(s, k),
    decreases k,
{
    if j < k - 1 {
        lemma_grandchild_counts_term(s, j, k - 1);
    }
}

/// The names that a node can derive are among its great-grandchildren.
proof fn lemma_derive_weight(t: TreeView)
    ensures
        derive_weight(t) <= grandchild_counts(t.children, t.children.len() as int),
{
    if t.children.len() > 2 && t.children[2].children.len() > 1 {
        let attribute = t.children[2];
        lemma_child_counts_term(attribute.children, 1, attribute.children.len() as int);
        lemma_grandchild_counts_term(t.children, 2, t.children.len() as int);
    }
}

/// The derive budget of a tree counts nodes that lie at least three levels
/// below the root, each at most once: with the root, its children and its
/// grandchildren it stays within the size of the tree.
pub proof fn lemma_derive_budget(t: TreeView)
    ensures
        derive_budget(t) + 1 + t.children.len() + child_counts(
            t.children,
            t.children.len() as int,
        ) + grandchild_counts(t.children, t.children.len() as int) <= size(t),
        derive_budget(t) < size(t),
    decreases t, 0nat,
{
    lemma_derive_budgets(t.children, t.children.len() as int);
}

/// `lemma_derive_budget`, for the first `k` trees of `s`.
pub proof fn lemma_derive_budgets(s: Seq<TreeView>, k: int)
    requires
        0 <= k <= s.len(),
    ensures
        derive_budgets(s, k) + k + child_counts(s, k) + grandchild_counts(s, k) <= sizes(s, k),
    decreases s, k,
{
    if k > 0 {
        lemma_derive_budgets(s, k - 1);
        lemma_derive_budget(s[k - 1]);
        lemma_derive_weight(s[k - 1]);
    }
}

/// Where the span of the `k`-th of `siblings` may start: where the one before
/// it ends, or at `lo` for the first one.
pub open spec fn floor_at(siblings: Seq<TreeView>, k: int, lo: usize) -> usize {
    if 0 < k <= siblings.len() {
        siblings[k - 1].end_byte
    } else {
        lo
    }
}

/// Whether the spans of a tree are nested: every node starts before it
/// ends, its children lie inside it, and each child ends before the next one
/// starts.
pub open spec fn spans_nested(t: TreeView) -> bool
    decreases t, 0nat,
{
    &&& t.start_byte <= t.end_byte
    &&& children_nested(t.children, t.children.len() as int, t.start_byte, t.end_byte)
}

/// Whether the first `k` of `siblings` have nested spans, lie in `[lo, hi]`
/// and follow each other.
pub open spec fn children_nested(siblings: Seq<TreeView>, k: int, lo: usize, hi: usize) -> bool
    decreases siblings, k,
{
    if k <= 0 || k > siblings.len() {
        true
    } else {
        &&& children_nested(siblings, k - 1, lo, hi)
        &&& spans_nested(siblings[k - 1])
        &&& floor_at(siblings, k - 1, lo) <= siblings[k - 1].start_byte
        &&& siblings[k - 1].end_byte <= hi
    }
}

/// Among siblings with nested spans, every one lies in `[lo, hi]`, has nested
/// spans itself, and ends before any later one starts.
pub proof fn lemma_children_nested(siblings: Seq<TreeView>, k: int, lo: usize, hi: usize)
    requires
        0 <= k <= siblings.len(),
        children_nested(siblings, k, lo, hi),
    ensures
        forall|i: int|
            0 <= i < k ==> spans_nested(#[trigger] siblings[i]) && lo <= siblings[i].start_byte
                <= siblings[i].end_byte <= hi,
        forall|i: int, j: int|
            0 <= i < j < k ==> (#[trigger] siblings[i]).end_byte <= (
            #[trigger] siblings[j]).start_byte,
        forall|i: int| 0 <= i <= k ==> children_nested(siblings, i, lo, hi),
        forall|i: int|
            0 <= i < k ==> lo <= #[trigger] floor_at(siblings, i, lo) <= siblings[i].start_byte,
    decreases k,
{
    if k > 0 {
        lemma_children_nested(siblings, k - 1, lo, hi);
        if k >= 2 {
            assert(siblings[k - 2].end_byte <= siblings[k - 1].start_byte);
        }
    }
}

/// Whether siblings are nested does not depend on the siblings after them.
pub proof fn lemma_children_nested_push(
    siblings: Seq<TreeView>,
    t: TreeView,
    k: int,
    lo: usize,
    hi: usize,
)
    requires
        0 <= k <= siblings.len(),
    ensures
        children_nested(siblings.push(t), k, lo, hi) == children_nested(siblings, k, lo, hi),
    decreases k,
{
    if k > 0 {
        lemma_children_nested_push(siblings, t, k - 1, lo, hi);
        assert(siblings.push(t)[k - 1] == siblings[k - 1]);
        if k >= 2 {
            assert(siblings.push(t)[k - 2] == siblings[k - 2]);
        }
    }
}

/// The number of nodes of some trees does not depend on the trees after
/// them.
pub proof fn lemma_sizes_push(s: Seq<TreeView>, t: TreeView, k: int)
    requires
        0 <= k <= s.len(),
    ensures
        sizes(s.push(t), k) == sizes(s, k),
        k == s.len() ==> sizes(s.push(t), k + 1) == sizes(s, k) + size(t),
    decreases k,
{
    if k > 0 {
        lemma_sizes_push(s, t, k - 1);
        assert(s.push(t)[k - 1] == s[k - 1]);
    }
    if k == s.len() {
        assert(s.push(t)[k] == t);
    }
}

/// The source text that a node spans; nothing if the node does not lie
/// inside the source.
pub open spec fn node_text(t: TreeView, bytes: Seq<u8>) -> Seq<u8> {
    text_between(bytes, t.start_byte as int, t.end_byte as int)
}

/// The first sibling after position `i` that is not an attribute item.
pub open spec fn next_non_attribute(siblings: Seq<TreeView>, i: int) -> Option<int>
    decreases siblings.len() - i,
{
    if i < -1 || i + 1 >= siblings.len() {
        None
    } else if siblings[i + 1].kind != NodeKind::AttributeItem {
        Some(i + 1)
    } else {
        next_non_attribute(siblings, i + 1)
    }
}

/// The position of the first identifier among the first `k` of `children`.
pub open spec fn first_identifier(children: Seq<TreeView>, k: int) -> Option<int>
    decreases k,
{
    if k <= 0 || k > children.len() {
        None
    } else {
        match first_identifier(children, k - 1) {
            Some(j) => Some(j),
            None => if children[k - 1].kind == NodeKind::Identifier {
                Some(k - 1)
            } else {
                None
            },
        }
    }
}

/// The texts of the identifiers among the first `k` of `children`, in
/// source order.
pub open spec fn identifier_names(children: Seq<TreeView>, bytes: Seq<u8>, k: int) -> Seq<Seq<u8>>
    decreases k,
{
    if k <= 0 || k > children.len() {
        Seq::empty()
    } else if children[k - 1].kind == NodeKind::Identifier {
        identifier_names(children, bytes, k - 1).push(node_text(children[k - 1], bytes))
    } else {
        identifier_names(children, bytes, k - 1)
    }
}

impl SyntaxNode {
    /// A node without children.
    pub fn leaf(kind: NodeKind, start_byte: usize, end_byte: usize) -> (node: Self)
        ensures
            node.kind == kind,
            node.start_byte == start_byte,
            node.end_byte == end_byte,
            node.start_row == 0,
            node.start_column == 0,
            node.end_row == 0,
            node.children@.len() == 0,
    {
        SyntaxNode {
            kind,
            start_byte,
            end_byte,
            start_row: 0,
            start_column: 0,
            end_row: 0,
            children: Vec::new(),
        }
    }

    /// The source text that the node spans.
    pub fn text(&self, bytes: &[u8]) -> (text: Vec<u8>)
        ensures
            text@ == node_text(self@, bytes@),
    {
        copy_between(bytes, self.start_byte, self.end_byte)
    }

    /// The number of nodes of the tree, where it fits the machine's range.
    pub fn node_count(&self) -> (count: Option<usize>)
        ensures
            match count {
                Some(n) => n == size(self@),
                None => size(self@) > usize::MAX,
            },
        decreases self,
    {
        let ghost siblings = trees_of(self.children@);
        proof {
            lemma_view_children(self);
        }
        let mut total: usize = 1;
        let mut i: usize = 0;
        while i < self.children.len()
            invariant
                i <= self.children@.len(),
                siblings == trees_of(self.children@),
                siblings == self@.children,
                total == 1 + sizes(siblings, i as int),
            decreases self.children@.len() - i,
        {
            proof {
                lemma_sizes_monotone(siblings, i as int + 1, siblings.len() as int);
            }
            let below = match self.children[i].node_count() {
                Some(below) => below,
                None => {
                    return None;
                },
            };
            if below > usize::MAX - total {
                return None;
            }
            total = total + below;
            i += 1;
        }
        Some(total)
    }

    /// Decides `spans_nested`.
    pub fn is_nested(&self) -> (yes: bool)
        ensures
            yes == spans_nested(self@),
        decreases self,
    {
        let ghost siblings = trees_of(self.children@);
        proof {
            lemma_view_children(self);
        }
        if self.start_byte > self.end_byte {
            return false;
        }
        let mut floor: usize = self.start_byte;
        let mut i: usize = 0;
        while i < self.children.len()
            invariant
                i <= self.children@.len(),
                siblings == trees_of(self.children@),
                siblings == self@.children,
                self@.start_byte <= self@.end_byte,
                floor == floor_at(siblings, i as int, self@.start_byte),
                children_nested(siblings, i as int, self@.start_byte, self@.end_byte),
            decreases self.children@.len() - i,
        {
            let child = &self.children[i];
            let ok = child.is_nested() && floor <= child.start_byte && child.end_byte
                <= self.end_byte;
            if !ok {
                proof {
                    let n = siblings.len() as int;
                    if children_nested(siblings, n, self@.start_byte, self@.end_byte) {
                        lemma_children_nested(siblings, n, self@.start_byte, self@.end_byte);
                        assert(children_nested(
                            siblings,
                            i as int + 1,
                            self@.start_byte,
                            self@.end_byte,
                        ));
                    }
                }
                return false;
            }
            floor = child.end_byte;
            i += 1;
        }
        true
    }

    /// The place at which the node starts.
    pub fn start(&self) -> (point: Point)
        ensures
            point == start_point(self@),
    {
        Point { row: self.start_row, column: self.start_column }
    }

    /// The number of children.
    pub fn child_count(&self) -> (n: usize)
        ensures
            n == self@.children.len(),
    {
        self.children.len()
    }
}

/// The first sibling after position `i` that is not an attribute item: the
/// item that a stack of attributes decorates.
pub fn find_next_non_macro(siblings: &Vec<SyntaxNode>, i: usize) -> (next: Option<usize>)
    ensures
        match next {
            Some(j) => next_non_attribute(trees_of(siblings@), i as int) == Some(j as int) && i < j
                < siblings@.len(),
            None => next_non_attribute(trees_of(siblings@), i as int).is_none(),
        },
{
    let ghost trees = trees_of(siblings@);
    if i >= siblings.len() {
        return None;
    }
    let mut j: usize = i + 1;
    while j < siblings.len()
        invariant
            i < j <= siblings@.len(),
            trees == trees_of(siblings@),
            next_non_attribute(trees, i as int) == next_non_attribute(trees, j as int - 1),
        decreases siblings@.len() - j,
    {
        if siblings[j].kind != NodeKind::AttributeItem {
            return Some(j);
        }
        j += 1;
    }
    None
}

/// The position of the first identifier among `children`.
pub fn find_identifier(children: &Vec<SyntaxNode>) -> (found: Option<usize>)
    ensures
        match found {
            Some(j) => first_identifier(trees_of(children@), children@.len() as int) == Some(
                j as int,
            ) && j < children@.len(),
            None => first_identifier(trees_of(children@), children@.len() as int).is_none(),
        },
{
    let ghost trees = trees_of(children@);
    let mut j: usize = 0;
    while j < children.len()
        invariant
            j <= children@.len(),
            trees == trees_of(children@),
            first_identifier(trees, j as int).is_none(),
        decreases children@.len() - j,
    {
        if children[j].kind == NodeKind::Identifier {
            proof {
                lemma_first_identifier_stays(trees, j as int + 1, children@.len() as int);
            }
            return Some(j);
        }
        j += 1;
    }
    None
}

/// Once an identifier is found among the first `k` children, it is the one
/// found among any more of them.
pub proof fn lemma_first_identifier_stays(children: Seq<TreeView>, k: int, n: int)
    requires
        0 <= k <= n <= children.len(),
        first_identifier(children, k).is_some(),
    ensures
        first_identifier(children, n) == first_identifier(children, k),
    decreases n - k,
{
    if k < n {
        lemma_first_identifier_stays(children, k, n - 1);
    }
}

/// The texts of the identifiers among `children`, in source order.
pub fn collect_identifiers(children: &Vec<SyntaxNode>, bytes: &[u8]) -> (names: Vec<Vec<u8>>)
    ensures
        crate::usage::byte_names(names@) == identifier_names(
            trees_of(children@),
            bytes@,
            children@.len() as int,
        ),
        names@.len() <= children@.len(),
{
    let ghost trees = trees_of(children@);
    let mut names: Vec<Vec<u8>> = Vec::new();
    let mut j: usize = 0;
    assert(crate::usage::byte_names(names@) =~= identifier_names(trees, bytes@, 0));
    while j < children.len()
        invariant
            j <= children@.len(),
            trees == trees_of(children@),
            names@.len() <= j,
            crate::usage::byte_names(names@) == identifier_names(trees, bytes@, j as int),
        decreases children@.len() - j,
    {
        if children[j].kind == NodeKind::Identifier {
            let text = children[j].text(bytes);
            let ghost before = crate::usage::byte_names(names@);
            names.push(text);
            assert(crate::usage::byte_names(names@) =~= before.push(text@));
        }
        j += 1;
    }
    names
}

} // verus!
