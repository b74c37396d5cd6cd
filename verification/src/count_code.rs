//! Counting the characters and the lines of code of a file.

use vstd::prelude::*;
use vstd::string::StringSliceAdditionalSpecFns;

use crate::classifier::attribute_name;
use crate::error::{Error, ErrorMessage};
use crate::parser::{rust_syntax, syntax_tree};
use crate::results::CharLineCount;
use crate::text::name_is;
use crate::tree::{
    children_nested, floor_at, lemma_children_nested, lemma_view_children, node_text,
    spans_nested, trees_of, NodeKind, SyntaxNode, TreeView,
};
use crate::utils::parse_file;

verus! {

/// Which attribute items make the count leave out what they guard.
#[derive(Clone, Copy, Debug, PartialEq, Eq, Structural)]
pub enum SkipRule {
    /// An attribute item named `cfg` or `cfg_attr` is left out together
    /// with the node that follows it; an attribute item without a name is
    /// left out alone.
    Conditional,
    /// An attribute item whose first argument is `test` or `windows` is
    /// left out together with the node that follows it.
    TestOrWindows,
}

/// What the count leaves out at one node.
#[derive(Clone, Copy, Debug, PartialEq, Eq, Structural)]
pub enum Skip {
    /// Nothing: the node is counted.
    Nothing,
    /// The node.
    Node,
    /// The node and its next sibling.
    NodeAndNext,
}

/// The first argument of an attribute item: the second child of its
/// argument list, behind the opening bracket.
pub open spec fn first_argument(node: TreeView, bytes: Seq<u8>) -> Option<Seq<u8>> {
    if node.children.len() > 2 && node.children[2].children.len() > 1
        && node.children[2].children[1].children.len() > 1 {
        Some(node_text(node.children[2].children[1].children[1], bytes))
    } else {
        None
    }
}

/// What `rule` leaves out at `node`.
pub open spec fn skipped(rule: SkipRule, node: TreeView, bytes: Seq<u8>) -> Skip {
    if node.kind != NodeKind::AttributeItem {
        Skip::Nothing
    } else {
        match rule {
            SkipRule::Conditional => match attribute_name(node, bytes) {
                None => Skip::Node,
                Some(name) => if name == "cfg".spec_bytes() || name == "cfg_attr".spec_bytes() {
                    Skip::NodeAndNext
                } else {
                    Skip::Nothing
                },
            },
            SkipRule::TestOrWindows => match first_argument(node, bytes) {
                Some(word) => if word == "test".spec_bytes() || word == "windows".spec_bytes() {
                    Skip::NodeAndNext
                } else {
                    Skip::Nothing
                },
                None => Skip::Nothing,
            },
        }
    }
}

/// The number of bytes among the first `k` of `text` that are not a space.
pub open spec fn non_spaces(text: Seq<u8>, k: int) -> nat
    decreases k,
{
    if k <= 0 || k > text.len() {
        0
    } else if text[k - 1] == 0x20u8 {
        non_spaces(text, k - 1)
    } else {
        non_spaces(text, k - 1) + 1
    }
}

/// What one counted node adds: the bytes of its text that are not a space
/// if it lies on one line, the count of its subtree if it spans several
/// lines.
pub open spec fn node_chars(node: TreeView, bytes: Seq<u8>, rule: SkipRule) -> nat
    decreases node, 1nat,
{
    if node.start_row == node.end_row {
        let text = node_text(node, bytes);
        non_spaces(text, text.len() as int)
    } else if node.children.len() > 0 {
        code_chars(node, bytes, rule)
    } else {
        0
    }
}

/// The number of characters of code below the root of `node`.
pub open spec fn code_chars(node: TreeView, bytes: Seq<u8>, rule: SkipRule) -> nat
    decreases node, 0nat,
{
    code_chars_from(node.children, bytes, rule, 0)
}

/// The number of characters of code of `siblings` from position `i` on.
pub open spec fn code_chars_from(
    siblings: Seq<TreeView>,
    bytes: Seq<u8>,
    rule: SkipRule,
    i: int,
) -> nat
    decreases siblings, siblings.len() - i,
{
    if i < 0 || i >= siblings.len() {
        0
    } else {
        match skipped(rule, siblings[i], bytes) {
            Skip::NodeAndNext => if i + 1 < siblings.len() {
                code_chars_from(siblings, bytes, rule, i + 2)
            } else {
                0
            },
            Skip::Node => code_chars_from(siblings, bytes, rule, i + 1),
            Skip::Nothing => node_chars(siblings[i], bytes, rule) + code_chars_from(
                siblings,
                bytes,
                rule,
                i + 1,
            ),
        }
    }
}

/// There are no more bytes that are not a space than there are bytes.
pub proof fn lemma_non_spaces_bound(text: Seq<u8>, k: int)
    requires
        0 <= k <= text.len(),
    ensures
        non_spaces(text, k) <= k,
    decreases k,
{
    if k > 0 {
        lemma_non_spaces_bound(text, k - 1);
    }
}

/// In a tree with nested spans, a node adds no more characters than its span
/// is long.
pub proof fn lemma_node_chars_bound(node: TreeView, bytes: Seq<u8>, rule: SkipRule)
    requires
        spans_nested(node),
    ensures
        node_chars(node, bytes, rule) <= node.end_byte - node.start_byte,
    decreases node, 1nat,
{
    if node.start_row == node.end_row {
        let text = node_text(node, bytes);
        lemma_non_spaces_bound(text, text.len() as int);
    } else if node.children.len() > 0 {
        lemma_code_chars_bound(node, bytes, rule);
    }
}

/// In a tree with nested spans, there are no more characters of code than
/// the span of the root is long.
pub proof fn lemma_code_chars_bound(node: TreeView, bytes: Seq<u8>, rule: SkipRule)
    requires
        spans_nested(node),
    ensures
        code_chars(node, bytes, rule) <= node.end_byte - node.start_byte,
    decreases node, 0nat,
{
    lemma_code_chars_from_bound(node.children, bytes, rule, 0, node.start_byte, node.end_byte);
}

/// `lemma_code_chars_bound`, for the siblings from position `i` on.
pub proof fn lemma_code_chars_from_bound(
    siblings: Seq<TreeView>,
    bytes: Seq<u8>,
    rule: SkipRule,
    i: int,
    lo: usize,
    hi: usize,
)
    requires
        0 <= i <= siblings.len(),
        lo <= hi,
        children_nested(siblings, siblings.len() as int, lo, hi),
    ensures
        lo <= floor_at(siblings, i, lo) <= hi,
        code_chars_from(siblings, bytes, rule, i) <= hi - floor_at(siblings, i, lo),
    decreases siblings, siblings.len() - i,
{
    let n = siblings.len() as int;
    lemma_children_nested(siblings, n, lo, hi);
    if i > 0 {
        assert(lo <= siblings[i - 1].start_byte <= siblings[i - 1].end_byte <= hi);
    }
    if i < n {
        let here = siblings[i];
        assert(spans_nested(here) && lo <= here.start_byte <= here.end_byte <= hi);
        assert(floor_at(siblings, i, lo) <= here.start_byte);
        lemma_code_chars_from_bound(siblings, bytes, rule, i + 1, lo, hi);
        match skipped(rule, here, bytes) {
            Skip::NodeAndNext => {
                if i + 1 < n {
                    let next = siblings[i + 1];
                    assert(lo <= next.start_byte <= next.end_byte <= hi);
                    assert(here.end_byte <= next.start_byte);
                    lemma_code_chars_from_bound(siblings, bytes, rule, i + 2, lo, hi);
                }
            },
            Skip::Node => {},
            Skip::Nothing => {
                lemma_node_chars_bound(here, bytes, rule);
            },
        }
    }
}

/// The number of bytes of `text` that are not a space.
fn count_non_spaces(text: &Vec<u8>) -> (count: usize)
    ensures
        count == non_spaces(text@, text@.len() as int),
{
    let mut count: usize = 0;
    let mut k: usize = 0;
    while k < text.len()
        invariant
            k <= text@.len(),
            count == non_spaces(text@, k as int),
            count <= k,
        decreases text@.len() - k,
    {
        if text[k] != 0x20u8 {
            count += 1;
        }
        k += 1;
    }
    count
}

/// What `rule` leaves out at `node`.
pub fn decide_skip(rule: SkipRule, node: &SyntaxNode, bytes: &[u8]) -> (skip: Skip)
    ensures
        skip == skipped(rule, node@, bytes@),
{
    proof {
        lemma_view_children(node);
    }
    if node.kind != NodeKind::AttributeItem {
        return Skip::Nothing;
    }
    if node.children.len() > 2 {
        proof {
            lemma_view_children(&node.children[2]);
        }
    }
    match rule {
        SkipRule::Conditional => {
            if node.children.len() <= 2 || node.children[2].children.len() == 0 {
                return Skip::Node;
            }
            let name = node.children[2].children[0].text(bytes);
            if name_is(name.as_slice(), "cfg") || name_is(name.as_slice(), "cfg_attr") {
                Skip::NodeAndNext
            } else {
                Skip::Nothing
            }
        },
        SkipRule::TestOrWindows => {
            if node.children.len() <= 2 || node.children[2].children.len() <= 1 {
                return Skip::Nothing;
            }
            let list = &node.children[2].children[1];
            proof {
                lemma_view_children(list);
            }
            if list.children.len() <= 1 {
                return Skip::Nothing;
            }
            let word = list.children[1].text(bytes);
            if name_is(word.as_slice(), "test") || name_is(word.as_slice(), "windows") {
                Skip::NodeAndNext
            } else {
                Skip::Nothing
            }
        },
    }
}

/// Counts the characters of code below `root`: for every node that lies on
/// one line, the bytes of its text that are not a space; a node that spans
/// several lines is looked into. What `rule` names is left out.
pub fn count_chars(root: &SyntaxNode, bytes: &[u8], rule: SkipRule) -> (count: usize)
    requires
        spans_nested(root@),
    ensures
        count == code_chars(root@, bytes@, rule),
    decreases root,
{
    let ghost siblings = trees_of(root.children@);
    let ghost lo = root@.start_byte;
    let ghost hi = root@.end_byte;
    proof {
        lemma_view_children(root);
        lemma_code_chars_from_bound(siblings, bytes@, rule, 0, lo, hi);
        lemma_children_nested(siblings, siblings.len() as int, lo, hi);
    }
    let mut count: usize = 0;
    let mut i: usize = 0;
    while i < root.children.len()
        invariant
            i <= root.children@.len(),
            siblings == trees_of(root.children@),
            siblings == root@.children,
            forall|k: int| 0 <= k < siblings.len() ==> spans_nested(#[trigger] siblings[k]),
            code_chars_from(siblings, bytes@, rule, 0) <= usize::MAX,
            count + code_chars_from(siblings, bytes@, rule, i as int) == code_chars_from(
                siblings,
                bytes@,
                rule,
                0,
            ),
        decreases root.children@.len() - i,
    {
        let node = &root.children[i];
        proof {
            lemma_view_children(node);
            assert(spans_nested(siblings[i as int]));
        }
        match decide_skip(rule, node, bytes) {
            Skip::NodeAndNext => {
                if i + 1 < root.children.len() {
                    i += 2;
                } else {
                    i += 1;
                }
            },
            Skip::Node => {
                i += 1;
            },
            Skip::Nothing => {
                let own = if node.start_row == node.end_row {
                    let text = node.text(bytes);
                    count_non_spaces(&text)
                } else if node.children.len() > 0 {
                    count_chars(node, bytes, rule)
                } else {
                    0
                };
                proof {
                    assert(siblings[i as int] == node@);
                    assert(own == node_chars(node@, bytes@, rule));
                    assert(code_chars_from(siblings, bytes@, rule, i as int) == node_chars(
                        node@,
                        bytes@,
                        rule,
                    ) + code_chars_from(siblings, bytes@, rule, i as int + 1));
                }
                count = count + own;
                i += 1;
            },
        }
    }
    count
}

/// Counts the characters of code below `root` where the spans of the tree
/// are nested; none where they are not.
pub fn try_count_chars(root: &SyntaxNode, bytes: &[u8], rule: SkipRule) -> (count: Option<usize>)
    ensures
        match count {
            Some(n) => spans_nested(root@) && n == code_chars(root@, bytes@, rule),
            None => !spans_nested(root@),
        },
{
    if root.is_nested() {
        Some(count_chars(root, bytes, rule))
    } else {
        None
    }
}

/// The count of a file whose text is `bytes`: the characters of code of its
/// syntax tree and the row on which the tree ends, or the error that the file
/// could not be parsed.
pub open spec fn file_code(bytes: Seq<u8>, rule: SkipRule) -> Result<(nat, nat), ErrorMessage> {
    match syntax_tree(rust_syntax(bytes), bytes.len() as usize) {
        Some(tree) => Ok((code_chars(tree, bytes, rule), tree.end_row as nat)),
        None => Err(ErrorMessage::FailedToParseFile),
    }
}

/// Parses a file and counts its characters of code, leaving out what is
/// conditionally compiled, and its lines.
pub fn count_file_code(bytes: &[u8]) -> (outcome: Result<CharLineCount, Error>)
    ensures
        match outcome {
            Ok(count) => file_code(bytes@, SkipRule::Conditional) == Ok::<(nat, nat), ErrorMessage>(
                (count.0 as nat, count.1 as nat),
            ),
            Err(error) => file_code(bytes@, SkipRule::Conditional) == Err::<
                (nat, nat),
                ErrorMessage,
            >(error.message) && error.path.is_none(),
        },
{
    match parse_file(bytes) {
        Some(tree) => {
            let line_count = tree.end_row;
            let char_count = count_chars(&tree, bytes, SkipRule::Conditional);
            Ok(CharLineCount(char_count, line_count))
        },
        None => Err(Error::new(ErrorMessage::FailedToParseFile)),
    }
}

/// Parses a file and counts its characters of code, leaving out what is
/// compiled for tests or for Windows only.
pub fn count_file_chars(bytes: &[u8]) -> (outcome: Result<usize, Error>)
    ensures
        match outcome {
            Ok(count) => file_code(bytes@, SkipRule::TestOrWindows) matches Ok(pair) && pair.0
                == count,
            Err(error) => file_code(bytes@, SkipRule::TestOrWindows) == Err::<
                (nat, nat),
                ErrorMessage,
            >(error.message) && error.path.is_none(),
        },
{
    match parse_file(bytes) {
        Some(tree) => Ok(count_chars(&tree, bytes, SkipRule::TestOrWindows)),
        None => Err(Error::new(ErrorMessage::FailedToParseFile)),
    }
}

} // verus!
