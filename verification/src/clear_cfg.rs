//! The conditional-compilation excisor: which byte ranges of a file hold
//! conditional-compilation attributes and the items they guard.

use vstd::prelude::*;
use vstd::string::StringSliceAdditionalSpecFns;

use crate::classifier::attribute_name;
use crate::error::{Error, ErrorMessage};
use crate::parser::{rust_syntax, syntax_tree};
use crate::path_map::PathMap;
use crate::text::name_is;
use crate::rewrite::{ranges_ordered, remove_file_ranges, rewritten};
use crate::tree::{
    children_nested, floor_at, lemma_children_nested, lemma_view_children, node_text,
    spans_nested, trees_of, NodeKind, SyntaxNode, TreeView,
};
use crate::utils::parse_file;

verus! {

/// A half-open interval `[start, end)` of byte offsets into one file.
#[derive(Clone, Copy, Debug, PartialEq, Eq, Hash, Structural)]
pub struct Range(pub usize, pub usize);

impl Range {
    /// The first offset of the interval.
    pub open spec fn start(self) -> int {
        self.0 as int
    }

    /// The offset after the last one of the interval.
    pub open spec fn end(self) -> int {
        self.1 as int
    }
}

/// What to do with a conditional-compilation attribute, `cfg` or `cfg_attr`.
///
/// The condition that is told apart from all others is a negated single
/// feature flag, `not(feature = "...")`.
#[derive(Clone, Copy, Debug, PartialEq, Eq, Structural)]
pub enum CfgPolicy {
    /// Every such attribute goes, and with it the node that follows it,
    /// whatever the condition: what is conditionally compiled is not
    /// wanted at all. This is the policy that is applied where none is
    /// named.
    RemoveGuarded,
    /// Such an attribute goes, with the node that follows it, only where
    /// its condition is a negated single feature flag; every other one
    /// stays untouched, and so does what it guards.
    RemoveNegatedFeature,
}

/// What the excisor does at one node.
#[derive(Clone, Copy, Debug, PartialEq, Eq, Structural)]
pub enum Excision {
    /// The node stays, and the walk goes on below it.
    Keep,
    /// The node goes, and so does its next sibling.
    AttributeAndItem,
}

/// Whether the argument list `list` of an attribute has the shape of a
/// negated single feature flag: four children, the second one the word
/// `not`, the third one a list of five children whose second one is the
/// word `feature`.
pub open spec fn is_negated_feature(list: TreeView, bytes: Seq<u8>) -> bool {
    &&& list.children.len() == 4
    &&& node_text(list.children[1], bytes) == "not".spec_bytes()
    &&& list.children[2].children.len() == 5
    &&& node_text(list.children[2].children[1], bytes) == "feature".spec_bytes()
}

/// The argument list of an attribute item: the second child of its third
/// child.
pub open spec fn attribute_arguments(node: TreeView) -> Option<TreeView> {
    if node.children.len() > 2 && node.children[2].children.len() > 1 {
        Some(node.children[2].children[1])
    } else {
        None
    }
}

/// Whether the attribute item `node` has a condition of the shape of a
/// negated single feature flag.
pub open spec fn has_negated_feature(node: TreeView, bytes: Seq<u8>) -> bool {
    match attribute_arguments(node) {
        Some(list) => is_negated_feature(list, bytes),
        None => false,
    }
}

/// What the policy asks for at `node`.
pub open spec fn excision(policy: CfgPolicy, node: TreeView, bytes: Seq<u8>) -> Excision {
    if node.kind != NodeKind::AttributeItem {
        Excision::Keep
    } else {
        match attribute_name(node, bytes) {
            None => Excision::Keep,
            Some(name) => if name == "cfg".spec_bytes() || name == "cfg_attr".spec_bytes() {
                match policy {
                    CfgPolicy::RemoveGuarded => Excision::AttributeAndItem,
                    CfgPolicy::RemoveNegatedFeature => if has_negated_feature(node, bytes) {
                        Excision::AttributeAndItem
                    } else {
                        Excision::Keep
                    },
                }
            } else {
                Excision::Keep
            },
        }
    }
}

/// The byte range that a node spans.
pub open spec fn range_of(node: TreeView) -> Range {
    Range(node.start_byte, node.end_byte)
}

/// The ranges to delete below the root of `node`, in source order.
pub open spec fn cfg_ranges(node: TreeView, bytes: Seq<u8>, policy: CfgPolicy) -> Seq<Range>
    decreases node, 0nat,
{
    cfg_ranges_from(node.children, bytes, policy, 0)
}

/// The ranges to delete among `siblings` from position `i` on, and below
/// them. A node that goes is not looked into; a node that stays is.
pub open spec fn cfg_ranges_from(
    siblings: Seq<TreeView>,
    bytes: Seq<u8>,
    policy: CfgPolicy,
    i: int,
) -> Seq<Range>
    decreases siblings, siblings.len() - i,
{
    if i < 0 || i >= siblings.len() {
        Seq::empty()
    } else {
        match excision(policy, siblings[i], bytes) {
            Excision::AttributeAndItem => if i + 1 < siblings.len() {
                seq![range_of(siblings[i]), range_of(siblings[i + 1])] + cfg_ranges_from(
                    siblings,
                    bytes,
                    policy,
                    i + 2,
                )
            } else {
                seq![range_of(siblings[i])]
            },
            Excision::Keep => if siblings[i].children.len() > 0 {
                cfg_ranges(siblings[i], bytes, policy) + cfg_ranges_from(
                    siblings,
                    bytes,
                    policy,
                    i + 1,
                )
            } else {
                cfg_ranges_from(siblings, bytes, policy, i + 1)
            },
        }
    }
}

/// Whether the argument list `token_tree` of a `cfg` attribute is a negated
/// single feature flag, `(not(feature = "..."))`.
pub fn validate_cfg(token_tree: &SyntaxNode, bytes: &[u8]) -> (valid: bool)
    ensures
        valid == is_negated_feature(token_tree@, bytes@),
{
    proof {
        lemma_view_children(token_tree);
    }
    if token_tree.children.len() == 4 {
        let word = token_tree.children[1].text(bytes);
        if !name_is(word.as_slice(), "not") {
            return false;
        }
        let tree = &token_tree.children[2];
        proof {
            lemma_view_children(tree);
        }
        if tree.children.len() == 5 {
            let word = tree.children[1].text(bytes);
            if name_is(word.as_slice(), "feature") {
                return true;
            }
        }
    }
    false
}

/// What the policy asks for at `node`.
pub fn decide_excision(policy: CfgPolicy, node: &SyntaxNode, bytes: &[u8]) -> (action: Excision)
    ensures
        action == excision(policy, node@, bytes@),
{
    proof {
        lemma_view_children(node);
    }
    if node.kind != NodeKind::AttributeItem {
        return Excision::Keep;
    }
    if node.children.len() <= 2 {
        return Excision::Keep;
    }
    let attribute = &node.children[2];
    proof {
        lemma_view_children(attribute);
    }
    if attribute.children.len() == 0 {
        return Excision::Keep;
    }
    let name = attribute.children[0].text(bytes);
    let is_cfg = name_is(name.as_slice(), "cfg");
    let is_cfg_attr = name_is(name.as_slice(), "cfg_attr");
    if !is_cfg && !is_cfg_attr {
        return Excision::Keep;
    }
    let has_arguments = attribute.children.len() > 1;
    match policy {
        CfgPolicy::RemoveGuarded => Excision::AttributeAndItem,
        CfgPolicy::RemoveNegatedFeature => {
            if has_arguments && validate_cfg(&attribute.children[1], bytes) {
                Excision::AttributeAndItem
            } else {
                Excision::Keep
            }
        },
    }
}

/// The ranges to delete below `root` so that the conditional-compilation
/// attributes that `policy` names leave the file, in source order: the range
/// of each such attribute item and, where the policy says so, the range of
/// the node that follows it.
pub fn get_node_cfg_ranges(root: &SyntaxNode, bytes: &[u8], policy: CfgPolicy) -> (ranges: Vec<
    Range,
>)
    ensures
        ranges@ == cfg_ranges(root@, bytes@, policy),
    decreases root,
{
    let ghost siblings = trees_of(root.children@);
    proof {
        lemma_view_children(root);
    }
    let mut ranges_to_remove: Vec<Range> = Vec::new();
    let mut i: usize = 0;
    assert(ranges_to_remove@ + cfg_ranges_from(siblings, bytes@, policy, 0) =~= cfg_ranges_from(
        siblings,
        bytes@,
        policy,
        0,
    ));
    while i < root.children.len()
        invariant
            i <= root.children@.len(),
            siblings == trees_of(root.children@),
            siblings == root@.children,
            ranges_to_remove@ + cfg_ranges_from(siblings, bytes@, policy, i as int)
                == cfg_ranges_from(siblings, bytes@, policy, 0),
        decreases root.children@.len() - i,
    {
        let node = &root.children[i];
        let ghost before = ranges_to_remove@;
        let ghost rest = cfg_ranges_from(siblings, bytes@, policy, i as int);
        proof {
            lemma_view_children(node);
        }
        match decide_excision(policy, node, bytes) {
            Excision::AttributeAndItem => {
                ranges_to_remove.push(Range(node.start_byte, node.end_byte));
                if i + 1 < root.children.len() {
                    let next = &root.children[i + 1];
                    ranges_to_remove.push(Range(next.start_byte, next.end_byte));
                    assert(ranges_to_remove@ + cfg_ranges_from(
                        siblings,
                        bytes@,
                        policy,
                        i as int + 2,
                    ) =~= before + rest);
                    i += 2;
                } else {
                    assert(ranges_to_remove@ + cfg_ranges_from(
                        siblings,
                        bytes@,
                        policy,
                        i as int + 1,
                    ) =~= before + rest);
                    i += 1;
                }
            },
            Excision::Keep => {
                if node.children.len() > 0 {
                    let mut below = get_node_cfg_ranges(node, bytes, policy);
                    ranges_to_remove.append(&mut below);
                }
                assert(ranges_to_remove@ + cfg_ranges_from(siblings, bytes@, policy, i as int + 1)
                    =~= before + rest);
                i += 1;
            },
        }
    }
    assert(ranges_to_remove@ =~= ranges_to_remove@ + cfg_ranges_from(
        siblings,
        bytes@,
        policy,
        i as int,
    ));
    ranges_to_remove
}

/// Whether `ranges` lie in `[lo, hi]`, each one ending before the next one
/// starts.
pub open spec fn ordered_within(ranges: Seq<Range>, lo: int, hi: int) -> bool {
    &&& forall|k: int|
        0 <= k < ranges.len() ==> lo <= (#[trigger] ranges[k]).start() <= ranges[k].end() <= hi
    &&& forall|j: int, k: int|
        0 <= j < k < ranges.len() ==> (#[trigger] ranges[j]).end() <= (#[trigger] ranges[k]).start()
}

/// Ranges that lie in order before `mid`, followed by ranges that lie in
/// order behind it, lie in order.
pub proof fn lemma_ordered_concat(a: Seq<Range>, b: Seq<Range>, lo: int, mid: int, hi: int)
    requires
        ordered_within(a, lo, mid),
        ordered_within(b, mid, hi),
        lo <= mid <= hi,
    ensures
        ordered_within(a + b, lo, hi),
{
    let all = a + b;
    assert forall|k: int| 0 <= k < all.len() implies lo <= (#[trigger] all[k]).start()
        <= all[k].end() <= hi by {
        if k < a.len() {
            assert(all[k] == a[k]);
        } else {
            assert(all[k] == b[k - a.len()]);
        }
    }
    assert forall|j: int, k: int| 0 <= j < k < all.len() implies (#[trigger] all[j]).end() <= (
    #[trigger] all[k]).start() by {
        if k < a.len() {
            assert(all[j] == a[j] && all[k] == a[k]);
        } else if j >= a.len() {
            assert(all[j] == b[j - a.len()] && all[k] == b[k - a.len()]);
        } else {
            assert(all[j] == a[j] && all[k] == b[k - a.len()]);
        }
    }
}

/// In a tree with nested spans, the ranges to delete lie inside the span of
/// the root, in source order, and no two of them overlap: they can be
/// deleted from the text that the tree was parsed from.
pub proof fn lemma_cfg_ranges_ordered(node: TreeView, bytes: Seq<u8>, policy: CfgPolicy)
    requires
        spans_nested(node),
    ensures
        ordered_within(
            cfg_ranges(node, bytes, policy),
            node.start_byte as int,
            node.end_byte as int,
        ),
        ranges_ordered(cfg_ranges(node, bytes, policy), node.end_byte as int),
    decreases node, 0nat,
{
    lemma_cfg_ranges_from_ordered(node.children, bytes, policy, 0, node.start_byte, node.end_byte);
    let ranges = cfg_ranges(node, bytes, policy);
    assert forall|k: int| 0 <= k < ranges.len() implies (#[trigger] ranges[k]).start()
        <= ranges[k].end() <= node.end_byte by {}
}

/// `lemma_cfg_ranges_ordered`, for the siblings from position `i` on.
pub proof fn lemma_cfg_ranges_from_ordered(
    siblings: Seq<TreeView>,
    bytes: Seq<u8>,
    policy: CfgPolicy,
    i: int,
    lo: usize,
    hi: usize,
)
    requires
        0 <= i <= siblings.len(),
        lo <= hi,
        children_nested(siblings, siblings.len() as int, lo, hi),
    ensures
        ordered_within(
            cfg_ranges_from(siblings, bytes, policy, i),
            floor_at(siblings, i, lo) as int,
            hi as int,
        ),
        lo <= floor_at(siblings, i, lo) <= hi,
    decreases siblings, siblings.len() - i,
{
    let n = siblings.len() as int;
    lemma_children_nested(siblings, n, lo, hi);
    if i > 0 {
        assert(lo <= siblings[i - 1].start_byte <= siblings[i - 1].end_byte <= hi);
    }
    if i < n {
        let here = siblings[i];
        assert(spans_nested(here) && lo <= here.start_byte <= here.end_byte <= hi);
        assert(floor_at(siblings, i, lo) <= here.start_byte);
        let floor = floor_at(siblings, i, lo) as int;
        let own = seq![range_of(here)];
        assert(ordered_within(own, floor, here.end_byte as int));
        match excision(policy, here, bytes) {
            Excision::AttributeAndItem => {
                if i + 1 < n {
                    let next = siblings[i + 1];
                    assert(lo <= next.start_byte <= next.end_byte <= hi);
                    assert(here.end_byte <= next.start_byte);
                    lemma_cfg_ranges_from_ordered(siblings, bytes, policy, i + 2, lo, hi);
                    let pair = seq![range_of(here), range_of(next)];
                    assert(ordered_within(pair, floor, next.end_byte as int));
                    lemma_ordered_concat(
                        pair,
                        cfg_ranges_from(siblings, bytes, policy, i + 2),
                        floor,
                        next.end_byte as int,
                        hi as int,
                    );
                } else {
                    assert(cfg_ranges_from(siblings, bytes, policy, i) =~= own);
                }
            },
            Excision::Keep => {
                lemma_cfg_ranges_from_ordered(siblings, bytes, policy, i + 1, lo, hi);
                if here.children.len() > 0 {
                    lemma_cfg_ranges_ordered(here, bytes, policy);
                    let below = cfg_ranges(here, bytes, policy);
                    assert(ordered_within(below, floor, here.end_byte as int));
                    lemma_ordered_concat(
                        below,
                        cfg_ranges_from(siblings, bytes, policy, i + 1),
                        floor,
                        here.end_byte as int,
                        hi as int,
                    );
                } else {
                    assert(ordered_within(
                        cfg_ranges_from(siblings, bytes, policy, i + 1),
                        floor,
                        hi as int,
                    ));
                }
            },
        }
    }
}

/// The ranges to delete from each file, by the file's path below the corpus
/// directory.
#[derive(Debug)]
pub struct RangesToRemove(pub PathMap<Vec<Range>>);

impl RangesToRemove {
    /// No file.
    pub fn new() -> (all: Self)
        ensures
            all.0.well_formed(),
            all.0.view() == Map::<Seq<char>, Vec<Range>>::empty(),
    {
        RangesToRemove(PathMap::new())
    }

    /// Records the ranges of the file at `path`, in place of those
    /// recorded for it before.
    pub fn insert(&mut self, path: String, ranges: Vec<Range>)
        requires
            old(self).0.well_formed(),
        ensures
            final(self).0.well_formed(),
            final(self).0.view() == old(self).0.view().insert(path@, ranges),
    {
        self.0.insert(path, ranges);
    }

    /// The ranges recorded for the file at `path`.
    pub fn get(&self, path: &str) -> (found: Option<&Vec<Range>>)
        requires
            self.0.well_formed(),
        ensures
            match found {
                Some(ranges) => self.0.view().contains_key(path@) && *ranges == self.0.view()[path@],
                None => !self.0.view().contains_key(path@),
            },
    {
        self.0.get(path)
    }
}

/// The policy that is applied where none is named: everything that is
/// conditionally compiled goes, whatever its condition.
pub open spec fn default_policy() -> CfgPolicy {
    CfgPolicy::RemoveGuarded
}

/// The ranges to delete from a file whose text is `bytes`, under `policy`:
/// the ranges of its syntax tree, or the error that the file could not be
/// parsed.
pub open spec fn file_cfg_ranges(bytes: Seq<u8>, policy: CfgPolicy) -> Result<
    Seq<Range>,
    ErrorMessage,
> {
    match syntax_tree(rust_syntax(bytes), bytes.len() as usize) {
        Some(tree) => Ok(cfg_ranges(tree, bytes, policy)),
        None => Err(ErrorMessage::FailedToParseFile),
    }
}

/// Parses a file and finds the ranges to delete from it under `policy`.
pub fn get_file_cfg_ranges_with(bytes: &[u8], policy: CfgPolicy) -> (outcome: Result<
    Vec<Range>,
    Error,
>)
    ensures
        match outcome {
            Ok(ranges) => file_cfg_ranges(bytes@, policy) == Ok::<Seq<Range>, ErrorMessage>(
                ranges@,
            ) && ranges_ordered(ranges@, bytes@.len() as int),
            Err(error) => file_cfg_ranges(bytes@, policy) == Err::<Seq<Range>, ErrorMessage>(
                error.message,
            ) && error.path.is_none(),
        },
{
    match parse_file(bytes) {
        Some(tree) => {
            proof {
                lemma_cfg_ranges_ordered(tree@, bytes@, policy);
            }
            Ok(get_node_cfg_ranges(&tree, bytes, policy))
        },
        None => Err(Error::new(ErrorMessage::FailedToParseFile)),
    }
}

/// Parses a file and finds the ranges to delete from it under the default
/// policy.
pub fn get_file_cfg_ranges(bytes: &[u8]) -> (outcome: Result<Vec<Range>, Error>)
    ensures
        match outcome {
            Ok(ranges) => file_cfg_ranges(bytes@, default_policy()) == Ok::<
                Seq<Range>,
                ErrorMessage,
            >(ranges@) && ranges_ordered(ranges@, bytes@.len() as int),
            Err(error) => file_cfg_ranges(bytes@, default_policy()) == Err::<
                Seq<Range>,
                ErrorMessage,
            >(error.message) && error.path.is_none(),
        },
{
    get_file_cfg_ranges_with(bytes, CfgPolicy::RemoveGuarded)
}

/// What a file whose text is `content` becomes once its conditional
/// compilation is cleared under `policy`: the text without the ranges to
/// delete and without blank lines. The file may not parse, and what is left
/// of it may not be text.
pub open spec fn cleared(content: Seq<u8>, policy: CfgPolicy) -> Result<Seq<char>, ErrorMessage> {
    match file_cfg_ranges(content, policy) {
        Err(e) => Err(e),
        Ok(ranges) => match rewritten(content, ranges) {
            Ok(text) => Ok(text),
            Err(_) => Err(ErrorMessage::FailedToRewriteFile),
        },
    }
}

/// Clears the conditional compilation of a file under `policy`: parses it,
/// finds the ranges to delete, deletes them from the last to the first, and
/// drops the blank lines.
pub fn clear_file(content: &str, policy: CfgPolicy) -> (outcome: Result<String, Error>)
    ensures
        match outcome {
            Ok(text) => cleared(content.spec_bytes(), policy) == Ok::<Seq<char>, ErrorMessage>(
                text@,
            ),
            Err(error) => cleared(content.spec_bytes(), policy) == Err::<
                Seq<char>,
                ErrorMessage,
            >(error.message) && error.path.is_none(),
        },
{
    let ranges = match get_file_cfg_ranges_with(content.as_bytes(), policy) {
        Ok(ranges) => ranges,
        Err(error) => {
            return Err(error);
        },
    };
    match remove_file_ranges(content, ranges.as_slice()) {
        Ok(text) => Ok(text),
        Err(_) => Err(Error::new(ErrorMessage::FailedToRewriteFile)),
    }
}

} // verus!
