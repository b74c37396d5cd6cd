//! The node classifier: a walk over a syntax tree that records every macro
//! definition, macro invocation and attribute it meets.

use vstd::multiset::*;
use vstd::prelude::*;
use vstd::string::StringSliceAdditionalSpecFns;

use crate::analyzis::{lemma_within_combine, MacroAnalyzis, Usage};
use crate::error::{Error, ErrorMessage};
use crate::parser::{rust_syntax, syntax_tree};
use crate::text::name_is;
use crate::utils::parse_file;
use crate::tree::{
    collect_identifiers, derive_budget, derive_budgets, derive_weight, find_identifier,
    find_next_non_macro, first_identifier, identifier_names, lemma_derive_budget,
    lemma_derive_budgets, lemma_sizes_monotone, lemma_view_children, next_non_attribute,
    node_text, size, sizes, start_point, trees_of, NodeKind, SyntaxNode, TreeView,
};
use crate::usage::{builtin_bucket, lemma_bag_of_len};

verus! {

/// The kinds of macro that an attribute can mark the definition of.
#[derive(Clone, Copy, Debug, PartialEq, Eq, Structural)]
pub enum DefinitionKind {
    Attribute,
    Procedural,
    Derive,
}

/// The kind of macro definition that the attribute `name` marks, if any.
pub open spec fn definition_marker(name: Seq<u8>) -> Option<DefinitionKind> {
    if name == "proc_macro_attribute".spec_bytes() {
        Some(DefinitionKind::Attribute)
    } else if name == "proc_macro".spec_bytes() {
        Some(DefinitionKind::Procedural)
    } else if name == "proc_macro_derive".spec_bytes() {
        Some(DefinitionKind::Derive)
    } else {
        None
    }
}

/// Whether the attribute `name` is the derive marker.
pub open spec fn is_derive_marker(name: Seq<u8>) -> bool {
    name == "derive".spec_bytes()
}

impl Usage {
    /// The record after one more declarative macro definition.
    pub open spec fn with_declarative_definition(self, name: Seq<u8>) -> Usage {
        Usage {
            declarative_macro_definitions: self.declarative_macro_definitions.insert(name),
            ..self
        }
    }

    /// The record after one more macro invocation.
    pub open spec fn with_invocation(self, name: Seq<u8>) -> Usage {
        Usage { macro_invocations: self.macro_invocations.insert(name), ..self }
    }

    /// The record after one more attribute: a built-in one is counted in
    /// its bucket of the built-in attributes, any other one under its own
    /// name among the attribute macro invocations.
    pub open spec fn with_attribute(self, name: Seq<u8>) -> Usage {
        match builtin_bucket(name) {
            Some(bucket) => Usage {
                builtin_attribute_macro_invocations: self.builtin_attribute_macro_invocations.insert(
                    bucket,
                ),
                ..self
            },
            None => Usage {
                attribute_macro_invocations: self.attribute_macro_invocations.insert(name),
                ..self
            },
        }
    }

    /// The record after one more definition of a macro of kind `kind`.
    pub open spec fn with_definition(self, kind: DefinitionKind, name: Seq<u8>) -> Usage {
        match kind {
            DefinitionKind::Attribute => Usage {
                attribute_macro_definitions: self.attribute_macro_definitions.insert(name),
                ..self
            },
            DefinitionKind::Procedural => Usage {
                procedural_macro_definitions: self.procedural_macro_definitions.insert(name),
                ..self
            },
            DefinitionKind::Derive => Usage {
                derive_macro_definitions: self.derive_macro_definitions.insert(name),
                ..self
            },
        }
    }

    /// The record after one more derive invocation.
    pub open spec fn with_derives(self, names: Seq<Seq<u8>>) -> Usage {
        Usage { derive_macro_usage: self.derive_macro_usage.with_point(names), ..self }
    }
}

/// The name of an attribute item: the text of the first child of its third
/// child, where the grammar puts the attribute's leading identifier.
pub open spec fn attribute_name(node: TreeView, bytes: Seq<u8>) -> Option<Seq<u8>> {
    if node.children.len() > 2 && node.children[2].children.len() > 0 {
        Some(node_text(node.children[2].children[0], bytes))
    } else {
        None
    }
}

/// The name of the item that an attribute at position `i` marks as a macro
/// definition: the first identifier of the next sibling that is not itself
/// an attribute item. Where no such sibling follows, or where it has no
/// identifier, there is no name to be found, which is an error; the error
/// tells where the attribute starts.
pub open spec fn defined_name(siblings: Seq<TreeView>, i: int, bytes: Seq<u8>) -> Result<
    Seq<u8>,
    ErrorMessage,
> {
    match next_non_attribute(siblings, i) {
        None => Err(ErrorMessage::FailedToFindMacroIdentifier(start_point(siblings[i]))),
        Some(j) => match first_identifier(siblings[j].children, siblings[j].children.len() as int) {
            None => Err(ErrorMessage::FailedToFindMacroIdentifier(start_point(siblings[i]))),
            Some(c) => Ok(node_text(siblings[j].children[c], bytes)),
        },
    }
}

/// The names that a derive attribute item lists: the identifiers directly
/// under its argument list, the second child of its third child. An
/// attribute without an argument list is an error.
pub open spec fn derived_names(node: TreeView, bytes: Seq<u8>) -> Result<Seq<Seq<u8>>, ErrorMessage> {
    if node.children.len() > 2 && node.children[2].children.len() > 1 {
        let list = node.children[2].children[1];
        Ok(identifier_names(list.children, bytes, list.children.len() as int))
    } else {
        Err(ErrorMessage::DeriveMacroExpectedTokenTree)
    }
}

/// What the attribute item at position `i`, named `name`, adds to `acc`.
pub open spec fn record_attribute(
    acc: Usage,
    siblings: Seq<TreeView>,
    i: int,
    name: Seq<u8>,
    bytes: Seq<u8>,
) -> Result<Usage, ErrorMessage> {
    let counted = acc.with_attribute(name);
    match definition_marker(name) {
        Some(kind) => match defined_name(siblings, i, bytes) {
            Err(e) => Err(e),
            Ok(defined) => Ok(counted.with_definition(kind, defined)),
        },
        None => if is_derive_marker(name) {
            match derived_names(siblings[i], bytes) {
                Err(e) => Err(e),
                Ok(names) => Ok(counted.with_derives(names)),
            }
        } else {
            Ok(counted)
        },
    }
}

/// What the node at position `i` among `siblings` adds, by itself, to `acc`.
pub open spec fn record_node(acc: Usage, siblings: Seq<TreeView>, i: int, bytes: Seq<u8>) -> Result<
    Usage,
    ErrorMessage,
> {
    let node = siblings[i];
    match node.kind {
        NodeKind::MacroDefinition => if node.children.len() > 1 {
            Ok(acc.with_declarative_definition(node_text(node.children[1], bytes)))
        } else {
            Ok(acc)
        },
        NodeKind::MacroInvocation => if node.children.len() > 0 {
            Ok(acc.with_invocation(node_text(node.children[0], bytes)))
        } else {
            Ok(acc)
        },
        NodeKind::AttributeItem => match attribute_name(node, bytes) {
            Some(name) => record_attribute(acc, siblings, i, name, bytes),
            None => Ok(acc),
        },
        _ => Ok(acc),
    }
}

/// The usage record of a tree: what its nodes below the root add, one after
/// the other in source order, each followed by the record of its own subtree.
/// The first error met ends the classification.
pub open spec fn classify(node: TreeView, bytes: Seq<u8>) -> Result<Usage, ErrorMessage>
    decreases node, 0nat,
{
    classify_children(node.children, bytes, node.children.len() as int)
}

/// The usage record of the first `k` of `siblings` and of their subtrees.
pub open spec fn classify_children(siblings: Seq<TreeView>, bytes: Seq<u8>, k: int) -> Result<
    Usage,
    ErrorMessage,
>
    decreases siblings, k,
{
    if k <= 0 || k > siblings.len() {
        Ok(Usage::empty())
    } else {
        match classify_children(siblings, bytes, k - 1) {
            Err(e) => Err(e),
            Ok(acc) => match record_node(acc, siblings, k - 1, bytes) {
                Err(e) => Err(e),
                Ok(own) => if siblings[k - 1].children.len() > 0 {
                    match classify(siblings[k - 1], bytes) {
                        Err(e) => Err(e),
                        Ok(below) => Ok(own.combine(below)),
                    }
                } else {
                    Ok(own)
                },
            },
        }
    }
}

/// Records what the attribute item at position `i` adds.
fn visit_attribute(
    acc: &mut MacroAnalyzis,
    siblings: &Vec<SyntaxNode>,
    i: usize,
    name: &Vec<u8>,
    bytes: &[u8],
    visits: Ghost<nat>,
    derived: Ghost<nat>,
) -> (done: Result<(), ErrorMessage>)
    requires
        i < siblings@.len(),
        old(acc).well_formed(),
        old(acc)@.valid(),
        old(acc)@.within(visits@, derived@),
        visits@ < usize::MAX,
        derived@ + derive_weight(siblings@[i as int]@) <= usize::MAX,
    ensures
        match done {
            Ok(()) => {
                &&& record_attribute(old(acc)@, trees_of(siblings@), i as int, name@, bytes@)
                    == Ok::<Usage, ErrorMessage>(final(acc)@)
                &&& final(acc).well_formed()
                &&& final(acc)@.valid()
                &&& final(acc)@.within(
                    visits@ + 1,
                    derived@ + derive_weight(siblings@[i as int]@),
                )
            },
            Err(e) => record_attribute(old(acc)@, trees_of(siblings@), i as int, name@, bytes@)
                == Err::<Usage, ErrorMessage>(e),
        },
{
    broadcast use {group_multiset_axioms, group_multiset_properties};

    let node = &siblings[i];
    proof {
        lemma_view_children(node);
        acc.derive_macro_usage.lemma_well_formed_valid();
    }
    if !acc.builtin_attribute_macro_invocations.record_builtin(name.as_slice()) {
        acc.attribute_macro_invocations.bump(name.as_slice());
    }
    let marker = if name_is(name.as_slice(), "proc_macro_attribute") {
        Some(DefinitionKind::Attribute)
    } else if name_is(name.as_slice(), "proc_macro") {
        Some(DefinitionKind::Procedural)
    } else if name_is(name.as_slice(), "proc_macro_derive") {
        Some(DefinitionKind::Derive)
    } else {
        None
    };
    match marker {
        Some(kind) => {
            let next = match find_next_non_macro(siblings, i) {
                Some(next) => next,
                None => {
                    return Err(ErrorMessage::FailedToFindMacroIdentifier(node.start()));
                },
            };
            let item = &siblings[next];
            proof {
                lemma_view_children(item);
            }
            let identifier = match find_identifier(&item.children) {
                Some(identifier) => identifier,
                None => {
                    return Err(ErrorMessage::FailedToFindMacroIdentifier(node.start()));
                },
            };
            let defined = item.children[identifier].text(bytes);
            match kind {
                DefinitionKind::Attribute => {
                    acc.attribute_macro_definitions.bump(defined.as_slice());
                },
                DefinitionKind::Procedural => {
                    acc.procedural_macro_definitions.bump(defined.as_slice());
                },
                DefinitionKind::Derive => {
                    acc.derive_macro_definitions.bump(defined.as_slice());
                },
            }
            Ok(())
        },
        None => {
            if name_is(name.as_slice(), "derive") {
                if node.children.len() > 2 && node.children[2].children.len() > 1 {
                    let attribute = &node.children[2];
                    proof {
                        lemma_view_children(attribute);
                    }
                    let list = &attribute.children[1];
                    proof {
                        lemma_view_children(list);
                    }
                    let names = collect_identifiers(&list.children, bytes);
                    acc.derive_macro_usage.record(&names);
                    proof {
                        lemma_bag_of_len(
                            crate::usage::byte_names(names@),
                            names@.len() as int,
                        );
                    }
                    Ok(())
                } else {
                    proof {
                        if node.children@.len() > 2 {
                            lemma_view_children(&node.children[2]);
                        }
                    }
                    Err(ErrorMessage::DeriveMacroExpectedTokenTree)
                }
            } else {
                Ok(())
            }
        },
    }
}

/// Records what the node at position `i` adds by itself.
fn visit_node(
    acc: &mut MacroAnalyzis,
    siblings: &Vec<SyntaxNode>,
    i: usize,
    bytes: &[u8],
    visits: Ghost<nat>,
    derived: Ghost<nat>,
) -> (done: Result<(), ErrorMessage>)
    requires
        i < siblings@.len(),
        old(acc).well_formed(),
        old(acc)@.valid(),
        old(acc)@.within(visits@, derived@),
        visits@ < usize::MAX,
        derived@ + derive_weight(siblings@[i as int]@) <= usize::MAX,
    ensures
        match done {
            Ok(()) => {
                &&& record_node(old(acc)@, trees_of(siblings@), i as int, bytes@) == Ok::<
                    Usage,
                    ErrorMessage,
                >(final(acc)@)
                &&& final(acc).well_formed()
                &&& final(acc)@.valid()
                &&& final(acc)@.within(
                    visits@ + 1,
                    derived@ + derive_weight(siblings@[i as int]@),
                )
            },
            Err(e) => record_node(old(acc)@, trees_of(siblings@), i as int, bytes@) == Err::<
                Usage,
                ErrorMessage,
            >(e),
        },
{
    broadcast use {group_multiset_axioms, group_multiset_properties};

    let node = &siblings[i];
    proof {
        lemma_view_children(node);
    }
    match node.kind {
        NodeKind::MacroDefinition => {
            if node.children.len() > 1 {
                let name = node.children[1].text(bytes);
                acc.declarative_macro_definitions.bump(name.as_slice());
            }
            Ok(())
        },
        NodeKind::MacroInvocation => {
            if node.children.len() > 0 {
                let name = node.children[0].text(bytes);
                acc.macro_invocations.bump(name.as_slice());
            }
            Ok(())
        },
        NodeKind::AttributeItem => {
            if node.children.len() > 2 {
                proof {
                    lemma_view_children(&node.children[2]);
                }
                if node.children[2].children.len() > 0 {
                    let name = node.children[2].children[0].text(bytes);
                    return visit_attribute(acc, siblings, i, &name, bytes, visits, derived);
                }
            }
            Ok(())
        },
        _ => Ok(()),
    }
}

/// Classifies the tree under `root`: the usage record of the file that the
/// tree was parsed from, whose bytes are `bytes`.
///
/// Every node below the root is visited in source order. A macro definition
/// is recorded under the text of its second child, a macro invocation under
/// the text of its first child, and an attribute item as `record_attribute`
/// says; a node that lacks the child that would name it adds nothing. The
/// classification fails where a `derive` attribute has no argument list,
/// and where an attribute that marks a macro definition is not followed,
/// behind any further attributes, by an item with an identifier.
pub fn count_macro_usage(root: &SyntaxNode, bytes: &[u8]) -> (outcome: Result<
    MacroAnalyzis,
    Error,
>)
    requires
        size(root@) <= usize::MAX,
    ensures
        match outcome {
            Ok(record) => {
                &&& classify(root@, bytes@) == Ok::<Usage, ErrorMessage>(record@)
                &&& record.well_formed()
                &&& record@.valid()
                &&& record@.within((size(root@) - 1) as nat, derive_budget(root@))
            },
            Err(error) => {
                &&& classify(root@, bytes@) == Err::<Usage, ErrorMessage>(error.message)
                &&& error.path.is_none()
            },
        },
    decreases root,
{
    let ghost siblings = trees_of(root.children@);
    proof {
        lemma_view_children(root);
    }
    let mut analyzis = MacroAnalyzis::new();
    let mut i: usize = 0;
    while i < root.children.len()
        invariant
            i <= root.children@.len(),
            siblings == trees_of(root.children@),
            siblings == root@.children,
            sizes(siblings, siblings.len() as int) < usize::MAX,
            analyzis.well_formed(),
            analyzis@.valid(),
            analyzis@.within(sizes(siblings, i as int), derive_budgets(siblings, i as int)),
            classify_children(siblings, bytes@, i as int) == Ok::<Usage, ErrorMessage>(analyzis@),
        decreases root.children@.len() - i,
    {
        let ghost visits = sizes(siblings, i as int);
        let ghost derived = derive_budgets(siblings, i as int);
        proof {
            lemma_sizes_monotone(siblings, i as int + 1, siblings.len() as int);
            lemma_derive_budgets(siblings, i as int + 1);
            lemma_derive_budget(siblings[i as int]);
        }
        match visit_node(&mut analyzis, &root.children, i, bytes, Ghost(visits), Ghost(derived)) {
            Ok(()) => {},
            Err(e) => {
                proof {
                    lemma_error_stays(siblings, bytes@, i as int + 1, siblings.len() as int);
                }
                return Err(Error::new(e));
            },
        }
        let node = &root.children[i];
        proof {
            lemma_view_children(node);
        }
        if node.children.len() > 0 {
            match count_macro_usage(node, bytes) {
                Ok(below) => {
                    proof {
                        lemma_within_fits(
                            &analyzis,
                            &below,
                            visits + 1,
                            derived + derive_weight(siblings[i as int]),
                            (size(siblings[i as int]) - 1) as nat,
                            derive_budget(siblings[i as int]),
                        );
                        lemma_within_combine(
                            analyzis@,
                            below@,
                            visits + 1,
                            derived + derive_weight(siblings[i as int]),
                            (size(siblings[i as int]) - 1) as nat,
                            derive_budget(siblings[i as int]),
                        );
                    }
                    analyzis = analyzis.add(below);
                },
                Err(e) => {
                    proof {
                        lemma_error_stays(siblings, bytes@, i as int + 1, siblings.len() as int);
                    }
                    return Err(e);
                },
            }
        }
        i += 1;
    }
    Ok(analyzis)
}

/// Classifies the tree under `root` where the tree has no more nodes than
/// the machine's range holds; none where it has more.
pub fn try_count_macro_usage(root: &SyntaxNode, bytes: &[u8]) -> (outcome: Option<
    Result<MacroAnalyzis, Error>,
>)
    ensures
        match outcome {
            Some(Ok(record)) => {
                &&& size(root@) <= usize::MAX
                &&& classify(root@, bytes@) == Ok::<Usage, ErrorMessage>(record@)
                &&& record.well_formed()
                &&& record@.valid()
            },
            Some(Err(error)) => {
                &&& size(root@) <= usize::MAX
                &&& classify(root@, bytes@) == Err::<Usage, ErrorMessage>(error.message)
                &&& error.path.is_none()
            },
            None => size(root@) > usize::MAX,
        },
{
    match root.node_count() {
        Some(_) => Some(count_macro_usage(root, bytes)),
        None => None,
    }
}

/// Classifying the same tree of the same text twice gives the same record:
/// the record is a function of the tree and of the text.
pub proof fn lemma_classification_repeatable(
    root: TreeView,
    bytes: Seq<u8>,
    first: Result<Usage, ErrorMessage>,
    second: Result<Usage, ErrorMessage>,
)
    requires
        first == classify(root, bytes),
        second == classify(root, bytes),
    ensures
        first == second,
{
}

/// Classifying the same file twice gives the same record, or the same error.
pub proof fn lemma_file_classification_repeatable(
    bytes: Seq<u8>,
    first: Result<Usage, ErrorMessage>,
    second: Result<Usage, ErrorMessage>,
)
    requires
        first == file_usage(bytes),
        second == file_usage(bytes),
    ensures
        first == second,
{
}

/// An error met among the first `k` siblings is the outcome for any more of
/// them.
pub proof fn lemma_error_stays(siblings: Seq<TreeView>, bytes: Seq<u8>, k: int, n: int)
    requires
        0 <= k <= n <= siblings.len(),
        classify_children(siblings, bytes, k).is_err(),
    ensures
        classify_children(siblings, bytes, n) == classify_children(siblings, bytes, k),
    decreases n - k,
{
    if k < n {
        lemma_error_stays(siblings, bytes, k, n - 1);
    }
}

/// Two records whose counters stay within bounds that add up to at most the
/// machine's range can be combined.
pub proof fn lemma_within_fits(
    a: &MacroAnalyzis,
    b: &MacroAnalyzis,
    visits_a: nat,
    derived_a: nat,
    visits_b: nat,
    derived_b: nat,
)
    requires
        a@.within(visits_a, derived_a),
        b@.within(visits_b, derived_b),
        visits_a + visits_b <= usize::MAX,
        derived_a + derived_b <= usize::MAX,
    ensures
        a.fits_with(b),
{
    broadcast use group_multiset_axioms;

}

/// The usage record of a file whose text is `bytes`: the classification of
/// its syntax tree, or the error that the file could not be parsed.
pub open spec fn file_usage(bytes: Seq<u8>) -> Result<Usage, ErrorMessage> {
    match syntax_tree(rust_syntax(bytes), bytes.len() as usize) {
        Some(tree) => classify(tree, bytes),
        None => Err(ErrorMessage::FailedToParseFile),
    }
}

/// Parses the file at `path`, whose text is `bytes`, and classifies it. An
/// error names the file.
pub fn count_file_macro_usage(bytes: &[u8], path: &str) -> (outcome: Result<
    MacroAnalyzis,
    Error,
>)
    ensures
        match outcome {
            Ok(record) => {
                &&& file_usage(bytes@) == Ok::<Usage, ErrorMessage>(record@)
                &&& record.well_formed()
                &&& record@.valid()
            },
            Err(error) => {
                &&& file_usage(bytes@) == Err::<Usage, ErrorMessage>(error.message)
                &&& error.path matches Some(p) && p@ == path@
            },
        },
{
    let tree = match parse_file(bytes) {
        Some(tree) => tree,
        None => {
            return Err(Error::new(ErrorMessage::FailedToParseFile).add_path(path));
        },
    };
    match count_macro_usage(&tree, bytes) {
        Ok(record) => Ok(record),
        Err(error) => Err(error.add_path(path)),
    }
}

} // verus!
