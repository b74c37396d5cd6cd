//! What the analysis reads of a package manifest.

use vstd::prelude::*;
use vstd::std_specs::iter::IteratorSpec;

use crate::utils::str_equal;

verus! {

/// The workspace table of a manifest.
#[derive(Debug)]
pub struct CargoTomlWorkspace {
    pub members: Vec<String>,
}

/// The mark that a manifest has a library table, whatever the table holds.
#[derive(Clone, Copy, Debug, PartialEq, Eq, Structural)]
pub struct LibExists;

/// The tables of a manifest that the analysis goes by.
#[derive(Debug)]
pub struct CargoToml {
    pub workspace: Option<CargoTomlWorkspace>,
    pub lib: Option<LibExists>,
}

/// How a workspace member is to be looked up.
#[derive(Clone, Copy, Debug, PartialEq, Eq, Structural)]
pub enum MemberKind {
    /// The member `.`: every directory under the workspace root.
    Root,
    /// A member with a `*` in it: every directory that the pattern matches.
    Pattern,
    /// Any other member: the directory of that name under the root.
    Directory,
}

/// How the member `member` is to be looked up.
pub open spec fn member_kind(member: Seq<char>) -> MemberKind {
    if member == "."@ {
        MemberKind::Root
    } else if member.contains('*') {
        MemberKind::Pattern
    } else {
        MemberKind::Directory
    }
}

impl CargoToml {
    /// A manifest without a workspace table and without a library table.
    pub fn new() -> (manifest: Self)
        ensures
            manifest.workspace.is_none(),
            manifest.lib.is_none(),
    {
        CargoToml { workspace: None, lib: None }
    }

    /// Whether the manifest is that of a workspace rather than of a
    /// crate.
    pub fn is_workspace(&self) -> (yes: bool)
        ensures
            yes == self.workspace.is_some(),
    {
        self.workspace.is_some()
    }

    /// Whether the crate has a library target.
    pub fn has_lib(&self) -> (yes: bool)
        ensures
            yes == self.lib.is_some(),
    {
        self.lib.is_some()
    }
}

/// Decides how the workspace member `member` is to be looked up.
pub fn classify_member(member: &str) -> (kind: MemberKind)
    ensures
        kind == member_kind(member@),
{
    if str_equal(member, ".") {
        return MemberKind::Root;
    }
    let chars = member.chars();
    for c in it: chars
        invariant
            it.seq() == member@,
            member@ != "."@,
            forall|i: int| 0 <= i < it.index() ==> member@[i] != '*',
    {
        if c == '*' {
            assert(member@[it.index() as int] == '*');
            return MemberKind::Pattern;
        }
    }
    MemberKind::Directory
}

} // verus!
