//! Paths and names that the walk over a corpus goes by.

use vstd::prelude::*;
use vstd::string::{StrSliceExecFns, StringExecFns, StringSliceAdditionalSpecFns};

use crate::text::bytes_eq;
use crate::parser::{build_tree, parse_records, rust_syntax, syntax_tree};
use crate::tree::{size, spans_nested, SyntaxNode};

verus! {

/// Whether `text` begins with `prefix`.
pub fn str_starts_with(text: &str, prefix: &str) -> (yes: bool)
    ensures
        yes == prefix@.is_prefix_of(text@),
{
    let n = prefix.unicode_len();
    if n > text.unicode_len() {
        return false;
    }
    let mut i: usize = 0;
    while i < n
        invariant
            i <= n,
            n == prefix@.len(),
            n <= text@.len(),
            forall|j: int| 0 <= j < i ==> text@[j] == prefix@[j],
        decreases n - i,
    {
        if text.get_char(i) != prefix.get_char(i) {
            assert(text@.subrange(0, n as int)[i as int] == text@[i as int]);
            return false;
        }
        i += 1;
    }
    assert(prefix@ =~= text@.subrange(0, n as int));
    true
}

/// Whether two texts are the same.
pub fn str_equal(a: &str, b: &str) -> (same: bool)
    ensures
        same == (a@ == b@),
{
    broadcast use vstd::utf8::encode_utf8_decode_utf8;

    let same = bytes_eq(a.as_bytes(), b.as_bytes());
    proof {
        if same {
            assert(vstd::utf8::decode_utf8(vstd::utf8::encode_utf8(a@)) == a@);
            assert(vstd::utf8::decode_utf8(vstd::utf8::encode_utf8(b@)) == b@);
        }
    }
    same
}

/// `path` without the prefix of the corpus directory, `./data/repos/` or
/// `data/repos/`, if it has one.
pub open spec fn without_data_prefix(path: Seq<char>) -> Seq<char> {
    if "./data/repos/"@.is_prefix_of(path) {
        path.skip("./data/repos/"@.len() as int)
    } else if "data/repos/"@.is_prefix_of(path) {
        path.skip("data/repos/"@.len() as int)
    } else {
        path
    }
}

/// Strips the prefix of the corpus directory from a path, so that the rest
/// can serve as a key.
pub fn remove_data_prefix(s: &str) -> (key: String)
    ensures
        key@ == without_data_prefix(s@),
{
    let n = s.unicode_len();
    if str_starts_with(s, "./data/repos/") {
        let from = "./data/repos/".unicode_len();
        String::from_str(s.substring_char(from, n))
    } else if str_starts_with(s, "data/repos/") {
        let from = "data/repos/".unicode_len();
        String::from_str(s.substring_char(from, n))
    } else {
        String::from_str(s)
    }
}

/// Whether a directory of this name is left out of the walk.
pub open spec fn folder_ignored(name: Seq<char>) -> bool {
    name == "target"@ || name == "malformed"@
}

/// Whether a file of this name is left out of the walk: the artifact of an
/// earlier macro expansion.
pub open spec fn file_ignored(name: Seq<char>) -> bool {
    name == ".macro-expanded.rs"@
}

/// Whether the walk leaves out the directory `name`.
pub fn is_ignored_folder(name: &str) -> (yes: bool)
    ensures
        yes == folder_ignored(name@),
{
    str_equal(name, "target") || str_equal(name, "malformed")
}

/// Whether the walk leaves out the file `name`.
pub fn is_ignored_file(name: &str) -> (yes: bool)
    ensures
        yes == file_ignored(name@),
{
    str_equal(name, ".macro-expanded.rs")
}

/// Whether `extension` is the extension of a source file.
pub fn is_source_extension(extension: &str) -> (yes: bool)
    ensures
        yes == (extension@ == "rs"@),
{
    str_equal(extension, "rs")
}

/// Parses a source file: the syntax tree that the Rust grammar gives for
/// `bytes`, none where the parser gives no tree. The spans of the tree are
/// nested and lie inside the source.
pub fn parse_file(bytes: &[u8]) -> (tree: Option<SyntaxNode>)
    ensures
        match tree {
            Some(root) => {
                &&& syntax_tree(rust_syntax(bytes@), bytes@.len() as usize) == Some(root@)
                &&& size(root@) <= usize::MAX
                &&& spans_nested(root@)
                &&& root@.end_byte <= bytes@.len()
            },
            None => syntax_tree(rust_syntax(bytes@), bytes@.len() as usize).is_none(),
        },
{
    match parse_records(bytes) {
        Some(records) => {
            if records.len() > 0 {
                Some(build_tree(&records, 0, records.len(), 0, bytes.len()))
            } else {
                None
            }
        },
        None => None,
    }
}

} // verus!
