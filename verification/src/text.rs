//! Byte-string helpers: names and source text are handled as UTF-8 bytes.

use vstd::prelude::*;
use vstd::slice::{slice_subrange, slice_to_vec};
use vstd::string::StringSliceAdditionalSpecFns;

verus! {

/// The bytes of `bytes` in `[start, end)`, or nothing when the interval does
/// not lie inside the buffer.
pub open spec fn text_between(bytes: Seq<u8>, start: int, end: int) -> Seq<u8> {
    if 0 <= start <= end <= bytes.len() {
        bytes.subrange(start, end)
    } else {
        Seq::empty()
    }
}

/// Copies the bytes in `[start, end)` out of `bytes`.
pub fn copy_between(bytes: &[u8], start: usize, end: usize) -> (out: Vec<u8>)
    ensures
        out@ == text_between(bytes@, start as int, end as int),
{
    if start <= end && end <= bytes.len() {
        slice_to_vec(slice_subrange(bytes, start, end))
    } else {
        Vec::new()
    }
}

/// Byte-wise equality of two byte strings.
pub fn bytes_eq(a: &[u8], b: &[u8]) -> (same: bool)
    ensures
        same == (a@ == b@),
{
    if a.len() != b.len() {
        return false;
    }
    let mut i: usize = 0;
    while i < a.len()
        invariant
            i <= a.len(),
            a.len() == b.len(),
            forall|j: int| 0 <= j < i ==> a@[j] == b@[j],
        decreases a.len() - i,
    {
        if a[i] != b[i] {
            return false;
        }
        i += 1;
    }
    assert(a@ =~= b@);
    true
}

/// Whether `name` is exactly the UTF-8 encoding of `literal`.
pub fn name_is(name: &[u8], literal: &str) -> (same: bool)
    ensures
        same == (name@ == literal.spec_bytes()),
{
    bytes_eq(name, literal.as_bytes())
}

/// Whether `name` begins with the UTF-8 encoding of `prefix`.
pub fn name_starts_with(name: &[u8], prefix: &str) -> (yes: bool)
    ensures
        yes == prefix.spec_bytes().is_prefix_of(name@),
{
    let p = prefix.as_bytes();
    if p.len() > name.len() {
        return false;
    }
    let mut i: usize = 0;
    while i < p.len()
        invariant
            i <= p.len(),
            p.len() <= name.len(),
            p@ == prefix.spec_bytes(),
            forall|j: int| 0 <= j < i ==> name@[j] == p@[j],
        decreases p.len() - i,
    {
        if name[i] != p[i] {
            assert(name@.subrange(0, p@.len() as int)[i as int] == name@[i as int]);
            return false;
        }
        i += 1;
    }
    assert(p@ =~= name@.subrange(0, p@.len() as int));
    true
}

} // verus!
