//! The rewrite pass: deleting byte ranges from a file's text and dropping
//! the blank lines that are left behind.

use vstd::prelude::*;
use vstd::slice::{slice_subrange, slice_to_vec};
use vstd::std_specs::iter::IteratorSpec;
use vstd::string::StringSliceAdditionalSpecFns;
use vstd::utf8::{decode_utf8, encode_utf8, is_char_boundary, valid_utf8};

use crate::clear_cfg::Range;

verus! {

/// Whether `ranges` can be deleted from a text of `len` bytes: every range
/// lies inside the text, and no two of them overlap. The order of the list
/// does not matter.
pub open spec fn ranges_valid(ranges: Seq<Range>, len: int) -> bool {
    &&& forall|k: int|
        0 <= k < ranges.len() ==> (#[trigger] ranges[k]).start() <= ranges[k].end() <= len
    &&& forall|j: int, k: int|
        0 <= j < ranges.len() && 0 <= k < ranges.len() && j != k ==> (#[trigger] ranges[j]).end()
            <= (#[trigger] ranges[k]).start() || ranges[k].end() <= ranges[j].start()
}

/// Whether `ranges` are listed by ascending start, and by ascending end where
/// two of them start at the same offset.
pub open spec fn sorted_by_start(ranges: Seq<Range>) -> bool {
    forall|j: int, k: int|
        0 <= j < k < ranges.len() ==> (#[trigger] ranges[j]).start() < (
        #[trigger] ranges[k]).start() || (ranges[j].start() == ranges[k].start() && ranges[j].end()
            <= ranges[k].end())
}

/// Whether `ranges` lie inside a text of `len` bytes and are listed in source
/// order, each one ending before the next one starts.
pub open spec fn ranges_ordered(ranges: Seq<Range>, len: int) -> bool {
    &&& forall|k: int|
        0 <= k < ranges.len() ==> (#[trigger] ranges[k]).start() <= ranges[k].end() <= len
    &&& forall|j: int, k: int|
        0 <= j < k < ranges.len() ==> (#[trigger] ranges[j]).end() <= (#[trigger] ranges[k]).start()
}

/// Whether the byte at offset `i` lies in one of `ranges`.
pub open spec fn covered(ranges: Seq<Range>, i: int) -> bool {
    exists|k: int| 0 <= k < ranges.len() && (#[trigger] ranges[k]).start() <= i < ranges[k].end()
}

/// The bytes of `content` at the offsets in `[lo, hi)` that lie in none of
/// `ranges`, in their order.
pub open spec fn kept_between(content: Seq<u8>, ranges: Seq<Range>, lo: int, hi: int) -> Seq<u8>
    decreases hi - lo,
{
    if hi <= lo {
        Seq::empty()
    } else if covered(ranges, hi - 1) {
        kept_between(content, ranges, lo, hi - 1)
    } else {
        kept_between(content, ranges, lo, hi - 1).push(content[hi - 1])
    }
}

/// `content` without the bytes that lie in one of `ranges`.
pub open spec fn excise(content: Seq<u8>, ranges: Seq<Range>) -> Seq<u8> {
    kept_between(content, ranges, 0, content.len() as int)
}

/// What is kept of `[lo, hi)` is what is kept of `[lo, mid)`, then what is
/// kept of `[mid, hi)`.
pub proof fn lemma_kept_split(content: Seq<u8>, ranges: Seq<Range>, lo: int, mid: int, hi: int)
    requires
        lo <= mid <= hi,
    ensures
        kept_between(content, ranges, lo, hi) == kept_between(content, ranges, lo, mid)
            + kept_between(content, ranges, mid, hi),
    decreases hi - mid,
{
    if mid < hi {
        lemma_kept_split(content, ranges, lo, mid, hi - 1);
        assert(kept_between(content, ranges, lo, hi) =~= kept_between(content, ranges, lo, mid)
            + kept_between(content, ranges, mid, hi));
    } else {
        assert(kept_between(content, ranges, lo, hi) =~= kept_between(content, ranges, lo, mid)
            + kept_between(content, ranges, mid, hi));
    }
}

/// Nothing is kept of an interval whose every offset is covered.
pub proof fn lemma_kept_none(content: Seq<u8>, ranges: Seq<Range>, lo: int, hi: int)
    requires
        forall|i: int| lo <= i < hi ==> covered(ranges, i),
    ensures
        kept_between(content, ranges, lo, hi) == Seq::<u8>::empty(),
    decreases hi - lo,
{
    if lo < hi {
        lemma_kept_none(content, ranges, lo, hi - 1);
    }
}

/// All is kept of an interval none of whose offsets is covered.
pub proof fn lemma_kept_all(content: Seq<u8>, ranges: Seq<Range>, lo: int, hi: int)
    requires
        0 <= lo <= hi <= content.len(),
        forall|i: int| lo <= i < hi ==> !covered(ranges, i),
    ensures
        kept_between(content, ranges, lo, hi) == content.subrange(lo, hi),
    decreases hi - lo,
{
    if lo < hi {
        lemma_kept_all(content, ranges, lo, hi - 1);
        assert(content.subrange(lo, hi) =~= content.subrange(lo, hi - 1).push(content[hi - 1]));
    } else {
        assert(content.subrange(lo, hi) =~= Seq::<u8>::empty());
    }
}

/// A range occurs at least twice in the bag of a list exactly when it stands
/// at two places of the list.
pub proof fn lemma_twice(ranges: Seq<Range>, range: Range)
    ensures
        ranges.to_multiset().count(range) >= 2 <==> exists|i: int, j: int|
            0 <= i < ranges.len() && 0 <= j < ranges.len() && i != j && #[trigger] ranges[i]
                == range && #[trigger] ranges[j] == range,
{
    broadcast use {vstd::seq_lib::group_to_multiset_ensures, vstd::multiset::group_multiset_axioms};

    if ranges.to_multiset().count(range) >= 2 {
        assert(ranges.contains(range));
        let i = choose|i: int| 0 <= i < ranges.len() && ranges[i] == range;
        let rest = ranges.remove(i);
        vstd::seq_lib::to_multiset_remove(ranges, i);
        assert(rest.to_multiset().count(range) > 0);
        assert(rest.contains(range));
        let r = choose|r: int| 0 <= r < rest.len() && rest[r] == range;
        let j = if r < i {
            r
        } else {
            r + 1
        };
        assert(ranges[j] == range && j != i);
    }
    if exists|i: int, j: int|
        0 <= i < ranges.len() && 0 <= j < ranges.len() && i != j && #[trigger] ranges[i] == range
            && #[trigger] ranges[j] == range {
        let (i, j) = choose|i: int, j: int|
            0 <= i < ranges.len() && 0 <= j < ranges.len() && i != j && #[trigger] ranges[i]
                == range && #[trigger] ranges[j] == range;
        let rest = ranges.remove(i);
        vstd::seq_lib::to_multiset_remove(ranges, i);
        let r = if j < i {
            j
        } else {
            j - 1
        };
        assert(rest[r] == range);
        assert(rest.contains(range));
        assert(rest.to_multiset().count(range) > 0);
    }
}

/// A range that stands in a list stands in every list of the same ranges.
pub proof fn lemma_member_any_order(ranges: Seq<Range>, other: Seq<Range>, range: Range)
    requires
        ranges.to_multiset() == other.to_multiset(),
        ranges.contains(range),
    ensures
        other.contains(range),
{
    vstd::seq_lib::to_multiset_contains(ranges, range);
    vstd::seq_lib::to_multiset_contains(other, range);
}

/// A list of ranges that can be deleted can be deleted in any other order of
/// the list.
pub proof fn lemma_valid_any_order(ranges: Seq<Range>, other: Seq<Range>, len: int)
    requires
        ranges.to_multiset() == other.to_multiset(),
        ranges_valid(ranges, len),
    ensures
        ranges_valid(other, len),
{
    broadcast use vstd::seq_lib::group_to_multiset_ensures;

    assert forall|k: int| 0 <= k < other.len() implies (#[trigger] other[k]).start()
        <= other[k].end() <= len by {
        assert(other.contains(other[k]));
        lemma_member_any_order(other, ranges, other[k]);
        let p = choose|p: int| 0 <= p < ranges.len() && ranges[p] == other[k];
        assert(ranges[p].start() <= ranges[p].end() <= len);
    }
    assert forall|j: int, k: int|
        0 <= j < other.len() && 0 <= k < other.len() && j != k implies (#[trigger] other[j]).end()
        <= (#[trigger] other[k]).start() || other[k].end() <= other[j].start() by {
        assert(other.contains(other[j]) && other.contains(other[k]));
        lemma_member_any_order(other, ranges, other[j]);
        lemma_member_any_order(other, ranges, other[k]);
        if other[j] == other[k] {
            lemma_twice(other, other[j]);
            lemma_twice(ranges, other[j]);
            let (p, q) = choose|p: int, q: int|
                0 <= p < ranges.len() && 0 <= q < ranges.len() && p != q && #[trigger] ranges[p]
                    == other[j] && #[trigger] ranges[q] == other[j];
            assert(ranges[p].end() <= ranges[q].start() || ranges[q].end() <= ranges[p].start());
        } else {
            let p = choose|p: int| 0 <= p < ranges.len() && ranges[p] == other[j];
            let q = choose|q: int| 0 <= q < ranges.len() && ranges[q] == other[k];
            assert(ranges[p].end() <= ranges[q].start() || ranges[q].end() <= ranges[p].start());
        }
    }
}

/// Of ranges that are listed by ascending start, those that can be deleted
/// are those of which each one ends before the next one starts.
pub proof fn lemma_sorted_valid(ranges: Seq<Range>, len: int)
    requires
        sorted_by_start(ranges),
    ensures
        ranges_valid(ranges, len) == ranges_ordered(ranges, len),
{
    if ranges_valid(ranges, len) {
        assert forall|j: int, k: int| 0 <= j < k < ranges.len() implies (#[trigger] ranges[j]).end()
            <= (#[trigger] ranges[k]).start() by {
            assert(ranges[j].start() <= ranges[j].end());
            assert(ranges[k].start() <= ranges[k].end());
        }
    }
    if ranges_ordered(ranges, len) {
        assert forall|j: int, k: int|
            0 <= j < ranges.len() && 0 <= k < ranges.len() && j != k implies (
        #[trigger] ranges[j]).end() <= (#[trigger] ranges[k]).start() || ranges[k].end()
            <= ranges[j].start() by {
            if j < k {
                assert(ranges[j].end() <= ranges[k].start());
            } else {
                assert(ranges[k].end() <= ranges[j].start());
            }
        }
    }
}

/// What is kept of a text does not depend on the order in which the ranges
/// are listed.
pub proof fn lemma_kept_any_order(
    content: Seq<u8>,
    ranges: Seq<Range>,
    other: Seq<Range>,
    lo: int,
    hi: int,
)
    requires
        ranges.to_multiset() == other.to_multiset(),
    ensures
        kept_between(content, ranges, lo, hi) == kept_between(content, other, lo, hi),
    decreases hi - lo,
{
    broadcast use vstd::seq_lib::group_to_multiset_ensures;

    if lo < hi {
        lemma_kept_any_order(content, ranges, other, lo, hi - 1);
        let i = hi - 1;
        if covered(ranges, i) {
            let k = choose|k: int|
                0 <= k < ranges.len() && (#[trigger] ranges[k]).start() <= i < ranges[k].end();
            assert(ranges.contains(ranges[k]));
            lemma_member_any_order(ranges, other, ranges[k]);
            let p = choose|p: int| 0 <= p < other.len() && other[p] == ranges[k];
            assert(other[p].start() <= i < other[p].end());
        }
        if covered(other, i) {
            let k = choose|k: int|
                0 <= k < other.len() && (#[trigger] other[k]).start() <= i < other[k].end();
            assert(other.contains(other[k]));
            lemma_member_any_order(other, ranges, other[k]);
            let p = choose|p: int| 0 <= p < ranges.len() && ranges[p] == other[k];
            assert(ranges[p].start() <= i < ranges[p].end());
        }
    }
}

/// Whether every range starts and ends between two characters of the text
/// that `content` encodes.
pub open spec fn on_char_boundaries(content: Seq<u8>, ranges: Seq<Range>) -> bool {
    forall|k: int|
        0 <= k < ranges.len() ==> is_char_boundary(content, (#[trigger] ranges[k]).start())
            && is_char_boundary(content, ranges[k].end())
}

/// What lies between two character boundaries of a text is text.
pub proof fn lemma_between_boundaries(content: Seq<u8>, from: int, to: int)
    requires
        valid_utf8(content),
        0 <= from <= to <= content.len(),
        is_char_boundary(content, from),
        is_char_boundary(content, to),
    ensures
        valid_utf8(content.subrange(from, to)),
{
    vstd::utf8::valid_utf8_split(content, to);
    let head = content.subrange(0, to);
    if from < to {
        vstd::utf8::is_char_boundary_iff_not_is_continuation_byte(content, from);
        vstd::utf8::is_char_boundary_iff_not_is_continuation_byte(head, from);
        assert(head[from] == content[from]);
        vstd::utf8::valid_utf8_split(head, from);
        assert(head.subrange(from, head.len() as int) =~= content.subrange(from, to));
    } else {
        assert(content.subrange(from, to).len() == 0);
    }
}

/// Ranges that start and end between characters do so in whatever order
/// they are listed.
pub proof fn lemma_boundaries_any_order(content: Seq<u8>, ranges: Seq<Range>, other: Seq<Range>)
    requires
        ranges.to_multiset() == other.to_multiset(),
        on_char_boundaries(content, ranges),
    ensures
        on_char_boundaries(content, other),
{
    assert forall|k: int| 0 <= k < other.len() implies is_char_boundary(
        content,
        (#[trigger] other[k]).start(),
    ) && is_char_boundary(content, other[k].end()) by {
        assert(other.contains(other[k]));
        lemma_member_any_order(other, ranges, other[k]);
        let p = choose|p: int| 0 <= p < ranges.len() && ranges[p] == other[k];
        assert(is_char_boundary(content, ranges[p].start()));
    }
}

/// `<[Range]>::sort_by_key` with the start and the end of a range as its key:
/// puts the ranges in the order of their starts, and of their ends where two
/// start at the same offset. The same ranges are there afterwards, each as
/// often as before.
#[verifier::external_body]
fn sort_ranges(ranges: &mut Vec<Range>)
    ensures
        sorted_by_start(final(ranges)@),
        final(ranges)@.to_multiset() == old(ranges)@.to_multiset(),
{
    ranges.sort_by_key(|range| (range.0, range.1))
}

/// Decides `ranges_ordered`.
pub fn check_ranges(ranges: &[Range], len: usize) -> (ok: bool)
    ensures
        ok == ranges_ordered(ranges@, len as int),
{
    let mut k: usize = 0;
    while k < ranges.len()
        invariant
            k <= ranges@.len(),
            ranges_ordered(ranges@.subrange(0, k as int), len as int),
        decreases ranges@.len() - k,
    {
        let r = ranges[k];
        if r.0 > r.1 || r.1 > len {
            return false;
        }
        if k > 0 {
            let p = ranges[k - 1];
            if p.1 > r.0 {
                assert(ranges@[k as int - 1].end() > ranges@[k as int].start());
                return false;
            }
        }
        proof {
            let before = ranges@.subrange(0, k as int);
            let after = ranges@.subrange(0, k as int + 1);
            assert forall|i: int, j: int| 0 <= i < j < after.len() implies (#[trigger] after[i]).end()
                <= (#[trigger] after[j]).start() by {
                if j < k {
                    assert(before[i].end() <= before[j].start());
                } else if i < k - 1 {
                    assert(before[i].end() <= before[k as int - 1].start());
                    assert(before[k as int - 1].start() <= before[k as int - 1].end());
                }
            }
            assert forall|i: int| 0 <= i < after.len() implies (#[trigger] after[i]).start()
                <= after[i].end() <= len by {
                if i < k {
                    assert(before[i].start() <= before[i].end());
                }
            }
        }
        k += 1;
    }
    assert(ranges@.subrange(0, k as int) =~= ranges@);
    true
}

/// `text` without the bytes in `[start, end)`.
fn cut_out(text: Vec<u8>, start: usize, end: usize) -> (out: Vec<u8>)
    requires
        start <= end <= text@.len(),
    ensures
        out@ == text@.subrange(0, start as int) + text@.subrange(end as int, text@.len() as int),
{
    let mut out = slice_to_vec(slice_subrange(text.as_slice(), 0, start));
    out.extend_from_slice(slice_subrange(text.as_slice(), end, text.len()));
    out
}

/// Deletes `ranges` from `content`, in whatever order they are listed.
///
/// The ranges are put in the order of their starts and then taken from the
/// one that starts last to the one that starts first, so that the offsets
/// of each one still hold of the text at the moment it is cut out. What
/// comes out is `content` without the bytes that lie in one of the ranges.
pub fn remove_ranges(content: &[u8], ranges: &[Range]) -> (out: Vec<u8>)
    requires
        ranges_valid(ranges@, content@.len() as int),
    ensures
        out@ == excise(content@, ranges@),
        valid_utf8(content@) && on_char_boundaries(content@, ranges@) ==> valid_utf8(out@),
{
    let mut ordered = slice_to_vec(ranges);
    sort_ranges(&mut ordered);
    proof {
        let len = content@.len() as int;
        lemma_valid_any_order(ranges@, ordered@, len);
        lemma_sorted_valid(ordered@, len);
        lemma_kept_any_order(content@, ordered@, ranges@, 0, len);
        if on_char_boundaries(content@, ranges@) {
            lemma_boundaries_any_order(content@, ranges@, ordered@);
        }
    }
    remove_ordered(content, ordered.as_slice())
}

/// Deletes `ranges`, which are listed in source order, from `content`: from
/// the last one to the first one.
fn remove_ordered(content: &[u8], ranges: &[Range]) -> (out: Vec<u8>)
    requires
        ranges_ordered(ranges@, content@.len() as int),
    ensures
        out@ == excise(content@, ranges@),
        valid_utf8(content@) && on_char_boundaries(content@, ranges@) ==> valid_utf8(out@),
{
    let ghost text_cut = valid_utf8(content@) && on_char_boundaries(content@, ranges@);
    let ghost len = content@.len() as int;
    let mut text = slice_to_vec(content);
    let mut k: usize = ranges.len();
    let ghost mut cut: int = len;
    proof {
        assert(text@ =~= content@.subrange(0, cut) + kept_between(content@, ranges@, cut, len));
        if text_cut {
            vstd::utf8::is_char_boundary_start_end_of_seq(content@);
        }
    }
    while k > 0
        invariant
            k <= ranges@.len(),
            len == content@.len(),
            ranges_ordered(ranges@, len),
            0 <= cut <= len,
            k < ranges@.len() ==> cut == ranges@[k as int].start(),
            k == ranges@.len() ==> cut == len,
            text@ == content@.subrange(0, cut) + kept_between(content@, ranges@, cut, len),
            text_cut == (valid_utf8(content@) && on_char_boundaries(content@, ranges@)),
            text_cut ==> is_char_boundary(content@, cut) && valid_utf8(
                kept_between(content@, ranges@, cut, len),
            ),
        decreases k,
    {
        k -= 1;
        let r = ranges[k];
        proof {
            assert(r.end() <= cut);
            assert forall|i: int| r.start() <= i < r.end() implies covered(ranges@, i) by {
                assert(ranges@[k as int].start() <= i < ranges@[k as int].end());
            }
            assert forall|i: int| r.end() <= i < cut implies !covered(ranges@, i) by {
                if covered(ranges@, i) {
                    let j = choose|j: int|
                        0 <= j < ranges@.len() && (#[trigger] ranges@[j]).start() <= i
                            < ranges@[j].end();
                    if j < k {
                        assert(ranges@[j].end() <= ranges@[k as int].start());
                    } else if j > k {
                        if j > k + 1 {
                            assert(ranges@[k as int + 1].end() <= ranges@[j].start());
                            assert(ranges@[k as int + 1].start() <= ranges@[k as int + 1].end());
                        }
                    }
                }
            }
            lemma_kept_none(content@, ranges@, r.start(), r.end());
            lemma_kept_all(content@, ranges@, r.end(), cut);
            lemma_kept_split(content@, ranges@, r.start(), r.end(), len);
            lemma_kept_split(content@, ranges@, r.end(), cut, len);
            if text_cut {
                assert(is_char_boundary(content@, ranges@[k as int].end()));
                lemma_between_boundaries(content@, r.end(), cut);
                vstd::utf8::valid_utf8_concat(
                    content@.subrange(r.end(), cut),
                    kept_between(content@, ranges@, cut, len),
                );
                assert(kept_between(content@, ranges@, r.start(), len) =~= content@.subrange(
                    r.end(),
                    cut,
                ) + kept_between(content@, ranges@, cut, len));
            }
        }
        let ghost before = text@;
        text = cut_out(text, r.0, r.1);
        proof {
            assert(before.subrange(0, r.start()) =~= content@.subrange(0, r.start()));
            assert(before.subrange(r.end(), before.len() as int) =~= content@.subrange(
                r.end(),
                cut,
            ) + kept_between(content@, ranges@, cut, len));
            cut = r.start();
            assert(text@ =~= content@.subrange(0, cut) + kept_between(content@, ranges@, cut, len));
        }
    }
    proof {
        assert forall|i: int| 0 <= i < cut implies !covered(ranges@, i) by {
            if covered(ranges@, i) {
                let j = choose|j: int|
                    0 <= j < ranges@.len() && (#[trigger] ranges@[j]).start() <= i
                        < ranges@[j].end();
                if j > 0 {
                    assert(ranges@[0].end() <= ranges@[j].start());
                    assert(ranges@[0].start() <= ranges@[0].end());
                }
            }
        }
        lemma_kept_all(content@, ranges@, 0, cut);
        lemma_kept_split(content@, ranges@, 0, cut, len);
        if text_cut {
            vstd::utf8::valid_utf8_split(content@, cut);
            vstd::utf8::valid_utf8_concat(
                content@.subrange(0, cut),
                kept_between(content@, ranges@, cut, len),
            );
        }
    }
    text
}

/// Deletes `ranges` from `content` where they can be deleted, in whatever
/// order they are listed: none where one of them reaches past the end of the
/// text or two of them overlap.
pub fn try_remove_ranges(content: &[u8], ranges: &[Range]) -> (out: Option<Vec<u8>>)
    ensures
        match out {
            Some(text) => {
                &&& ranges_valid(ranges@, content@.len() as int)
                &&& text@ == excise(content@, ranges@)
                &&& valid_utf8(content@) && on_char_boundaries(content@, ranges@) ==> valid_utf8(
                    text@,
                )
            },
            None => !ranges_valid(ranges@, content@.len() as int),
        },
{
    let mut ordered = slice_to_vec(ranges);
    sort_ranges(&mut ordered);
    proof {
        let len = content@.len() as int;
        lemma_sorted_valid(ordered@, len);
        if ranges_valid(ranges@, len) {
            lemma_valid_any_order(ranges@, ordered@, len);
        }
        if ranges_valid(ordered@, len) {
            lemma_valid_any_order(ordered@, ranges@, len);
        }
        lemma_kept_any_order(content@, ordered@, ranges@, 0, len);
        if on_char_boundaries(content@, ranges@) {
            lemma_boundaries_any_order(content@, ranges@, ordered@);
        }
    }
    if check_ranges(ordered.as_slice(), content.len()) {
        Some(remove_ordered(content, ordered.as_slice()))
    } else {
        None
    }
}

/// Whether a character has the Unicode property `White_Space`: the
/// characters from tab to carriage return, the space, the next-line
/// character, the no-break space, the ogham space mark, the spaces from
/// en quad to hair space, the line and the paragraph separator, the narrow
/// no-break space, the medium mathematical space and the ideographic space.
pub open spec fn is_white_space(c: char) -> bool {
    let code = c as u32;
    ||| 0x09 <= code <= 0x0d
    ||| code == 0x20
    ||| code == 0x85
    ||| code == 0xa0
    ||| code == 0x1680
    ||| 0x2000 <= code <= 0x200a
    ||| code == 0x2028
    ||| code == 0x2029
    ||| code == 0x202f
    ||| code == 0x205f
    ||| code == 0x3000
}

/// `char::is_whitespace`: whether `c` has the Unicode property `White_Space`.
#[verifier::external_body]
fn char_is_whitespace(c: char) -> (yes: bool)
    ensures
        yes == is_white_space(c),
{
    c.is_whitespace()
}

/// `String::push`: appends `c` to the end of `text`.
#[verifier::external_body]
fn push_char(text: &mut String, c: char)
    ensures
        final(text)@ == old(text)@.push(c),
{
    text.push(c)
}

/// `String::from_utf8`: the string whose UTF-8 encoding is `bytes`, or none
/// where `bytes` is not valid UTF-8.
#[verifier::external_body]
fn string_from_utf8(bytes: Vec<u8>) -> (text: Option<String>)
    ensures
        match text {
            Some(s) => valid_utf8(bytes@) && encode_utf8(s@) == bytes@,
            None => !valid_utf8(bytes@),
        },
{
    String::from_utf8(bytes).ok()
}

/// The lines of `text`: what lies between its line breaks. A text without a
/// line break is one line, and a text that ends in a line break ends in an
/// empty line.
pub open spec fn split_lines(text: Seq<char>) -> Seq<Seq<char>>
    decreases text.len(),
{
    if text.len() == 0 {
        seq![Seq::empty()]
    } else {
        let before = split_lines(text.drop_last());
        if text.last() == '\n' {
            before.push(Seq::empty())
        } else {
            before.update(before.len() - 1, before.last().push(text.last()))
        }
    }
}

/// Whether a line is empty once the white space around it is trimmed: whether
/// it holds nothing but white space.
pub open spec fn is_blank(line: Seq<char>) -> bool {
    forall|i: int| 0 <= i < line.len() ==> is_white_space(#[trigger] line[i])
}

/// The lines among the first `k` of `lines` that are not blank.
pub open spec fn nonblank_lines(lines: Seq<Seq<char>>, k: int) -> Seq<Seq<char>>
    decreases k,
{
    if k <= 0 || k > lines.len() {
        Seq::empty()
    } else if is_blank(lines[k - 1]) {
        nonblank_lines(lines, k - 1)
    } else {
        nonblank_lines(lines, k - 1).push(lines[k - 1])
    }
}

/// `lines` with a line break between each two of them.
pub open spec fn join_lines(lines: Seq<Seq<char>>) -> Seq<char>
    decreases lines.len(),
{
    if lines.len() == 0 {
        Seq::empty()
    } else if lines.len() == 1 {
        lines[0]
    } else {
        join_lines(lines.drop_last()) + seq!['\n'] + lines.last()
    }
}

/// `text` without its blank lines.
pub open spec fn without_blank_lines(text: Seq<char>) -> Seq<char> {
    let lines = split_lines(text);
    join_lines(nonblank_lines(lines, lines.len() as int))
}

/// Whether `line` holds nothing but white space.
fn line_is_blank(line: &Vec<char>) -> (blank: bool)
    ensures
        blank == is_blank(line@),
{
    let mut i: usize = 0;
    while i < line.len()
        invariant
            i <= line@.len(),
            forall|j: int| 0 <= j < i ==> is_white_space(#[trigger] line@[j]),
        decreases line@.len() - i,
    {
        if !char_is_whitespace(line[i]) {
            return false;
        }
        i += 1;
    }
    true
}

/// The lines of `text`.
fn lines_of(text: &str) -> (lines: Vec<Vec<char>>)
    ensures
        lines@.len() >= 1,
        Seq::new(lines@.len(), |i: int| lines@[i]@) == split_lines(text@),
{
    let mut done: Vec<Vec<char>> = Vec::new();
    let mut current: Vec<char> = Vec::new();
    let chars = text.chars();
    proof {
        assert(text@.take(0) =~= Seq::<char>::empty());
        assert(Seq::new(done@.len(), |i: int| done@[i]@).push(current@) =~= split_lines(
            text@.take(0),
        ));
    }
    for c in it: chars
        invariant
            it.seq() == text@,
            Seq::new(done@.len(), |i: int| done@[i]@).push(current@) == split_lines(
                text@.take(it.index() as int),
            ),
    {
        let ghost k = it.index() as int;
        let ghost before = Seq::new(done@.len(), |i: int| done@[i]@);
        let ghost line = current@;
        proof {
            assert(text@.take(k + 1).drop_last() =~= text@.take(k));
            assert(text@.take(k + 1).last() == c);
        }
        if c == '\n' {
            done.push(current);
            current = Vec::new();
            proof {
                assert(Seq::new(done@.len(), |i: int| done@[i]@) =~= before.push(line));
            }
        } else {
            current.push(c);
            proof {
                assert(before.push(current@) =~= before.push(line).update(
                    before.len() as int,
                    line.push(c),
                ));
            }
        }
    }
    let ghost before = Seq::new(done@.len(), |i: int| done@[i]@);
    let ghost line = current@;
    done.push(current);
    proof {
        assert(text@.take(text@.len() as int) =~= text@);
        assert(Seq::new(done@.len(), |i: int| done@[i]@) =~= before.push(line));
    }
    done
}

/// Drops every line of `text` that is empty once the white space around it
/// is trimmed, and joins the others with line breaks.
pub fn strip_blank_lines(text: &str) -> (out: String)
    ensures
        out@ == without_blank_lines(text@),
{
    let lines = lines_of(text);
    let ghost all = Seq::new(lines@.len(), |i: int| lines@[i]@);
    let mut out = String::new();
    let mut any = false;
    let mut k: usize = 0;
    while k < lines.len()
        invariant
            k <= lines@.len(),
            all == Seq::new(lines@.len(), |i: int| lines@[i]@),
            any == (nonblank_lines(all, k as int).len() > 0),
            out@ == join_lines(nonblank_lines(all, k as int)),
        decreases lines@.len() - k,
    {
        let line = &lines[k];
        if !line_is_blank(line) {
            let ghost kept = nonblank_lines(all, k as int);
            let ghost joined = out@;
            if any {
                push_char(&mut out, '\n');
            }
            let mut i: usize = 0;
            while i < line.len()
                invariant
                    i <= line@.len(),
                    out@ == if any {
                        joined + seq!['\n'] + line@.take(i as int)
                    } else {
                        joined + line@.take(i as int)
                    },
                decreases line@.len() - i,
            {
                push_char(&mut out, line[i]);
                proof {
                    assert(line@.take(i as int + 1) =~= line@.take(i as int).push(line@[i as int]));
                }
                i += 1;
            }
            proof {
                assert(line@.take(line@.len() as int) =~= line@);
                let after = kept.push(line@);
                assert(after.drop_last() =~= kept);
                if !any {
                    assert(joined =~= Seq::<char>::empty());
                    assert(out@ =~= line@);
                }
            }
            any = true;
        }
        k += 1;
    }
    out
}

/// Why a file could not be rewritten.
#[derive(Clone, Copy, Debug, PartialEq, Eq, Structural)]
pub enum RewriteError {
    /// Two ranges overlap, or a range reaches past the end of the text.
    InvalidRanges,
    /// What is left of the text is not valid UTF-8: a range cuts a
    /// character in two.
    NotUtf8,
}

/// What `content` becomes once `ranges` are deleted and the blank lines are
/// dropped.
pub open spec fn rewritten(content: Seq<u8>, ranges: Seq<Range>) -> Result<
    Seq<char>,
    RewriteError,
> {
    if !ranges_valid(ranges, content.len() as int) {
        Err(RewriteError::InvalidRanges)
    } else if !valid_utf8(excise(content, ranges)) {
        Err(RewriteError::NotUtf8)
    } else {
        Ok(without_blank_lines(decode_utf8(excise(content, ranges))))
    }
}

/// Rewrites the text of a file: deletes `ranges`, in descending order of
/// their starts whatever the order of the list, then drops every line that
/// holds nothing but white space. Ranges that lie inside the text, do not
/// overlap and cut no character in two can always be deleted.
pub fn remove_file_ranges(content: &str, ranges: &[Range]) -> (out: Result<String, RewriteError>)
    ensures
        match out {
            Ok(text) => rewritten(content.spec_bytes(), ranges@) == Ok::<Seq<char>, RewriteError>(
                text@,
            ),
            Err(e) => rewritten(content.spec_bytes(), ranges@) == Err::<Seq<char>, RewriteError>(e),
        },
        ranges_valid(ranges@, content.spec_bytes().len() as int) && on_char_boundaries(
            content.spec_bytes(),
            ranges@,
        ) ==> out.is_ok(),
{
    proof {
        vstd::utf8::encode_utf8_valid_utf8(content@);
    }
    let bytes = content.as_bytes();
    let cut = match try_remove_ranges(bytes, ranges) {
        Some(cut) => cut,
        None => {
            return Err(RewriteError::InvalidRanges);
        },
    };
    match string_from_utf8(cut) {
        Some(text) => {
            proof {
                vstd::utf8::encode_utf8_decode_utf8(text@);
            }
            Ok(strip_blank_lines(text.as_str()))
        },
        None => Err(RewriteError::NotUtf8),
    }
}

} // verus!
