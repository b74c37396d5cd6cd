//! Descriptive statistics over the derive arities of a whole corpus.

use vstd::prelude::*;
use vstd::slice::slice_to_vec;

use crate::analyzis::DeriveMacroUsage;

verus! {

/// The sum of the first `k` samples.
pub open spec fn sum_of(data: Seq<usize>, k: int) -> nat
    decreases k,
{
    if k <= 0 || k > data.len() {
        0
    } else {
        sum_of(data, k - 1) + data[k - 1] as nat
    }
}

/// How often `value` occurs among the first `k` samples.
pub open spec fn occurrences(data: Seq<usize>, value: usize, k: int) -> nat
    decreases k,
{
    if k <= 0 || k > data.len() {
        0
    } else if data[k - 1] == value {
        occurrences(data, value, k - 1) + 1
    } else {
        occurrences(data, value, k - 1)
    }
}

/// How often `value` occurs among the samples.
pub open spec fn frequency(data: Seq<usize>, value: usize) -> nat {
    occurrences(data, value, data.len() as int)
}

/// Whether the samples are in ascending order.
pub open spec fn is_sorted(data: Seq<usize>) -> bool {
    forall|i: int, j: int| 0 <= i <= j < data.len() ==> data[i] <= data[j]
}

/// Whether `value` is a mode of the samples: it occurs, and no value occurs
/// more often.
pub open spec fn is_mode(data: Seq<usize>, value: usize) -> bool {
    &&& data.contains(value)
    &&& forall|other: usize| frequency(data, other) <= frequency(data, value)
}

/// The statistics of a corpus: of how many names each derive invocation
/// derives.
///
/// The mean is `sum / count`, and the median is the mean of `median_low` and
/// `median_high`: the two are the same sample when the number of samples is
/// odd, and the two middle samples when it is even.
#[derive(Debug)]
pub struct DeriveUsage {
    pub sum: u128,
    pub count: usize,
    pub median_low: usize,
    pub median_high: usize,
    pub mode: Vec<usize>,
    pub max: usize,
    pub sorted_data: Vec<usize>,
}

impl DeriveUsage {
    /// Whether these are the statistics of the samples `data`, which are in
    /// ascending order: the sum and the number of the samples, the middle
    /// sample or the two middle samples, the largest sample, and as modes
    /// every value that is tied for the highest frequency, in ascending
    /// order and each once.
    pub open spec fn describes(&self, data: Seq<usize>) -> bool {
        &&& data.len() > 0
        &&& self.sorted_data@ == data
        &&& self.count == data.len()
        &&& self.sum == sum_of(data, data.len() as int)
        &&& self.median_low == data[(data.len() - 1) / 2]
        &&& self.median_high == data[data.len() as int / 2]
        &&& self.max == data[data.len() - 1]
        &&& forall|i: int| 0 <= i < data.len() ==> data[i] <= self.max
        &&& forall|value: usize| self.mode@.contains(value) <==> is_mode(data, value)
        &&& forall|i: int, j: int|
            0 <= i < j < self.mode@.len() ==> self.mode@[i] < self.mode@[j]
    }
}

/// A value that is not among the first `k` samples occurs zero times there,
/// and one that is there occurs at least once.
pub proof fn lemma_occurrences_contains(data: Seq<usize>, value: usize, k: int)
    requires
        0 <= k <= data.len(),
    ensures
        occurrences(data, value, k) > 0 <==> exists|i: int| 0 <= i < k && data[i] == value,
    decreases k,
{
    if k > 0 {
        lemma_occurrences_contains(data, value, k - 1);
        if data[k - 1] == value {
        } else if occurrences(data, value, k) > 0 {
            let i = choose|i: int| 0 <= i < k - 1 && data[i] == value;
            assert(0 <= i < k && data[i] == value);
        }
    }
}

/// The sum of more samples is no smaller.
pub proof fn lemma_sum_of_monotone(data: Seq<usize>, j: int, k: int)
    requires
        0 <= j <= k <= data.len(),
    ensures
        sum_of(data, j) <= sum_of(data, k),
    decreases k - j,
{
    if j < k {
        lemma_sum_of_monotone(data, j, k - 1);
    }
}

/// The sum of `k` samples is at most `k` times the largest number a sample
/// can be.
proof fn lemma_sum_bound(data: Seq<usize>, k: int)
    requires
        0 <= k <= data.len(),
    ensures
        sum_of(data, k) <= k * 0xffff_ffff_ffff_ffff,
    decreases k,
{
    if k > 0 {
        lemma_sum_bound(data, k - 1);
    }
}

/// How often `value` occurs among the samples.
pub fn count_occurrences(data: &Vec<usize>, value: usize) -> (n: usize)
    ensures
        n == frequency(data@, value),
{
    let mut n: usize = 0;
    let mut k: usize = 0;
    while k < data.len()
        invariant
            k <= data@.len(),
            n == occurrences(data@, value, k as int),
            n <= k,
        decreases data@.len() - k,
    {
        if data[k] == value {
            n += 1;
        }
        k += 1;
    }
    n
}

/// Decides `is_sorted`.
pub fn check_sorted(data: &Vec<usize>) -> (ok: bool)
    ensures
        ok == is_sorted(data@),
{
    if data.len() < 2 {
        return true;
    }
    let mut k: usize = 1;
    while k < data.len()
        invariant
            1 <= k <= data@.len(),
            forall|i: int, j: int| 0 <= i <= j < k ==> data@[i] <= data@[j],
        decreases data@.len() - k,
    {
        if data[k - 1] > data[k] {
            return false;
        }
        k += 1;
    }
    true
}

/// The highest frequency of any value among sorted samples.
fn highest_frequency(data: &Vec<usize>) -> (best: usize)
    requires
        data@.len() > 0,
        is_sorted(data@),
    ensures
        forall|value: usize| frequency(data@, value) <= best,
        exists|i: int| 0 <= i < data@.len() && frequency(data@, data@[i]) == best,
{
    let mut best: usize = count_occurrences(data, data[0]);
    let ghost mut witness: int = 0;
    let mut k: usize = 1;
    while k < data.len()
        invariant
            1 <= k <= data@.len(),
            0 <= witness < data@.len(),
            frequency(data@, data@[witness]) == best,
            forall|i: int| 0 <= i < k ==> frequency(data@, #[trigger] data@[i]) <= best,
        decreases data@.len() - k,
    {
        if data[k] != data[k - 1] {
            let n = count_occurrences(data, data[k]);
            if n > best {
                best = n;
                proof {
                    witness = k as int;
                }
            }
        }
        k += 1;
    }
    proof {
        assert forall|value: usize| frequency(data@, value) <= best by {
            lemma_occurrences_contains(data@, value, data@.len() as int);
            if frequency(data@, value) > 0 {
                let i = choose|i: int| 0 <= i < data@.len() && data@[i] == value;
                assert(frequency(data@, data@[i]) <= best);
            }
        }
    }
    best
}

/// The mean, the median, the modes and the maximum of the samples.
///
/// The samples are in ascending order, and there is at least one. Every value
/// that is tied for the highest frequency is a mode; the modes come out in
/// ascending order, each once.
pub fn calculate_statistics(sorted_data: Vec<usize>) -> (stats: DeriveUsage)
    requires
        sorted_data@.len() > 0,
        is_sorted(sorted_data@),
    ensures
        stats.describes(sorted_data@),
{
    let n = sorted_data.len();
    let mut sum: u128 = 0;
    let mut k: usize = 0;
    while k < n
        invariant
            k <= n,
            n == sorted_data@.len(),
            sum == sum_of(sorted_data@, k as int),
        decreases n - k,
    {
        proof {
            lemma_sum_bound(sorted_data@, k as int);
        }
        sum = sum + sorted_data[k] as u128;
        k += 1;
    }
    let median_low = sorted_data[(n - 1) / 2];
    let median_high = sorted_data[n / 2];
    let max = sorted_data[n - 1];

    let best = highest_frequency(&sorted_data);
    let mut mode: Vec<usize> = Vec::new();
    let mut k: usize = 0;
    while k < n
        invariant
            k <= n,
            n == sorted_data@.len(),
            n > 0,
            is_sorted(sorted_data@),
            forall|value: usize| frequency(sorted_data@, value) <= best,
            forall|value: usize|
                mode@.contains(value) <==> (frequency(sorted_data@, value) == best && exists|
                    i: int,
                | 0 <= i < k && sorted_data@[i] == value),
            forall|i: int, j: int| 0 <= i < j < mode@.len() ==> mode@[i] < mode@[j],
            forall|i: int|
                0 <= i < mode@.len() ==> k > 0 && (#[trigger] mode@[i]) <= sorted_data@[k - 1],
        decreases n - k,
    {
        let value = sorted_data[k];
        let ghost before = mode@;
        proof {
            if k > 0 {
                assert(sorted_data@[k - 1] <= sorted_data@[k as int]);
            }
        }
        if k == 0 || value != sorted_data[k - 1] {
            if count_occurrences(&sorted_data, value) == best {
                mode.push(value);
                proof {
                    assert forall|i: int, j: int| 0 <= i < j < mode@.len() implies mode@[i]
                        < mode@[j] by {
                        if j == before.len() {
                            assert(before[i] <= sorted_data@[k - 1]);
                        } else {
                            assert(before[i] < before[j]);
                        }
                    }
                    assert forall|other: usize| mode@.contains(other) <==> (frequency(
                        sorted_data@,
                        other,
                    ) == best && exists|i: int| 0 <= i < k + 1 && sorted_data@[i] == other) by {
                        if mode@.contains(other) {
                            let i = choose|i: int| 0 <= i < mode@.len() && mode@[i] == other;
                            if i < before.len() {
                                assert(before[i] == other);
                                assert(before.contains(other));
                                let w = choose|w: int| 0 <= w < k && sorted_data@[w] == other;
                                assert(0 <= w < k + 1 && sorted_data@[w] == other);
                            } else {
                                assert(sorted_data@[k as int] == other);
                            }
                        }
                        if frequency(sorted_data@, other) == best && exists|i: int|
                            0 <= i < k + 1 && sorted_data@[i] == other {
                            let w = choose|w: int| 0 <= w < k + 1 && sorted_data@[w] == other;
                            if w < k {
                                assert(before.contains(other));
                                let i = choose|i: int| 0 <= i < before.len() && before[i] == other;
                                assert(mode@[i] == other);
                            } else {
                                assert(mode@[before.len() as int] == other);
                            }
                        }
                    }
                }
            } else {
                proof {
                    assert forall|other: usize| mode@.contains(other) <==> (frequency(
                        sorted_data@,
                        other,
                    ) == best && exists|i: int| 0 <= i < k + 1 && sorted_data@[i] == other) by {
                        if mode@.contains(other) {
                            let w = choose|w: int| 0 <= w < k && sorted_data@[w] == other;
                            assert(0 <= w < k + 1 && sorted_data@[w] == other);
                        }
                        if frequency(sorted_data@, other) == best && exists|i: int|
                            0 <= i < k + 1 && sorted_data@[i] == other {
                            let w = choose|w: int| 0 <= w < k + 1 && sorted_data@[w] == other;
                            assert(w < k);
                        }
                    }
                }
            }
        } else {
            proof {
                assert forall|other: usize| mode@.contains(other) <==> (frequency(
                    sorted_data@,
                    other,
                ) == best && exists|i: int| 0 <= i < k + 1 && sorted_data@[i] == other) by {
                    if mode@.contains(other) {
                        let w = choose|w: int| 0 <= w < k && sorted_data@[w] == other;
                        assert(0 <= w < k + 1 && sorted_data@[w] == other);
                    }
                    if frequency(sorted_data@, other) == best && exists|i: int|
                        0 <= i < k + 1 && sorted_data@[i] == other {
                        let w = choose|w: int| 0 <= w < k + 1 && sorted_data@[w] == other;
                        if w == k {
                            assert(sorted_data@[k - 1] == other);
                        }
                    }
                }
            }
        }
        k += 1;
    }
    proof {
        assert forall|value: usize| mode@.contains(value) <==> is_mode(sorted_data@, value) by {
            if is_mode(sorted_data@, value) {
                let w = choose|i: int| 0 <= i < n && frequency(sorted_data@, sorted_data@[i]) == best;
                assert(frequency(sorted_data@, sorted_data@[w]) <= frequency(sorted_data@, value));
                let i = choose|i: int| 0 <= i < n && sorted_data@[i] == value;
                assert(0 <= i < k && sorted_data@[i] == value);
            }
            if mode@.contains(value) {
                let i = choose|i: int| 0 <= i < k && sorted_data@[i] == value;
                assert(sorted_data@.contains(value));
            }
        }
    }
    DeriveUsage { sum, count: n, median_low, median_high, mode, max, sorted_data }
}

/// `<[usize]>::sort`: puts the samples in ascending order. The same samples
/// are there afterwards, each as often as before.
#[verifier::external_body]
fn sort_samples(data: &mut Vec<usize>)
    ensures
        is_sorted(final(data)@),
        final(data)@.to_multiset() == old(data)@.to_multiset(),
{
    data.sort()
}

/// The statistics of the derive arities that a usage record has seen: none
/// where it has seen no derive invocation. The samples of the statistics are
/// those of the record, in ascending order.
pub fn derive_statistics(usage: &DeriveMacroUsage) -> (stats: Option<DeriveUsage>)
    requires
        usage.well_formed(),
    ensures
        stats.is_some() == (usage@.count > 0),
        stats matches Some(s) ==> {
            &&& is_sorted(s.sorted_data@)
            &&& s.sorted_data@.to_multiset() == usage@.samples
            &&& s.describes(s.sorted_data@)
        },
{
    broadcast use vstd::seq_lib::group_to_multiset_ensures;

    let mut samples = slice_to_vec(usage.samples().as_slice());
    let ghost unsorted = samples@;
    sort_samples(&mut samples);
    proof {
        vstd::seq_lib::to_multiset_len(unsorted);
        vstd::seq_lib::to_multiset_len(samples@);
    }
    if samples.len() > 0 {
        Some(calculate_statistics(samples))
    } else {
        None
    }
}

/// The statistics of the samples where they can be had: none where there is
/// no sample or where the samples are not in ascending order.
pub fn statistics(data: Vec<usize>) -> (stats: Option<DeriveUsage>)
    ensures
        stats.is_some() == (data@.len() > 0 && is_sorted(data@)),
        stats matches Some(s) ==> s.describes(data@),
{
    if data.len() > 0 && check_sorted(&data) {
        Some(calculate_statistics(data))
    } else {
        None
    }
}

} // verus!
