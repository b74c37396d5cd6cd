//! Counter buckets keyed by name.
//!
//! A bucket is a finite bag of names: the number of times a name was
//! recorded is its multiplicity. Buckets combine by bag union, which is
//! what makes aggregation independent of order and grouping.

use vstd::multiset::*;
use vstd::prelude::*;
use vstd::slice::slice_to_vec;
use vstd::string::StringSliceAdditionalSpecFns;
use vstd::utf8::encode_utf8;

use crate::data::{lemma_sum_of_monotone, sum_of};
use crate::text::{bytes_eq, name_is, name_starts_with};

verus! {

broadcast use {group_multiset_axioms, group_multiset_properties};

/// The bag that holds `name` exactly `n` times and nothing else.
pub open spec fn copies(name: Seq<u8>, n: nat) -> Multiset<Seq<u8>>
    decreases n,
{
    if n == 0 {
        Multiset::empty()
    } else {
        copies(name, (n - 1) as nat).insert(name)
    }
}

/// `copies(name, n)` counts `n` for `name`, zero for every other name, and
/// has `n` members.
pub proof fn lemma_copies(name: Seq<u8>, n: nat)
    ensures
        copies(name, n).count(name) == n,
        forall|other: Seq<u8>| other != name ==> copies(name, n).count(other) == 0,
        copies(name, n).len() == n,
    decreases n,
{
    if n > 0 {
        lemma_copies(name, (n - 1) as nat);
    }
}

/// The names of a list of strings, as UTF-8 bytes.
pub open spec fn str_names(values: Seq<String>) -> Seq<Seq<u8>> {
    Seq::new(values.len(), |i: int| encode_utf8(values[i]@))
}

/// The names held by a list of byte strings.
pub open spec fn byte_names(values: Seq<Vec<u8>>) -> Seq<Seq<u8>> {
    Seq::new(values.len(), |i: int| values[i]@)
}

/// The bag of the first `k` names of `names`.
pub open spec fn bag_of(names: Seq<Seq<u8>>, k: int) -> Multiset<Seq<u8>>
    decreases k,
{
    if k <= 0 {
        Multiset::empty()
    } else {
        bag_of(names, k - 1).insert(names[k - 1])
    }
}

/// The bag of the first `k` names has `k` members.
pub proof fn lemma_bag_of_len(names: Seq<Seq<u8>>, k: int)
    requires
        0 <= k,
    ensures
        bag_of(names, k).len() == k,
    decreases k,
{
    if k > 0 {
        lemma_bag_of_len(names, k - 1);
    }
}

/// The attribute names that the language itself defines.
pub open spec fn is_builtin_attribute(name: Seq<u8>) -> bool {
    ||| name == "cfg".spec_bytes()
    ||| name == "cfg_attr".spec_bytes()
    ||| name == "test".spec_bytes()
    ||| name == "ignore".spec_bytes()
    ||| name == "should_panic".spec_bytes()
    ||| name == "derive".spec_bytes()
    ||| name == "automatically_derived".spec_bytes()
    ||| name == "macro_export".spec_bytes()
    ||| name == "macro_use".spec_bytes()
    ||| name == "proc_macro".spec_bytes()
    ||| name == "proc_macro_derive".spec_bytes()
    ||| name == "proc_macro_attribute".spec_bytes()
    ||| name == "allow".spec_bytes()
    ||| name == "deny".spec_bytes()
    ||| name == "warn".spec_bytes()
    ||| name == "forbid".spec_bytes()
    ||| name == "deprecated".spec_bytes()
    ||| name == "must_use".spec_bytes()
    ||| name == "link".spec_bytes()
    ||| name == "link_name".spec_bytes()
    ||| name == "link_ordinal".spec_bytes()
    ||| name == "no_link".spec_bytes()
    ||| name == "repr".spec_bytes()
    ||| name == "crate_type".spec_bytes()
    ||| name == "no_main".spec_bytes()
    ||| name == "export_name".spec_bytes()
    ||| name == "link_section".spec_bytes()
    ||| name == "no_mangle".spec_bytes()
    ||| name == "used".spec_bytes()
    ||| name == "crate_name".spec_bytes()
    ||| name == "inline".spec_bytes()
    ||| name == "cold".spec_bytes()
    ||| name == "no_builtins".spec_bytes()
    ||| name == "target_feature".spec_bytes()
    ||| name == "track_caller".spec_bytes()
    ||| name == "instruction_set".spec_bytes()
    ||| name == "doc".spec_bytes()
    ||| name == "no_std".spec_bytes()
    ||| name == "no_implicit_prelude".spec_bytes()
    ||| name == "path".spec_bytes()
    ||| name == "recursion_limit".spec_bytes()
    ||| name == "type_length_limit".spec_bytes()
    ||| name == "panic_handler".spec_bytes()
    ||| name == "global_allocator".spec_bytes()
    ||| name == "windows_subsystem".spec_bytes()
    ||| name == "feature".spec_bytes()
    ||| name == "non_exhaustive".spec_bytes()
    ||| name == "debugger_visualizer".spec_bytes()
}

/// The bucket a built-in attribute is counted under: the tool prefix for an
/// attribute of a tool namespace, the name itself for a name of the closed
/// set, and none for anything else.
pub open spec fn builtin_bucket(name: Seq<u8>) -> Option<Seq<u8>> {
    if "rustfmt::".spec_bytes().is_prefix_of(name) {
        Some("rustfmt::".spec_bytes())
    } else if "clippy::".spec_bytes().is_prefix_of(name) {
        Some("clippy::".spec_bytes())
    } else if is_builtin_attribute(name) {
        Some(name)
    } else {
        None
    }
}

/// Whether `name` belongs to the closed set of built-in attribute names.
pub fn is_builtin(name: &[u8]) -> (yes: bool)
    ensures
        yes == is_builtin_attribute(name@),
{
    name_is(name, "cfg") || name_is(name, "cfg_attr") || name_is(name, "test") || name_is(
        name,
        "ignore",
    ) || name_is(name, "should_panic") || name_is(name, "derive") || name_is(
        name,
        "automatically_derived",
    ) || name_is(name, "macro_export") || name_is(name, "macro_use") || name_is(
        name,
        "proc_macro",
    ) || name_is(name, "proc_macro_derive") || name_is(name, "proc_macro_attribute") || name_is(
        name,
        "allow",
    ) || name_is(name, "deny") || name_is(name, "warn") || name_is(name, "forbid") || name_is(
        name,
        "deprecated",
    ) || name_is(name, "must_use") || name_is(name, "link") || name_is(name, "link_name")
        || name_is(name, "link_ordinal") || name_is(name, "no_link") || name_is(name, "repr")
        || name_is(name, "crate_type") || name_is(name, "no_main") || name_is(
        name,
        "export_name",
    ) || name_is(name, "link_section") || name_is(name, "no_mangle") || name_is(name, "used")
        || name_is(name, "crate_name") || name_is(name, "inline") || name_is(name, "cold")
        || name_is(name, "no_builtins") || name_is(name, "target_feature") || name_is(
        name,
        "track_caller",
    ) || name_is(name, "instruction_set") || name_is(name, "doc") || name_is(name, "no_std")
        || name_is(name, "no_implicit_prelude") || name_is(name, "path") || name_is(
        name,
        "recursion_limit",
    ) || name_is(name, "type_length_limit") || name_is(name, "panic_handler") || name_is(
        name,
        "global_allocator",
    ) || name_is(name, "windows_subsystem") || name_is(name, "feature") || name_is(
        name,
        "non_exhaustive",
    ) || name_is(name, "debugger_visualizer")
}

/// A bucket of counters: how often each name was recorded.
#[derive(Debug)]
pub struct MacroUsage {
    names: Vec<Vec<u8>>,
    counts: Vec<usize>,
}

impl MacroUsage {
    /// The recorded names, in the order of their first occurrence.
    pub closed spec fn keys(&self) -> Seq<Seq<u8>> {
        Seq::new(self.names@.len(), |i: int| self.names@[i]@)
    }

    /// The counter of each recorded name.
    spec fn table(&self) -> Map<Seq<u8>, nat> {
        Map::new(
            |k: Seq<u8>| self.keys().contains(k),
            |k: Seq<u8>| self.counts@[self.keys().index_of(k)] as nat,
        )
    }

    /// Every name is listed once, with a counter of at least one. Every
    /// bucket that this library hands out is well formed.
    pub closed spec fn well_formed(&self) -> bool {
        &&& self.names@.len() == self.counts@.len()
        &&& self.keys().no_duplicates()
        &&& forall|i: int| 0 <= i < self.counts@.len() ==> self.counts@[i] >= 1
    }

    /// The bucket counts each recorded name as its counter says, and no other
    /// name at all.
    proof fn lemma_table(&self)
        requires
            self.well_formed(),
        ensures
            forall|i: int|
                0 <= i < self.keys().len() ==> self@.count(#[trigger] self.keys()[i])
                    == self.counts@[i],
            forall|k: Seq<u8>| !self.keys().contains(k) ==> self@.count(k) == 0,
    {
        let t = self.table();
        assert(t.dom() =~= self.keys().to_set());
        vstd::seq_lib::seq_to_set_is_finite(self.keys());
        assert forall|i: int| 0 <= i < self.keys().len() implies self@.count(
            #[trigger] self.keys()[i],
        ) == self.counts@[i] by {
            let k = self.keys()[i];
            assert(self.keys().contains(k));
            let j = self.keys().index_of(k);
            assert(0 <= j < self.keys().len() && self.keys()[j] == k);
            assert(i == j);
            assert(t.dom().contains(k));
        }
        assert forall|k: Seq<u8>| !self.keys().contains(k) implies self@.count(k) == 0 by {
            assert(!t.dom().contains(k));
        }
    }

    /// An empty bucket.
    pub fn new() -> (usage: Self)
        ensures
            usage.well_formed(),
            usage@ == Multiset::<Seq<u8>>::empty(),
    {
        let usage = MacroUsage { names: Vec::new(), counts: Vec::new() };
        proof {
            assert(usage.keys() =~= Seq::<Seq<u8>>::empty());
            usage.lemma_table();
            assert(usage@ =~= Multiset::<Seq<u8>>::empty());
        }
        usage
    }

    /// Where `name` is recorded, if it is.
    fn position(&self, name: &[u8]) -> (found: Option<usize>)
        requires
            self.well_formed(),
        ensures
            match found {
                Some(i) => i < self.keys().len() && self.keys()[i as int] == name@,
                None => !self.keys().contains(name@),
            },
    {
        let mut i: usize = 0;
        while i < self.names.len()
            invariant
                i <= self.names@.len(),
                self.keys().len() == self.names@.len(),
                forall|j: int| 0 <= j < i ==> self.keys()[j] != name@,
            decreases self.names@.len() - i,
        {
            if bytes_eq(self.names[i].as_slice(), name) {
                return Some(i);
            }
            i += 1;
        }
        None
    }

    /// How often `name` was recorded.
    pub fn get(&self, name: &[u8]) -> (count: usize)
        requires
            self.well_formed(),
        ensures
            count == self@.count(name@),
    {
        proof {
            self.lemma_table();
        }
        match self.position(name) {
            Some(i) => self.counts[i],
            None => 0,
        }
    }

    /// How often the name `name` was recorded.
    pub fn count_of(&self, name: &str) -> (count: usize)
        requires
            self.well_formed(),
        ensures
            count == self@.count(name.spec_bytes()),
    {
        self.get(name.as_bytes())
    }

    /// The number of distinct names in the bucket.
    pub fn len(&self) -> (n: usize)
        requires
            self.well_formed(),
        ensures
            n == self@.dom().len(),
    {
        proof {
            self.lemma_table();
            assert(self@.dom() =~= self.keys().to_set()) by {
                assert forall|k: Seq<u8>| self.keys().to_set().contains(k) implies self@.dom().contains(
                    k,
                ) by {
                    let i = self.keys().index_of(k);
                    assert(self.keys()[i] == k);
                }
            }
            self.keys().unique_seq_to_set();
        }
        self.names.len()
    }

    /// The `i`-th recorded name with its counter, in the order of first
    /// occurrence; none when `i` is past the last name.
    pub fn entry(&self, i: usize) -> (found: Option<(Vec<u8>, usize)>)
        requires
            self.well_formed(),
        ensures
            match found {
                Some((name, count)) => i < self.keys().len() && name@ == self.keys()[i as int]
                    && count == self@.count(name@) && count >= 1,
                None => i >= self.keys().len(),
            },
    {
        proof {
            self.lemma_table();
        }
        if i < self.names.len() {
            Some((slice_to_vec(self.names[i].as_slice()), self.counts[i]))
        } else {
            None
        }
    }

    /// Adds `n` to the counter of `name`.
    pub fn add_count(&mut self, name: &[u8], n: usize)
        requires
            old(self).well_formed(),
            old(self)@.count(name@) + n <= usize::MAX,
        ensures
            final(self).well_formed(),
            final(self)@ == old(self)@.add(copies(name@, n as nat)),
    {
        proof {
            self.lemma_table();
            lemma_copies(name@, n as nat);
        }
        if n == 0 {
            assert(self@ =~= self@.add(copies(name@, 0)));
            return ;
        }
        let ghost before = *self;
        match self.position(name) {
            Some(i) => {
                let c = self.counts[i];
                self.counts.set(i, c + n);
                proof {
                    assert(self.keys() =~= before.keys());
                    self.lemma_table();
                    assert forall|k: Seq<u8>| self@.count(k) == before@.add(
                        copies(name@, n as nat),
                    ).count(k) by {
                        if self.keys().contains(k) {
                            let j = self.keys().index_of(k);
                            assert(self.keys()[j] == k);
                        }
                    }
                    assert(self@ =~= before@.add(copies(name@, n as nat)));
                }
            },
            None => {
                self.names.push(slice_to_vec(name));
                self.counts.push(n);
                proof {
                    assert(self.keys() =~= before.keys().push(name@));
                    assert(self.keys().no_duplicates());
                    self.lemma_table();
                    assert forall|k: Seq<u8>| self@.count(k) == before@.add(
                        copies(name@, n as nat),
                    ).count(k) by {
                        if k == name@ {
                            assert(self.keys()[before.keys().len() as int] == k);
                        } else if before.keys().contains(k) {
                            let j = before.keys().index_of(k);
                            assert(before.keys()[j] == k);
                            assert(self.keys()[j] == k);
                        } else {
                            assert(!self.keys().contains(k));
                        }
                    }
                    assert(self@ =~= before@.add(copies(name@, n as nat)));
                }
            },
        }
    }

    /// Records one more occurrence of `name`.
    pub fn bump(&mut self, name: &[u8])
        requires
            old(self).well_formed(),
            old(self)@.count(name@) < usize::MAX,
        ensures
            final(self).well_formed(),
            final(self)@ == old(self)@.insert(name@),
    {
        proof {
            lemma_copies(name@, 1);
            assert(copies(name@, 1) =~= Multiset::singleton(name@));
        }
        self.add_count(name, 1);
    }

    /// Records one more occurrence of the name `value`.
    pub fn add_assign(&mut self, value: &str)
        requires
            old(self).well_formed(),
            old(self)@.count(value.spec_bytes()) < usize::MAX,
        ensures
            final(self).well_formed(),
            final(self)@ == old(self)@.insert(value.spec_bytes()),
    {
        self.bump(value.as_bytes());
    }

    /// Records `value` if it is a built-in attribute and says whether it
    /// was: an attribute of a tool namespace is counted under the tool's
    /// prefix, a name of the closed set under itself, anything else not
    /// at all.
    pub fn add_builtin(&mut self, value: &str) -> (recorded: Option<()>)
        requires
            old(self).well_formed(),
            builtin_bucket(value.spec_bytes()) matches Some(b) ==> old(self)@.count(b)
                < usize::MAX,
        ensures
            final(self).well_formed(),
            recorded.is_some() == builtin_bucket(value.spec_bytes()).is_some(),
            final(self)@ == match builtin_bucket(value.spec_bytes()) {
                Some(b) => old(self)@.insert(b),
                None => old(self)@,
            },
    {
        if self.record_builtin(value.as_bytes()) {
            Some(())
        } else {
            None
        }
    }

    /// `add_builtin` for a name given as bytes.
    pub fn record_builtin(&mut self, name: &[u8]) -> (recorded: bool)
        requires
            old(self).well_formed(),
            builtin_bucket(name@) matches Some(b) ==> old(self)@.count(b) < usize::MAX,
        ensures
            final(self).well_formed(),
            recorded == builtin_bucket(name@).is_some(),
            final(self)@ == match builtin_bucket(name@) {
                Some(b) => old(self)@.insert(b),
                None => old(self)@,
            },
    {
        if name_starts_with(name, "rustfmt::") {
            self.bump("rustfmt::".as_bytes());
            true
        } else if name_starts_with(name, "clippy::") {
            self.bump("clippy::".as_bytes());
            true
        } else if is_builtin(name) {
            self.bump(name);
            true
        } else {
            false
        }
    }

    /// Records one occurrence of each of `names`.
    pub fn add_names(&mut self, names: &Vec<Vec<u8>>)
        requires
            old(self).well_formed(),
            old(self)@.len() + names@.len() <= usize::MAX,
        ensures
            final(self).well_formed(),
            final(self)@ == old(self)@.add(bag_of(byte_names(names@), names@.len() as int)),
    {
        let ghost before = *self;
        let ghost all = byte_names(names@);
        let mut i: usize = 0;
        assert(self@ =~= before@.add(bag_of(all, 0)));
        while i < names.len()
            invariant
                i <= names@.len(),
                all == byte_names(names@),
                self.well_formed(),
                before@.len() + names@.len() <= usize::MAX,
                self@ == before@.add(bag_of(all, i as int)),
            decreases names@.len() - i,
        {
            proof {
                lemma_bag_of_len(all, i as int);
            }
            self.bump(names[i].as_slice());
            i += 1;
            assert(self@ =~= before@.add(bag_of(all, i as int)));
        }
    }

    /// Records one occurrence of each of `values`.
    pub fn add_multiple(&mut self, values: Vec<String>)
        requires
            old(self).well_formed(),
            old(self)@.len() + values@.len() <= usize::MAX,
        ensures
            final(self).well_formed(),
            final(self)@ == old(self)@.add(bag_of(str_names(values@), values@.len() as int)),
    {
        let ghost before = *self;
        let ghost all = str_names(values@);
        let mut i: usize = 0;
        assert(self@ =~= before@.add(bag_of(all, 0)));
        while i < values.len()
            invariant
                i <= values@.len(),
                all == str_names(values@),
                self.well_formed(),
                before@.len() + values@.len() <= usize::MAX,
                self@ == before@.add(bag_of(all, i as int)),
            decreases values@.len() - i,
        {
            proof {
                lemma_bag_of_len(all, i as int);
            }
            self.bump(values[i].as_str().as_bytes());
            i += 1;
            assert(self@ =~= before@.add(bag_of(all, i as int)));
        }
    }

    /// Whether the two buckets can be combined without a counter leaving
    /// the machine's range.
    pub open spec fn fits_with(&self, rhs: &Self) -> bool {
        forall|k: Seq<u8>| self@.count(k) + rhs@.count(k) <= usize::MAX
    }

    /// Decides `fits_with`.
    pub fn can_add(&self, rhs: &Self) -> (yes: bool)
        requires
            self.well_formed(),
            rhs.well_formed(),
        ensures
            yes == self.fits_with(rhs),
    {
        proof {
            self.lemma_table();
            rhs.lemma_table();
        }
        let mut j: usize = 0;
        while j < rhs.names.len()
            invariant
                j <= rhs.names@.len(),
                self.well_formed(),
                rhs.names@.len() == rhs.counts@.len(),
                rhs.keys().len() == rhs.names@.len(),
                forall|i: int|
                    0 <= i < rhs.keys().len() ==> rhs@.count(#[trigger] rhs.keys()[i])
                        == rhs.counts@[i],
                forall|i: int|
                    0 <= i < j ==> self@.count(#[trigger] rhs.keys()[i]) + rhs.counts@[i]
                        <= usize::MAX,
            decreases rhs.names@.len() - j,
        {
            let mine = self.get(rhs.names[j].as_slice());
            if mine > usize::MAX - rhs.counts[j] {
                assert(self@.count(rhs.keys()[j as int]) + rhs@.count(rhs.keys()[j as int])
                    > usize::MAX);
                return false;
            }
            j += 1;
        }
        proof {
            assert forall|k: Seq<u8>| self@.count(k) + rhs@.count(k) <= usize::MAX by {
                if rhs.keys().contains(k) {
                    let i = rhs.keys().index_of(k);
                    assert(rhs.keys()[i] == k);
                }
            }
        }
        true
    }

    /// Combines two buckets: every counter of the result is the sum of the
    /// two counters of its name.
    pub fn add(self, rhs: Self) -> (sum: Self)
        requires
            self.well_formed(),
            rhs.well_formed(),
            self.fits_with(&rhs),
        ensures
            sum.well_formed(),
            sum@ == self@.add(rhs@),
    {
        proof {
            rhs.lemma_table();
        }
        let ghost left = self@;
        let mut sum = self;
        let mut j: usize = 0;
        while j < rhs.names.len()
            invariant
                j <= rhs.names@.len(),
                rhs.names@.len() == rhs.counts@.len(),
                rhs.keys().len() == rhs.names@.len(),
                rhs.keys().no_duplicates(),
                sum.well_formed(),
                forall|i: int|
                    0 <= i < rhs.keys().len() ==> rhs@.count(#[trigger] rhs.keys()[i])
                        == rhs.counts@[i],
                forall|k: Seq<u8>| !rhs.keys().contains(k) ==> rhs@.count(k) == 0,
                forall|k: Seq<u8>| left.count(k) + rhs@.count(k) <= usize::MAX,
                forall|k: Seq<u8>|
                    sum@.count(k) == left.count(k) + if rhs.keys().subrange(0, j as int).contains(
                        k,
                    ) {
                        rhs@.count(k)
                    } else {
                        0
                    },
            decreases rhs.names@.len() - j,
        {
            let ghost key = rhs.keys()[j as int];
            let ghost prev = sum@;
            proof {
                lemma_copies(key, rhs.counts@[j as int] as nat);
                if rhs.keys().subrange(0, j as int).contains(key) {
                    let i = rhs.keys().subrange(0, j as int).index_of(key);
                    assert(rhs.keys()[i] == key);
                }
            }
            sum.add_count(rhs.names[j].as_slice(), rhs.counts[j]);
            proof {
                assert forall|k: Seq<u8>|
                    sum@.count(k) == left.count(k) + if rhs.keys().subrange(
                        0,
                        j + 1,
                    ).contains(k) {
                        rhs@.count(k)
                    } else {
                        0
                    } by {
                    let before = rhs.keys().subrange(0, j as int);
                    let after = rhs.keys().subrange(0, j + 1);
                    if before.contains(k) {
                        let i = before.index_of(k);
                        assert(after[i] == k);
                    }
                    if after.contains(k) {
                        let i = after.index_of(k);
                        if i < j {
                            assert(before[i] == k);
                        }
                    }
                    if k == key {
                        assert(after[j as int] == k);
                    }
                }
            }
            j += 1;
        }
        proof {
            assert(rhs.keys().subrange(0, j as int) =~= rhs.keys());
            assert(sum@ =~= left.add(rhs@));
        }
        sum
    }

    /// The bag of the first `k` recorded names, each as often as its counter
    /// says.
    spec fn bag_upto(&self, k: int) -> Multiset<Seq<u8>>
        decreases k,
    {
        if k <= 0 || k > self.keys().len() {
            Multiset::empty()
        } else {
            self.bag_upto(k - 1).add(copies(self.keys()[k - 1], self.counts@[k - 1] as nat))
        }
    }

    /// The bag of the first `k` recorded names has as many members as their
    /// counters add up to.
    proof fn lemma_bag_upto(&self, k: int)
        requires
            self.well_formed(),
            0 <= k <= self.keys().len(),
        ensures
            self.bag_upto(k).len() == sum_of(self.counts@, k),
            forall|j: int|
                0 <= j < k ==> self.bag_upto(k).count(#[trigger] self.keys()[j]) == self.counts@[j],
            forall|x: Seq<u8>|
                !self.keys().subrange(0, k).contains(x) ==> self.bag_upto(k).count(x) == 0,
        decreases k,
    {
        if k > 0 {
            self.lemma_bag_upto(k - 1);
            let key = self.keys()[k - 1];
            lemma_copies(key, self.counts@[k - 1] as nat);
            let before = self.keys().subrange(0, k - 1);
            let upto = self.keys().subrange(0, k);
            assert(!before.contains(key)) by {
                if before.contains(key) {
                    let j = before.index_of(key);
                    assert(self.keys()[j] == key);
                }
            }
            assert forall|j: int| 0 <= j < k implies self.bag_upto(k).count(
                #[trigger] self.keys()[j],
            ) == self.counts@[j] by {
                if j < k - 1 {
                    assert(self.keys()[j] != key);
                }
            }
            assert forall|x: Seq<u8>| !upto.contains(x) implies self.bag_upto(k).count(x)
                == 0 by {
                assert(upto[k - 1] == key);
                if before.contains(x) {
                    let j = before.index_of(x);
                    assert(upto[j] == x);
                }
            }
        }
    }

    /// The bucket holds as many names, each counted as often as it was
    /// recorded, as its counters add up to.
    proof fn lemma_len(&self)
        requires
            self.well_formed(),
        ensures
            self@.len() == sum_of(self.counts@, self.counts@.len() as int),
    {
        let n = self.keys().len() as int;
        self.lemma_bag_upto(n);
        self.lemma_table();
        assert(self.keys().subrange(0, n) =~= self.keys());
        assert(self.bag_upto(n) =~= self@);
    }

    /// Every counter of a well-formed bucket is in the machine's range.
    pub proof fn lemma_in_range(&self)
        requires
            self.well_formed(),
        ensures
            forall|k: Seq<u8>| self@.count(k) <= usize::MAX,
    {
        self.lemma_table();
        assert forall|k: Seq<u8>| self@.count(k) <= usize::MAX by {
            if self.keys().contains(k) {
                let i = self.keys().index_of(k);
                assert(self.keys()[i] == k);
            }
        }
    }

    /// The sum of all the counters: how many names were recorded in all.
    /// None where the sum leaves the machine's range.
    pub fn total(&self) -> (sum: Option<usize>)
        requires
            self.well_formed(),
        ensures
            match sum {
                Some(n) => n == self@.len(),
                None => self@.len() > usize::MAX,
            },
    {
        proof {
            self.lemma_len();
        }
        let mut sum: usize = 0;
        let mut i: usize = 0;
        while i < self.counts.len()
            invariant
                i <= self.counts@.len(),
                self@.len() == sum_of(self.counts@, self.counts@.len() as int),
                sum == sum_of(self.counts@, i as int),
            decreases self.counts@.len() - i,
        {
            if sum > usize::MAX - self.counts[i] {
                proof {
                    lemma_sum_of_monotone(self.counts@, i as int + 1, self.counts@.len() as int);
                }
                return None;
            }
            sum = sum + self.counts[i];
            i += 1;
        }
        Some(sum)
    }

    /// A copy of the bucket.
    pub fn duplicate(&self) -> (copy: Self)
        requires
            self.well_formed(),
        ensures
            copy.well_formed(),
            copy@ == self@,
    {
        let mut names: Vec<Vec<u8>> = Vec::new();
        let mut counts: Vec<usize> = Vec::new();
        let mut i: usize = 0;
        while i < self.names.len()
            invariant
                i <= self.names@.len(),
                self.names@.len() == self.counts@.len(),
                names@.len() == i,
                counts@.len() == i,
                forall|j: int| 0 <= j < i ==> names@[j]@ == self.names@[j]@,
                forall|j: int| 0 <= j < i ==> counts@[j] == self.counts@[j],
            decreases self.names@.len() - i,
        {
            names.push(slice_to_vec(self.names[i].as_slice()));
            counts.push(self.counts[i]);
            i += 1;
        }
        let ghost keys = Seq::new(names@.len(), |i: int| names@[i]@);
        proof {
            assert(keys =~= self.keys());
            assert(counts@ =~= self.counts@);
        }
        let copy = MacroUsage { names, counts };
        proof {
            assert(copy.keys() =~= self.keys());
            copy.lemma_table();
            self.lemma_table();
            assert forall|k: Seq<u8>| copy@.count(k) == self@.count(k) by {
                if self.keys().contains(k) {
                    let i = self.keys().index_of(k);
                    assert(self.keys()[i] == k);
                    assert(copy.keys()[i] == k);
                }
            }
            assert(copy@ =~= self@);
        }
        copy
    }
}

impl Default for MacroUsage {
    fn default() -> (usage: Self)
        ensures
            usage.well_formed(),
            usage@ == Multiset::<Seq<u8>>::empty(),
    {
        MacroUsage::new()
    }
}

impl View for MacroUsage {
    type V = Multiset<Seq<u8>>;

    closed spec fn view(&self) -> Multiset<Seq<u8>> {
        Multiset::from_map(self.table())
    }
}

/// Combining buckets is commutative.
pub proof fn lemma_usage_add_commutative(a: Multiset<Seq<u8>>, b: Multiset<Seq<u8>>)
    ensures
        a.add(b) == b.add(a),
{
    assert(a.add(b) =~= b.add(a));
}

/// Combining buckets is associative.
pub proof fn lemma_usage_add_associative(
    a: Multiset<Seq<u8>>,
    b: Multiset<Seq<u8>>,
    c: Multiset<Seq<u8>>,
)
    ensures
        a.add(b).add(c) == a.add(b.add(c)),
{
    assert(a.add(b).add(c) =~= a.add(b.add(c)));
}

/// The empty bucket is the neutral element of combination.
pub proof fn lemma_usage_add_empty(a: Multiset<Seq<u8>>)
    ensures
        a.add(Multiset::empty()) == a,
        Multiset::empty().add(a) == a,
{
    assert(a.add(Multiset::empty()) =~= a);
    assert(Multiset::empty().add(a) =~= a);
}

} // verus!
