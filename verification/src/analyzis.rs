//! Usage records: what one file, one crate or the whole corpus holds of each
//! kind of macro, and how two records combine.

use vstd::multiset::*;
use vstd::prelude::*;
use vstd::slice::slice_to_vec;

use crate::usage::{bag_of, byte_names, lemma_bag_of_len, str_names, MacroUsage};

verus! {

broadcast use {
    group_multiset_axioms,
    group_multiset_properties,
    vstd::seq_lib::group_to_multiset_ensures,
};

/// The running statistic of derive invocations: `count` invocations were
/// seen, `derives` holds every derived name once per occurrence, and
/// `samples` holds the arity of every invocation. The sum of the arities is
/// the size of the bag of names, so the mean arity is `derives.len() / count`.
pub ghost struct DeriveStats {
    pub count: nat,
    pub derives: Multiset<Seq<u8>>,
    pub samples: Multiset<usize>,
}

impl DeriveStats {
    /// The statistic of no invocation at all.
    pub open spec fn empty() -> DeriveStats {
        DeriveStats { count: 0, derives: Multiset::empty(), samples: Multiset::empty() }
    }

    /// The sum of the arities of the invocations seen: the numerator of
    /// the mean, whose denominator is `count`.
    pub open spec fn total(self) -> nat {
        self.derives.len()
    }

    /// The statistic after one more invocation that derives `names`.
    pub open spec fn with_point(self, names: Seq<Seq<u8>>) -> DeriveStats {
        DeriveStats {
            count: self.count + 1,
            derives: self.derives.add(bag_of(names, names.len() as int)),
            samples: self.samples.insert(names.len() as usize),
        }
    }

    /// The weighted combination of two statistics: counts add, and so do
    /// the sums of arities, so the mean of the result is
    /// `(avg1 * n1 + avg2 * n2) / (n1 + n2)`.
    pub open spec fn combine(self, other: DeriveStats) -> DeriveStats {
        DeriveStats {
            count: self.count + other.count,
            derives: self.derives.add(other.derives),
            samples: self.samples.add(other.samples),
        }
    }

    /// There is one sample for each invocation, and without invocations
    /// there are no names.
    pub open spec fn valid(self) -> bool {
        &&& self.samples.len() == self.count
        &&& self.count == 0 ==> self.derives.len() == 0
    }

    /// The statistic of a sequence of invocations, folded in one by one.
    pub open spec fn of_points(points: Seq<Seq<Seq<u8>>>) -> DeriveStats
        decreases points.len(),
    {
        if points.len() == 0 {
            DeriveStats::empty()
        } else {
            DeriveStats::of_points(points.drop_last()).with_point(points.last())
        }
    }
}

/// The sum of the arities of a sequence of invocations.
pub open spec fn arity_sum(points: Seq<Seq<Seq<u8>>>) -> nat
    decreases points.len(),
{
    if points.len() == 0 {
        0
    } else {
        arity_sum(points.drop_last()) + points.last().len()
    }
}

/// The running statistic of derive invocations.
#[derive(Debug)]
pub struct DeriveMacroUsage {
    count: usize,
    total: usize,
    derives: MacroUsage,
    samples: Vec<usize>,
}

impl View for DeriveMacroUsage {
    type V = DeriveStats;

    closed spec fn view(&self) -> DeriveStats {
        DeriveStats {
            count: self.count as nat,
            derives: self.derives@,
            samples: self.samples@.to_multiset(),
        }
    }
}

impl DeriveMacroUsage {
    /// The stored sum of arities is the size of the bag of names, and
    /// without invocations there are no names.
    pub closed spec fn well_formed(&self) -> bool {
        &&& self.derives.well_formed()
        &&& self.total == self.derives@.len()
        &&& self.samples@.len() == self.count
        &&& self@.valid()
    }

    /// A well-formed statistic is a valid one.
    pub proof fn lemma_well_formed_valid(&self)
        requires
            self.well_formed(),
        ensures
            self@.valid(),
            self@.total() <= usize::MAX,
            self@.count <= usize::MAX,
    {
    }

    /// The statistic of no invocation.
    pub fn new() -> (stats: Self)
        ensures
            stats.well_formed(),
            stats@ == DeriveStats::empty(),
    {
        let stats = DeriveMacroUsage {
            count: 0,
            total: 0,
            derives: MacroUsage::new(),
            samples: Vec::new(),
        };
        assert(stats@.samples =~= Multiset::empty());
        stats
    }

    /// The statistic of invocations that derived the names in `derives`
    /// and had the arities in `samples`. None where the names are more
    /// than the machine's range holds, or where there are names but no
    /// invocation.
    pub fn from_parts(derives: MacroUsage, samples: Vec<usize>) -> (stats: Option<Self>)
        requires
            derives.well_formed(),
        ensures
            match stats {
                Some(s) => {
                    &&& s.well_formed()
                    &&& s@ == DeriveStats {
                        count: samples@.len(),
                        derives: derives@,
                        samples: samples@.to_multiset(),
                    }
                },
                None => derives@.len() > usize::MAX || (samples@.len() == 0 && derives@.len() > 0),
            },
    {
        let total = match derives.total() {
            Some(total) => total,
            None => {
                return None;
            },
        };
        let count = samples.len();
        if count == 0 && total > 0 {
            return None;
        }
        Some(DeriveMacroUsage { count, total, derives, samples })
    }

    /// The number of invocations seen.
    pub fn count(&self) -> (n: usize)
        ensures
            n == self@.count,
    {
        self.count
    }

    /// The sum of the arities of the invocations seen. The mean arity is
    /// this number divided by `count()`.
    pub fn total(&self) -> (n: usize)
        requires
            self.well_formed(),
        ensures
            n == self@.total(),
    {
        self.total
    }

    /// The arity of every invocation seen, in no particular order.
    pub fn samples(&self) -> (arities: &Vec<usize>)
        requires
            self.well_formed(),
        ensures
            arities@.to_multiset() == self@.samples,
            arities@.len() == self@.count,
    {
        &self.samples
    }

    /// How often each name was derived.
    pub fn derives(&self) -> (names: &MacroUsage)
        requires
            self.well_formed(),
        ensures
            names.well_formed(),
            names@ == self@.derives,
    {
        &self.derives
    }

    /// Folds in one invocation that derives `names`.
    pub fn record(&mut self, names: &Vec<Vec<u8>>)
        requires
            old(self).well_formed(),
            old(self)@.count < usize::MAX,
            old(self)@.total() + names@.len() <= usize::MAX,
        ensures
            final(self).well_formed(),
            final(self)@ == old(self)@.with_point(byte_names(names@)),
    {
        proof {
            lemma_bag_of_len(byte_names(names@), names@.len() as int);
        }
        self.count = self.count + 1;
        self.total = self.total + names.len();
        self.derives.add_names(names);
        self.samples.push(names.len());
    }

    /// Folds in one invocation that derives `derives`.
    pub fn add_point(&mut self, derives: Vec<String>)
        requires
            old(self).well_formed(),
            old(self)@.count < usize::MAX,
            old(self)@.total() + derives@.len() <= usize::MAX,
        ensures
            final(self).well_formed(),
            final(self)@ == old(self)@.with_point(str_names(derives@)),
    {
        proof {
            lemma_bag_of_len(str_names(derives@), derives@.len() as int);
        }
        let arity = derives.len();
        self.count = self.count + 1;
        self.total = self.total + arity;
        self.derives.add_multiple(derives);
        self.samples.push(arity);
    }

    /// Whether the two statistics can be combined without a counter
    /// leaving the machine's range.
    pub open spec fn fits_with(&self, rhs: &Self) -> bool {
        &&& self@.count + rhs@.count <= usize::MAX
        &&& self@.total() + rhs@.total() <= usize::MAX
    }

    /// Decides `fits_with`.
    pub fn can_add(&self, rhs: &Self) -> (yes: bool)
        requires
            self.well_formed(),
            rhs.well_formed(),
        ensures
            yes == self.fits_with(rhs),
    {
        self.count <= usize::MAX - rhs.count && self.total <= usize::MAX - rhs.total
    }

    /// The weighted combination of two statistics.
    pub fn add(self, rhs: Self) -> (sum: Self)
        requires
            self.well_formed(),
            rhs.well_formed(),
            self.fits_with(&rhs),
        ensures
            sum.well_formed(),
            sum@ == self@.combine(rhs@),
    {
        if self.count == 0 {
            proof {
                assert(self@.derives =~= Multiset::empty());
                assert(self@.samples =~= Multiset::empty());
                assert(self@.derives.add(rhs@.derives) =~= rhs@.derives);
                assert(self@.samples.add(rhs@.samples) =~= rhs@.samples);
            }
            return rhs;
        }
        if rhs.count == 0 {
            proof {
                assert(rhs@.derives =~= Multiset::empty());
                assert(rhs@.samples =~= Multiset::empty());
                assert(self@.derives.add(rhs@.derives) =~= self@.derives);
                assert(self@.samples.add(rhs@.samples) =~= self@.samples);
            }
            return self;
        }
        let ghost left = self.samples@;
        let ghost right = rhs.samples@;
        let count = self.count + rhs.count;
        let total = self.total + rhs.total;
        let derives = self.derives.add(rhs.derives);
        let mut samples = self.samples;
        let mut more = rhs.samples;
        samples.append(&mut more);
        proof {
            vstd::seq_lib::lemma_multiset_commutative(left, right);
        }
        DeriveMacroUsage { count, total, derives, samples }
    }

    /// A copy of the statistic.
    pub fn duplicate(&self) -> (copy: Self)
        requires
            self.well_formed(),
        ensures
            copy.well_formed(),
            copy@ == self@,
    {
        DeriveMacroUsage {
            count: self.count,
            total: self.total,
            derives: self.derives.duplicate(),
            samples: slice_to_vec(self.samples.as_slice()),
        }
    }
}

impl Default for DeriveMacroUsage {
    fn default() -> (stats: Self)
        ensures
            stats.well_formed(),
            stats@ == DeriveStats::empty(),
    {
        DeriveMacroUsage::new()
    }
}

/// What a usage record holds: one bag of names per bucket, and the running
/// statistic of derive invocations.
pub ghost struct Usage {
    pub attribute_macro_definitions: Multiset<Seq<u8>>,
    pub declarative_macro_definitions: Multiset<Seq<u8>>,
    pub procedural_macro_definitions: Multiset<Seq<u8>>,
    pub derive_macro_definitions: Multiset<Seq<u8>>,
    pub derive_macro_usage: DeriveStats,
    pub attribute_macro_invocations: Multiset<Seq<u8>>,
    pub builtin_attribute_macro_invocations: Multiset<Seq<u8>>,
    pub macro_invocations: Multiset<Seq<u8>>,
}

impl Usage {
    /// The record of nothing.
    pub open spec fn empty() -> Usage {
        Usage {
            attribute_macro_definitions: Multiset::empty(),
            declarative_macro_definitions: Multiset::empty(),
            procedural_macro_definitions: Multiset::empty(),
            derive_macro_definitions: Multiset::empty(),
            derive_macro_usage: DeriveStats::empty(),
            attribute_macro_invocations: Multiset::empty(),
            builtin_attribute_macro_invocations: Multiset::empty(),
            macro_invocations: Multiset::empty(),
        }
    }

    /// The combination of two records, bucket by bucket.
    pub open spec fn combine(self, other: Usage) -> Usage {
        Usage {
            attribute_macro_definitions: self.attribute_macro_definitions.add(
                other.attribute_macro_definitions,
            ),
            declarative_macro_definitions: self.declarative_macro_definitions.add(
                other.declarative_macro_definitions,
            ),
            procedural_macro_definitions: self.procedural_macro_definitions.add(
                other.procedural_macro_definitions,
            ),
            derive_macro_definitions: self.derive_macro_definitions.add(
                other.derive_macro_definitions,
            ),
            derive_macro_usage: self.derive_macro_usage.combine(other.derive_macro_usage),
            attribute_macro_invocations: self.attribute_macro_invocations.add(
                other.attribute_macro_invocations,
            ),
            builtin_attribute_macro_invocations: self.builtin_attribute_macro_invocations.add(
                other.builtin_attribute_macro_invocations,
            ),
            macro_invocations: self.macro_invocations.add(other.macro_invocations),
        }
    }

    /// No bucket of the record holds more than `visits` names, no more than
    /// `visits` derive invocations were seen, and they derived no more than
    /// `derived` names.
    pub open spec fn within(self, visits: nat, derived: nat) -> bool {
        &&& self.attribute_macro_definitions.len() <= visits
        &&& self.declarative_macro_definitions.len() <= visits
        &&& self.procedural_macro_definitions.len() <= visits
        &&& self.derive_macro_definitions.len() <= visits
        &&& self.derive_macro_usage.count <= visits
        &&& self.derive_macro_usage.derives.len() <= derived
        &&& self.attribute_macro_invocations.len() <= visits
        &&& self.builtin_attribute_macro_invocations.len() <= visits
        &&& self.macro_invocations.len() <= visits
    }

    /// The number of macro invocations: of macros called by name, of
    /// attribute macros and of built-in attributes.
    pub open spec fn invocations(self) -> nat {
        self.macro_invocations.len() + self.attribute_macro_invocations.len()
            + self.builtin_attribute_macro_invocations.len()
    }

    /// The number of macro definitions that is shown for a crate or a
    /// repository: function-like procedural macros count twice, attribute
    /// macros and declarative macros once, derive macros not at all.
    pub open spec fn definitions(self) -> nat {
        self.procedural_macro_definitions.len() + self.attribute_macro_definitions.len()
            + self.procedural_macro_definitions.len() + self.declarative_macro_definitions.len()
    }

    /// The derive statistic of the record is a valid one.
    pub open spec fn valid(self) -> bool {
        self.derive_macro_usage.valid()
    }
}

/// A usage record: the analysis of one file, or the combination of several.
#[derive(Debug)]
pub struct MacroAnalyzis {
    pub attribute_macro_definitions: MacroUsage,
    pub declarative_macro_definitions: MacroUsage,
    pub procedural_macro_definitions: MacroUsage,
    pub derive_macro_definitions: MacroUsage,
    pub derive_macro_usage: DeriveMacroUsage,
    pub attribute_macro_invocations: MacroUsage,
    pub builtin_attribute_macro_invocations: MacroUsage,
    pub macro_invocations: MacroUsage,
}

impl View for MacroAnalyzis {
    type V = Usage;

    open spec fn view(&self) -> Usage {
        Usage {
            attribute_macro_definitions: self.attribute_macro_definitions@,
            declarative_macro_definitions: self.declarative_macro_definitions@,
            procedural_macro_definitions: self.procedural_macro_definitions@,
            derive_macro_definitions: self.derive_macro_definitions@,
            derive_macro_usage: self.derive_macro_usage@,
            attribute_macro_invocations: self.attribute_macro_invocations@,
            builtin_attribute_macro_invocations: self.builtin_attribute_macro_invocations@,
            macro_invocations: self.macro_invocations@,
        }
    }
}

impl MacroAnalyzis {
    /// Every bucket of the record is well formed.
    pub open spec fn well_formed(&self) -> bool {
        &&& self.attribute_macro_definitions.well_formed()
        &&& self.declarative_macro_definitions.well_formed()
        &&& self.procedural_macro_definitions.well_formed()
        &&& self.derive_macro_definitions.well_formed()
        &&& self.derive_macro_usage.well_formed()
        &&& self.attribute_macro_invocations.well_formed()
        &&& self.builtin_attribute_macro_invocations.well_formed()
        &&& self.macro_invocations.well_formed()
    }

    /// Every counter of a well-formed record is in the machine's range.
    pub proof fn lemma_in_range(&self)
        requires
            self.well_formed(),
        ensures
            forall|k: Seq<u8>| self@.attribute_macro_definitions.count(k) <= usize::MAX,
            forall|k: Seq<u8>| self@.declarative_macro_definitions.count(k) <= usize::MAX,
            forall|k: Seq<u8>| self@.procedural_macro_definitions.count(k) <= usize::MAX,
            forall|k: Seq<u8>| self@.derive_macro_definitions.count(k) <= usize::MAX,
            forall|k: Seq<u8>| self@.attribute_macro_invocations.count(k) <= usize::MAX,
            forall|k: Seq<u8>| self@.builtin_attribute_macro_invocations.count(k) <= usize::MAX,
            forall|k: Seq<u8>| self@.macro_invocations.count(k) <= usize::MAX,
            self@.derive_macro_usage.count <= usize::MAX,
            self@.derive_macro_usage.derives.len() <= usize::MAX,
    {
        self.attribute_macro_definitions.lemma_in_range();
        self.declarative_macro_definitions.lemma_in_range();
        self.procedural_macro_definitions.lemma_in_range();
        self.derive_macro_definitions.lemma_in_range();
        self.attribute_macro_invocations.lemma_in_range();
        self.builtin_attribute_macro_invocations.lemma_in_range();
        self.macro_invocations.lemma_in_range();
        self.derive_macro_usage.lemma_well_formed_valid();
    }

    /// The record of nothing: what an analysis starts from.
    pub fn new() -> (record: Self)
        ensures
            record.well_formed(),
            record@ == Usage::empty(),
    {
        MacroAnalyzis {
            attribute_macro_definitions: MacroUsage::new(),
            declarative_macro_definitions: MacroUsage::new(),
            procedural_macro_definitions: MacroUsage::new(),
            derive_macro_definitions: MacroUsage::new(),
            derive_macro_usage: DeriveMacroUsage::new(),
            attribute_macro_invocations: MacroUsage::new(),
            builtin_attribute_macro_invocations: MacroUsage::new(),
            macro_invocations: MacroUsage::new(),
        }
    }

    /// Whether the two records can be combined without a counter leaving
    /// the machine's range.
    pub open spec fn fits_with(&self, rhs: &Self) -> bool {
        &&& self.attribute_macro_definitions.fits_with(&rhs.attribute_macro_definitions)
        &&& self.declarative_macro_definitions.fits_with(&rhs.declarative_macro_definitions)
        &&& self.procedural_macro_definitions.fits_with(&rhs.procedural_macro_definitions)
        &&& self.derive_macro_definitions.fits_with(&rhs.derive_macro_definitions)
        &&& self.derive_macro_usage.fits_with(&rhs.derive_macro_usage)
        &&& self.attribute_macro_invocations.fits_with(&rhs.attribute_macro_invocations)
        &&& self.builtin_attribute_macro_invocations.fits_with(
            &rhs.builtin_attribute_macro_invocations,
        )
        &&& self.macro_invocations.fits_with(&rhs.macro_invocations)
    }

    /// Decides `fits_with`.
    pub fn can_add(&self, rhs: &Self) -> (yes: bool)
        requires
            self.well_formed(),
            rhs.well_formed(),
        ensures
            yes == self.fits_with(rhs),
    {
        self.attribute_macro_definitions.can_add(&rhs.attribute_macro_definitions)
            && self.declarative_macro_definitions.can_add(&rhs.declarative_macro_definitions)
            && self.procedural_macro_definitions.can_add(&rhs.procedural_macro_definitions)
            && self.derive_macro_definitions.can_add(&rhs.derive_macro_definitions)
            && self.derive_macro_usage.can_add(&rhs.derive_macro_usage)
            && self.attribute_macro_invocations.can_add(&rhs.attribute_macro_invocations)
            && self.builtin_attribute_macro_invocations.can_add(
            &rhs.builtin_attribute_macro_invocations,
        ) && self.macro_invocations.can_add(&rhs.macro_invocations)
    }

    /// Combines two records, bucket by bucket.
    pub fn add(self, rhs: Self) -> (sum: Self)
        requires
            self.well_formed(),
            rhs.well_formed(),
            self.fits_with(&rhs),
        ensures
            sum.well_formed(),
            sum@ == self@.combine(rhs@),
    {
        MacroAnalyzis {
            builtin_attribute_macro_invocations: self.builtin_attribute_macro_invocations.add(
                rhs.builtin_attribute_macro_invocations,
            ),
            declarative_macro_definitions: self.declarative_macro_definitions.add(
                rhs.declarative_macro_definitions,
            ),
            derive_macro_definitions: self.derive_macro_definitions.add(
                rhs.derive_macro_definitions,
            ),
            procedural_macro_definitions: self.procedural_macro_definitions.add(
                rhs.procedural_macro_definitions,
            ),
            attribute_macro_invocations: self.attribute_macro_invocations.add(
                rhs.attribute_macro_invocations,
            ),
            attribute_macro_definitions: self.attribute_macro_definitions.add(
                rhs.attribute_macro_definitions,
            ),
            derive_macro_usage: self.derive_macro_usage.add(rhs.derive_macro_usage),
            macro_invocations: self.macro_invocations.add(rhs.macro_invocations),
        }
    }

    /// The number of macro invocations of the record: of macros called by
    /// name, of attribute macros and of built-in attributes. None where the
    /// number leaves the machine's range.
    pub fn invocation_count(&self) -> (count: Option<usize>)
        requires
            self.well_formed(),
        ensures
            match count {
                Some(n) => n == self@.invocations(),
                None => self@.invocations() > usize::MAX,
            },
    {
        let called = self.macro_invocations.total();
        let attributes = self.attribute_macro_invocations.total();
        let builtin = self.builtin_attribute_macro_invocations.total();
        match (called, attributes, builtin) {
            (Some(a), Some(b), Some(c)) => {
                if a > usize::MAX - b {
                    return None;
                }
                let ab = a + b;
                if ab > usize::MAX - c {
                    return None;
                }
                Some(ab + c)
            },
            _ => None,
        }
    }

    /// The number of macro definitions of the record, as `definitions`
    /// says. None where the number leaves the machine's range.
    pub fn definition_count(&self) -> (count: Option<usize>)
        requires
            self.well_formed(),
        ensures
            match count {
                Some(n) => n == self@.definitions(),
                None => self@.definitions() > usize::MAX,
            },
    {
        let procedural = self.procedural_macro_definitions.total();
        let attributes = self.attribute_macro_definitions.total();
        let declarative = self.declarative_macro_definitions.total();
        match (procedural, attributes, declarative) {
            (Some(p), Some(a), Some(d)) => {
                if p > usize::MAX - a {
                    return None;
                }
                let pa = p + a;
                if pa > usize::MAX - p {
                    return None;
                }
                let pap = pa + p;
                if pap > usize::MAX - d {
                    return None;
                }
                Some(pap + d)
            },
            _ => None,
        }
    }

    /// A copy of the record.
    pub fn duplicate(&self) -> (copy: Self)
        requires
            self.well_formed(),
        ensures
            copy.well_formed(),
            copy@ == self@,
    {
        MacroAnalyzis {
            attribute_macro_definitions: self.attribute_macro_definitions.duplicate(),
            declarative_macro_definitions: self.declarative_macro_definitions.duplicate(),
            procedural_macro_definitions: self.procedural_macro_definitions.duplicate(),
            derive_macro_definitions: self.derive_macro_definitions.duplicate(),
            derive_macro_usage: self.derive_macro_usage.duplicate(),
            attribute_macro_invocations: self.attribute_macro_invocations.duplicate(),
            builtin_attribute_macro_invocations: self.builtin_attribute_macro_invocations.duplicate(),
            macro_invocations: self.macro_invocations.duplicate(),
        }
    }
}

impl Default for MacroAnalyzis {
    fn default() -> (record: Self)
        ensures
            record.well_formed(),
            record@ == Usage::empty(),
    {
        MacroAnalyzis::new()
    }
}

/// The combination of two records stays within the sums of their bounds.
pub proof fn lemma_within_combine(
    a: Usage,
    b: Usage,
    visits_a: nat,
    derived_a: nat,
    visits_b: nat,
    derived_b: nat,
)
    requires
        a.within(visits_a, derived_a),
        b.within(visits_b, derived_b),
    ensures
        a.combine(b).within(visits_a + visits_b, derived_a + derived_b),
{
}

/// Combining two derive statistics does not depend on their order.
pub proof fn lemma_derive_combine_commutative(a: DeriveStats, b: DeriveStats)
    ensures
        a.combine(b) == b.combine(a),
{
    assert(a.derives.add(b.derives) =~= b.derives.add(a.derives));
    assert(a.samples.add(b.samples) =~= b.samples.add(a.samples));
}

/// Combining three derive statistics does not depend on their grouping.
pub proof fn lemma_derive_combine_associative(a: DeriveStats, b: DeriveStats, c: DeriveStats)
    ensures
        a.combine(b).combine(c) == a.combine(b.combine(c)),
{
    assert(a.derives.add(b.derives).add(c.derives) =~= a.derives.add(b.derives.add(c.derives)));
    assert(a.samples.add(b.samples).add(c.samples) =~= a.samples.add(b.samples.add(c.samples)));
}

/// Combining two usage records does not depend on their order, in any
/// bucket nor in the derive statistic.
pub proof fn lemma_combine_commutative(a: Usage, b: Usage)
    ensures
        a.combine(b) == b.combine(a),
{
    lemma_derive_combine_commutative(a.derive_macro_usage, b.derive_macro_usage);
    assert(a.attribute_macro_definitions.add(b.attribute_macro_definitions)
        =~= b.attribute_macro_definitions.add(a.attribute_macro_definitions));
    assert(a.declarative_macro_definitions.add(b.declarative_macro_definitions)
        =~= b.declarative_macro_definitions.add(a.declarative_macro_definitions));
    assert(a.procedural_macro_definitions.add(b.procedural_macro_definitions)
        =~= b.procedural_macro_definitions.add(a.procedural_macro_definitions));
    assert(a.derive_macro_definitions.add(b.derive_macro_definitions)
        =~= b.derive_macro_definitions.add(a.derive_macro_definitions));
    assert(a.attribute_macro_invocations.add(b.attribute_macro_invocations)
        =~= b.attribute_macro_invocations.add(a.attribute_macro_invocations));
    assert(a.builtin_attribute_macro_invocations.add(b.builtin_attribute_macro_invocations)
        =~= b.builtin_attribute_macro_invocations.add(a.builtin_attribute_macro_invocations));
    assert(a.macro_invocations.add(b.macro_invocations) =~= b.macro_invocations.add(
        a.macro_invocations,
    ));
}

/// Combining three usage records does not depend on their grouping, in any
/// bucket nor in the derive statistic.
pub proof fn lemma_combine_associative(a: Usage, b: Usage, c: Usage)
    ensures
        a.combine(b).combine(c) == a.combine(b.combine(c)),
{
    lemma_derive_combine_associative(
        a.derive_macro_usage,
        b.derive_macro_usage,
        c.derive_macro_usage,
    );
    assert(a.attribute_macro_definitions.add(b.attribute_macro_definitions).add(
        c.attribute_macro_definitions,
    ) =~= a.attribute_macro_definitions.add(
        b.attribute_macro_definitions.add(c.attribute_macro_definitions),
    ));
    assert(a.declarative_macro_definitions.add(b.declarative_macro_definitions).add(
        c.declarative_macro_definitions,
    ) =~= a.declarative_macro_definitions.add(
        b.declarative_macro_definitions.add(c.declarative_macro_definitions),
    ));
    assert(a.procedural_macro_definitions.add(b.procedural_macro_definitions).add(
        c.procedural_macro_definitions,
    ) =~= a.procedural_macro_definitions.add(
        b.procedural_macro_definitions.add(c.procedural_macro_definitions),
    ));
    assert(a.derive_macro_definitions.add(b.derive_macro_definitions).add(
        c.derive_macro_definitions,
    ) =~= a.derive_macro_definitions.add(
        b.derive_macro_definitions.add(c.derive_macro_definitions),
    ));
    assert(a.attribute_macro_invocations.add(b.attribute_macro_invocations).add(
        c.attribute_macro_invocations,
    ) =~= a.attribute_macro_invocations.add(
        b.attribute_macro_invocations.add(c.attribute_macro_invocations),
    ));
    assert(a.builtin_attribute_macro_invocations.add(b.builtin_attribute_macro_invocations).add(
        c.builtin_attribute_macro_invocations,
    ) =~= a.builtin_attribute_macro_invocations.add(
        b.builtin_attribute_macro_invocations.add(c.builtin_attribute_macro_invocations),
    ));
    assert(a.macro_invocations.add(b.macro_invocations).add(c.macro_invocations)
        =~= a.macro_invocations.add(b.macro_invocations.add(c.macro_invocations)));
}

/// The empty record is the neutral element of combination.
pub proof fn lemma_combine_empty(a: Usage)
    ensures
        a.combine(Usage::empty()) == a,
        Usage::empty().combine(a) == a,
{
    let e = Usage::empty();
    assert(a.combine(e).attribute_macro_definitions =~= a.attribute_macro_definitions);
    assert(a.combine(e).declarative_macro_definitions =~= a.declarative_macro_definitions);
    assert(a.combine(e).procedural_macro_definitions =~= a.procedural_macro_definitions);
    assert(a.combine(e).derive_macro_definitions =~= a.derive_macro_definitions);
    assert(a.combine(e).derive_macro_usage.derives =~= a.derive_macro_usage.derives);
    assert(a.combine(e).derive_macro_usage.samples =~= a.derive_macro_usage.samples);
    assert(a.combine(e).attribute_macro_invocations =~= a.attribute_macro_invocations);
    assert(a.combine(e).builtin_attribute_macro_invocations
        =~= a.builtin_attribute_macro_invocations);
    assert(a.combine(e).macro_invocations =~= a.macro_invocations);
    assert(e.combine(a).attribute_macro_definitions =~= a.attribute_macro_definitions);
    assert(e.combine(a).declarative_macro_definitions =~= a.declarative_macro_definitions);
    assert(e.combine(a).procedural_macro_definitions =~= a.procedural_macro_definitions);
    assert(e.combine(a).derive_macro_definitions =~= a.derive_macro_definitions);
    assert(e.combine(a).derive_macro_usage.derives =~= a.derive_macro_usage.derives);
    assert(e.combine(a).derive_macro_usage.samples =~= a.derive_macro_usage.samples);
    assert(e.combine(a).attribute_macro_invocations =~= a.attribute_macro_invocations);
    assert(e.combine(a).builtin_attribute_macro_invocations
        =~= a.builtin_attribute_macro_invocations);
    assert(e.combine(a).macro_invocations =~= a.macro_invocations);
}

/// The combination of a sequence of usage records, taken one after the other:
/// what a directory holds whose files hold these records.
pub open spec fn combine_all(records: Seq<Usage>) -> Usage
    decreases records.len(),
{
    if records.len() == 0 {
        Usage::empty()
    } else {
        combine_all(records.drop_last()).combine(records.last())
    }
}

/// The combination of the records of two groups of files is the combination
/// of the two groups' combinations: a directory can be analysed as a whole or
/// subdirectory by subdirectory.
pub proof fn lemma_combine_all_concat(left: Seq<Usage>, right: Seq<Usage>)
    ensures
        combine_all(left + right) == combine_all(left).combine(combine_all(right)),
    decreases right.len(),
{
    let whole = left + right;
    if right.len() == 0 {
        assert(whole =~= left);
        lemma_combine_empty(combine_all(left));
    } else {
        assert(whole.drop_last() =~= left + right.drop_last());
        assert(whole.last() == right.last());
        lemma_combine_all_concat(left, right.drop_last());
        lemma_combine_associative(
            combine_all(left),
            combine_all(right.drop_last()),
            right.last(),
        );
    }
}

/// Any two neighbours in a sequence of records may change places without a
/// change to the combination. Every order can be reached by such changes,
/// so the combination does not depend on the order of the records.
pub proof fn lemma_combine_all_swap(before: Seq<Usage>, a: Usage, b: Usage, after: Seq<Usage>)
    ensures
        combine_all(before + seq![a, b] + after) == combine_all(before + seq![b, a] + after),
{
    lemma_combine_all_concat(before + seq![a, b], after);
    lemma_combine_all_concat(before + seq![b, a], after);
    lemma_combine_all_concat(before, seq![a, b]);
    lemma_combine_all_concat(before, seq![b, a]);
    reveal_with_fuel(combine_all, 3);
    let pair = seq![a, b];
    let swapped = seq![b, a];
    assert(pair.drop_last() =~= seq![a]);
    assert(swapped.drop_last() =~= seq![b]);
    assert(seq![a].drop_last() =~= Seq::<Usage>::empty());
    assert(seq![b].drop_last() =~= Seq::<Usage>::empty());
    lemma_combine_empty(a);
    lemma_combine_empty(b);
    assert(combine_all(seq![a]) == a);
    assert(combine_all(seq![b]) == b);
    assert(combine_all(pair) == a.combine(b));
    assert(combine_all(swapped) == b.combine(a));
    lemma_combine_commutative(a, b);
}

/// The running statistic of a sequence of invocations counts them all, and
/// its sum of arities is theirs: its mean is the true mean of the sequence.
pub proof fn lemma_running_mean(points: Seq<Seq<Seq<u8>>>)
    ensures
        DeriveStats::of_points(points).count == points.len(),
        DeriveStats::of_points(points).total() == arity_sum(points),
        DeriveStats::of_points(points).valid(),
    decreases points.len(),
{
    if points.len() > 0 {
        lemma_running_mean(points.drop_last());
        lemma_bag_of_len(points.last(), points.last().len() as int);
    }
}

/// However a sequence of invocations is split in two, combining the running
/// statistics of the two parts gives the running statistic of the whole.
/// `lemma_partition_independence_all` carries this to any number of parts.
pub proof fn lemma_partition_independence(left: Seq<Seq<Seq<u8>>>, right: Seq<Seq<Seq<u8>>>)
    ensures
        DeriveStats::of_points(left + right) == DeriveStats::of_points(left).combine(
            DeriveStats::of_points(right),
        ),
    decreases right.len(),
{
    let whole = left + right;
    if right.len() == 0 {
        assert(whole =~= left);
        assert(DeriveStats::of_points(left).derives.add(Multiset::empty())
            =~= DeriveStats::of_points(left).derives);
        assert(DeriveStats::of_points(left).samples.add(Multiset::empty())
            =~= DeriveStats::of_points(left).samples);
    } else {
        assert(whole.drop_last() =~= left + right.drop_last());
        assert(whole.last() == right.last());
        lemma_partition_independence(left, right.drop_last());
        let l = DeriveStats::of_points(left);
        let r = DeriveStats::of_points(right.drop_last());
        let p = bag_of(right.last(), right.last().len() as int);
        assert(l.derives.add(r.derives).add(p) =~= l.derives.add(r.derives.add(p)));
        assert(l.samples.add(r.samples).insert(right.last().len() as usize) =~= l.samples.add(
            r.samples.insert(right.last().len() as usize),
        ));
    }
}

/// The points of several partitions, one partition after the other.
pub open spec fn points_of(partitions: Seq<Seq<Seq<Seq<u8>>>>) -> Seq<Seq<Seq<u8>>>
    decreases partitions.len(),
{
    if partitions.len() == 0 {
        Seq::empty()
    } else {
        points_of(partitions.drop_last()) + partitions.last()
    }
}

/// The combination of the running statistics of several partitions, each
/// computed by itself.
pub open spec fn combined_stats(partitions: Seq<Seq<Seq<Seq<u8>>>>) -> DeriveStats
    decreases partitions.len(),
{
    if partitions.len() == 0 {
        DeriveStats::empty()
    } else {
        combined_stats(partitions.drop_last()).combine(DeriveStats::of_points(partitions.last()))
    }
}

/// Into however many partitions a sequence of invocations is split, and
/// however long each of them is, combining the running statistics of the
/// partitions gives the running statistic of the whole sequence: it counts
/// every invocation, and the numerator of its mean is the sum of all the
/// arities. The combination is associative and commutative, so the
/// partitions may be combined in any grouping and in any order.
pub proof fn lemma_partition_independence_all(partitions: Seq<Seq<Seq<Seq<u8>>>>)
    ensures
        combined_stats(partitions) == DeriveStats::of_points(points_of(partitions)),
        combined_stats(partitions).count == points_of(partitions).len(),
        combined_stats(partitions).total() == arity_sum(points_of(partitions)),
    decreases partitions.len(),
{
    if partitions.len() > 0 {
        lemma_partition_independence_all(partitions.drop_last());
        lemma_partition_independence(points_of(partitions.drop_last()), partitions.last());
    }
    lemma_running_mean(points_of(partitions));
}

impl Usage {
    /// Whether two records can be combined without a counter leaving the
    /// machine's range: for every bucket and every name, the two
    /// counters together stay in the range, and so do the two numbers of
    /// derive invocations and the two sums of arities.
    pub open spec fn fits(self, other: Usage) -> bool {
        &&& forall|k: Seq<u8>|
            self.attribute_macro_definitions.count(k) + other.attribute_macro_definitions.count(k)
                <= usize::MAX
        &&& forall|k: Seq<u8>|
            self.declarative_macro_definitions.count(k) + other.declarative_macro_definitions.count(
                k,
            ) <= usize::MAX
        &&& forall|k: Seq<u8>|
            self.procedural_macro_definitions.count(k) + other.procedural_macro_definitions.count(
                k,
            ) <= usize::MAX
        &&& forall|k: Seq<u8>|
            self.derive_macro_definitions.count(k) + other.derive_macro_definitions.count(k)
                <= usize::MAX
        &&& forall|k: Seq<u8>|
            self.attribute_macro_invocations.count(k) + other.attribute_macro_invocations.count(k)
                <= usize::MAX
        &&& forall|k: Seq<u8>|
            self.builtin_attribute_macro_invocations.count(k)
                + other.builtin_attribute_macro_invocations.count(k) <= usize::MAX
        &&& forall|k: Seq<u8>|
            self.macro_invocations.count(k) + other.macro_invocations.count(k) <= usize::MAX
        &&& self.derive_macro_usage.count + other.derive_macro_usage.count <= usize::MAX
        &&& self.derive_macro_usage.total() + other.derive_macro_usage.total() <= usize::MAX
    }
}

/// Two buckets can be combined exactly when, for every name, their two
/// counters together stay in the machine's range.
proof fn lemma_bucket_fits(
    x: &MacroUsage,
    y: &MacroUsage,
    p: Multiset<Seq<u8>>,
    q: Multiset<Seq<u8>>,
)
    requires
        p == x@,
        q == y@,
    ensures
        x.fits_with(y) == (forall|k: Seq<u8>| p.count(k) + q.count(k) <= usize::MAX),
{
}

/// Two records can be combined exactly when their contents fit together.
pub proof fn lemma_fits_with(a: &MacroAnalyzis, b: &MacroAnalyzis)
    ensures
        a.fits_with(b) == a@.fits(b@),
{
    lemma_bucket_fits(
        &a.attribute_macro_definitions,
        &b.attribute_macro_definitions,
        a@.attribute_macro_definitions,
        b@.attribute_macro_definitions,
    );
    lemma_bucket_fits(
        &a.declarative_macro_definitions,
        &b.declarative_macro_definitions,
        a@.declarative_macro_definitions,
        b@.declarative_macro_definitions,
    );
    lemma_bucket_fits(
        &a.procedural_macro_definitions,
        &b.procedural_macro_definitions,
        a@.procedural_macro_definitions,
        b@.procedural_macro_definitions,
    );
    lemma_bucket_fits(
        &a.derive_macro_definitions,
        &b.derive_macro_definitions,
        a@.derive_macro_definitions,
        b@.derive_macro_definitions,
    );
    lemma_bucket_fits(
        &a.attribute_macro_invocations,
        &b.attribute_macro_invocations,
        a@.attribute_macro_invocations,
        b@.attribute_macro_invocations,
    );
    lemma_bucket_fits(
        &a.builtin_attribute_macro_invocations,
        &b.builtin_attribute_macro_invocations,
        a@.builtin_attribute_macro_invocations,
        b@.builtin_attribute_macro_invocations,
    );
    lemma_bucket_fits(
        &a.macro_invocations,
        &b.macro_invocations,
        a@.macro_invocations,
        b@.macro_invocations,
    );
}

/// Two records can be combined in one order exactly when they can be
/// combined in the other, and the two orders give the same record.
pub proof fn lemma_add_commutative(a: &MacroAnalyzis, b: &MacroAnalyzis)
    ensures
        a.fits_with(b) == b.fits_with(a),
        a@.combine(b@) == b@.combine(a@),
{
    lemma_combine_commutative(a@, b@);
    lemma_fits_with(a, b);
    lemma_fits_with(b, a);
    if a@.fits(b@) {
        assert(b@.fits(a@));
    }
    if b@.fits(a@) {
        assert(a@.fits(b@));
    }
}

/// Three records can be combined in one grouping exactly when they can be
/// combined in the other, and the two groupings give the same record. So
/// the only records left out of the laws of combination are those for which
/// some counter of the combined record would leave the machine's range, in
/// whatever grouping it is computed.
pub proof fn lemma_add_associative(a: Usage, b: Usage, c: Usage)
    ensures
        (a.fits(b) && a.combine(b).fits(c)) == (b.fits(c) && a.fits(b.combine(c))),
        a.combine(b).combine(c) == a.combine(b.combine(c)),
{
    lemma_combine_associative(a, b, c);
    if a.fits(b) && a.combine(b).fits(c) {
        assert(b.fits(c) && a.fits(b.combine(c))) by {
            lemma_fits_right(a, b, c);
        }
    }
    if b.fits(c) && a.fits(b.combine(c)) {
        assert(a.fits(b) && a.combine(b).fits(c)) by {
            lemma_fits_left(a, b, c);
        }
    }
}

/// What fits grouped to the left fits grouped to the right.
proof fn lemma_fits_right(a: Usage, b: Usage, c: Usage)
    requires
        a.fits(b),
        a.combine(b).fits(c),
    ensures
        b.fits(c),
        a.fits(b.combine(c)),
{
    let ab = a.combine(b);
    let bc = b.combine(c);
    assert forall|k: Seq<u8>|
        b.attribute_macro_definitions.count(k) + c.attribute_macro_definitions.count(k)
            <= usize::MAX && a.attribute_macro_definitions.count(k)
            + bc.attribute_macro_definitions.count(k) <= usize::MAX by {
        assert(ab.attribute_macro_definitions.count(k) + c.attribute_macro_definitions.count(k)
            <= usize::MAX);
    }
    assert forall|k: Seq<u8>|
        b.declarative_macro_definitions.count(k) + c.declarative_macro_definitions.count(k)
            <= usize::MAX && a.declarative_macro_definitions.count(k)
            + bc.declarative_macro_definitions.count(k) <= usize::MAX by {
        assert(ab.declarative_macro_definitions.count(k) + c.declarative_macro_definitions.count(
            k,
        ) <= usize::MAX);
    }
    assert forall|k: Seq<u8>|
        b.procedural_macro_definitions.count(k) + c.procedural_macro_definitions.count(k)
            <= usize::MAX && a.procedural_macro_definitions.count(k)
            + bc.procedural_macro_definitions.count(k) <= usize::MAX by {
        assert(ab.procedural_macro_definitions.count(k) + c.procedural_macro_definitions.count(k)
            <= usize::MAX);
    }
    assert forall|k: Seq<u8>|
        b.derive_macro_definitions.count(k) + c.derive_macro_definitions.count(k) <= usize::MAX
            && a.derive_macro_definitions.count(k) + bc.derive_macro_definitions.count(k)
            <= usize::MAX by {
        assert(ab.derive_macro_definitions.count(k) + c.derive_macro_definitions.count(k)
            <= usize::MAX);
    }
    assert forall|k: Seq<u8>|
        b.attribute_macro_invocations.count(k) + c.attribute_macro_invocations.count(k)
            <= usize::MAX && a.attribute_macro_invocations.count(k)
            + bc.attribute_macro_invocations.count(k) <= usize::MAX by {
        assert(ab.attribute_macro_invocations.count(k) + c.attribute_macro_invocations.count(k)
            <= usize::MAX);
    }
    assert forall|k: Seq<u8>|
        b.builtin_attribute_macro_invocations.count(k)
            + c.builtin_attribute_macro_invocations.count(k) <= usize::MAX
            && a.builtin_attribute_macro_invocations.count(k)
            + bc.builtin_attribute_macro_invocations.count(k) <= usize::MAX by {
        assert(ab.builtin_attribute_macro_invocations.count(k)
            + c.builtin_attribute_macro_invocations.count(k) <= usize::MAX);
    }
    assert forall|k: Seq<u8>|
        b.macro_invocations.count(k) + c.macro_invocations.count(k) <= usize::MAX
            && a.macro_invocations.count(k) + bc.macro_invocations.count(k) <= usize::MAX by {
        assert(ab.macro_invocations.count(k) + c.macro_invocations.count(k) <= usize::MAX);
    }
}

/// What fits grouped to the right fits grouped to the left.
proof fn lemma_fits_left(a: Usage, b: Usage, c: Usage)
    requires
        b.fits(c),
        a.fits(b.combine(c)),
    ensures
        a.fits(b),
        a.combine(b).fits(c),
{
    let ab = a.combine(b);
    let bc = b.combine(c);
    assert forall|k: Seq<u8>|
        a.attribute_macro_definitions.count(k) + b.attribute_macro_definitions.count(k)
            <= usize::MAX && ab.attribute_macro_definitions.count(k)
            + c.attribute_macro_definitions.count(k) <= usize::MAX by {
        assert(a.attribute_macro_definitions.count(k) + bc.attribute_macro_definitions.count(k)
            <= usize::MAX);
    }
    assert forall|k: Seq<u8>|
        a.declarative_macro_definitions.count(k) + b.declarative_macro_definitions.count(k)
            <= usize::MAX && ab.declarative_macro_definitions.count(k)
            + c.declarative_macro_definitions.count(k) <= usize::MAX by {
        assert(a.declarative_macro_definitions.count(k) + bc.declarative_macro_definitions.count(
            k,
        ) <= usize::MAX);
    }
    assert forall|k: Seq<u8>|
        a.procedural_macro_definitions.count(k) + b.procedural_macro_definitions.count(k)
            <= usize::MAX && ab.procedural_macro_definitions.count(k)
            + c.procedural_macro_definitions.count(k) <= usize::MAX by {
        assert(a.procedural_macro_definitions.count(k) + bc.procedural_macro_definitions.count(k)
            <= usize::MAX);
    }
    assert forall|k: Seq<u8>|
        a.derive_macro_definitions.count(k) + b.derive_macro_definitions.count(k) <= usize::MAX
            && ab.derive_macro_definitions.count(k) + c.derive_macro_definitions.count(k)
            <= usize::MAX by {
        assert(a.derive_macro_definitions.count(k) + bc.derive_macro_definitions.count(k)
            <= usize::MAX);
    }
    assert forall|k: Seq<u8>|
        a.attribute_macro_invocations.count(k) + b.attribute_macro_invocations.count(k)
            <= usize::MAX && ab.attribute_macro_invocations.count(k)
            + c.attribute_macro_invocations.count(k) <= usize::MAX by {
        assert(a.attribute_macro_invocations.count(k) + bc.attribute_macro_invocations.count(k)
            <= usize::MAX);
    }
    assert forall|k: Seq<u8>|
        a.builtin_attribute_macro_invocations.count(k)
            + b.builtin_attribute_macro_invocations.count(k) <= usize::MAX
            && ab.builtin_attribute_macro_invocations.count(k)
            + c.builtin_attribute_macro_invocations.count(k) <= usize::MAX by {
        assert(a.builtin_attribute_macro_invocations.count(k)
            + bc.builtin_attribute_macro_invocations.count(k) <= usize::MAX);
    }
    assert forall|k: Seq<u8>|
        a.macro_invocations.count(k) + b.macro_invocations.count(k) <= usize::MAX
            && ab.macro_invocations.count(k) + c.macro_invocations.count(k) <= usize::MAX by {
        assert(a.macro_invocations.count(k) + bc.macro_invocations.count(k) <= usize::MAX);
    }
}

} // verus!
