//! The results of analysing a corpus: per crate, per repository, and overall.

use vstd::multiset::*;
use vstd::prelude::*;

use crate::analyzis::{MacroAnalyzis, Usage};
use crate::crate_paths::{find_repo_path, has_repo_path, repo_path_of, CratePaths};
use crate::github::{folder_name, folder_of, ReposQuerySearchNodesOnRepository};
use crate::path_map::PathMap;
use crate::utils::str_equal;

verus! {

/// A count of characters and a count of lines, in this order.
#[derive(Clone, Copy, Debug, PartialEq, Eq, Structural)]
pub struct CharLineCount(pub usize, pub usize);

impl CharLineCount {
    /// Whether the two counts can be added without leaving the machine's
    /// range.
    pub open spec fn fits_with(self, rhs: Self) -> bool {
        self.0 + rhs.0 <= usize::MAX && self.1 + rhs.1 <= usize::MAX
    }

    /// Decides `fits_with`.
    pub fn can_add(self, rhs: Self) -> (yes: bool)
        ensures
            yes == self.fits_with(rhs),
    {
        self.0 <= usize::MAX - rhs.0 && self.1 <= usize::MAX - rhs.1
    }

    /// The sum of two counts: characters with characters, lines with lines.
    pub fn add(self, rhs: Self) -> (sum: Self)
        requires
            self.fits_with(rhs),
        ensures
            sum.0 == self.0 + rhs.0,
            sum.1 == self.1 + rhs.1,
    {
        CharLineCount(self.0 + rhs.0, self.1 + rhs.1)
    }

    /// Adds `rhs` to the count.
    pub fn add_assign(&mut self, rhs: Self)
        requires
            old(self).fits_with(rhs),
        ensures
            final(self).0 == old(self).0 + rhs.0,
            final(self).1 == old(self).1 + rhs.1,
    {
        self.0 = self.0 + rhs.0;
        self.1 = self.1 + rhs.1;
    }

    /// The sum of two counts, where it stays in the machine's range.
    pub fn checked_add(self, rhs: Self) -> (sum: Option<Self>)
        ensures
            match sum {
                Some(s) => self.fits_with(rhs) && s.0 == self.0 + rhs.0 && s.1 == self.1 + rhs.1,
                None => !self.fits_with(rhs),
            },
    {
        if self.can_add(rhs) {
            Some(self.add(rhs))
        } else {
            None
        }
    }
}

/// The usage record that an analysis has, or the empty one where it has
/// none yet.
pub open spec fn usage_of(record: Option<MacroAnalyzis>) -> Usage {
    match record {
        Some(analyzis) => analyzis@,
        None => Usage::empty(),
    }
}

/// The usage record, if there is one, is well formed.
pub open spec fn usage_ok(record: Option<MacroAnalyzis>) -> bool {
    match record {
        Some(analyzis) => analyzis.well_formed() && analyzis@.valid(),
        None => true,
    }
}

/// The count that an analysis has, or zero where it has none yet.
pub open spec fn count_of(count: Option<CharLineCount>) -> (nat, nat) {
    match count {
        Some(c) => (c.0 as nat, c.1 as nat),
        None => (0, 0),
    }
}

/// A copy of a usage record that may be missing.
fn duplicate_usage(record: &Option<MacroAnalyzis>) -> (copy: Option<MacroAnalyzis>)
    requires
        usage_ok(*record),
    ensures
        usage_ok(copy),
        copy.is_some() == record.is_some(),
        usage_of(copy) == usage_of(*record),
{
    match record {
        Some(analyzis) => Some(analyzis.duplicate()),
        None => None,
    }
}

/// What is known of one crate.
#[derive(Debug)]
pub struct CrateAnalyzis {
    pub source_count: Option<CharLineCount>,
    pub expanded_count: Option<Result<CharLineCount, String>>,
    pub macro_usage: Option<MacroAnalyzis>,
}

impl CrateAnalyzis {
    /// A crate of which nothing is known yet.
    pub fn new() -> (analyzis: Self)
        ensures
            analyzis.source_count.is_none(),
            analyzis.expanded_count.is_none(),
            analyzis.macro_usage.is_none(),
    {
        CrateAnalyzis { source_count: None, expanded_count: None, macro_usage: None }
    }

    /// A copy of what is known of the crate.
    pub fn duplicate(&self) -> (copy: Self)
        requires
            usage_ok(self.macro_usage),
        ensures
            usage_ok(copy.macro_usage),
            copy.source_count == self.source_count,
            copy.macro_usage.is_some() == self.macro_usage.is_some(),
            usage_of(copy.macro_usage) == usage_of(self.macro_usage),
            match self.expanded_count {
                Some(Ok(count)) => copy.expanded_count == Some(
                    Ok::<CharLineCount, String>(count),
                ),
                Some(Err(message)) => copy.expanded_count matches Some(Err(m)) && m@ == message@,
                None => copy.expanded_count.is_none(),
            },
    {
        let expanded_count = match &self.expanded_count {
            Some(Ok(count)) => Some(Ok(*count)),
            Some(Err(message)) => Some(Err(message.clone())),
            None => None,
        };
        CrateAnalyzis {
            source_count: self.source_count,
            expanded_count,
            macro_usage: duplicate_usage(&self.macro_usage),
        }
    }

    /// Records the count of the crate's expanded code, unless an outcome
    /// of the expansion is recorded already.
    pub fn set_expanded_count(&mut self, count: CharLineCount)
        ensures
            final(self).source_count == old(self).source_count,
            final(self).macro_usage == old(self).macro_usage,
            final(self).expanded_count == match old(self).expanded_count {
                None => Some(Ok::<CharLineCount, String>(count)),
                Some(outcome) => Some(outcome),
            },
    {
        if self.expanded_count.is_none() {
            self.expanded_count = Some(Ok(count));
        }
    }
}

/// What is known of one repository: the sums over its crates.
#[derive(Debug)]
pub struct RepoAnalyzis {
    pub path: String,
    pub crates_count: usize,
    pub source_count: Option<CharLineCount>,
    pub expanded_count: Option<Result<CharLineCount, usize>>,
    pub macro_usage: Option<MacroAnalyzis>,
    pub star_count: i64,
}

impl RepoAnalyzis {
    /// A repository without crates.
    pub fn new(path: String, star_count: i64) -> (analyzis: Self)
        ensures
            analyzis.path == path,
            analyzis.star_count == star_count,
            analyzis.crates_count == 0,
            analyzis.source_count.is_none(),
            analyzis.expanded_count.is_none(),
            analyzis.macro_usage.is_none(),
    {
        RepoAnalyzis {
            path,
            crates_count: 0,
            source_count: None,
            expanded_count: None,
            macro_usage: None,
            star_count,
        }
    }

    /// A copy of what is known of the repository.
    pub fn duplicate(&self) -> (copy: Self)
        requires
            usage_ok(self.macro_usage),
        ensures
            usage_ok(copy.macro_usage),
            copy.path@ == self.path@,
            copy.crates_count == self.crates_count,
            copy.source_count == self.source_count,
            copy.expanded_count == self.expanded_count,
            copy.star_count == self.star_count,
            copy.macro_usage.is_some() == self.macro_usage.is_some(),
            usage_of(copy.macro_usage) == usage_of(self.macro_usage),
    {
        RepoAnalyzis {
            path: self.path.clone(),
            crates_count: self.crates_count,
            source_count: self.source_count,
            expanded_count: self.expanded_count,
            macro_usage: duplicate_usage(&self.macro_usage),
            star_count: self.star_count,
        }
    }

    /// Whether the usage record of one more crate can be added.
    pub open spec fn usage_fits(&self, analyzis: &MacroAnalyzis) -> bool {
        match self.macro_usage {
            Some(mine) => mine.fits_with(analyzis),
            None => true,
        }
    }

    /// Decides `usage_fits`.
    pub fn can_add_macro_usage(&self, analyzis: &MacroAnalyzis) -> (yes: bool)
        requires
            usage_ok(self.macro_usage),
            analyzis.well_formed(),
        ensures
            yes == self.usage_fits(analyzis),
    {
        match &self.macro_usage {
            Some(mine) => mine.can_add(analyzis),
            None => true,
        }
    }

    /// Adds the usage record of one more crate to that of the
    /// repository.
    pub fn add_macro_usage(&mut self, analyzis: MacroAnalyzis)
        requires
            usage_ok(old(self).macro_usage),
            analyzis.well_formed(),
            analyzis@.valid(),
            old(self).usage_fits(&analyzis),
        ensures
            usage_ok(final(self).macro_usage),
            final(self).macro_usage.is_some(),
            usage_of(final(self).macro_usage) == usage_of(old(self).macro_usage).combine(
                analyzis@,
            ),
            final(self).path == old(self).path,
            final(self).crates_count == old(self).crates_count,
            final(self).source_count == old(self).source_count,
            final(self).expanded_count == old(self).expanded_count,
            final(self).star_count == old(self).star_count,
    {
        let before = self.macro_usage.take();
        match before {
            Some(mine) => {
                self.macro_usage = Some(mine.add(analyzis));
            },
            None => {
                proof {
                    crate::analyzis::lemma_combine_empty(analyzis@);
                }
                self.macro_usage = Some(analyzis);
            },
        }
    }

    /// Adds the count of one more crate to that of the repository, where
    /// the sum stays in the machine's range; says whether it did.
    pub fn add_source_count(&mut self, count: CharLineCount) -> (added: bool)
        ensures
            added == (count_of(old(self).source_count).0 + count.0 <= usize::MAX && count_of(
                old(self).source_count,
            ).1 + count.1 <= usize::MAX),
            added ==> final(self).source_count.is_some() && count_of(final(self).source_count).0
                == count_of(old(self).source_count).0 + count.0 && count_of(
                final(self).source_count,
            ).1 == count_of(old(self).source_count).1 + count.1,
            !added ==> final(self).source_count == old(self).source_count,
            final(self).path == old(self).path,
            final(self).crates_count == old(self).crates_count,
            final(self).macro_usage == old(self).macro_usage,
            final(self).expanded_count == old(self).expanded_count,
            final(self).star_count == old(self).star_count,
    {
        match self.source_count {
            Some(mine) => match mine.checked_add(count) {
                Some(sum) => {
                    self.source_count = Some(sum);
                    true
                },
                None => false,
            },
            None => {
                self.source_count = Some(count);
                true
            },
        }
    }

    /// Adds the count of the expanded code of one more crate: to the sum
    /// so far, unless an expansion has failed in this repository. Says
    /// whether the sum stayed in the machine's range.
    pub fn add_expanded_count(&mut self, count: CharLineCount) -> (added: bool)
        ensures
            added == match old(self).expanded_count {
                Some(Ok(sum)) => sum.fits_with(count),
                _ => true,
            },
            final(self).expanded_count == match old(self).expanded_count {
                None => Some(Ok::<CharLineCount, usize>(count)),
                Some(Ok(sum)) => if sum.fits_with(count) {
                    Some(
                        Ok::<CharLineCount, usize>(
                            CharLineCount((sum.0 + count.0) as usize, (sum.1 + count.1) as usize),
                        ),
                    )
                } else {
                    Some(Ok::<CharLineCount, usize>(sum))
                },
                Some(Err(failures)) => Some(Err::<CharLineCount, usize>(failures)),
            },
            final(self).path == old(self).path,
            final(self).crates_count == old(self).crates_count,
            final(self).macro_usage == old(self).macro_usage,
            final(self).source_count == old(self).source_count,
            final(self).star_count == old(self).star_count,
    {
        match self.expanded_count {
            None => {
                self.expanded_count = Some(Ok(count));
                true
            },
            Some(Ok(sum)) => match sum.checked_add(count) {
                Some(more) => {
                    self.expanded_count = Some(Ok(more));
                    true
                },
                None => false,
            },
            Some(Err(_)) => true,
        }
    }

    /// Records that the expansion of one more crate has failed: the
    /// repository then holds the number of failures in place of a count.
    pub fn add_expand_failure(&mut self)
        requires
            old(self).expanded_count matches Some(Err(failures)) ==> failures < usize::MAX,
        ensures
            final(self).expanded_count == match old(self).expanded_count {
                Some(Err(failures)) => Some(Err::<CharLineCount, usize>((failures + 1) as usize)),
                _ => Some(Err::<CharLineCount, usize>(1)),
            },
            final(self).path == old(self).path,
            final(self).crates_count == old(self).crates_count,
            final(self).macro_usage == old(self).macro_usage,
            final(self).source_count == old(self).source_count,
            final(self).star_count == old(self).star_count,
    {
        match self.expanded_count {
            Some(Err(failures)) => {
                self.expanded_count = Some(Err(failures + 1));
            },
            _ => {
                self.expanded_count = Some(Err(1));
            },
        }
    }
}

/// What is known of the whole corpus.
#[derive(Debug)]
pub struct OverallAnalyzis {
    pub source_count: Option<CharLineCount>,
    pub macro_usage: Option<MacroAnalyzis>,
}

impl OverallAnalyzis {
    /// A corpus of which nothing is known yet.
    pub fn new() -> (analyzis: Self)
        ensures
            analyzis.source_count.is_none(),
            analyzis.macro_usage.is_none(),
    {
        OverallAnalyzis { source_count: None, macro_usage: None }
    }
}

/// The results of an analysis: per crate, per repository, and overall.
#[derive(Debug)]
pub struct AnalyzisResults {
    pub crates: PathMap<CrateAnalyzis>,
    pub repos: PathMap<RepoAnalyzis>,
    pub overall: OverallAnalyzis,
}

/// Why the overall results could not be calculated.
#[derive(Clone, Copy, Debug, PartialEq, Eq, Structural)]
pub enum ResultsError {
    /// A repository has no usage record or no count yet.
    MissingData,
    /// A sum leaves the machine's range.
    Overflow,
}

/// Whether each of the first `k` repositories has a usage record and a
/// count.
pub open spec fn repos_complete(repos: Seq<RepoAnalyzis>, k: int) -> bool {
    forall|i: int|
        0 <= i < k ==> (#[trigger] repos[i]).macro_usage.is_some() && repos[i].source_count.is_some()
}

/// The combination of `start` and the usage records of the first `k`
/// repositories.
pub open spec fn usage_sum(start: Usage, repos: Seq<RepoAnalyzis>, k: int) -> Usage
    decreases k,
{
    if k <= 0 || k > repos.len() {
        start
    } else {
        usage_of(repos[k - 1].macro_usage).combine(usage_sum(start, repos, k - 1))
    }
}

/// The sum of `start` and the counts of the first `k` repositories.
pub open spec fn count_sum(start: (nat, nat), repos: Seq<RepoAnalyzis>, k: int) -> (nat, nat)
    decreases k,
{
    if k <= 0 || k > repos.len() {
        start
    } else {
        let before = count_sum(start, repos, k - 1);
        let here = count_of(repos[k - 1].source_count);
        (before.0 + here.0, before.1 + here.1)
    }
}

/// Whether every counter of a usage record is in the machine's range.
pub open spec fn usage_in_range(usage: Usage) -> bool {
    &&& forall|k: Seq<u8>| usage.attribute_macro_definitions.count(k) <= usize::MAX
    &&& forall|k: Seq<u8>| usage.declarative_macro_definitions.count(k) <= usize::MAX
    &&& forall|k: Seq<u8>| usage.procedural_macro_definitions.count(k) <= usize::MAX
    &&& forall|k: Seq<u8>| usage.derive_macro_definitions.count(k) <= usize::MAX
    &&& forall|k: Seq<u8>| usage.attribute_macro_invocations.count(k) <= usize::MAX
    &&& forall|k: Seq<u8>| usage.builtin_attribute_macro_invocations.count(k) <= usize::MAX
    &&& forall|k: Seq<u8>| usage.macro_invocations.count(k) <= usize::MAX
    &&& usage.derive_macro_usage.count <= usize::MAX
    &&& usage.derive_macro_usage.derives.len() <= usize::MAX
}

/// Whether every counter of `a` is at most the one of `b`.
pub open spec fn usage_le(a: Usage, b: Usage) -> bool {
    &&& a.attribute_macro_definitions.subset_of(b.attribute_macro_definitions)
    &&& a.declarative_macro_definitions.subset_of(b.declarative_macro_definitions)
    &&& a.procedural_macro_definitions.subset_of(b.procedural_macro_definitions)
    &&& a.derive_macro_definitions.subset_of(b.derive_macro_definitions)
    &&& a.attribute_macro_invocations.subset_of(b.attribute_macro_invocations)
    &&& a.builtin_attribute_macro_invocations.subset_of(b.builtin_attribute_macro_invocations)
    &&& a.macro_invocations.subset_of(b.macro_invocations)
    &&& a.derive_macro_usage.count <= b.derive_macro_usage.count
    &&& a.derive_macro_usage.derives.len() <= b.derive_macro_usage.derives.len()
}

/// The sums grow with the number of repositories.
pub proof fn lemma_sums_monotone(
    start: Usage,
    counts: (nat, nat),
    repos: Seq<RepoAnalyzis>,
    j: int,
    k: int,
)
    requires
        0 <= j <= k <= repos.len(),
    ensures
        usage_le(usage_sum(start, repos, j), usage_sum(start, repos, k)),
        count_sum(counts, repos, j).0 <= count_sum(counts, repos, k).0,
        count_sum(counts, repos, j).1 <= count_sum(counts, repos, k).1,
    decreases k - j,
{
    broadcast use group_multiset_axioms;

    if j < k {
        lemma_sums_monotone(start, counts, repos, j, k - 1);
    }
}

impl AnalyzisResults {
    /// The maps are well formed, and so is every usage record.
    pub open spec fn well_formed(&self) -> bool {
        &&& self.crates.well_formed()
        &&& self.repos.well_formed()
        &&& usage_ok(self.overall.macro_usage)
        &&& forall|i: int|
            0 <= i < self.crates.values().len() ==> usage_ok(
                (#[trigger] self.crates.values()[i]).macro_usage,
            )
        &&& forall|i: int|
            0 <= i < self.repos.values().len() ==> usage_ok(
                (#[trigger] self.repos.values()[i]).macro_usage,
            )
    }

    /// Results without crates and without repositories.
    pub fn new() -> (results: Self)
        ensures
            results.well_formed(),
            results.crates.paths().len() == 0,
            results.repos.paths().len() == 0,
            results.overall.macro_usage.is_none(),
            results.overall.source_count.is_none(),
    {
        let results = AnalyzisResults {
            crates: PathMap::new(),
            repos: PathMap::new(),
            overall: OverallAnalyzis::new(),
        };
        proof {
            results.crates.lemma_entries();
            results.repos.lemma_entries();
        }
        results
    }

    /// Puts `crate_analyzis` in place of what was known of the crate at
    /// `crate_path`.
    pub fn update_crate(&mut self, crate_path: &str, crate_analyzis: CrateAnalyzis)
        requires
            old(self).well_formed(),
            old(self).crates.view().contains_key(crate_path@),
            usage_ok(crate_analyzis.macro_usage),
        ensures
            final(self).well_formed(),
            final(self).crates.view() == old(self).crates.view().insert(
                crate_path@,
                crate_analyzis,
            ),
            final(self).crates.paths() == old(self).crates.paths(),
            final(self).repos == old(self).repos,
            final(self).overall == old(self).overall,
    {
        proof {
            self.crates.lemma_entries();
        }
        match self.crates.position(crate_path) {
            Some(i) => {
                self.crates.set_value_at(i, crate_analyzis);
            },
            None => {},
        }
    }

    /// Puts `repo_analyzis` in place of what was known of the repository
    /// at `repo_path`.
    pub fn update_repo(&mut self, repo_path: &str, repo_analyzis: RepoAnalyzis)
        requires
            old(self).well_formed(),
            old(self).repos.view().contains_key(repo_path@),
            usage_ok(repo_analyzis.macro_usage),
        ensures
            final(self).well_formed(),
            final(self).repos.view() == old(self).repos.view().insert(repo_path@, repo_analyzis),
            final(self).repos.paths() == old(self).repos.paths(),
            final(self).crates == old(self).crates,
            final(self).overall == old(self).overall,
    {
        proof {
            self.repos.lemma_entries();
        }
        match self.repos.position(repo_path) {
            Some(i) => {
                self.repos.set_value_at(i, repo_analyzis);
            },
            None => {},
        }
    }
}

/// Whether the overall results can be calculated from `repos`, starting from
/// the usage record `start` and the count `counts`: every repository has its
/// data, and no sum leaves the machine's range.
pub open spec fn overall_outcome(start: Usage, counts: (nat, nat), repos: Seq<RepoAnalyzis>) -> Result<
    (),
    ResultsError,
> {
    let n = repos.len() as int;
    if !repos_complete(repos, n) {
        Err(ResultsError::MissingData)
    } else if usage_in_range(usage_sum(start, repos, n)) && count_sum(counts, repos, n).0
        <= usize::MAX && count_sum(counts, repos, n).1 <= usize::MAX {
        Ok(())
    } else {
        Err(ResultsError::Overflow)
    }
}

/// Adds what is known of every repository to the overall results: the usage
/// records are combined, and the counts are summed. Every repository has its
/// data, and the sums stay in the machine's range.
pub fn calculate_overall(results: &mut AnalyzisResults)
    requires
        old(results).well_formed(),
        overall_outcome(
            usage_of(old(results).overall.macro_usage),
            count_of(old(results).overall.source_count),
            old(results).repos.values(),
        ).is_ok(),
    ensures
        final(results).well_formed(),
        final(results).crates == old(results).crates,
        final(results).repos == old(results).repos,
        usage_of(final(results).overall.macro_usage) == usage_sum(
            usage_of(old(results).overall.macro_usage),
            old(results).repos.values(),
            old(results).repos.values().len() as int,
        ),
        count_of(final(results).overall.source_count) == count_sum(
            count_of(old(results).overall.source_count),
            old(results).repos.values(),
            old(results).repos.values().len() as int,
        ),
{
    let _ = try_calculate_overall(results);
}

/// Adds what is known of every repository to the overall results where that
/// can be done: where a repository lacks its data or a sum leaves the
/// machine's range, nothing changes, and the outcome says which of the two
/// it was.
pub fn try_calculate_overall(results: &mut AnalyzisResults) -> (outcome: Result<(), ResultsError>)
    requires
        old(results).well_formed(),
    ensures
        final(results).well_formed(),
        final(results).crates == old(results).crates,
        final(results).repos == old(results).repos,
        outcome == overall_outcome(
            usage_of(old(results).overall.macro_usage),
            count_of(old(results).overall.source_count),
            old(results).repos.values(),
        ),
        outcome.is_err() ==> final(results).overall == old(results).overall,
        outcome.is_ok() ==> {
            &&& usage_of(final(results).overall.macro_usage) == usage_sum(
                usage_of(old(results).overall.macro_usage),
                old(results).repos.values(),
                old(results).repos.values().len() as int,
            )
            &&& count_of(final(results).overall.source_count) == count_sum(
                count_of(old(results).overall.source_count),
                old(results).repos.values(),
                old(results).repos.values().len() as int,
            )
        },
{
    broadcast use group_multiset_axioms;

    let ghost initial = *results;
    let ghost repos = results.repos.values();
    let ghost start = usage_of(results.overall.macro_usage);
    let ghost counts = count_of(results.overall.source_count);
    let n = results.repos.len();
    let mut i: usize = 0;
    while i < n
        invariant
            i <= n,
            n == repos.len(),
            n == results.repos.paths().len(),
            repos == results.repos.values(),
            *results == initial,
            initial == *old(results),
            results.well_formed(),
            repos_complete(repos, i as int),
        decreases n - i,
    {
        let repo = results.repos.value_at(i);
        if repo.macro_usage.is_none() || repo.source_count.is_none() {
            return Err(ResultsError::MissingData);
        }
        i += 1;
    }
    let mut usage: Option<MacroAnalyzis> = duplicate_usage(&results.overall.macro_usage);
    let mut count: Option<CharLineCount> = results.overall.source_count;
    let mut i: usize = 0;
    while i < n
        invariant
            i <= n,
            n == repos.len(),
            n == results.repos.paths().len(),
            repos == results.repos.values(),
            *results == initial,
            initial == *old(results),
            start == usage_of(initial.overall.macro_usage),
            counts == count_of(initial.overall.source_count),
            results.well_formed(),
            repos_complete(repos, n as int),
            usage_ok(usage),
            usage_of(usage) == usage_sum(start, repos, i as int),
            count_of(count).0 == count_sum(counts, repos, i as int).0,
            count_of(count).1 == count_sum(counts, repos, i as int).1,
        decreases n - i,
    {
        let repo = results.repos.value_at(i);
        proof {
            assert(usage_ok(repos[i as int].macro_usage));
            assert(repos[i as int].macro_usage.is_some() && repos[i as int].source_count.is_some());
            lemma_sums_monotone(start, counts, repos, i as int + 1, n as int);
        }
        let here = match &repo.macro_usage {
            Some(here) => here,
            None => {
                return Err(ResultsError::MissingData);
            },
        };
        let more = match repo.source_count {
            Some(more) => more,
            None => {
                return Err(ResultsError::MissingData);
            },
        };
        let ghost next = usage_sum(start, repos, i as int + 1);
        usage = match usage {
            Some(sum) => {
                if !here.can_add(&sum) {
                    proof {
                        assert(next == here@.combine(sum@));
                        lemma_not_in_range(here, &sum);
                        lemma_le_in_range(next, usage_sum(start, repos, n as int));
                    }
                    return Err(ResultsError::Overflow);
                }
                Some(here.duplicate().add(sum))
            },
            None => {
                proof {
                    crate::analyzis::lemma_combine_empty(here@);
                }
                Some(here.duplicate())
            },
        };
        count = match count {
            Some(sum) => match sum.checked_add(more) {
                Some(total) => Some(total),
                None => {
                    proof {
                        let after = count_sum(counts, repos, i as int + 1);
                        assert(after.0 > usize::MAX || after.1 > usize::MAX);
                    }
                    return Err(ResultsError::Overflow);
                },
            },
            None => Some(more),
        };
        i += 1;
    }
    proof {
        assert(usage_in_range(usage_of(usage))) by {
            lemma_in_range(usage);
        }
    }
    if n > 0 {
        results.overall = OverallAnalyzis { source_count: count, macro_usage: usage };
    }
    Ok(())
}

/// Whether each of the first `k` repositories has a usage record.
pub open spec fn repos_have_usage(repos: Seq<RepoAnalyzis>, k: int) -> bool {
    forall|i: int| 0 <= i < k ==> (#[trigger] repos[i]).macro_usage.is_some()
}

/// The usage record of the whole corpus: the combination of the usage
/// records of all the repositories. There is none where a repository has
/// no usage record yet, nor where a counter of the combination leaves the
/// machine's range.
pub open spec fn corpus_usage(repos: Seq<RepoAnalyzis>) -> Result<Usage, ResultsError> {
    let n = repos.len() as int;
    if !repos_have_usage(repos, n) {
        Err(ResultsError::MissingData)
    } else if usage_in_range(usage_sum(Usage::empty(), repos, n)) {
        Ok(usage_sum(Usage::empty(), repos, n))
    } else {
        Err(ResultsError::Overflow)
    }
}

/// Combines the usage records of all the repositories into the usage record
/// of the whole corpus.
pub fn total_macro_usage(results: &AnalyzisResults) -> (outcome: Result<
    MacroAnalyzis,
    ResultsError,
>)
    requires
        results.well_formed(),
    ensures
        match outcome {
            Ok(total) => {
                &&& total.well_formed()
                &&& total@.valid()
                &&& corpus_usage(results.repos.values()) == Ok::<Usage, ResultsError>(total@)
            },
            Err(error) => corpus_usage(results.repos.values()) == Err::<Usage, ResultsError>(
                error,
            ),
        },
{
    broadcast use group_multiset_axioms;

    let ghost repos = results.repos.values();
    let ghost start = Usage::empty();
    let n = results.repos.len();
    let mut i: usize = 0;
    while i < n
        invariant
            i <= n,
            n == repos.len(),
            n == results.repos.paths().len(),
            repos == results.repos.values(),
            results.well_formed(),
            repos_have_usage(repos, i as int),
        decreases n - i,
    {
        if results.repos.value_at(i).macro_usage.is_none() {
            return Err(ResultsError::MissingData);
        }
        i += 1;
    }
    let mut total = MacroAnalyzis::new();
    let mut i: usize = 0;
    while i < n
        invariant
            i <= n,
            n == repos.len(),
            n == results.repos.paths().len(),
            repos == results.repos.values(),
            start == Usage::empty(),
            results.well_formed(),
            repos_have_usage(repos, n as int),
            total.well_formed(),
            total@.valid(),
            total@ == usage_sum(start, repos, i as int),
        decreases n - i,
    {
        let repo = results.repos.value_at(i);
        proof {
            assert(usage_ok(repos[i as int].macro_usage));
            assert(repos[i as int].macro_usage.is_some());
            lemma_sums_monotone(start, (0, 0), repos, i as int + 1, n as int);
        }
        let here = match &repo.macro_usage {
            Some(here) => here,
            None => {
                return Err(ResultsError::MissingData);
            },
        };
        let ghost next = usage_sum(start, repos, i as int + 1);
        if !here.can_add(&total) {
            proof {
                assert(next == here@.combine(total@));
                lemma_not_in_range(here, &total);
                lemma_le_in_range(next, usage_sum(start, repos, n as int));
            }
            return Err(ResultsError::Overflow);
        }
        total = here.duplicate().add(total);
        i += 1;
    }
    proof {
        lemma_in_range(Some(total));
    }
    Ok(total)
}

/// The counters of a well-formed usage record are in the machine's range.
proof fn lemma_in_range(usage: Option<MacroAnalyzis>)
    requires
        usage_ok(usage),
    ensures
        usage_in_range(usage_of(usage)),
{
    broadcast use group_multiset_axioms;

    match usage {
        Some(analyzis) => {
            analyzis.lemma_in_range();
        },
        None => {},
    }
}

/// Two records that cannot be combined have a combination with a counter
/// out of the machine's range.
proof fn lemma_not_in_range(a: &MacroAnalyzis, b: &MacroAnalyzis)
    requires
        !a.fits_with(b),
    ensures
        !usage_in_range(a@.combine(b@)),
{
    broadcast use group_multiset_axioms;

    let sum = a@.combine(b@);
    if !a.attribute_macro_definitions.fits_with(&b.attribute_macro_definitions) {
        let k = choose|k: Seq<u8>|
            a.attribute_macro_definitions@.count(k) + b.attribute_macro_definitions@.count(k)
                > usize::MAX;
        assert(sum.attribute_macro_definitions.count(k) > usize::MAX);
    } else if !a.declarative_macro_definitions.fits_with(&b.declarative_macro_definitions) {
        let k = choose|k: Seq<u8>|
            a.declarative_macro_definitions@.count(k) + b.declarative_macro_definitions@.count(k)
                > usize::MAX;
        assert(sum.declarative_macro_definitions.count(k) > usize::MAX);
    } else if !a.procedural_macro_definitions.fits_with(&b.procedural_macro_definitions) {
        let k = choose|k: Seq<u8>|
            a.procedural_macro_definitions@.count(k) + b.procedural_macro_definitions@.count(k)
                > usize::MAX;
        assert(sum.procedural_macro_definitions.count(k) > usize::MAX);
    } else if !a.derive_macro_definitions.fits_with(&b.derive_macro_definitions) {
        let k = choose|k: Seq<u8>|
            a.derive_macro_definitions@.count(k) + b.derive_macro_definitions@.count(k)
                > usize::MAX;
        assert(sum.derive_macro_definitions.count(k) > usize::MAX);
    } else if !a.attribute_macro_invocations.fits_with(&b.attribute_macro_invocations) {
        let k = choose|k: Seq<u8>|
            a.attribute_macro_invocations@.count(k) + b.attribute_macro_invocations@.count(k)
                > usize::MAX;
        assert(sum.attribute_macro_invocations.count(k) > usize::MAX);
    } else if !a.builtin_attribute_macro_invocations.fits_with(
        &b.builtin_attribute_macro_invocations,
    ) {
        let k = choose|k: Seq<u8>|
            a.builtin_attribute_macro_invocations@.count(k)
                + b.builtin_attribute_macro_invocations@.count(k) > usize::MAX;
        assert(sum.builtin_attribute_macro_invocations.count(k) > usize::MAX);
    } else if !a.macro_invocations.fits_with(&b.macro_invocations) {
        let k = choose|k: Seq<u8>|
            a.macro_invocations@.count(k) + b.macro_invocations@.count(k) > usize::MAX;
        assert(sum.macro_invocations.count(k) > usize::MAX);
    }
}

/// A record with a counter out of the machine's range stays so when its
/// counters grow.
proof fn lemma_le_in_range(a: Usage, b: Usage)
    requires
        usage_le(a, b),
        !usage_in_range(a),
    ensures
        !usage_in_range(b),
{
    broadcast use group_multiset_axioms;

    if exists|k: Seq<u8>| a.attribute_macro_definitions.count(k) > usize::MAX {
        let k = choose|k: Seq<u8>| a.attribute_macro_definitions.count(k) > usize::MAX;
        assert(b.attribute_macro_definitions.count(k) > usize::MAX);
    } else if exists|k: Seq<u8>| a.declarative_macro_definitions.count(k) > usize::MAX {
        let k = choose|k: Seq<u8>| a.declarative_macro_definitions.count(k) > usize::MAX;
        assert(b.declarative_macro_definitions.count(k) > usize::MAX);
    } else if exists|k: Seq<u8>| a.procedural_macro_definitions.count(k) > usize::MAX {
        let k = choose|k: Seq<u8>| a.procedural_macro_definitions.count(k) > usize::MAX;
        assert(b.procedural_macro_definitions.count(k) > usize::MAX);
    } else if exists|k: Seq<u8>| a.derive_macro_definitions.count(k) > usize::MAX {
        let k = choose|k: Seq<u8>| a.derive_macro_definitions.count(k) > usize::MAX;
        assert(b.derive_macro_definitions.count(k) > usize::MAX);
    } else if exists|k: Seq<u8>| a.attribute_macro_invocations.count(k) > usize::MAX {
        let k = choose|k: Seq<u8>| a.attribute_macro_invocations.count(k) > usize::MAX;
        assert(b.attribute_macro_invocations.count(k) > usize::MAX);
    } else if exists|k: Seq<u8>| a.builtin_attribute_macro_invocations.count(k) > usize::MAX {
        let k = choose|k: Seq<u8>| a.builtin_attribute_macro_invocations.count(k) > usize::MAX;
        assert(b.builtin_attribute_macro_invocations.count(k) > usize::MAX);
    } else if exists|k: Seq<u8>| a.macro_invocations.count(k) > usize::MAX {
        let k = choose|k: Seq<u8>| a.macro_invocations.count(k) > usize::MAX;
        assert(b.macro_invocations.count(k) > usize::MAX);
    }
}

/// The stars of the first of the first `k` repositories that is cloned into
/// the directory `folder`.
pub open spec fn stars_of(
    repositories: Seq<ReposQuerySearchNodesOnRepository>,
    folder: Seq<char>,
    k: int,
) -> Option<i64>
    decreases k,
{
    if k <= 0 || k > repositories.len() {
        None
    } else {
        match stars_of(repositories, folder, k - 1) {
            Some(stars) => Some(stars),
            None => if folder_of(repositories[k - 1]) == folder {
                Some(repositories[k - 1].stargazers.total_count)
            } else {
                None
            },
        }
    }
}

/// Once a repository is found among the first `k`, it is the one found among
/// any more of them.
pub proof fn lemma_stars_stay(
    repositories: Seq<ReposQuerySearchNodesOnRepository>,
    folder: Seq<char>,
    k: int,
    n: int,
)
    requires
        0 <= k <= n <= repositories.len(),
        stars_of(repositories, folder, k).is_some(),
    ensures
        stars_of(repositories, folder, n) == stars_of(repositories, folder, k),
    decreases n - k,
{
    if k < n {
        lemma_stars_stay(repositories, folder, k, n - 1);
    }
}

/// The stars of the repository that is cloned into the directory `folder`.
pub fn find_stars(repositories: &Vec<ReposQuerySearchNodesOnRepository>, folder: &str) -> (stars:
    Option<i64>)
    ensures
        stars == stars_of(repositories@, folder@, repositories@.len() as int),
{
    let mut i: usize = 0;
    while i < repositories.len()
        invariant
            i <= repositories@.len(),
            stars_of(repositories@, folder@, i as int).is_none(),
        decreases repositories@.len() - i,
    {
        let name = folder_name(&repositories[i]);
        if str_equal(name.as_str(), folder) {
            proof {
                lemma_stars_stay(repositories@, folder@, i as int + 1, repositories@.len() as int);
            }
            return Some(repositories[i].stargazers.total_count);
        }
        i += 1;
    }
    None
}

/// How many of the first `k` crate paths lie in the repository `repo`.
pub open spec fn crates_in(paths: Seq<String>, repo: Seq<char>, k: int) -> nat
    decreases k,
{
    if k <= 0 || k > paths.len() {
        0
    } else if repo_path_of(paths[k - 1]@) == repo {
        crates_in(paths, repo, k - 1) + 1
    } else {
        crates_in(paths, repo, k - 1)
    }
}

/// No more of the first `k` crates lie in a repository than there are, and
/// none lies in a repository that none of their paths leads to.
pub proof fn lemma_crates_in(paths: Seq<String>, repo: Seq<char>, k: int)
    requires
        0 <= k <= paths.len(),
    ensures
        crates_in(paths, repo, k) <= k,
        crates_in(paths, repo, k) > 0 <==> exists|i: int|
            0 <= i < k && repo_path_of(#[trigger] paths[i]@) == repo,
    decreases k,
{
    if k > 0 {
        lemma_crates_in(paths, repo, k - 1);
        if repo_path_of(paths[k - 1]@) == repo {
        } else if crates_in(paths, repo, k) > 0 {
            let i = choose|i: int| 0 <= i < k - 1 && repo_path_of(#[trigger] paths[i]@) == repo;
            assert(0 <= i < k && repo_path_of(paths[i]@) == repo);
        }
    }
}

/// Whether results can be set up for the first `k` crate paths: every path
/// has the four segments of a repository path, and every repository is
/// among `repositories`.
pub open spec fn can_set_up(
    paths: Seq<String>,
    repositories: Seq<ReposQuerySearchNodesOnRepository>,
    k: int,
) -> bool {
    forall|i: int|
        0 <= i < k ==> has_repo_path((#[trigger] paths[i])@) && stars_of(
            repositories,
            repo_path_of(paths[i]@),
            repositories.len() as int,
        ).is_some()
}

/// Whether `crate_analyzis` is a crate of which nothing is known.
pub open spec fn crate_unknown(crate_analyzis: CrateAnalyzis) -> bool {
    &&& crate_analyzis.source_count.is_none()
    &&& crate_analyzis.expanded_count.is_none()
    &&& crate_analyzis.macro_usage.is_none()
}

/// Whether `results` are the results set up for the first `k` crate paths:
/// every crate is there with nothing known of it, and every repository is
/// there with its path, the number of its crates and its stars.
pub open spec fn set_up_for(
    results: AnalyzisResults,
    paths: Seq<String>,
    repositories: Seq<ReposQuerySearchNodesOnRepository>,
    k: int,
) -> bool {
    &&& results.well_formed()
    &&& results.overall.macro_usage.is_none()
    &&& results.overall.source_count.is_none()
    &&& forall|p: Seq<char>| #[trigger]
        results.crates.view().contains_key(p) <==> exists|i: int|
            0 <= i < k && (#[trigger] paths[i])@ == p
    &&& forall|p: Seq<char>| #[trigger]
        results.crates.view().contains_key(p) ==> crate_unknown(results.crates.view()[p])
    &&& forall|q: Seq<char>| #[trigger]
        results.repos.view().contains_key(q) <==> crates_in(paths, q, k) > 0
    &&& forall|q: Seq<char>| #[trigger]
        results.repos.view().contains_key(q) ==> {
            let repo = results.repos.view()[q];
            &&& repo.path@ == q
            &&& repo.crates_count == crates_in(paths, q, k)
            &&& Some(repo.star_count) == stars_of(repositories, q, repositories.len() as int)
            &&& repo.source_count.is_none()
            &&& repo.expanded_count.is_none()
            &&& repo.macro_usage.is_none()
        }
}

impl AnalyzisResults {
    /// Sets up the results for the crates at `paths`: one entry for each
    /// crate, with nothing known of it yet, and one entry for each
    /// repository that a crate lies in, with the number of its crates and
    /// with its stars, which are those of the repository among
    /// `repositories` that is cloned into a directory of that path. None
    /// where a path has no repository or a repository is not among
    /// `repositories`.
    pub fn from_paths(
        paths: &CratePaths,
        repositories: &Vec<ReposQuerySearchNodesOnRepository>,
    ) -> (outcome: Option<Self>)
        ensures
            match outcome {
                Some(results) => can_set_up(paths.0@, repositories@, paths.0@.len() as int)
                    && set_up_for(results, paths.0@, repositories@, paths.0@.len() as int),
                None => !can_set_up(paths.0@, repositories@, paths.0@.len() as int),
            },
    {
        let ghost all = paths.0@;
        let ghost n = all.len() as int;
        let mut results = AnalyzisResults::new();
        proof {
            results.crates.lemma_entries();
            results.repos.lemma_entries();
            assert forall|q: Seq<char>| !(crates_in(all, q, 0) > 0) by {}
        }
        let mut k: usize = 0;
        while k < paths.0.len()
            invariant
                k <= paths.0@.len(),
                all == paths.0@,
                n == all.len(),
                can_set_up(all, repositories@, k as int),
                set_up_for(results, all, repositories@, k as int),
            decreases paths.0@.len() - k,
        {
            let path = &paths.0[k];
            let ghost before = results;
            let repo_path = match find_repo_path(path.as_str()) {
                Some(repo_path) => repo_path,
                None => {
                    return None;
                },
            };
            let ghost q = repo_path@;
            proof {
                before.crates.lemma_entries();
                before.repos.lemma_entries();
                lemma_crates_in(all, q, k as int);
            }
            let entry = match results.repos.position(repo_path.as_str()) {
                Some(j) => {
                    let known = results.repos.value_at(j);
                    proof {
                        assert(before.repos.view().contains_key(q));
                    }
                    RepoAnalyzis {
                        path: repo_path.clone(),
                        crates_count: known.crates_count + 1,
                        source_count: None,
                        expanded_count: None,
                        macro_usage: None,
                        star_count: known.star_count,
                    }
                },
                None => {
                    let stars = match find_stars(repositories, repo_path.as_str()) {
                        Some(stars) => stars,
                        None => {
                            return None;
                        },
                    };
                    proof {
                        assert(!before.repos.view().contains_key(q));
                    }
                    RepoAnalyzis {
                        path: repo_path.clone(),
                        crates_count: 1,
                        source_count: None,
                        expanded_count: None,
                        macro_usage: None,
                        star_count: stars,
                    }
                },
            };
            results.repos.insert(repo_path, entry);
            results.crates.insert(path.clone(), CrateAnalyzis::new());
            proof {
                results.crates.lemma_entries();
                results.repos.lemma_entries();
                assert forall|p: Seq<char>| #[trigger]
                    results.crates.view().contains_key(p) <==> exists|i: int|
                        0 <= i < k + 1 && (#[trigger] all[i])@ == p by {
                    if results.crates.view().contains_key(p) {
                        if p == all[k as int]@ {
                        } else {
                            let i = choose|i: int| 0 <= i < k && (#[trigger] all[i])@ == p;
                            assert(0 <= i < k + 1 && all[i]@ == p);
                        }
                    }
                    if exists|i: int| 0 <= i < k + 1 && (#[trigger] all[i])@ == p {
                        let i = choose|i: int| 0 <= i < k + 1 && (#[trigger] all[i])@ == p;
                        if i < k {
                            assert(before.crates.view().contains_key(p));
                        }
                    }
                }
                assert forall|r: Seq<char>| #[trigger]
                    results.repos.view().contains_key(r) <==> crates_in(all, r, k + 1) > 0 by {
                    if r != q {
                        assert(before.repos.view().contains_key(r) <==> crates_in(
                            all,
                            r,
                            k as int,
                        ) > 0);
                    }
                }
                assert forall|r: Seq<char>| #[trigger]
                    results.repos.view().contains_key(r) implies {
                    let repo = results.repos.view()[r];
                    &&& repo.path@ == r
                    &&& repo.crates_count == crates_in(all, r, k + 1)
                    &&& Some(repo.star_count) == stars_of(
                        repositories@,
                        r,
                        repositories@.len() as int,
                    )
                    &&& repo.source_count.is_none()
                    &&& repo.expanded_count.is_none()
                    &&& repo.macro_usage.is_none()
                } by {
                    if r != q {
                        assert(before.repos.view().contains_key(r));
                    }
                }
            }
            k += 1;
        }
        Some(results)
    }
}

} // verus!
