//! The number of source lines of each crate.

use vstd::prelude::*;

use crate::data::{lemma_sum_of_monotone, sum_of};
use crate::path_map::PathMap;

verus! {

/// The number of source lines of each crate, by the crate's path.
#[derive(Debug)]
pub struct LinesCount(pub PathMap<usize>);

impl LinesCount {
    /// The sum of the numbers of lines of all the crates.
    pub open spec fn sum(&self) -> nat {
        sum_of(self.0.values(), self.0.values().len() as int)
    }

    /// The number of lines of all the crates together.
    pub fn total(&self) -> (lines: usize)
        requires
            self.0.well_formed(),
            self.sum() <= usize::MAX,
        ensures
            lines == self.sum(),
    {
        let n = self.0.len();
        let mut lines: usize = 0;
        let mut i: usize = 0;
        while i < n
            invariant
                i <= n,
                n == self.0.values().len(),
                n == self.0.paths().len(),
                self.0.well_formed(),
                lines == sum_of(self.0.values(), i as int),
                self.sum() <= usize::MAX,
            decreases n - i,
        {
            proof {
                lemma_sum_of_monotone(self.0.values(), i as int + 1, n as int);
            }
            lines = lines + *self.0.value_at(i);
            i += 1;
        }
        lines
    }

    /// The number of lines of all the crates together, where it stays in
    /// the machine's range.
    pub fn checked_total(&self) -> (lines: Option<usize>)
        requires
            self.0.well_formed(),
        ensures
            match lines {
                Some(n) => n == self.sum(),
                None => self.sum() > usize::MAX,
            },
    {
        let n = self.0.len();
        let mut lines: usize = 0;
        let mut i: usize = 0;
        while i < n
            invariant
                i <= n,
                n == self.0.values().len(),
                n == self.0.paths().len(),
                self.0.well_formed(),
                lines == sum_of(self.0.values(), i as int),
            decreases n - i,
        {
            let more = *self.0.value_at(i);
            if lines > usize::MAX - more {
                proof {
                    lemma_sum_of_monotone(self.0.values(), i as int + 1, n as int);
                }
                return None;
            }
            lines = lines + more;
            i += 1;
        }
        Some(lines)
    }
}

} // verus!
