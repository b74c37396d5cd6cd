//! The decisions of the directory walker: what to do with each entry of a
//! directory. Reading the directories and the files is the caller's part.

use vstd::prelude::*;

use crate::analyzis::{MacroAnalyzis, Usage};
use crate::error::Error;
use crate::utils::{
    file_ignored, folder_ignored, is_ignored_file, is_ignored_folder, is_source_extension,
};

verus! {

/// What a directory entry is.
#[derive(Clone, Copy, Debug, PartialEq, Eq, Structural)]
pub enum EntryKind {
    Directory,
    File,
    /// Neither a directory nor a file.
    Other,
}

/// What a walk is made for.
#[derive(Clone, Copy, Debug, PartialEq, Eq, Structural)]
pub enum WalkTask {
    /// Classifying the macros of every source file. Build output and
    /// malformed sources are left out.
    MacroUsage,
    /// Finding the ranges to delete from every source file.
    CfgRanges,
    /// Counting the code of every source file.
    CodeCount,
}

/// What the walker does with an entry.
#[derive(Clone, Copy, Debug, PartialEq, Eq, Structural)]
pub enum WalkAction {
    /// Nothing: the entry is passed over.
    Skip,
    /// The entry is a directory to walk into.
    Descend,
    /// The entry is a source file to read and to hand to the analysis.
    Analyze,
}

/// What the walker does with an entry of kind `kind`, named `name`, whose
/// name has the extension `extension`.
pub open spec fn walk_action(
    task: WalkTask,
    kind: EntryKind,
    name: Seq<char>,
    extension: Option<Seq<char>>,
) -> WalkAction {
    match kind {
        EntryKind::Directory => if task == WalkTask::MacroUsage && folder_ignored(name) {
            WalkAction::Skip
        } else {
            WalkAction::Descend
        },
        EntryKind::File => if !file_ignored(name) && extension == Some("rs"@) {
            WalkAction::Analyze
        } else {
            WalkAction::Skip
        },
        EntryKind::Other => WalkAction::Skip,
    }
}

/// Decides what to do with a directory entry.
pub fn decide_entry(task: WalkTask, kind: EntryKind, name: &str, extension: Option<&str>) -> (action:
    WalkAction)
    ensures
        action == walk_action(
            task,
            kind,
            name@,
            match extension {
                Some(e) => Some(e@),
                None => None,
            },
        ),
{
    match kind {
        EntryKind::Directory => {
            let ignored = match task {
                WalkTask::MacroUsage => is_ignored_folder(name),
                _ => false,
            };
            if ignored {
                WalkAction::Skip
            } else {
                WalkAction::Descend
            }
        },
        EntryKind::File => {
            let source = match extension {
                Some(e) => is_source_extension(e),
                None => false,
            };
            if source && !is_ignored_file(name) {
                WalkAction::Analyze
            } else {
                WalkAction::Skip
            }
        },
        EntryKind::Other => WalkAction::Skip,
    }
}

/// The outcome of a batch: the combination of the usage records of the files
/// that could be analysed, and the failures of the others, in the order in
/// which they were met. One failure does not end the batch.
#[derive(Debug)]
pub struct Batch {
    pub analyzis: MacroAnalyzis,
    pub failures: Vec<Error>,
}

impl Batch {
    /// The usage record of the batch is well formed.
    pub open spec fn well_formed(&self) -> bool {
        self.analyzis.well_formed() && self.analyzis@.valid()
    }

    /// A batch without files.
    pub fn new() -> (batch: Self)
        ensures
            batch.well_formed(),
            batch.analyzis@ == Usage::empty(),
            batch.failures@.len() == 0,
    {
        Batch { analyzis: MacroAnalyzis::new(), failures: Vec::new() }
    }

    /// Whether the outcome of one more file can be taken in: its usage
    /// record, if it has one, can be combined with that of the batch.
    pub open spec fn takes(&self, outcome: &Result<MacroAnalyzis, Error>) -> bool {
        match outcome {
            Ok(record) => record.well_formed() && record@.valid() && self.analyzis.fits_with(
                record,
            ),
            Err(_) => true,
        }
    }

    /// Decides whether the usage record of one more file can be combined
    /// with that of the batch.
    pub fn can_absorb(&self, record: &MacroAnalyzis) -> (yes: bool)
        requires
            self.well_formed(),
            record.well_formed(),
        ensures
            yes == self.analyzis.fits_with(record),
    {
        self.analyzis.can_add(record)
    }

    /// Takes in the outcome of one more file: its usage record is combined
    /// with that of the batch, its failure is put behind the failures so
    /// far.
    pub fn absorb(self, outcome: Result<MacroAnalyzis, Error>) -> (batch: Self)
        requires
            self.well_formed(),
            self.takes(&outcome),
        ensures
            batch.well_formed(),
            match outcome {
                Ok(record) => batch.analyzis@ == self.analyzis@.combine(record@) && batch.failures@
                    == self.failures@,
                Err(error) => batch.analyzis@ == self.analyzis@ && batch.failures@
                    == self.failures@.push(error),
            },
    {
        let mut failures = self.failures;
        match outcome {
            Ok(record) => Batch { analyzis: self.analyzis.add(record), failures },
            Err(error) => {
                failures.push(error);
                Batch { analyzis: self.analyzis, failures }
            },
        }
    }

    /// Takes in the outcome of a whole subdirectory: the usage records are
    /// combined, and the failures of the subdirectory are put behind the
    /// failures so far.
    pub fn merge(self, below: Batch) -> (batch: Self)
        requires
            self.well_formed(),
            below.well_formed(),
            self.analyzis.fits_with(&below.analyzis),
        ensures
            batch.well_formed(),
            batch.analyzis@ == self.analyzis@.combine(below.analyzis@),
            batch.failures@ == self.failures@ + below.failures@,
    {
        let mut failures = self.failures;
        let mut more = below.failures;
        failures.append(&mut more);
        Batch { analyzis: self.analyzis.add(below.analyzis), failures }
    }
}

} // verus!
