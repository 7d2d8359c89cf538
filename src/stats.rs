//! Counters gathered over one or more deletion runs.
use vstd::prelude::*;

verus! {

/// Totals of one run, or of several merged together.
///
/// Times are kept in whole nanoseconds.
pub struct DeletionStats {
    pub dirs_deleted: usize,
    pub files_deleted: usize,
    pub total_scan_nanos: u64,
    pub total_delete_nanos: u64,
}

impl DeletionStats {
    /// Stats of a run that has done nothing yet.
    pub fn new() -> (r: DeletionStats)
        ensures
            r.dirs_deleted == 0,
            r.files_deleted == 0,
            r.total_scan_nanos == 0,
            r.total_delete_nanos == 0,
    {
        DeletionStats { dirs_deleted: 0, files_deleted: 0, total_scan_nanos: 0, total_delete_nanos: 0 }
    }

    /// Adds every counter of `other` into `self`.
    pub fn merge(&mut self, other: &DeletionStats)
        requires
            old(self).dirs_deleted + other.dirs_deleted <= usize::MAX,
            old(self).files_deleted + other.files_deleted <= usize::MAX,
            old(self).total_scan_nanos + other.total_scan_nanos <= u64::MAX,
            old(self).total_delete_nanos + other.total_delete_nanos <= u64::MAX,
        ensures
            final(self).dirs_deleted == old(self).dirs_deleted + other.dirs_deleted,
            final(self).files_deleted == old(self).files_deleted + other.files_deleted,
            final(self).total_scan_nanos == old(self).total_scan_nanos + other.total_scan_nanos,
            final(self).total_delete_nanos == old(self).total_delete_nanos
                + other.total_delete_nanos,
    {
        self.dirs_deleted = self.dirs_deleted + other.dirs_deleted;
        self.files_deleted = self.files_deleted + other.files_deleted;
        self.total_scan_nanos = self.total_scan_nanos + other.total_scan_nanos;
        self.total_delete_nanos = self.total_delete_nanos + other.total_delete_nanos;
    }

    /// Directories and files together.
    pub fn total_items(&self) -> (r: usize)
        requires
            self.dirs_deleted + self.files_deleted <= usize::MAX,
        ensures
            r == self.dirs_deleted + self.files_deleted,
    {
        self.dirs_deleted + self.files_deleted
    }
}

} // verus!
