//! What the deletion workers share: their configuration and the failure log.
use vstd::prelude::*;
use crate::error::FailedItem;
use crate::tree::Entry;

verus! {

/// The paths of the entries of a listing that are not directories, in
/// listing order.
pub open spec fn file_paths(entries: Seq<Entry>) -> Seq<String>
    decreases entries.len(),
{
    if entries.len() == 0 {
        Seq::empty()
    } else {
        let rest = file_paths(entries.drop_last());
        if entries.last().is_dir {
            rest
        } else {
            rest.push(entries.last().path)
        }
    }
}

/// What a worker deletes one by one in a directory handed to it: every entry
/// that is not a real directory, symlinks included (they are never followed).
/// Subdirectories are left to their own records.
pub fn files_to_delete(entries: &Vec<Entry>) -> (r: Vec<String>)
    ensures
        r@ == file_paths(entries@),
{
    let mut out: Vec<String> = Vec::new();
    let mut k: usize = 0;
    while k < entries.len()
        invariant
            k <= entries@.len(),
            out@ == file_paths(entries@.take(k as int)),
        decreases entries@.len() - k,
    {
        proof {
            assert(entries@.take(k as int + 1).drop_last() =~= entries@.take(k as int));
        }
        if !entries[k].is_dir {
            out.push(entries[k].path.clone());
        }
        k = k + 1;
    }
    proof {
        assert(entries@.take(k as int) =~= entries@);
    }
    out
}

/// How workers report errors.
pub struct WorkerConfig {
    /// Print each error to the diagnostic stream as it happens.
    pub verbose: bool,
    /// Keep going after an error. Workers always keep going; the flag is
    /// carried for the command line's sake.
    pub ignore_errors: bool,
}

impl Default for WorkerConfig {
    fn default() -> (r: WorkerConfig)
        ensures
            !r.verbose,
            r.ignore_errors,
    {
        WorkerConfig { verbose: false, ignore_errors: true }
    }
}

/// The failure log: an append-only sequence of failed items, in the order in
/// which they were reported.
pub struct ErrorTracker {
    failures: Vec<FailedItem>,
}

/// The log holds a directory failure for `path`.
pub open spec fn has_dir_failure(log: Seq<FailedItem>, path: Seq<char>) -> bool {
    exists|k: int| 0 <= k < log.len() && (#[trigger] log[k]).is_dir && log[k].path@ == path
}

impl View for ErrorTracker {
    type V = Seq<FailedItem>;

    closed spec fn view(&self) -> Seq<FailedItem> {
        self.failures@
    }
}

impl ErrorTracker {
    /// An empty log.
    pub fn new() -> (r: ErrorTracker)
        ensures
            r@ == Seq::<FailedItem>::empty(),
    {
        ErrorTracker { failures: Vec::new() }
    }

    /// Appends `item` to the log.
    pub fn record_failure(&mut self, item: FailedItem)
        ensures
            final(self)@ == old(self)@.push(item),
    {
        self.failures.push(item);
    }

    /// Appends a directory failure unless the log already holds one for the
    /// same path: a directory that could not be listed will not be removed
    /// either, and is reported once.
    pub fn record_dir_failure(&mut self, path: String, error: String)
        ensures
            final(self)@ == if has_dir_failure(old(self)@, path@) {
                old(self)@
            } else {
                old(self)@.push(FailedItem { path, error, is_dir: true })
            },
    {
        if !self.has_dir_failure(&path) {
            self.failures.push(FailedItem { path, error, is_dir: true });
        }
    }

    /// The log holds a directory failure for `path`.
    pub fn has_dir_failure(&self, path: &String) -> (r: bool)
        ensures
            r == has_dir_failure(self@, path@),
    {
        let mut k: usize = 0;
        while k < self.failures.len()
            invariant
                k <= self.failures@.len(),
                forall|j: int|
                    0 <= j < k ==> !((#[trigger] self.failures@[j]).is_dir
                        && self.failures@[j].path@ == path@),
            decreases self.failures@.len() - k,
        {
            if self.failures[k].is_dir && self.failures[k].path == *path {
                return true;
            }
            k = k + 1;
        }
        false
    }

    /// A copy of the whole log.
    pub fn get_failures(&self) -> (r: Vec<FailedItem>)
        ensures
            r@ == self@,
    {
        let mut out: Vec<FailedItem> = Vec::new();
        let mut k: usize = 0;
        while k < self.failures.len()
            invariant
                k <= self.failures@.len(),
                out@ == self.failures@.take(k as int),
            decreases self.failures@.len() - k,
        {
            out.push(self.failures[k].duplicate());
            k = k + 1;
            proof {
                assert(out@ =~= self.failures@.take(k as int));
            }
        }
        proof {
            assert(self.failures@.take(k as int) =~= self.failures@);
        }
        out
    }

    /// Number of failures logged.
    pub fn failure_count(&self) -> (r: usize)
        ensures
            r == self@.len(),
    {
        self.failures.len()
    }
}

impl Default for ErrorTracker {
    fn default() -> (r: ErrorTracker)
        ensures
            r@ == Seq::<FailedItem>::empty(),
    {
        ErrorTracker::new()
    }
}

} // verus!
