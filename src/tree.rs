//! The in-memory directory tree and the discovery pass that fills it.
//!
//! Directories are kept in flat columns keyed by a dense index: the path and
//! the parent link never change once a directory is recorded, and the count of
//! direct subdirectories is the only number the broker later mutates.
use vstd::prelude::*;

verus! {

/// One entry of a directory listing.
///
/// `is_dir` holds only for real directories: symlinks, device nodes and every
/// other kind of entry are files to this engine and are never traversed.
pub struct Entry {
    pub path: String,
    pub is_dir: bool,
}

impl Entry {
    pub fn new(path: String, is_dir: bool) -> (r: Entry)
        ensures
            r.path == path,
            r.is_dir == is_dir,
    {
        Entry { path, is_dir }
    }
}

/// Number of indices below `n` whose parent is `p`.
pub open spec fn child_count(parents: Seq<Option<usize>>, p: usize, n: int) -> nat
    decreases n,
{
    if n <= 0 {
        0
    } else {
        child_count(parents, p, n - 1) + if parents[n - 1] == Some(p) {
            1nat
        } else {
            0nat
        }
    }
}

/// The paths of the directory entries of a listing, in listing order.
pub open spec fn dir_paths(entries: Seq<Entry>) -> Seq<String>
    decreases entries.len(),
{
    if entries.len() == 0 {
        Seq::empty()
    } else {
        let rest = dir_paths(entries.drop_last());
        if entries.last().is_dir {
            rest.push(entries.last().path)
        } else {
            rest
        }
    }
}

/// How many entries of a listing are not directories.
pub open spec fn file_entries(entries: Seq<Entry>) -> nat
    decreases entries.len(),
{
    if entries.len() == 0 {
        0
    } else {
        file_entries(entries.drop_last()) + if entries.last().is_dir {
            0nat
        } else {
            1nat
        }
    }
}

/// The parent links form a tree rooted at index 0: the root has no parent and
/// every other directory has one with a smaller index.
pub open spec fn rooted(parents: Seq<Option<usize>>) -> bool {
    &&& parents.len() >= 1
    &&& parents[0] is None
    &&& forall|i: int|
        0 < i < parents.len() ==> (#[trigger] parents[i]) is Some && parents[i]->0 < i
}

/// `counts[i]` is the number of direct subdirectories of `i`.
pub open spec fn counts_children(parents: Seq<Option<usize>>, counts: Seq<usize>) -> bool {
    &&& counts.len() == parents.len()
    &&& forall|i: int|
        0 <= i < counts.len() ==> #[trigger] counts[i] == child_count(parents, i as usize, parents.len() as int)
}

proof fn lemma_child_count_prefix(a: Seq<Option<usize>>, b: Seq<Option<usize>>, p: usize, n: int)
    requires
        0 <= n <= a.len(),
        n <= b.len(),
        forall|k: int| 0 <= k < n ==> a[k] == b[k],
    ensures
        child_count(a, p, n) == child_count(b, p, n),
    decreases n,
{
    if n > 0 {
        lemma_child_count_prefix(a, b, p, n - 1);
    }
}

/// Pushing a directory with parent `q` adds one to the count of `q` only.
proof fn lemma_child_count_push(parents: Seq<Option<usize>>, q: usize, p: usize)
    ensures
        child_count(parents.push(Some(q)), p, parents.len() + 1int) == child_count(
            parents,
            p,
            parents.len() as int,
        ) + if q == p {
            1nat
        } else {
            0nat
        },
{
    let s = parents.push(Some(q));
    lemma_child_count_prefix(parents, s, p, parents.len() as int);
}

/// A directory that was recorded after every other cannot be anyone's parent yet.
proof fn lemma_child_count_none_above(parents: Seq<Option<usize>>, p: usize, n: int)
    requires
        0 <= n <= parents.len(),
        forall|k: int| 0 <= k < n ==> parents[k] != Some(p),
    ensures
        child_count(parents, p, n) == 0,
    decreases n,
{
    if n > 0 {
        lemma_child_count_none_above(parents, p, n - 1);
    }
}

/// The discovered tree: every directory with its parent link and its count of
/// direct subdirectories, the initial leaves, and the number of files seen.
pub struct Tree {
    pub paths: Vec<String>,
    pub parents: Vec<Option<usize>>,
    pub child_counts: Vec<usize>,
    /// Directories without subdirectories, each once, in discovery order.
    pub leaves: Vec<usize>,
    pub file_count: usize,
}

impl Tree {
    pub open spec fn wf(&self) -> bool {
        &&& self.paths@.len() == self.parents@.len()
        &&& rooted(self.parents@)
        &&& counts_children(self.parents@, self.child_counts@)
        &&& self.leaves@.no_duplicates()
        &&& forall|k: int|
            0 <= k < self.leaves@.len() ==> #[trigger] self.leaves@[k] < self.parents@.len()
        &&& forall|i: int|
            0 <= i < self.parents@.len() ==> (#[trigger] self.child_counts@[i] == 0
                <==> self.leaves@.contains(i as usize))
    }

    /// Number of directories in the tree.
    pub fn dir_count(&self) -> (r: usize)
        ensures
            r == self.paths@.len(),
    {
        self.paths.len()
    }
}

/// The discovery pass, one directory listing at a time.
///
/// Directories are listed in index order, so a directory's record always
/// exists before its listing is taken and every child gets a larger index than
/// its parent. The caller asks `next_dir` which directory to list, lists it and
/// hands the entries to `record_listing`, until `next_dir` returns `None`.
pub struct TreeBuilder {
    tree: Tree,
    next: usize,
}

impl TreeBuilder {
    pub closed spec fn tree(&self) -> Tree {
        self.tree
    }

    /// Number of directories listed so far.
    pub closed spec fn listed(&self) -> nat {
        self.next as nat
    }

    pub open spec fn is_done(&self) -> bool {
        self.listed() == self.tree().parents@.len()
    }

    pub closed spec fn wf(&self) -> bool {
        let t = self.tree;
        let n = t.parents@.len();
        &&& t.paths@.len() == n
        &&& rooted(t.parents@)
        &&& counts_children(t.parents@, t.child_counts@)
        &&& self.next <= n
        &&& t.leaves@.no_duplicates()
        &&& forall|k: int| 0 <= k < t.leaves@.len() ==> #[trigger] t.leaves@[k] < self.next
        &&& forall|i: int|
            0 <= i < self.next ==> (#[trigger] t.child_counts@[i] == 0 <==> t.leaves@.contains(
                i as usize,
            ))
        &&& forall|i: int| self.next <= i < n ==> #[trigger] t.child_counts@[i] == 0
    }

    /// Starts discovery at `root`, which becomes directory 0.
    pub fn new(root: String) -> (r: TreeBuilder)
        ensures
            r.wf(),
            r.listed() == 0,
            r.tree().paths@ == seq![root],
            r.tree().parents@ == seq![None::<usize>],
            r.tree().leaves@.len() == 0,
            r.tree().file_count == 0,
    {
        let tree = Tree {
            paths: vec![root],
            parents: vec![None],
            child_counts: vec![0],
            leaves: Vec::new(),
            file_count: 0,
        };
        proof {
            assert(child_count(tree.parents@, 0, 0) == 0);
            assert(child_count(tree.parents@, 0, 1) == 0);
        }
        TreeBuilder { tree, next: 0 }
    }

    /// The directory to list next, or `None` once every directory is listed.
    pub fn next_dir(&self) -> (r: Option<usize>)
        requires
            self.wf(),
        ensures
            r == (if self.is_done() {
                None
            } else {
                Some(self.listed() as usize)
            }),
    {
        if self.next < self.tree.paths.len() {
            Some(self.next)
        } else {
            None
        }
    }

    /// Number of directories recorded so far.
    pub fn dir_count(&self) -> (r: usize)
        requires
            self.wf(),
        ensures
            r == self.tree().paths@.len(),
    {
        self.tree.paths.len()
    }

    /// Number of files seen so far.
    pub fn file_count(&self) -> (r: usize)
        ensures
            r == self.tree().file_count,
    {
        self.tree.file_count
    }

    /// Path of directory `i`.
    pub fn path(&self, i: usize) -> (r: &String)
        requires
            self.wf(),
            i < self.tree().paths@.len(),
        ensures
            *r == self.tree().paths@[i as int],
    {
        &self.tree.paths[i]
    }

    /// Records the listing of the directory that `next_dir` names.
    ///
    /// Each directory entry becomes a new record whose parent is the listed
    /// directory; each other entry adds one to the file count. A directory with
    /// no subdirectory becomes an initial leaf. A listing that failed part way
    /// is recorded with the entries that were seen.
    pub fn record_listing(&mut self, entries: &Vec<Entry>)
        requires
            old(self).wf(),
            !old(self).is_done(),
            old(self).tree().paths@.len() + entries@.len() <= usize::MAX,
            old(self).tree().file_count + entries@.len() <= usize::MAX,
        ensures
            final(self).wf(),
            final(self).listed() == old(self).listed() + 1,
            final(self).tree().paths@ == old(self).tree().paths@ + dir_paths(entries@),
            final(self).tree().parents@ == old(self).tree().parents@ + Seq::new(
                dir_paths(entries@).len(),
                |_k: int| Some(old(self).listed() as usize),
            ),
            final(self).tree().file_count == old(self).tree().file_count + file_entries(entries@),
            final(self).tree().leaves@ == if dir_paths(entries@).len() == 0 {
                old(self).tree().leaves@.push(old(self).listed() as usize)
            } else {
                old(self).tree().leaves@
            },
    {
        let cur = self.next;
        let ghost old_paths = self.tree.paths@;
        let ghost old_parents = self.tree.parents@;
        let ghost old_files = self.tree.file_count;
        let ghost old_leaves = self.tree.leaves@;
        let mut k: usize = 0;
        while k < entries.len()
            invariant
                0 <= k <= entries@.len(),
                cur == self.next,
                self.tree.leaves@ == old_leaves,
                cur < old_parents.len(),
                self.tree.paths@.len() == self.tree.parents@.len(),
                self.tree.paths@ == old_paths + dir_paths(entries@.take(k as int)),
                self.tree.parents@ == old_parents + Seq::new(
                    dir_paths(entries@.take(k as int)).len(),
                    |_j: int| Some(cur),
                ),
                self.tree.file_count == old_files + file_entries(entries@.take(k as int)),
                old_paths.len() + entries@.len() <= usize::MAX,
                old_files + entries@.len() <= usize::MAX,
                dir_paths(entries@.take(k as int)).len() + file_entries(entries@.take(k as int)) == k,
                self.tree.child_counts@[cur as int] == dir_paths(entries@.take(k as int)).len(),
                rooted(self.tree.parents@),
                counts_children(self.tree.parents@, self.tree.child_counts@),
                self.tree.leaves@.no_duplicates(),
                forall|j: int|
                    0 <= j < self.tree.leaves@.len() ==> #[trigger] self.tree.leaves@[j] < cur,
                forall|i: int|
                    0 <= i < cur ==> (#[trigger] self.tree.child_counts@[i] == 0
                        <==> self.tree.leaves@.contains(i as usize)),
                forall|i: int|
                    cur < i < self.tree.parents@.len() ==> #[trigger] self.tree.child_counts@[i]
                        == 0,
            decreases entries@.len() - k,
        {
            let ghost pre = entries@.take(k as int);
            let ghost post = entries@.take(k as int + 1);
            proof {
                assert(post.drop_last() =~= pre);
                assert(post.last() == entries@[k as int]);
            }
            if entries[k].is_dir {
                let ghost parents0 = self.tree.parents@;
                let ghost counts0 = self.tree.child_counts@;
                let n = self.tree.parents.len();
                self.tree.paths.push(entries[k].path.clone());
                self.tree.parents.push(Some(cur));
                self.tree.child_counts.push(0);
                let c = self.tree.child_counts[cur];
                proof {
                    lemma_child_count_push(parents0, cur, cur);
                    assert(c == child_count(parents0, cur, n as int));
                    assert(c <= n) by {
                        lemma_child_count_bound(parents0, cur, n as int);
                    }
                }
                self.tree.child_counts.set(cur, c + 1);
                proof {
                    let ps = self.tree.parents@;
                    let cs = self.tree.child_counts@;
                    assert forall|i: int| 0 <= i < cs.len() implies #[trigger] cs[i]
                        == child_count(ps, i as usize, ps.len() as int) by {
                        if i < n {
                            lemma_child_count_push(parents0, cur, i as usize);
                        } else {
                            lemma_child_count_none_above(ps, i as usize, ps.len() as int);
                        }
                    }
                    assert(ps =~= old_parents + Seq::new(
                        dir_paths(post).len(),
                        |_j: int| Some(cur),
                    ));
                    assert forall|i: int| 0 < i < ps.len() implies (#[trigger] ps[i]) is Some
                        && ps[i]->0 < i by {
                        if i < n {
                            assert(ps[i] == parents0[i]);
                        }
                    }
                }
            } else {
                self.tree.file_count = self.tree.file_count + 1;
            }
            k = k + 1;
        }
        proof {
            assert(entries@.take(entries@.len() as int) =~= entries@);
        }
        let ghost leaves0 = self.tree.leaves@;
        if self.tree.child_counts[cur] == 0 {
            proof {
                assert(!self.tree.leaves@.contains(cur));
            }
            self.tree.leaves.push(cur);
            proof {
                assert forall|i: int| 0 <= i < cur implies (self.tree.leaves@.contains(i as usize)
                    <==> #[trigger] leaves0.contains(i as usize)) by {
                    if leaves0.contains(i as usize) {
                        let j = choose|j: int| 0 <= j < leaves0.len() && leaves0[j] == i as usize;
                        assert(self.tree.leaves@[j] == i as usize);
                    }
                }
                assert(self.tree.leaves@[leaves0.len() as int] == cur);
            }
        }
        self.next = cur + 1;
    }

    /// The finished tree.
    pub fn finish(self) -> (r: Tree)
        requires
            self.wf(),
            self.is_done(),
        ensures
            r == self.tree(),
            r.wf(),
    {
        self.tree
    }
}

proof fn lemma_child_count_bound(parents: Seq<Option<usize>>, p: usize, n: int)
    requires
        0 <= n <= parents.len(),
    ensures
        child_count(parents, p, n) <= n,
    decreases n,
{
    if n > 0 {
        lemma_child_count_bound(parents, p, n - 1);
    }
}

} // verus!
