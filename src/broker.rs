//! The broker: releases directories to workers leaf-first.
//!
//! A directory is handed out once every one of its subdirectories has been
//! completed, and the completion of a directory is what may hand out its
//! parent. The broker runs no thread of its own: the worker that finishes a
//! directory runs `mark_complete` and performs the step it returns.
use vstd::prelude::*;
use crate::tree::{Tree, child_count, rooted};

verus! {

/// Number of indices below `n` whose parent is `p` and that are not completed.
pub open spec fn pending_children(
    parents: Seq<Option<usize>>,
    completed: Seq<bool>,
    p: usize,
    n: int,
) -> nat
    decreases n,
{
    if n <= 0 {
        0
    } else {
        pending_children(parents, completed, p, n - 1) + if parents[n - 1] == Some(p)
            && !completed[n - 1] {
            1nat
        } else {
            0nat
        }
    }
}

/// Number of completed indices below `n`.
pub open spec fn completed_total(completed: Seq<bool>, n: int) -> nat
    decreases n,
{
    if n <= 0 {
        0
    } else {
        completed_total(completed, n - 1) + if completed[n - 1] {
            1nat
        } else {
            0nat
        }
    }
}

/// What the worker that reported a completion has to do next.
#[derive(PartialEq, Eq, Debug)]
pub enum Completion {
    /// The directory was already completed or never handed out: nothing changed.
    Ignored,
    /// The completion was recorded. `release` is the parent that has just lost
    /// its last pending subdirectory and is now handed out; `finished` says
    /// that every directory is complete and the work channel is to be closed.
    Done { release: Option<usize>, finished: bool },
}

/// The broker's state as mathematics.
pub struct BrokerView {
    pub paths: Seq<String>,
    pub parents: Seq<Option<usize>>,
    pub remaining: Seq<usize>,
    pub completed: Seq<bool>,
    pub released: Seq<bool>,
    pub completed_count: nat,
}

impl BrokerView {
    pub open spec fn len(&self) -> int {
        self.parents.len() as int
    }

    pub open spec fn wf(&self) -> bool {
        &&& self.len() <= usize::MAX
        &&& self.paths.len() == self.len()
        &&& self.remaining.len() == self.len()
        &&& self.completed.len() == self.len()
        &&& self.released.len() == self.len()
        &&& rooted(self.parents)
        &&& forall|i: int|
            0 <= i < self.len() ==> #[trigger] self.remaining[i] == pending_children(
                self.parents,
                self.completed,
                i as usize,
                self.len(),
            )
        &&& forall|i: int|
            0 <= i < self.len() ==> (#[trigger] self.released[i] <==> self.remaining[i] == 0)
        &&& forall|i: int| 0 <= i < self.len() ==> #[trigger] self.completed[i] ==> self.released[i]
        &&& self.completed_count == completed_total(self.completed, self.len())
    }

    /// A completion of `i` is taken into account.
    pub open spec fn accepts(&self, i: int) -> bool {
        0 <= i < self.len() && self.released[i] && !self.completed[i]
    }

    /// The state after a completion of `i` is reported.
    pub open spec fn complete(self, i: int) -> BrokerView {
        if !self.accepts(i) {
            self
        } else {
            let completed = self.completed.update(i, true);
            let count = self.completed_count + 1;
            match self.parents[i] {
                None => BrokerView { completed, completed_count: count, ..self },
                Some(p) => {
                    let r = (self.remaining[p as int] - 1) as usize;
                    BrokerView {
                        completed,
                        completed_count: count,
                        remaining: self.remaining.update(p as int, r),
                        released: self.released.update(p as int, r == 0),
                        ..self
                    }
                },
            }
        }
    }

    /// What a completion of `i` asks of the worker that reported it.
    pub open spec fn outcome(self, i: int) -> Completion {
        if !self.accepts(i) {
            Completion::Ignored
        } else {
            let release = match self.parents[i] {
                Some(p) => if self.remaining[p as int] == 1 {
                    Some(p)
                } else {
                    None
                },
                None => None,
            };
            Completion::Done { release, finished: self.completed_count + 1 == self.len() }
        }
    }

    /// Every directory is complete.
    pub open spec fn is_finished(&self) -> bool {
        self.completed_count == self.len()
    }
}

proof fn lemma_pending_update(
    parents: Seq<Option<usize>>,
    completed: Seq<bool>,
    k: int,
    p: usize,
    n: int,
)
    requires
        0 <= k < completed.len(),
        n <= completed.len(),
        n <= parents.len(),
        !completed[k],
    ensures
        pending_children(parents, completed, p, n) == pending_children(
            parents,
            completed.update(k, true),
            p,
            n,
        ) + if 0 <= k < n && parents[k] == Some(p) {
            1nat
        } else {
            0nat
        },
    decreases n,
{
    if n > 0 {
        lemma_pending_update(parents, completed, k, p, n - 1);
    }
}

proof fn lemma_total_update(completed: Seq<bool>, k: int, n: int)
    requires
        0 <= k < completed.len(),
        n <= completed.len(),
        !completed[k],
    ensures
        completed_total(completed.update(k, true), n) == completed_total(completed, n) + if 0 <= k
            < n {
            1nat
        } else {
            0nat
        },
    decreases n,
{
    if n > 0 {
        lemma_total_update(completed, k, n - 1);
    }
}

proof fn lemma_total_bound(completed: Seq<bool>, n: int)
    requires
        0 <= n <= completed.len(),
    ensures
        completed_total(completed, n) <= n,
        completed_total(completed, n) == n <==> forall|j: int|
            0 <= j < n ==> #[trigger] completed[j],
    decreases n,
{
    if n > 0 {
        lemma_total_bound(completed, n - 1);
    }
}

/// No pending subdirectory below `n` is the same as every subdirectory below
/// `n` being completed.
proof fn lemma_pending_zero(parents: Seq<Option<usize>>, completed: Seq<bool>, p: usize, n: int)
    requires
        0 <= n <= parents.len(),
        n <= completed.len(),
    ensures
        pending_children(parents, completed, p, n) == 0 <==> forall|j: int|
            0 <= j < n && #[trigger] parents[j] == Some(p) ==> completed[j],
    decreases n,
{
    if n > 0 {
        lemma_pending_zero(parents, completed, p, n - 1);
    }
}

proof fn lemma_pending_none_completed(
    parents: Seq<Option<usize>>,
    completed: Seq<bool>,
    p: usize,
    n: int,
)
    requires
        0 <= n <= parents.len(),
        n <= completed.len(),
        forall|j: int| 0 <= j < n ==> !#[trigger] completed[j],
    ensures
        pending_children(parents, completed, p, n) == child_count(parents, p, n),
        completed_total(completed, n) == 0,
    decreases n,
{
    if n > 0 {
        lemma_pending_none_completed(parents, completed, p, n - 1);
    }
}

/// A directory is handed out only when every one of its subdirectories is
/// completed: so it is empty of subdirectories when a worker removes it, and
/// its children's completions all come before its own.
pub proof fn lemma_released_after_children(v: BrokerView, i: int)
    requires
        v.wf(),
        0 <= i < v.len(),
        v.released[i],
    ensures
        v.remaining[i] == 0,
        forall|j: int| 0 <= j < v.len() && #[trigger] v.parents[j] == Some(i as usize) ==> v.completed[j],
{
    lemma_pending_zero(v.parents, v.completed, i as usize, v.len());
}

/// A completion is accepted only after the completions of all the
/// directory's subdirectories.
pub proof fn lemma_completion_after_children(v: BrokerView, i: int)
    requires
        v.wf(),
        v.accepts(i),
    ensures
        forall|j: int| 0 <= j < v.len() && #[trigger] v.parents[j] == Some(i as usize) ==> v.completed[j],
{
    lemma_released_after_children(v, i);
}

/// A directory is handed out at most once: a completion releases only a
/// parent that was not released before, and nothing released is taken back.
pub proof fn lemma_released_once(v: BrokerView, i: int)
    requires
        v.wf(),
    ensures
        forall|j: int| 0 <= j < v.len() && v.released[j] ==> #[trigger] v.complete(i).released[j],
        match v.outcome(i) {
            Completion::Done { release: Some(p), finished: _ } => {
                &&& v.parents[i] == Some(p)
                &&& !v.released[p as int]
                &&& v.complete(i).released[p as int]
            },
            _ => true,
        },
        v.outcome(i) == Completion::Ignored <==> v.complete(i) == v,
{
    if v.accepts(i) {
        assert(v.complete(i).completed[i] != v.completed[i]);
        match v.parents[i] {
            Some(p) => {
                lemma_pending_update(v.parents, v.completed, i, p, v.len());
            },
            None => {},
        }
    }
}

/// Each accepted completion counts one directory; the run is finished exactly
/// when every directory has been completed; and until then some directory is
/// handed out and not yet completed, so the workers always have work.
pub proof fn lemma_completion_count(v: BrokerView, i: int)
    requires
        v.wf(),
    ensures
        v.complete(i).completed_count == v.completed_count + if v.accepts(i) {
            1nat
        } else {
            0nat
        },
        v.completed_count <= v.len(),
        v.is_finished() <==> forall|j: int| 0 <= j < v.len() ==> #[trigger] v.completed[j],
        !v.is_finished() ==> exists|j: int| #[trigger] v.accepts(j),
{
    lemma_total_bound(v.completed, v.len());
    if !v.is_finished() {
        let k = choose|k: int| 0 <= k < v.len() && !#[trigger] v.completed[k];
        lemma_ready_exists(v, v.len(), k);
    }
}

proof fn lemma_ready_exists(v: BrokerView, n: int, k: int)
    requires
        v.wf(),
        0 <= k < n <= v.len(),
        !v.completed[k],
        forall|j: int| n <= j < v.len() ==> #[trigger] v.completed[j],
    ensures
        exists|j: int| #[trigger] v.accepts(j),
    decreases n,
{
    let top = n - 1;
    if !v.completed[top] {
        assert forall|j: int|
            0 <= j < v.len() && #[trigger] v.parents[j] == Some(top as usize) implies v.completed[j] by {
            assert(v.parents[j]->0 < j);
        }
        lemma_pending_zero(v.parents, v.completed, top as usize, v.len());
        assert(v.accepts(top));
    } else {
        lemma_ready_exists(v, n - 1, k);
    }
}

/// Reporting the same completion twice does nothing the second time.
pub proof fn lemma_complete_idempotent(v: BrokerView, i: int)
    requires
        v.wf(),
    ensures
        v.complete(i).complete(i) == v.complete(i),
        v.complete(i).outcome(i) == Completion::Ignored,
{
}

/// Once every directory is complete the broker's state depends on the tree
/// alone, not on the order in which the completions came.
pub proof fn lemma_finished_state_unique(a: BrokerView, b: BrokerView)
    requires
        a.wf(),
        b.wf(),
        a.paths == b.paths,
        a.parents == b.parents,
        a.is_finished(),
        b.is_finished(),
    ensures
        a == b,
{
    lemma_total_bound(a.completed, a.len());
    lemma_total_bound(b.completed, b.len());
    assert(a.completed =~= b.completed);
    assert forall|j: int| 0 <= j < a.len() implies #[trigger] a.remaining[j] == 0 by {
        lemma_pending_zero(a.parents, a.completed, j as usize, a.len());
    }
    assert forall|j: int| 0 <= j < b.len() implies #[trigger] b.remaining[j] == 0 by {
        lemma_pending_zero(b.parents, b.completed, j as usize, b.len());
    }
    assert(a.remaining =~= b.remaining);
    assert(a.released =~= b.released);
}

/// The broker over one discovered tree.
pub struct Broker {
    paths: Vec<String>,
    parents: Vec<Option<usize>>,
    remaining: Vec<usize>,
    completed: Vec<bool>,
    released: Vec<bool>,
    completed_count: usize,
}

impl View for Broker {
    type V = BrokerView;

    closed spec fn view(&self) -> BrokerView {
        BrokerView {
            paths: self.paths@,
            parents: self.parents@,
            remaining: self.remaining@,
            completed: self.completed@,
            released: self.released@,
            completed_count: self.completed_count as nat,
        }
    }
}

impl Broker {
    pub open spec fn wf(&self) -> bool {
        self@.wf()
    }

    /// Takes over a discovered tree. Its initial leaves are handed out at once
    /// and returned, to be sent to the workers; nothing is completed yet.
    pub fn new(tree: Tree) -> (r: (Broker, Vec<usize>))
        requires
            tree.wf(),
        ensures
            r.0.wf(),
            r.1@ == tree.leaves@,
            r.0@.paths == tree.paths@,
            r.0@.parents == tree.parents@,
            r.0@.remaining == tree.child_counts@,
            r.0@.completed_count == 0,
            forall|i: int| 0 <= i < r.0@.len() ==> !#[trigger] r.0@.completed[i],
            forall|i: int|
                0 <= i < r.0@.len() ==> (#[trigger] r.0@.released[i] <==> tree.leaves@.contains(
                    i as usize,
                )),
    {
        let Tree { paths, parents, child_counts, leaves, file_count: _ } = tree;
        let n = parents.len();
        let mut completed: Vec<bool> = Vec::new();
        let mut released: Vec<bool> = Vec::new();
        let mut i: usize = 0;
        while i < n
            invariant
                n == parents@.len(),
                n == child_counts@.len(),
                i <= n,
                completed@.len() == i,
                released@.len() == i,
                forall|j: int| 0 <= j < i ==> !#[trigger] completed@[j],
                forall|j: int| 0 <= j < i ==> #[trigger] released@[j] == (child_counts@[j] == 0),
            decreases n - i,
        {
            completed.push(false);
            released.push(child_counts[i] == 0);
            i = i + 1;
        }
        let broker = Broker {
            paths,
            parents,
            remaining: child_counts,
            completed,
            released,
            completed_count: 0,
        };
        proof {
            let v = broker@;
            assert forall|j: int| 0 <= j < v.len() implies #[trigger] v.remaining[j]
                == pending_children(v.parents, v.completed, j as usize, v.len()) by {
                lemma_pending_none_completed(v.parents, v.completed, j as usize, v.len());
            }
            lemma_pending_none_completed(v.parents, v.completed, 0, v.len());
        }
        (broker, leaves)
    }

    /// Reports that the worker has acted on directory `i`, whether its removal
    /// succeeded or not.
    ///
    /// The first report of a handed-out directory marks it completed, counts it,
    /// and takes one from its parent's pending subdirectories; the parent is
    /// handed out when that reaches zero. Any other report changes nothing.
    pub fn mark_complete(&mut self, i: usize) -> (r: Completion)
        requires
            old(self).wf(),
        ensures
            final(self).wf(),
            final(self)@ == old(self)@.complete(i as int),
            r == old(self)@.outcome(i as int),
    {
        if i >= self.completed.len() || !self.released[i] || self.completed[i] {
            return Completion::Ignored;
        }
        let ghost v0 = self@;
        let n = self.completed.len();
        proof {
            lemma_total_update(v0.completed, i as int, n as int);
            lemma_total_bound(self.completed@.update(i as int, true), n as int);
        }
        self.completed.set(i, true);
        self.completed_count = self.completed_count + 1;
        let mut release: Option<usize> = None;
        match self.parents[i] {
            Some(p) => {
                proof {
                    lemma_pending_update(v0.parents, v0.completed, i as int, p, n as int);
                }
                let r = self.remaining[p] - 1;
                self.remaining.set(p, r);
                self.released.set(p, r == 0);
                if r == 0 {
                    release = Some(p);
                }
            },
            None => {},
        }
        proof {
            let v = self@;
            assert forall|j: int| 0 <= j < v.len() implies #[trigger] v.remaining[j]
                == pending_children(v.parents, v.completed, j as usize, v.len()) by {
                lemma_pending_update(v0.parents, v0.completed, i as int, j as usize, n as int);
            }
            assert(v =~= v0.complete(i as int));
        }
        Completion::Done { release, finished: self.completed_count == n }
    }

    /// Number of directories completed so far.
    pub fn completed_count(&self) -> (r: usize)
        requires
            self.wf(),
        ensures
            r == self@.completed_count,
    {
        self.completed_count
    }

    /// Number of directories in the tree.
    pub fn total_dirs(&self) -> (r: usize)
        requires
            self.wf(),
        ensures
            r == self@.len(),
    {
        self.parents.len()
    }

    /// Path of directory `i`.
    pub fn path(&self, i: usize) -> (r: &String)
        requires
            self.wf(),
            i < self@.len(),
        ensures
            *r == self@.paths[i as int],
    {
        &self.paths[i]
    }

    /// Parent of directory `i`, `None` for the root.
    pub fn parent(&self, i: usize) -> (r: Option<usize>)
        requires
            self.wf(),
            i < self@.len(),
        ensures
            r == self@.parents[i as int],
    {
        self.parents[i]
    }

    /// Every directory is complete.
    pub fn is_finished(&self) -> (r: bool)
        requires
            self.wf(),
        ensures
            r == self@.is_finished(),
    {
        self.completed_count == self.parents.len()
    }
}

} // verus!
