//! The pool object and its worker roster.
//!
//! `threads_pool` joins the shared coordination state with the pool's record
//! of its live workers: which ordinals are alive and which of them are
//! executing a job.  Its methods are the transitions the pool and its
//! workers take — submit, dequeue, finish, exit, resize — each of which
//! keeps the roster and the counters in agreement.

use crate::shared::sharedData;
use vstd::prelude::*;

verus! {

/// The two states of a worker's execution loop: waiting to dequeue, or
/// executing a job.
#[derive(Clone, Copy, PartialEq, Eq, Structural, Debug)]
pub enum WorkerPhase {
    Idle,
    Running,
}

/// The pool's record of one live worker: its ordinal, unique among the
/// workers currently alive, and the phase of its loop.  The execution
/// thread itself belongs to the embedding program.
#[derive(Clone, Copy, PartialEq, Eq, Structural, Debug)]
pub struct Worker {
    pub id: usize,
    pub phase: WorkerPhase,
}

/// How many of the listed workers are executing a job.
pub open spec fn count_running(ws: Seq<Worker>) -> nat
    decreases ws.len(),
{
    if ws.len() == 0 {
        0
    } else {
        count_running(ws.drop_last()) + if ws.last().phase is Running {
            1nat
        } else {
            0nat
        }
    }
}

/// Appending a worker adds its own contribution to the running count.
proof fn lemma_count_running_push(ws: Seq<Worker>, w: Worker)
    ensures
        count_running(ws.push(w)) == count_running(ws) + if w.phase is Running {
            1nat
        } else {
            0nat
        },
{
    assert(ws.push(w).drop_last() =~= ws);
    assert(ws.push(w).last() == w);
}

/// Replacing one worker moves the running count by the difference of the
/// two workers' contributions.
proof fn lemma_count_running_update(ws: Seq<Worker>, i: int, w: Worker)
    requires
        0 <= i < ws.len(),
    ensures
        count_running(ws.update(i, w)) + (if ws[i].phase is Running {
            1nat
        } else {
            0nat
        }) == count_running(ws) + if w.phase is Running {
            1nat
        } else {
            0nat
        },
    decreases ws.len(),
{
    if i == ws.len() - 1 {
        assert(ws.update(i, w).drop_last() =~= ws.drop_last());
        assert(ws.update(i, w).last() == w);
    } else {
        assert(ws.update(i, w).drop_last() =~= ws.drop_last().update(i, w));
        assert(ws.update(i, w).last() == ws.last());
        lemma_count_running_update(ws.drop_last(), i, w);
    }
}

/// Removing one worker subtracts exactly its contribution.
proof fn lemma_count_running_remove(ws: Seq<Worker>, i: int)
    requires
        0 <= i < ws.len(),
    ensures
        count_running(ws.remove(i)) + (if ws[i].phase is Running {
            1nat
        } else {
            0nat
        }) == count_running(ws),
    decreases ws.len(),
{
    if i == ws.len() - 1 {
        assert(ws.remove(i) =~= ws.drop_last());
    } else {
        assert(ws.remove(i).drop_last() =~= ws.drop_last().remove(i));
        assert(ws.remove(i).len() > 0);
        assert(ws.remove(i).last() == ws.last());
        lemma_count_running_remove(ws.drop_last(), i);
    }
}

/// A roster with a worker in the `Running` phase counts at least one
/// running worker.
proof fn lemma_count_running_pos(ws: Seq<Worker>, i: int)
    requires
        0 <= i < ws.len(),
        ws[i].phase is Running,
    ensures
        count_running(ws) >= 1,
    decreases ws.len(),
{
    if i < ws.len() - 1 {
        assert(ws.drop_last()[i] == ws[i]);
        lemma_count_running_pos(ws.drop_last(), i);
    }
}

/// The pool: the shared coordination state together with the roster of live
/// workers and the source of fresh worker ordinals.  The producing end of
/// the dispatch channel and the worker threads themselves live with the
/// embedding program, which drives this model under one lock.
#[allow(non_camel_case_types)]
pub struct threads_pool {
    /// The coordination state every worker and caller shares.
    pub data: sharedData,
    /// The live workers, in the order they were created.
    pub workers: Vec<Worker>,
    /// The ordinal the next created worker will receive; never reused, so
    /// ordinals stay unique among live workers across grow and shrink
    /// cycles.
    pub next_ordinal: usize,
}

impl threads_pool {
    /// No two live workers share an ordinal.
    pub open spec fn ordinals_unique(self) -> bool {
        forall|i: int, j: int|
            0 <= i < j < self.workers@.len() ==> self.workers@[i].id != self.workers@[j].id
    }

    /// Every live ordinal is below the next one to be handed out.
    pub open spec fn ordinals_fresh(self) -> bool {
        forall|i: int|
            0 <= i < self.workers@.len() ==> #[trigger] self.workers@[i].id < self.next_ordinal
    }

    /// The coordination state is consistent, the running counter counts
    /// exactly the workers in the `Running` phase, and the roster's
    /// ordinals are unique and fresh.
    pub open spec fn wf(self) -> bool {
        &&& self.data.wf()
        &&& count_running(self.workers@) == self.data.running_count
        &&& self.ordinals_unique()
        &&& self.ordinals_fresh()
    }

    /// A live pool with `size` idle workers, ordinals `0` up to `size - 1`,
    /// and a worker target of `size`.  The embedding program spawns one
    /// execution thread per listed ordinal.
    pub fn new(size: usize) -> (p: threads_pool)
        ensures
            p.wf(),
            p.data.queued_count == 0,
            p.data.running_count == 0,
            p.data.worker_target == size,
            p.data.next_job@ == 0,
            p.data.done@ == Set::<nat>::empty(),
            p.workers@.len() == size,
            forall|i: int|
                0 <= i < size ==> (#[trigger] p.workers@[i]).id == i && p.workers@[i].phase
                    is Idle,
            p.next_ordinal == size,
    {
        let data = sharedData::new(size);
        let mut workers: Vec<Worker> = Vec::new();
        let mut i: usize = 0;
        while i < size
            invariant
                i <= size,
                workers@.len() == i,
                forall|k: int|
                    0 <= k < i ==> (#[trigger] workers@[k]).id == k && workers@[k].phase is Idle,
                count_running(workers@) == 0,
            decreases size - i,
        {
            let w = Worker { id: i, phase: WorkerPhase::Idle };
            proof {
                lemma_count_running_push(workers@, w);
            }
            workers.push(w);
            i = i + 1;
        }
        threads_pool { data, workers, next_ordinal: size }
    }

    /// Submit one job: the pool counts it as queued and records its fresh
    /// identifier at the back of the dispatch queue.  The embedding program
    /// then sends the job itself down the dispatch channel, so submission
    /// never blocks.
    pub fn execute(&mut self)
        requires
            old(self).wf(),
            old(self).data.queued_count < usize::MAX,
        ensures
            final(self).wf(),
            final(self).data.queued_count == old(self).data.queued_count + 1,
            final(self).data.running_count == old(self).data.running_count,
            final(self).data.worker_target == old(self).data.worker_target,
            final(self).data.pending@ == old(self).data.pending@.push(old(self).data.next_job@),
            final(self).data.in_flight@ == old(self).data.in_flight@,
            final(self).data.done@ == old(self).data.done@,
            final(self).data.next_job@ == old(self).data.next_job@ + 1,
            final(self).workers@ == old(self).workers@,
            final(self).next_ordinal == old(self).next_ordinal,
    {
        self.data.on_submit();
    }

    /// Worker `i` begins the job at the front of the queue: its phase moves
    /// from `Idle` to `Running` and the shared state records the dequeue.
    /// A worker reaches this transition only after its idle-point check
    /// found room below the worker target.
    pub fn worker_take_job(&mut self, i: usize)
        requires
            old(self).wf(),
            i < old(self).workers@.len(),
            old(self).workers@[i as int].phase is Idle,
            old(self).data.queued_count > 0,
            old(self).data.running_count < old(self).data.worker_target,
        ensures
            final(self).wf(),
            final(self).data.queued_count == old(self).data.queued_count - 1,
            final(self).data.running_count == old(self).data.running_count + 1,
            final(self).data.worker_target == old(self).data.worker_target,
            final(self).data.pending@ == old(self).data.pending@.drop_first(),
            final(self).data.in_flight@ == old(self).data.in_flight@.insert(
                old(self).data.pending@[0],
            ),
            final(self).data.done@ == old(self).data.done@,
            final(self).data.next_job@ == old(self).data.next_job@,
            final(self).workers@ == old(self).workers@.update(
                i as int,
                Worker { id: old(self).workers@[i as int].id, phase: WorkerPhase::Running },
            ),
            final(self).next_ordinal == old(self).next_ordinal,
    {
        self.data.on_dequeue();
        let w = Worker { id: self.workers[i].id, phase: WorkerPhase::Running };
        proof {
            lemma_count_running_update(self.workers@, i as int, w);
        }
        self.workers[i] = w;
        proof {
            self.lemma_roster_ids_after_update(*old(self), i as int);
        }
    }

    /// Worker `i` finished the job it was executing: its phase moves from
    /// `Running` back to `Idle`, and the shared state records some
    /// in-flight job as finished — completion order across jobs is not
    /// fixed.  The embedding program follows this with
    /// `notifiy_if_no_tasks` on the shared state, on every completion.
    pub fn worker_finish_job(&mut self, i: usize)
        requires
            old(self).wf(),
            i < old(self).workers@.len(),
            old(self).workers@[i as int].phase is Running,
        ensures
            final(self).wf(),
            final(self).data.queued_count == old(self).data.queued_count,
            final(self).data.running_count == old(self).data.running_count - 1,
            final(self).data.worker_target == old(self).data.worker_target,
            final(self).data.pending@ == old(self).data.pending@,
            final(self).data.next_job@ == old(self).data.next_job@,
            exists|id: nat|
                #[trigger] old(self).data.in_flight@.contains(id)
                    && final(self).data.in_flight@ == old(self).data.in_flight@.remove(id)
                    && final(self).data.done@ == old(self).data.done@.insert(id),
            final(self).workers@ == old(self).workers@.update(
                i as int,
                Worker { id: old(self).workers@[i as int].id, phase: WorkerPhase::Idle },
            ),
            final(self).next_ordinal == old(self).next_ordinal,
    {
        proof {
            lemma_count_running_pos(self.workers@, i as int);
        }
        self.data.on_finish();
        let w = Worker { id: self.workers[i].id, phase: WorkerPhase::Idle };
        proof {
            lemma_count_running_update(self.workers@, i as int, w);
        }
        self.workers[i] = w;
        proof {
            self.lemma_roster_ids_after_update(*old(self), i as int);
        }
    }

    /// Worker `i` exits its loop and its thread terminates, to be joined by
    /// the embedding program; the pool strikes it from the roster.  Only a
    /// worker at its idle point ever exits — a worker executing a job is
    /// never torn down, however far the target has shrunk.
    pub fn worker_exit(&mut self, i: usize)
        requires
            old(self).wf(),
            i < old(self).workers@.len(),
            old(self).workers@[i as int].phase is Idle,
        ensures
            final(self).wf(),
            final(self).data == old(self).data,
            final(self).workers@ == old(self).workers@.remove(i as int),
            final(self).next_ordinal == old(self).next_ordinal,
    {
        proof {
            lemma_count_running_remove(self.workers@, i as int);
        }
        self.workers.remove(i);
        proof {
            let prev = *old(self);
            assert forall|a: int, b: int| 0 <= a < b < self.workers@.len()
                implies self.workers@[a].id != self.workers@[b].id by {
                let pa: int = if a < i { a } else { a + 1 };
                let pb: int = if b < i { b } else { b + 1 };
                assert(self.workers@[a] == prev.workers@[pa]);
                assert(self.workers@[b] == prev.workers@[pb]);
                assert(prev.workers@[pa].id != prev.workers@[pb].id);
            }
            assert forall|a: int| 0 <= a < self.workers@.len()
                implies (#[trigger] self.workers@[a]).id < self.next_ordinal by {
                let pa: int = if a < i { a } else { a + 1 };
                assert(self.workers@[a] == prev.workers@[pa]);
                assert(prev.workers@[pa].id < prev.next_ordinal);
            }
        }
    }

    /// Change the worker target to `size`.  Growth is immediate: one new
    /// idle worker per ordinal returned, each ordinal fresh and distinct
    /// from every live worker's, appended to the roster; the embedding
    /// program spawns one execution thread per returned ordinal.  A shrink
    /// changes the roster not at all — the reduction takes effect as each
    /// excess worker reaches its idle-point check — and no job and no
    /// counter is touched either way.
    pub fn set_threads_num(&mut self, size: usize) -> (spawned: Vec<usize>)
        requires
            old(self).wf(),
            old(self).data.worker_target < size ==> old(self).next_ordinal + (size - old(
                self,
            ).data.worker_target) <= usize::MAX,
        ensures
            final(self).wf(),
            final(self).data.worker_target == size,
            final(self).data.queued_count == old(self).data.queued_count,
            final(self).data.running_count == old(self).data.running_count,
            final(self).data.pending@ == old(self).data.pending@,
            final(self).data.in_flight@ == old(self).data.in_flight@,
            final(self).data.done@ == old(self).data.done@,
            final(self).data.next_job@ == old(self).data.next_job@,
            old(self).data.worker_target >= size ==> final(self).workers@ == old(self).workers@
                && final(self).next_ordinal == old(self).next_ordinal && spawned@
                == Seq::<usize>::empty(),
            old(self).data.worker_target < size ==> {
                let grown = size - old(self).data.worker_target;
                &&& spawned@.len() == grown
                &&& forall|k: int|
                    0 <= k < grown ==> #[trigger] spawned@[k] == old(self).next_ordinal + k
                &&& final(self).workers@.len() == old(self).workers@.len() + grown
                &&& forall|k: int|
                    0 <= k < old(self).workers@.len() ==> #[trigger] final(self).workers@[k]
                        == old(self).workers@[k]
                &&& forall|k: int|
                    old(self).workers@.len() <= k < final(self).workers@.len()
                        ==> (#[trigger] final(self).workers@[k]).id == old(self).next_ordinal + (
                    k - old(self).workers@.len()) && final(self).workers@[k].phase is Idle
                &&& final(self).next_ordinal == old(self).next_ordinal + grown
            },
    {
        let prev_target: usize = self.data.worker_target;
        self.data.set_target(size);
        let mut spawned: Vec<usize> = Vec::new();
        if prev_target < size {
            let n: usize = size - prev_target;
            let ghost base = *self;
            let mut k: usize = 0;
            while k < n
                invariant
                    k <= n,
                    base.next_ordinal + n <= usize::MAX,
                    base.ordinals_unique(),
                    base.ordinals_fresh(),
                    self.data == base.data,
                    self.next_ordinal == base.next_ordinal + k,
                    spawned@.len() == k,
                    forall|j: int| 0 <= j < k ==> #[trigger] spawned@[j] == base.next_ordinal + j,
                    self.workers@.len() == base.workers@.len() + k,
                    forall|j: int|
                        0 <= j < base.workers@.len() ==> #[trigger] self.workers@[j]
                            == base.workers@[j],
                    forall|j: int|
                        base.workers@.len() <= j < self.workers@.len()
                            ==> (#[trigger] self.workers@[j]).id == base.next_ordinal + (j
                            - base.workers@.len()) && self.workers@[j].phase is Idle,
                    count_running(self.workers@) == count_running(base.workers@),
                decreases n - k,
            {
                let id: usize = self.next_ordinal;
                let w = Worker { id, phase: WorkerPhase::Idle };
                proof {
                    lemma_count_running_push(self.workers@, w);
                }
                self.workers.push(w);
                spawned.push(id);
                self.next_ordinal = self.next_ordinal + 1;
                k = k + 1;
            }
            proof {
                assert forall|a: int, b: int| 0 <= a < b < self.workers@.len()
                    implies self.workers@[a].id != self.workers@[b].id by {
                    if b < base.workers@.len() {
                        assert(base.workers@[a].id != base.workers@[b].id);
                    } else if a < base.workers@.len() {
                        assert(base.workers@[a].id < base.next_ordinal);
                    }
                }
            }
        }
        spawned
    }

    /// Replacing a worker by one with the same ordinal keeps the roster's
    /// ordinals unique and fresh.
    proof fn lemma_roster_ids_after_update(self, prev: threads_pool, i: int)
        requires
            prev.ordinals_unique(),
            prev.ordinals_fresh(),
            0 <= i < prev.workers@.len(),
            self.workers@ == prev.workers@.update(i, self.workers@[i]),
            self.workers@[i].id == prev.workers@[i].id,
            self.next_ordinal == prev.next_ordinal,
        ensures
            self.ordinals_unique(),
            self.ordinals_fresh(),
    {
        assert forall|a: int, b: int| 0 <= a < b < self.workers@.len()
            implies self.workers@[a].id != self.workers@[b].id by {
            assert(prev.workers@[a].id != prev.workers@[b].id);
        }
        assert forall|a: int| 0 <= a < self.workers@.len()
            implies (#[trigger] self.workers@[a]).id < self.next_ordinal by {
            assert(prev.workers@[a].id < prev.next_ordinal);
        }
    }
}

} // verus!
