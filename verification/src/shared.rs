//! The shared coordination state of the pool.
//!
//! One `sharedData` value is the joint view that every worker and every
//! caller agree on: how many jobs are queued, how many are running, and how
//! many workers should currently be active.  The embedding program keeps the
//! value behind one short-held exclusive lock and calls the transition
//! methods here; each transition also maintains a ghost ledger of job
//! identifiers — queued in submission order, in flight, and finished — from
//! which the completion guarantees are proved.

use vstd::prelude::*;

verus! {

/// Pool-wide counters, the worker target, and the ghost job ledger.
///
/// Jobs are identified by the order of their submission: the `id`-th job
/// accepted by the pool has identifier `id`.  `pending` lists the queued
/// identifiers in dispatch (submission) order, `in_flight` holds the
/// identifiers currently executing, and `done` the identifiers that have
/// executed to completion.
#[allow(non_camel_case_types)]
pub struct sharedData {
    /// Jobs accepted by the pool but not yet picked up by a worker.
    pub queued_count: usize,
    /// Jobs currently executing.
    pub running_count: usize,
    /// The caller-requested number of concurrently active workers.
    pub worker_target: usize,
    /// Identifiers of the queued jobs, in submission order.
    pub pending: Ghost<Seq<nat>>,
    /// Identifiers of the jobs currently executing.
    pub in_flight: Ghost<Set<nat>>,
    /// Identifiers of the jobs that have executed to completion.
    pub done: Ghost<Set<nat>>,
    /// The identifier the next accepted job will receive.
    pub next_job: Ghost<nat>,
}

impl sharedData {
    /// At least one job is queued or at least one is running.
    pub open spec fn outstanding(self) -> bool {
        self.queued_count > 0 || self.running_count > 0
    }

    /// The ledger has a record of job `id`, in one of its three places.
    pub open spec fn tracks(self, id: nat) -> bool {
        self.pending@.contains(id) || self.in_flight@.contains(id) || self.done@.contains(id)
    }

    /// The ledger and the counters agree: the counters count the ledger's
    /// entries, every accepted job is recorded in exactly one place, and the
    /// recorded identifiers are exactly those handed out so far.
    pub open spec fn wf(self) -> bool {
        &&& self.pending@.len() == self.queued_count
        &&& self.in_flight@.finite()
        &&& self.in_flight@.len() == self.running_count
        &&& self.done@.finite()
        &&& self.pending@.no_duplicates()
        &&& forall|id: nat|
            #[trigger] self.pending@.contains(id)
                ==> !self.in_flight@.contains(id) && !self.done@.contains(id)
        &&& forall|id: nat| #[trigger] self.in_flight@.contains(id) ==> !self.done@.contains(id)
        &&& forall|id: nat| #[trigger] self.tracks(id) <==> id < self.next_job@
    }

    /// A fresh state: nothing queued, nothing running, nothing finished, and
    /// the given worker target.
    pub fn new(worker_target: usize) -> (s: sharedData)
        ensures
            s.wf(),
            s.queued_count == 0,
            s.running_count == 0,
            s.worker_target == worker_target,
            s.pending@ == Seq::<nat>::empty(),
            s.in_flight@ == Set::<nat>::empty(),
            s.done@ == Set::<nat>::empty(),
            s.next_job@ == 0,
    {
        let s = sharedData {
            queued_count: 0,
            running_count: 0,
            worker_target,
            pending: Ghost(Seq::empty()),
            in_flight: Ghost(Set::empty()),
            done: Ghost(Set::empty()),
            next_job: Ghost(0),
        };
        proof {
            assert forall|id: nat| #[trigger] s.tracks(id) <==> id < s.next_job@ by {
                assert(!s.pending@.contains(id));
            }
        }
        s
    }

    /// Whether work is outstanding.  The wait operation loops on this
    /// predicate: it may return exactly when the answer is `false`.
    pub fn has_tasks(&self) -> (r: bool)
        ensures
            r == self.outstanding(),
    {
        self.queued_count > 0 || self.running_count > 0
    }

    /// Whether the completion signal must be broadcast now: `true` exactly
    /// when no job is queued and none is running, the moment every waiter
    /// may be woken.  The embedding program broadcasts its condition
    /// variable whenever this returns `true`.
    pub fn notifiy_if_no_tasks(&self) -> (signal: bool)
        ensures
            signal == !self.outstanding(),
    {
        !self.has_tasks()
    }

    /// The pool accepted one job: it is counted as queued, and the ledger
    /// records its fresh identifier at the back of the dispatch queue.  The
    /// embedding program then hands the job itself to the dispatch channel.
    pub fn on_submit(&mut self)
        requires
            old(self).wf(),
            old(self).queued_count < usize::MAX,
        ensures
            final(self).wf(),
            final(self).queued_count == old(self).queued_count + 1,
            final(self).running_count == old(self).running_count,
            final(self).worker_target == old(self).worker_target,
            final(self).pending@ == old(self).pending@.push(old(self).next_job@),
            final(self).in_flight@ == old(self).in_flight@,
            final(self).done@ == old(self).done@,
            final(self).next_job@ == old(self).next_job@ + 1,
    {
        self.queued_count = self.queued_count + 1;
        self.pending = Ghost(self.pending@.push(self.next_job@));
        self.next_job = Ghost(self.next_job@ + 1);
        proof {
            let prev = *old(self);
            let fresh = prev.next_job@;
            assert forall|i: int, j: int|
                0 <= i < self.pending@.len() && 0 <= j < self.pending@.len() && i != j
                implies self.pending@[i] != self.pending@[j] by {
                if i < prev.pending@.len() && j < prev.pending@.len() {
                    assert(prev.pending@.no_duplicates());
                } else if i < prev.pending@.len() {
                    assert(prev.pending@.contains(prev.pending@[i]));
                    assert(prev.tracks(prev.pending@[i]));
                } else {
                    assert(prev.pending@.contains(prev.pending@[j]));
                    assert(prev.tracks(prev.pending@[j]));
                }
            }
            assert forall|id: nat| #[trigger] self.pending@.contains(id)
                implies !self.in_flight@.contains(id) && !self.done@.contains(id) by {
                let i = choose|i: int| 0 <= i < self.pending@.len() && self.pending@[i] == id;
                if i < prev.pending@.len() {
                    assert(prev.pending@.contains(id));
                } else {
                    assert(id == fresh);
                    if self.in_flight@.contains(id) || self.done@.contains(id) {
                        assert(prev.tracks(id));
                    }
                }
            }
            assert forall|id: nat| #[trigger] self.tracks(id) <==> id < self.next_job@ by {
                if self.tracks(id) {
                    if self.pending@.contains(id) {
                        let i = choose|i: int|
                            0 <= i < self.pending@.len() && self.pending@[i] == id;
                        if i < prev.pending@.len() {
                            assert(prev.pending@.contains(id));
                            assert(prev.tracks(id));
                        }
                    } else {
                        assert(prev.tracks(id));
                    }
                }
                if id < self.next_job@ {
                    if id < prev.next_job@ {
                        assert(prev.tracks(id));
                        if prev.pending@.contains(id) {
                            let i = choose|i: int|
                                0 <= i < prev.pending@.len() && prev.pending@[i] == id;
                            assert(self.pending@[i] == id);
                            assert(self.pending@.contains(id));
                        }
                    } else {
                        assert(self.pending@[prev.pending@.len() as int] == id);
                        assert(self.pending@.contains(id));
                    }
                }
            }
        }
    }

    /// A worker picked up the next job from the dispatch channel: the job at
    /// the front of the queue — dequeue order is submission order — moves to
    /// the in-flight set, and the counters follow.  A worker never begins a
    /// job while the running count would reach the worker target.
    pub fn on_dequeue(&mut self)
        requires
            old(self).wf(),
            old(self).queued_count > 0,
            old(self).running_count < old(self).worker_target,
        ensures
            final(self).wf(),
            final(self).queued_count == old(self).queued_count - 1,
            final(self).running_count == old(self).running_count + 1,
            final(self).worker_target == old(self).worker_target,
            final(self).pending@ == old(self).pending@.drop_first(),
            final(self).in_flight@ == old(self).in_flight@.insert(old(self).pending@[0]),
            final(self).done@ == old(self).done@,
            final(self).next_job@ == old(self).next_job@,
    {
        self.queued_count = self.queued_count - 1;
        self.running_count = self.running_count + 1;
        self.pending = Ghost(self.pending@.drop_first());
        self.in_flight = Ghost(self.in_flight@.insert(old(self).pending@[0]));
        proof {
            let prev = *old(self);
            let head = prev.pending@[0];
            assert(prev.pending@.contains(head));
            assert forall|id: nat| #[trigger] self.pending@.contains(id)
                implies !self.in_flight@.contains(id) && !self.done@.contains(id) by {
                let i = choose|i: int| 0 <= i < self.pending@.len() && self.pending@[i] == id;
                assert(prev.pending@[i + 1] == id);
                assert(prev.pending@.contains(id));
                assert(id != head) by {
                    assert(prev.pending@.no_duplicates());
                }
            }
            assert forall|id: nat| #[trigger] self.in_flight@.contains(id)
                implies !self.done@.contains(id) by {
                if id == head {
                    assert(prev.pending@.contains(head));
                } else {
                    assert(prev.in_flight@.contains(id));
                }
            }
            assert forall|id: nat| #[trigger] self.tracks(id) <==> id < self.next_job@ by {
                if self.tracks(id) {
                    if self.pending@.contains(id) {
                        let i = choose|i: int|
                            0 <= i < self.pending@.len() && self.pending@[i] == id;
                        assert(prev.pending@[i + 1] == id);
                        assert(prev.pending@.contains(id));
                        assert(prev.tracks(id));
                    } else if self.in_flight@.contains(id) && id == head {
                        assert(prev.tracks(head));
                    } else {
                        assert(prev.tracks(id));
                    }
                }
                if id < self.next_job@ {
                    assert(prev.tracks(id));
                    if prev.pending@.contains(id) {
                        let i = choose|i: int|
                            0 <= i < prev.pending@.len() && prev.pending@[i] == id;
                        if i == 0 {
                            assert(self.in_flight@.contains(id));
                        } else {
                            assert(self.pending@[i - 1] == id);
                            assert(self.pending@.contains(id));
                        }
                    }
                }
            }
        }
    }

    /// A worker finished executing a job: some in-flight job — completion
    /// order across jobs is not fixed — moves to the finished set, and the
    /// running count follows.  The embedding program follows this with
    /// `notifiy_if_no_tasks`, on every completion.
    pub fn on_finish(&mut self)
        requires
            old(self).wf(),
            old(self).running_count > 0,
        ensures
            final(self).wf(),
            final(self).queued_count == old(self).queued_count,
            final(self).running_count == old(self).running_count - 1,
            final(self).worker_target == old(self).worker_target,
            final(self).pending@ == old(self).pending@,
            final(self).next_job@ == old(self).next_job@,
            exists|id: nat|
                #[trigger] old(self).in_flight@.contains(id)
                    && final(self).in_flight@ == old(self).in_flight@.remove(id)
                    && final(self).done@ == old(self).done@.insert(id),
    {
        self.running_count = self.running_count - 1;
        proof {
            vstd::set::axiom_set_choose_len(self.in_flight@);
        }
        let ghost finished = self.in_flight@.choose();
        self.in_flight = Ghost(self.in_flight@.remove(finished));
        self.done = Ghost(self.done@.insert(finished));
        proof {
            let prev = *old(self);
            assert(prev.in_flight@.contains(finished));
            assert forall|id: nat| #[trigger] self.pending@.contains(id)
                implies !self.in_flight@.contains(id) && !self.done@.contains(id) by {
                assert(prev.tracks(id));
                assert(id != finished);
            }
            assert forall|id: nat| #[trigger] self.tracks(id) <==> id < self.next_job@ by {
                if self.tracks(id) {
                    if self.done@.contains(id) && id == finished {
                        assert(prev.tracks(finished));
                    } else {
                        assert(prev.tracks(id));
                    }
                }
                if id < self.next_job@ {
                    assert(prev.tracks(id));
                    if prev.in_flight@.contains(id) {
                        if id == finished {
                            assert(self.done@.contains(id));
                        } else {
                            assert(self.in_flight@.contains(id));
                        }
                    }
                }
            }
        }
    }

    /// The caller changed the worker target.  The counters and the ledger
    /// are untouched: a smaller target takes effect only as each excess
    /// worker reaches its idle-point check.
    pub fn set_target(&mut self, worker_target: usize)
        requires
            old(self).wf(),
        ensures
            final(self).wf(),
            final(self).worker_target == worker_target,
            final(self).queued_count == old(self).queued_count,
            final(self).running_count == old(self).running_count,
            final(self).pending@ == old(self).pending@,
            final(self).in_flight@ == old(self).in_flight@,
            final(self).done@ == old(self).done@,
            final(self).next_job@ == old(self).next_job@,
    {
        self.worker_target = worker_target;
        proof {
            assert forall|id: nat| #[trigger] self.tracks(id) <==> id < self.next_job@ by {
                assert(self.tracks(id) <==> old(self).tracks(id));
            }
        }
    }

    /// The check a worker makes at its idle point, immediately before
    /// attempting to dequeue: `true` tells the worker to exit its loop, so
    /// that a shrink of the target takes effect without ever interrupting a
    /// job already executing.
    pub fn worker_should_exit(&self) -> (exit: bool)
        ensures
            exit == (self.running_count >= self.worker_target),
    {
        self.running_count >= self.worker_target
    }
}

/// The wait operation can return exactly when both counters are zero: no
/// job queued and no job running.
pub proof fn lemma_wait_returns_iff_idle(s: sharedData)
    ensures
        !s.outstanding() <==> (s.queued_count == 0 && s.running_count == 0),
{
}

/// Once the wait operation can return — no job queued, none running — every
/// job the pool ever accepted has executed, and exactly once: the finished
/// identifiers are precisely the identifiers handed out at submission, and
/// `done` is a set, so no identifier is recorded as finished twice.
pub proof fn lemma_wait_implies_all_executed(s: sharedData)
    requires
        s.wf(),
        !s.outstanding(),
    ensures
        forall|id: nat| #[trigger] s.done@.contains(id) <==> id < s.next_job@,
        s.pending@ == Seq::<nat>::empty(),
        s.in_flight@ == Set::<nat>::empty(),
{
    assert(s.pending@ =~= Seq::<nat>::empty());
    s.in_flight@.lemma_len0_is_empty();
    assert forall|id: nat| #[trigger] s.done@.contains(id) <==> id < s.next_job@ by {
        if s.done@.contains(id) {
            assert(s.tracks(id));
        }
        if id < s.next_job@ {
            assert(s.tracks(id));
        }
    }
}

} // verus!
