//! The worker-pool dispatch model: a FIFO queue of pending jobs, the jobs
//! workers are running, and the jobs already completed.
//!
//! The surrounding program owns the real threads; each accepted connection
//! becomes one job, named by a number. This model makes every dispatch
//! decision and carries the proof that a job is taken in queue order by one
//! worker at a time, and that a drained pool has completed exactly the jobs
//! submitted to it: none lost, none run twice.

use vstd::prelude::*;
use vstd::seq_lib::lemma_multiset_commutative;

verus! {

broadcast use vstd::seq_lib::group_seq_properties, vstd::seq_lib::group_to_multiset_ensures;

/// No job name stands in both sequences.
pub open spec fn disjoint_jobs(a: Seq<u64>, b: Seq<u64>) -> bool {
    forall|x: u64| #[trigger] a.contains(x) ==> !b.contains(x)
}

/// The dispatch state of a fixed-size worker pool.
pub struct PoolModel {
    /// How many workers the pool was built with; fixed for its lifetime.
    pub size: usize,
    /// Submitted jobs no worker has taken yet, oldest first.
    pub pending: Vec<u64>,
    /// Jobs taken by a worker and not yet finished; never more than `size`.
    pub running: Vec<u64>,
    /// Jobs whose handling is over.
    pub completed: Vec<u64>,
    /// Every job ever submitted, in submission order.
    pub submitted: Ghost<Seq<u64>>,
}

impl PoolModel {
    /// Every job the pool has accepted and not dropped, in any stage.
    pub open spec fn all_jobs(self) -> Seq<u64> {
        self.pending@ + self.running@ + self.completed@
    }

    /// The pool's invariant: at most `size` jobs run at once, no job stands
    /// in two stages or twice in one, and the stages together hold exactly
    /// what was submitted.
    pub open spec fn wf(self) -> bool {
        &&& self.size >= 1
        &&& self.running@.len() <= self.size
        &&& self.pending@.no_duplicates()
        &&& self.running@.no_duplicates()
        &&& self.completed@.no_duplicates()
        &&& disjoint_jobs(self.pending@, self.running@)
        &&& disjoint_jobs(self.pending@, self.completed@)
        &&& disjoint_jobs(self.running@, self.completed@)
        &&& self.submitted@.to_multiset() == self.all_jobs().to_multiset()
    }

    /// A job is somewhere in the pool exactly when one of the stages holds it.
    pub proof fn lemma_all_jobs_contains(self, x: u64)
        ensures
            self.all_jobs().contains(x) <==> self.pending@.contains(x) || self.running@.contains(
                x,
            ) || self.completed@.contains(x),
    {
    }

    /// A pool of `size` workers with nothing to do yet.
    pub fn new(size: usize) -> (r: PoolModel)
        requires
            size >= 1,
        ensures
            r.size == size,
            r.pending@.len() == 0,
            r.running@.len() == 0,
            r.completed@.len() == 0,
            r.submitted@.len() == 0,
            r.wf(),
    {
        let r = PoolModel {
            size,
            pending: Vec::new(),
            running: Vec::new(),
            completed: Vec::new(),
            submitted: Ghost(Seq::empty()),
        };
        proof {
            assert(r.all_jobs() =~= Seq::<u64>::empty());
            assert(r.submitted@.to_multiset() =~= r.all_jobs().to_multiset());
        }
        r
    }

    /// Accepts a fresh job at the back of the queue. Nothing else moves.
    pub fn submit(&mut self, job: u64)
        requires
            old(self).wf(),
            !old(self).all_jobs().contains(job),
        ensures
            final(self).size == old(self).size,
            final(self).pending@ == old(self).pending@.push(job),
            final(self).running@ == old(self).running@,
            final(self).completed@ == old(self).completed@,
            final(self).submitted@ == old(self).submitted@.push(job),
            final(self).wf(),
    {
        proof {
            old(self).lemma_all_jobs_contains(job);
        }
        self.pending.push(job);
        proof {
            self.submitted@ = self.submitted@.push(job);
            let p = old(self).pending@;
            assert(p.push(job).no_duplicates()) by {
                assert forall|i: int, j: int|
                    0 <= i < p.push(job).len() && 0 <= j < p.push(job).len() && i != j implies p.push(
                    job,
                )[i] != p.push(job)[j] by {
                    if i < p.len() && j < p.len() {
                        assert(p[i] != p[j]);
                    } else if j == p.len() && i < p.len() {
                        assert(p.contains(p[i]));
                    } else if i == p.len() && j < p.len() {
                        assert(p.contains(p[j]));
                    }
                }
            }
            assert(self.all_jobs().to_multiset() == old(self).all_jobs().to_multiset().insert(
                job,
            )) by {
                lemma_multiset_commutative(p, old(self).running@ + old(self).completed@);
                lemma_multiset_commutative(p.push(job), old(self).running@ + old(self).completed@);
                assert(p + (old(self).running@ + old(self).completed@) =~= old(self).all_jobs());
                assert(p.push(job) + (old(self).running@ + old(self).completed@) =~= self.all_jobs());
                assert(p.push(job).to_multiset().add(
                    (old(self).running@ + old(self).completed@).to_multiset(),
                ) =~= p.to_multiset().add(
                    (old(self).running@ + old(self).completed@).to_multiset(),
                ).insert(job));
            }
        }
    }

    /// Hands the oldest pending job, if any, to a worker with a free hand.
    pub fn take(&mut self) -> (r: Option<u64>)
        requires
            old(self).wf(),
            old(self).running@.len() < old(self).size,
        ensures
            final(self).size == old(self).size,
            final(self).completed@ == old(self).completed@,
            final(self).submitted@ == old(self).submitted@,
            match r {
                Some(job) => {
                    &&& old(self).pending@.len() > 0
                    &&& job == old(self).pending@[0]
                    &&& final(self).pending@ == old(self).pending@.drop_first()
                    &&& final(self).running@ == old(self).running@.push(job)
                },
                None => {
                    &&& old(self).pending@.len() == 0
                    &&& final(self).pending@ == old(self).pending@
                    &&& final(self).running@ == old(self).running@
                },
            },
            final(self).wf(),
    {
        if self.pending.len() == 0 {
            return None;
        }
        let ghost pre = *self;
        let job = self.pending.remove(0);
        self.running.push(job);
        proof {
            let p = pre.pending@;
            let q = self.pending@;
            let r0 = pre.running@;
            assert(q =~= p.drop_first());
            assert(p =~= seq![job] + q);
            assert(p.contains(job));
            // The dequeued job is nowhere else, and the rest of the queue
            // does not repeat it.
            assert(forall|k: int| 0 <= k < q.len() ==> q[k] == p[k + 1]);
            assert(q.no_duplicates());
            assert(!q.contains(job)) by {
                if q.contains(job) {
                    let k = choose|k: int| 0 <= k < q.len() && q[k] == job;
                    assert(p[k + 1] == job && p[0] == job);
                }
            }
            assert(r0.push(job).no_duplicates()) by {
                assert forall|i: int, j: int|
                    0 <= i < r0.push(job).len() && 0 <= j < r0.push(job).len() && i
                    != j implies r0.push(job)[i] != r0.push(job)[j] by {
                    if i < r0.len() && j < r0.len() {
                        assert(r0[i] != r0[j]);
                    } else if j == r0.len() && i < r0.len() {
                        assert(r0.contains(r0[i]));
                    } else if i == r0.len() && j < r0.len() {
                        assert(r0.contains(r0[j]));
                    }
                }
            }
            assert forall|x: u64| #[trigger] q.contains(x) implies p.contains(x) by {
                let k = choose|k: int| 0 <= k < q.len() && q[k] == x;
                assert(p[k + 1] == x);
            }
            assert(self.all_jobs().to_multiset() == pre.all_jobs().to_multiset()) by {
                lemma_multiset_commutative(p, r0 + pre.completed@);
                lemma_multiset_commutative(q, r0.push(job) + pre.completed@);
                lemma_multiset_commutative(r0, pre.completed@);
                lemma_multiset_commutative(r0.push(job), pre.completed@);
                assert(p + (r0 + pre.completed@) =~= pre.all_jobs());
                assert(q + (r0.push(job) + pre.completed@) =~= self.all_jobs());
                assert(p.to_multiset() =~= q.to_multiset().insert(job)) by {
                    assert(q.push(job).to_multiset() =~= q.to_multiset().insert(job));
                    vstd::seq_lib::lemma_multiset_commutative(seq![job], q);
                    assert(q.push(job) =~= seq![job].add(q).drop_first().push(job));
                    assert(p.to_multiset() =~= (seq![job] + q).to_multiset());
                    assert((seq![job] + q).to_multiset() =~= seq![job].to_multiset().add(
                        q.to_multiset(),
                    ));
                    assert(seq![job].to_multiset() =~= Seq::<u64>::empty().to_multiset().insert(
                        job,
                    )) by {
                        assert(seq![job] =~= Seq::<u64>::empty().push(job));
                    }
                    assert(Seq::<u64>::empty().to_multiset() =~= vstd::multiset::Multiset::empty());
                    assert(p.to_multiset() =~= q.to_multiset().insert(job));
                }
                assert(self.all_jobs().to_multiset() =~= pre.all_jobs().to_multiset());
            }
        }
        Some(job)
    }

    /// Records a running job as done.
    pub fn finish(&mut self, job: u64)
        requires
            old(self).wf(),
            old(self).running@.contains(job),
        ensures
            final(self).size == old(self).size,
            final(self).pending@ == old(self).pending@,
            final(self).submitted@ == old(self).submitted@,
            final(self).completed@ == old(self).completed@.push(job),
            final(self).running@.len() == old(self).running@.len() - 1,
            !final(self).running@.contains(job),
            forall|x: u64| x != job ==> (final(self).running@.contains(x) == old(
                self,
            ).running@.contains(x)),
            final(self).wf(),
    {
        let ghost pre = *self;
        let mut i: usize = 0;
        while i < self.running.len() && self.running[i] != job
            invariant
                *self == pre,
                0 <= i <= self.running@.len(),
                pre.running@.contains(job),
                forall|k: int| 0 <= k < i ==> pre.running@[k] != job,
            decreases self.running@.len() - i,
        {
            i = i + 1;
        }
        proof {
            if i == self.running@.len() {
                let k = choose|k: int| 0 <= k < pre.running@.len() && pre.running@[k] == job;
                assert(false);
            }
        }
        self.running.remove(i);
        self.completed.push(job);
        proof {
            let r0 = pre.running@;
            let r1 = self.running@;
            let c0 = pre.completed@;
            assert(r0[i as int] == job);
            assert(r1 =~= r0.subrange(0, i as int) + r0.subrange(i + 1, r0.len() as int));
            // Each survivor keeps its identity, shifted at most by one.
            assert(forall|k: int| 0 <= k < i ==> r1[k] == r0[k]);
            assert(forall|k: int| i <= k < r1.len() ==> r1[k] == r0[k + 1]);
            assert(r1.no_duplicates()) by {
                assert forall|a: int, b: int|
                    0 <= a < r1.len() && 0 <= b < r1.len() && a != b implies r1[a] != r1[b] by {
                    let a0: int = if a < i { a } else { a + 1 };
                    let b0: int = if b < i { b } else { b + 1 };
                    assert(r0[a0] != r0[b0]);
                }
            }
            assert(!r1.contains(job)) by {
                if r1.contains(job) {
                    let k = choose|k: int| 0 <= k < r1.len() && r1[k] == job;
                    let k0: int = if k < i { k } else { k + 1 };
                    assert(r0[k0] == job && r0[i as int] == job && k0 != i);
                }
            }
            assert forall|x: u64| x != job implies (r1.contains(x) == r0.contains(x)) by {
                if r1.contains(x) {
                    let k = choose|k: int| 0 <= k < r1.len() && r1[k] == x;
                    let k0: int = if k < i { k } else { k + 1 };
                    assert(r0[k0] == x);
                }
                if r0.contains(x) {
                    let k0 = choose|k0: int| 0 <= k0 < r0.len() && r0[k0] == x;
                    if k0 < i {
                        assert(r1[k0] == x);
                    } else {
                        assert(k0 != i);
                        assert(r1[k0 - 1] == x);
                    }
                }
            }
            assert(c0.push(job).no_duplicates()) by {
                assert forall|a: int, b: int|
                    0 <= a < c0.push(job).len() && 0 <= b < c0.push(job).len() && a
                    != b implies c0.push(job)[a] != c0.push(job)[b] by {
                    if a < c0.len() && b < c0.len() {
                        assert(c0[a] != c0[b]);
                    } else if b == c0.len() && a < c0.len() {
                        assert(c0.contains(c0[a]));
                        assert(r0.contains(job));
                    } else if a == c0.len() && b < c0.len() {
                        assert(c0.contains(c0[b]));
                        assert(r0.contains(job));
                    }
                }
            }
            assert(self.all_jobs().to_multiset() == pre.all_jobs().to_multiset()) by {
                lemma_multiset_commutative(pre.pending@, r0 + c0);
                lemma_multiset_commutative(pre.pending@, r1 + c0.push(job));
                lemma_multiset_commutative(r0, c0);
                lemma_multiset_commutative(r1, c0.push(job));
                assert(pre.pending@ + (r0 + c0) =~= pre.all_jobs());
                assert(pre.pending@ + (r1 + c0.push(job)) =~= self.all_jobs());
                assert(r0.to_multiset() =~= r1.to_multiset().insert(job)) by {
                    assert(r0.remove(i as int) =~= r1);
                    assert(r0.remove(i as int).to_multiset() =~= r0.to_multiset().remove(job));
                    assert(r0.contains(job));
                    assert(r0.to_multiset().count(job) > 0);
                    assert(r1.to_multiset().insert(job) =~= r0.to_multiset().remove(job).insert(
                        job,
                    ));
                    assert(r0.to_multiset().remove(job).insert(job) =~= r0.to_multiset());
                }
                assert(self.all_jobs().to_multiset() =~= pre.all_jobs().to_multiset());
            }
        }
    }
}

/// A pool that has drained (no job pending, none running) has completed
/// exactly the jobs submitted to it: as many as were submitted, each exactly
/// once, none lost, none run twice.
pub proof fn lemma_pool_completes_all(p: PoolModel)
    requires
        p.wf(),
        p.pending@.len() == 0,
        p.running@.len() == 0,
    ensures
        p.completed@.to_multiset() == p.submitted@.to_multiset(),
        p.completed@.len() == p.submitted@.len(),
        p.completed@.no_duplicates(),
{
    assert(p.all_jobs() =~= p.completed@);
    assert(p.completed@.to_multiset().len() == p.completed@.len());
    assert(p.submitted@.to_multiset().len() == p.submitted@.len());
}

} // verus!
