//! Load jobs and the loader that owns them for one loading attempt.
//!
//! A job is issued with `load` and settles later through `complete_job` or
//! `fail_job`, driven by whoever performs the actual resource work. While a
//! job is processed it may discover references to further resources; those
//! become child jobs registered against the same counter, and crucially the
//! children are registered before the parent's own in-flight count is
//! released, so the counter never transiently settles while unresolved
//! children remain.

use crate::progress::ProgressCounter;
use vstd::prelude::*;

verus! {

/// Where one load job stands.
#[derive(Debug, PartialEq, Eq)]
pub enum JobStatus {
    /// Issued and not yet settled.
    Pending,
    /// Finished successfully.
    Done,
    /// Failed, with the reason collected.
    Failed(String),
}

/// One unit of asynchronous resource loading.
pub struct LoadJob {
    /// The path-like identity of the resource being loaded.
    pub path: String,
    /// Where the job stands.
    pub status: JobStatus,
    /// Indices, within the owning loader, of the child jobs this one spawned.
    pub children: Vec<usize>,
}

/// A handle to a load job, returned before the job settles.
#[derive(Clone, Copy, Debug, PartialEq, Eq, Structural)]
pub struct Handle {
    /// The index of the job within its loader.
    pub job: usize,
}

/// How many of the jobs are still pending.
pub open spec fn pending_count(jobs: Seq<LoadJob>) -> nat
    decreases jobs.len(),
{
    if jobs.len() == 0 {
        0
    } else {
        pending_count(jobs.drop_last()) + (if jobs.last().status is Pending {
            1nat
        } else {
            0
        })
    }
}

/// How many of the jobs have failed.
pub open spec fn failed_count(jobs: Seq<LoadJob>) -> nat
    decreases jobs.len(),
{
    if jobs.len() == 0 {
        0
    } else {
        failed_count(jobs.drop_last()) + (if jobs.last().status is Failed {
            1nat
        } else {
            0
        })
    }
}

/// The counter tracks the loader: its in-flight count is the number of
/// pending jobs and its failure count the number of failed ones. Every
/// loader operation preserves this, so a settled counter really means that
/// no job of the attempt is outstanding.
pub open spec fn tracks(jobs: Seq<LoadJob>, counter: ProgressCounter) -> bool {
    &&& counter.spec_in_flight() == pending_count(jobs)
    &&& counter.spec_failed() == failed_count(jobs)
}

/// Counts split over `drop_last`, as the definitions state.
proof fn lemma_counts_last(jobs: Seq<LoadJob>)
    requires
        jobs.len() > 0,
    ensures
        pending_count(jobs) == pending_count(jobs.drop_last()) + (if jobs.last().status
            is Pending {
            1nat
        } else {
            0
        }),
        failed_count(jobs) == failed_count(jobs.drop_last()) + (if jobs.last().status is Failed {
            1nat
        } else {
            0
        }),
{
}

/// Replacing one job changes the counts by exactly that job's contribution.
proof fn lemma_counts_update(jobs: Seq<LoadJob>, i: int, job: LoadJob)
    requires
        0 <= i < jobs.len(),
    ensures
        pending_count(jobs.update(i, job)) + (if jobs[i].status is Pending {
            1nat
        } else {
            0
        }) == pending_count(jobs) + (if job.status is Pending {
            1nat
        } else {
            0
        }),
        failed_count(jobs.update(i, job)) + (if jobs[i].status is Failed {
            1nat
        } else {
            0
        }) == failed_count(jobs) + (if job.status is Failed {
            1nat
        } else {
            0
        }),
    decreases jobs.len(),
{
    let updated = jobs.update(i, job);
    if i == jobs.len() - 1 {
        assert(updated.drop_last() =~= jobs.drop_last());
    } else {
        assert(updated.drop_last() =~= jobs.drop_last().update(i, job));
        lemma_counts_update(jobs.drop_last(), i, job);
    }
}

/// A pending job means at least one job is pending.
proof fn lemma_pending_at(jobs: Seq<LoadJob>, i: int)
    requires
        0 <= i < jobs.len(),
        jobs[i].status is Pending,
    ensures
        pending_count(jobs) > 0,
    decreases jobs.len(),
{
    if i == jobs.len() - 1 {
    } else {
        lemma_pending_at(jobs.drop_last(), i);
    }
}

/// An element-for-element copy of a vector of job indices.
fn copy_indices(v: &Vec<usize>) -> (r: Vec<usize>)
    ensures
        r@ == v@,
{
    let mut r: Vec<usize> = Vec::new();
    let mut i: usize = 0;
    while i < v.len()
        invariant
            i <= v@.len(),
            r@ == v@.take(i as int),
        decreases v@.len() - i,
    {
        r.push(v[i]);
        i = i + 1;
        proof {
            assert(v@.take(i as int) =~= v@.take(i as int - 1).push(v@[i as int - 1]));
        }
    }
    proof {
        assert(v@.take(v@.len() as int) =~= v@);
    }
    r
}

/// Issues load jobs for one loading attempt and owns them until the attempt
/// is over.
pub struct AssetLoader {
    jobs: Vec<LoadJob>,
}

impl AssetLoader {
    /// The jobs of the attempt, in the order they were issued.
    pub closed spec fn spec_jobs(&self) -> Seq<LoadJob> {
        self.jobs@
    }

    /// A loader with no jobs, for a fresh attempt.
    pub fn new() -> (l: AssetLoader)
        ensures
            l.spec_jobs() == Seq::<LoadJob>::empty(),
    {
        AssetLoader { jobs: Vec::new() }
    }

    /// How many jobs have been issued.
    pub fn num_jobs(&self) -> (n: usize)
        ensures
            n == self.spec_jobs().len(),
    {
        self.jobs.len()
    }

    /// The job a handle refers to.
    pub fn job(&self, h: Handle) -> (j: &LoadJob)
        requires
            h.job < self.spec_jobs().len(),
        ensures
            *j == self.spec_jobs()[h.job as int],
    {
        &self.jobs[h.job]
    }

    /// Enqueues a load job for `path` and registers it against `counter`,
    /// returning a handle that is usable at once; the call does not wait for
    /// the load to finish.
    pub fn load(&mut self, path: String, counter: &mut ProgressCounter) -> (h: Handle)
        requires
            old(counter).spec_in_flight() < usize::MAX,
            old(self).spec_jobs().len() < usize::MAX,
        ensures
            h.job == old(self).spec_jobs().len(),
            final(self).spec_jobs().len() == old(self).spec_jobs().len() + 1,
            forall|j: int|
                0 <= j < old(self).spec_jobs().len() ==> final(self).spec_jobs()[j] == old(
                    self,
                ).spec_jobs()[j],
            final(self).spec_jobs().last().path == path,
            final(self).spec_jobs().last().status is Pending,
            final(self).spec_jobs().last().children@ == Seq::<usize>::empty(),
            final(counter).spec_in_flight() == old(counter).spec_in_flight() + 1,
            final(counter).spec_failed() == old(counter).spec_failed(),
            final(counter).spec_errors() == old(counter).spec_errors(),
            tracks(old(self).spec_jobs(), *old(counter)) ==> tracks(
                final(self).spec_jobs(),
                *final(counter),
            ),
    {
        let h = Handle { job: self.jobs.len() };
        self.jobs.push(LoadJob { path, status: JobStatus::Pending, children: Vec::new() });
        counter.register_job();
        proof {
            assert(self.jobs@.drop_last() =~= old(self).jobs@);
            lemma_counts_last(self.jobs@);
        }
        h
    }

    /// Settles the job behind `h` as done, first issuing one child job
    /// against the same counter for every resource reference discovered
    /// while processing it. The children are registered before the parent's
    /// in-flight count is released, so the counter cannot transiently settle
    /// while the children are unresolved.
    pub fn complete_job(&mut self, h: Handle, discovered: Vec<String>, counter: &mut ProgressCounter)
        requires
            h.job < old(self).spec_jobs().len(),
            old(self).spec_jobs()[h.job as int].status is Pending,
            tracks(old(self).spec_jobs(), *old(counter)),
            old(counter).spec_in_flight() + discovered@.len() <= usize::MAX,
            old(self).spec_jobs().len() + discovered@.len() <= usize::MAX,
        ensures
            final(self).spec_jobs().len() == old(self).spec_jobs().len() + discovered@.len(),
            final(self).spec_jobs()[h.job as int].path@ == old(self).spec_jobs()[h.job as int].path@,
            final(self).spec_jobs()[h.job as int].status is Done,
            final(self).spec_jobs()[h.job as int].children@ == old(self).spec_jobs()[h.job as int].children@
                + Seq::new(discovered@.len(), |c: int| (old(self).spec_jobs().len() + c) as usize),
            forall|j: int|
                0 <= j < old(self).spec_jobs().len() && j != h.job ==> final(self).spec_jobs()[j]
                    == old(self).spec_jobs()[j],
            forall|c: int|
                0 <= c < discovered@.len() ==> {
                    &&& final(self).spec_jobs()[old(self).spec_jobs().len() + c].path@
                        == discovered@[c]@
                    &&& final(self).spec_jobs()[old(self).spec_jobs().len() + c].status is Pending
                    &&& final(self).spec_jobs()[old(self).spec_jobs().len() + c].children@
                        == Seq::<usize>::empty()
                },
            final(counter).spec_in_flight() + 1 == old(counter).spec_in_flight()
                + discovered@.len(),
            final(counter).spec_failed() == old(counter).spec_failed(),
            final(counter).spec_errors() == old(counter).spec_errors(),
            tracks(final(self).spec_jobs(), *final(counter)),
    {
        proof {
            lemma_pending_at(self.jobs@, h.job as int);
        }
        let ghost jobs0 = self.jobs@;
        let mut kids: Vec<usize> = Vec::new();
        let mut c: usize = 0;
        while c < discovered.len()
            invariant
                h.job < jobs0.len(),
                jobs0[h.job as int].status is Pending,
                c <= discovered@.len(),
                jobs0.len() + discovered@.len() <= usize::MAX,
                self.jobs@.len() == jobs0.len() + c,
                forall|j: int| 0 <= j < jobs0.len() ==> self.jobs@[j] == jobs0[j],
                forall|e: int|
                    0 <= e < c ==> {
                        &&& self.jobs@[jobs0.len() + e].path@ == discovered@[e]@
                        &&& self.jobs@[jobs0.len() + e].status is Pending
                        &&& self.jobs@[jobs0.len() + e].children@ == Seq::<usize>::empty()
                    },
                kids@ =~= Seq::new(c as nat, |e: int| (jobs0.len() + e) as usize),
                counter.spec_in_flight() == old(counter).spec_in_flight() + c,
                counter.spec_failed() == old(counter).spec_failed(),
                counter.spec_errors() == old(counter).spec_errors(),
                old(counter).spec_in_flight() + discovered@.len() <= usize::MAX,
                tracks(self.jobs@, *counter),
            decreases discovered@.len() - c,
        {
            let path = discovered[c].clone();
            kids.push(self.jobs.len());
            let hc = self.load(path, counter);
            c = c + 1;
            proof {
                assert(kids@ =~= Seq::new(c as nat, |e: int| (jobs0.len() + e) as usize));
            }
        }
        let parent = &self.jobs[h.job];
        let mut children = copy_indices(&parent.children);
        let path_kept = parent.path.clone();
        let mut k: usize = 0;
        let ghost children0 = children@;
        while k < kids.len()
            invariant
                k <= kids@.len(),
                children@ == children0 + kids@.take(k as int),
            decreases kids@.len() - k,
        {
            children.push(kids[k]);
            k = k + 1;
            proof {
                assert(children0 + kids@.take(k as int) =~= (children0 + kids@.take(
                    k as int - 1,
                )).push(kids@[k as int - 1]));
            }
        }
        proof {
            assert(children@ =~= children0 + kids@);
        }
        let updated = LoadJob { path: path_kept, status: JobStatus::Done, children };
        let ghost pre = self.jobs@;
        self.jobs.set(h.job, updated);
        proof {
            lemma_pending_at(pre, h.job as int);
            lemma_counts_update(pre, h.job as int, updated);
        }
        counter.complete_job();
    }

    /// Settles the job behind `h` as failed: its in-flight count is
    /// released and the reason is collected by the counter, so the failure
    /// surfaces once the whole attempt has settled rather than at once.
    pub fn fail_job(&mut self, h: Handle, reason: String, counter: &mut ProgressCounter)
        requires
            h.job < old(self).spec_jobs().len(),
            old(self).spec_jobs()[h.job as int].status is Pending,
            tracks(old(self).spec_jobs(), *old(counter)),
            old(counter).spec_failed() < usize::MAX,
        ensures
            final(self).spec_jobs().len() == old(self).spec_jobs().len(),
            final(self).spec_jobs()[h.job as int].path@ == old(self).spec_jobs()[h.job as int].path@,
            final(self).spec_jobs()[h.job as int].status matches JobStatus::Failed(why)
                && why@ == reason@,
            final(self).spec_jobs()[h.job as int].children@ == old(self).spec_jobs()[h.job as int].children@,
            forall|j: int|
                0 <= j < old(self).spec_jobs().len() && j != h.job ==> final(self).spec_jobs()[j]
                    == old(self).spec_jobs()[j],
            final(counter).spec_in_flight() + 1 == old(counter).spec_in_flight(),
            final(counter).spec_failed() == old(counter).spec_failed() + 1,
            final(counter).spec_errors() == old(counter).spec_errors().push(reason),
            tracks(final(self).spec_jobs(), *final(counter)),
    {
        proof {
            lemma_pending_at(self.jobs@, h.job as int);
        }
        let parent = &self.jobs[h.job];
        let children = copy_indices(&parent.children);
        let path_kept = parent.path.clone();
        let why = reason.clone();
        let updated = LoadJob { path: path_kept, status: JobStatus::Failed(why), children };
        let ghost pre = self.jobs@;
        self.jobs.set(h.job, updated);
        proof {
            lemma_counts_update(pre, h.job as int, updated);
        }
        counter.fail_job(reason);
    }
}

} // verus!
