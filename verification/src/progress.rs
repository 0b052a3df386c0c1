//! A counter of pending and failed sub-jobs shared by one loading attempt.
//!
//! Every load job of an attempt is registered against the same counter, so a
//! single three-valued status aggregates completion and failure over however
//! many nested jobs the attempt turns out to contain.

use vstd::prelude::*;

verus! {

/// The three-valued status of a loading attempt.
#[derive(Clone, Copy, Debug, PartialEq, Eq, Structural)]
pub enum Completion {
    /// At least one job is still in flight.
    Loading,
    /// No job is in flight and none failed.
    Complete,
    /// No job is in flight and at least one failed.
    Failed,
}

/// The status a counter with the given counts reports: `Loading` while jobs
/// are in flight; once none are, `Complete` when no job failed, else `Failed`.
pub open spec fn status_of(in_flight: nat, failed: nat) -> Completion {
    if in_flight > 0 {
        Completion::Loading
    } else if failed == 0 {
        Completion::Complete
    } else {
        Completion::Failed
    }
}

/// The status is `Loading` iff jobs are in flight, and otherwise `Complete`
/// iff no failure was recorded, else `Failed` — whatever interleaving of job
/// registrations, completions and failures produced the counts.
pub proof fn lemma_status_characterization(in_flight: nat, failed: nat)
    ensures
        (status_of(in_flight, failed) is Loading) <==> in_flight > 0,
        in_flight == 0 ==> ((status_of(in_flight, failed) is Complete) <==> failed == 0),
        in_flight == 0 ==> ((status_of(in_flight, failed) is Failed) <==> failed > 0),
{
}

/// The failure reasons of an error list, read as plain character sequences.
pub open spec fn error_views(errs: Seq<String>) -> Seq<Seq<char>> {
    errs.map(|i: int, s: String| s@)
}

/// Counts of one loading attempt: jobs still in flight, jobs that failed, and
/// the reasons collected from the failed ones.
///
/// The counter is created fresh per attempt. Jobs only ever move from in
/// flight to done or failed, so once `in_flight` reaches zero the counter is
/// settled: nothing decrements below zero and the status no longer changes.
///
/// The counter is the one resource shared between the loading activity and
/// the tick loop. The methods here assume one caller at a time; a driver
/// that delivers job completions from another thread must put the counter
/// behind a lock and hold it across each call.
pub struct ProgressCounter {
    in_flight: usize,
    failed: usize,
    errors: Vec<String>,
}

impl ProgressCounter {
    /// How many registered jobs have neither completed nor failed yet.
    pub closed spec fn spec_in_flight(&self) -> nat {
        self.in_flight as nat
    }

    /// How many registered jobs have failed.
    pub closed spec fn spec_failed(&self) -> nat {
        self.failed as nat
    }

    /// The failure reasons collected so far, in the order they arrived.
    pub closed spec fn spec_errors(&self) -> Seq<String> {
        self.errors@
    }

    /// A counter reports consistent counts: one collected reason for each
    /// failure counted.
    pub open spec fn wf(&self) -> bool {
        self.spec_failed() == self.spec_errors().len()
    }

    /// A fresh counter for a new loading attempt: nothing in flight, nothing
    /// failed.
    pub fn new() -> (c: ProgressCounter)
        ensures
            c.spec_in_flight() == 0,
            c.spec_failed() == 0,
            c.spec_errors() == Seq::<String>::empty(),
            c.wf(),
    {
        ProgressCounter { in_flight: 0, failed: 0, errors: Vec::new() }
    }

    /// Registers one more job against this attempt.
    pub fn register_job(&mut self)
        requires
            old(self).spec_in_flight() < usize::MAX,
        ensures
            final(self).spec_in_flight() == old(self).spec_in_flight() + 1,
            final(self).spec_failed() == old(self).spec_failed(),
            final(self).spec_errors() == old(self).spec_errors(),
            old(self).wf() ==> final(self).wf(),
    {
        self.in_flight = self.in_flight + 1;
    }

    /// Records the natural completion of one in-flight job.
    pub fn complete_job(&mut self)
        requires
            old(self).spec_in_flight() > 0,
        ensures
            final(self).spec_in_flight() == old(self).spec_in_flight() - 1,
            final(self).spec_failed() == old(self).spec_failed(),
            final(self).spec_errors() == old(self).spec_errors(),
            old(self).wf() ==> final(self).wf(),
    {
        self.in_flight = self.in_flight - 1;
    }

    /// Records the failure of one in-flight job, collecting its reason.
    pub fn fail_job(&mut self, reason: String)
        requires
            old(self).spec_in_flight() > 0,
            old(self).spec_failed() < usize::MAX,
        ensures
            final(self).spec_in_flight() == old(self).spec_in_flight() - 1,
            final(self).spec_failed() == old(self).spec_failed() + 1,
            final(self).spec_errors() == old(self).spec_errors().push(reason),
            old(self).wf() ==> final(self).wf(),
    {
        self.in_flight = self.in_flight - 1;
        self.failed = self.failed + 1;
        self.errors.push(reason);
    }

    /// The current status, evaluated freshly from the current counts.
    pub fn status(&self) -> (r: Completion)
        ensures
            r == status_of(self.spec_in_flight(), self.spec_failed()),
    {
        if self.in_flight > 0 {
            Completion::Loading
        } else if self.failed == 0 {
            Completion::Complete
        } else {
            Completion::Failed
        }
    }

    /// Whether the attempt has settled: no job remains in flight.
    pub fn is_settled(&self) -> (r: bool)
        ensures
            r == (self.spec_in_flight() == 0),
    {
        self.in_flight == 0
    }

    /// How many jobs are still in flight.
    pub fn num_in_flight(&self) -> (r: usize)
        ensures
            r == self.spec_in_flight(),
    {
        self.in_flight
    }

    /// How many jobs have failed.
    pub fn num_failed(&self) -> (r: usize)
        ensures
            r == self.spec_failed(),
    {
        self.failed
    }

    /// The collected failure reasons.
    pub fn errors(&self) -> (r: &Vec<String>)
        ensures
            r@ == self.spec_errors(),
    {
        &self.errors
    }
}

} // verus!
