//! The loading state machine: polls one attempt's counter once per tick and
//! drives the one-shot transition out of `Loading` on settlement.
//!
//! Materializing exactly once is enforced by the state tag itself: the
//! materializing poll is the one that leaves `Loading`, and every poll in a
//! terminal state is a no-op.

use crate::loader::{tracks, AssetLoader, Handle};
use crate::progress::{error_views, status_of, Completion, ProgressCounter};
use crate::world::{MaterializedObject, ObjectAttributes, World};
use vstd::prelude::*;

verus! {

/// The states of one loading attempt. `Complete` and `Failed` are terminal.
#[derive(Clone, Copy, Debug, PartialEq, Eq, Structural)]
pub enum LoadState {
    /// No load has been requested yet.
    Idle,
    /// A load is under way and the counter is polled each tick.
    Loading,
    /// The attempt settled with no failures and the object was materialized.
    Complete,
    /// The attempt settled with failures; the application should terminate.
    Failed,
}

/// What one poll did.
#[derive(Clone, Copy, Debug, PartialEq, Eq, Structural)]
pub enum PollOutcome {
    /// Nothing changed: not currently loading, or still loading.
    NoChange,
    /// The attempt completed; the object was materialized under the identity
    /// given.
    Materialized(u64),
    /// The attempt failed; the reasons are recorded on the machine.
    Aborted,
}

/// An element-for-element copy of a list of failure reasons.
fn clone_strings(v: &Vec<String>) -> (r: Vec<String>)
    ensures
        r@.len() == v@.len(),
        forall|i: int| 0 <= i < v@.len() ==> r@[i]@ == v@[i]@,
{
    let mut r: Vec<String> = Vec::new();
    let mut i: usize = 0;
    while i < v.len()
        invariant
            i <= v@.len(),
            r@.len() == i,
            forall|j: int| 0 <= j < i ==> r@[j]@ == v@[j]@,
        decreases v@.len() - i,
    {
        r.push(v[i].clone());
        i = i + 1;
    }
    r
}

/// Drives one loading attempt from `Idle` through `Loading` into a terminal
/// state, observing the attempt's counter once per tick.
pub struct LoadingStateMachine {
    state: LoadState,
    failures: Vec<String>,
}

/// How one poll relates the machine, the world and its outcome to the state
/// before the call, given the counter it observed and the attribute set it
/// would materialize.
///
/// In any state but `Loading` — and in `Loading` while the counter still
/// reports `Loading` — nothing changes; the terminal-state case is what
/// makes repeated polls after settlement no-ops, so materialization happens
/// exactly once per attempt. When the counter has settled `Complete`, the
/// object is materialized under the world's next identity and the machine
/// moves to `Complete`; when it has settled `Failed`, the collected reasons
/// are recorded and the machine moves to `Failed`, leaving the world alone.
pub open spec fn poll_rel(
    m0: LoadingStateMachine,
    m1: LoadingStateMachine,
    counter: ProgressCounter,
    attrs: ObjectAttributes,
    w0: World,
    w1: World,
    r: PollOutcome,
) -> bool {
    let st = status_of(counter.spec_in_flight(), counter.spec_failed());
    if !(m0.spec_state() is Loading) || st is Loading {
        &&& m1 == m0
        &&& w1 == w0
        &&& r is NoChange
    } else if st is Complete {
        &&& m1.spec_state() is Complete
        &&& m1.spec_failures() == m0.spec_failures()
        &&& w1.spec_objects() == w0.spec_objects().push(
            MaterializedObject { id: w0.spec_next_id(), attrs },
        )
        &&& w1.spec_next_id() == w0.spec_next_id() + 1
        &&& r == PollOutcome::Materialized(w0.spec_next_id())
    } else {
        &&& m1.spec_state() is Failed
        &&& error_views(m1.spec_failures()) == error_views(counter.spec_errors())
        &&& w1 == w0
        &&& r is Aborted
    }
}

/// Materialization happens exactly once per attempt: a poll that
/// materialized left the machine in `Complete`, and whatever a later poll
/// observes, it changes neither the machine nor the world again.
pub proof fn lemma_materialize_once(
    m0: LoadingStateMachine,
    m1: LoadingStateMachine,
    c1: ProgressCounter,
    a1: ObjectAttributes,
    w0: World,
    w1: World,
    r1: PollOutcome,
    m2: LoadingStateMachine,
    c2: ProgressCounter,
    a2: ObjectAttributes,
    w2: World,
    r2: PollOutcome,
)
    requires
        poll_rel(m0, m1, c1, a1, w0, w1, r1),
        r1 is Materialized,
        poll_rel(m1, m2, c2, a2, w1, w2, r2),
    ensures
        m1.spec_state() is Complete,
        w1.spec_objects().len() == w0.spec_objects().len() + 1,
        m2 == m1,
        w2 == w1,
        r2 is NoChange,
{
}

/// A poll in any state but `Loading` — in particular any poll after the
/// attempt settled — changes nothing at all.
pub proof fn lemma_poll_settled_noop(
    m0: LoadingStateMachine,
    m1: LoadingStateMachine,
    counter: ProgressCounter,
    attrs: ObjectAttributes,
    w0: World,
    w1: World,
    r: PollOutcome,
)
    requires
        poll_rel(m0, m1, counter, attrs, w0, w1, r),
        !(m0.spec_state() is Loading),
    ensures
        m1 == m0,
        w1 == w0,
        r is NoChange,
{
}

impl LoadingStateMachine {
    /// Where the attempt stands.
    pub closed spec fn spec_state(&self) -> LoadState {
        self.state
    }

    /// The failure reasons recorded when the attempt failed.
    pub closed spec fn spec_failures(&self) -> Seq<String> {
        self.failures@
    }

    /// A machine with no load requested yet.
    pub fn new() -> (m: LoadingStateMachine)
        ensures
            m.spec_state() is Idle,
            m.spec_failures() == Seq::<String>::empty(),
    {
        LoadingStateMachine { state: LoadState::Idle, failures: Vec::new() }
    }

    /// Where the attempt stands.
    pub fn state(&self) -> (s: LoadState)
        ensures
            s == self.spec_state(),
    {
        self.state
    }

    /// The failure reasons recorded when the attempt failed.
    pub fn failures(&self) -> (r: &Vec<String>)
        ensures
            r@ == self.spec_failures(),
    {
        &self.failures
    }

    /// Begins the attempt: gives it a fresh loader and a fresh counter,
    /// issues the top-level load for `path` against that counter, and moves
    /// to `Loading`. Does not wait for anything: completion is observed by
    /// `poll` on later ticks.
    pub fn start(&mut self, loader: &mut AssetLoader, counter: &mut ProgressCounter, path: String) -> (h:
        Handle)
        requires
            old(self).spec_state() is Idle,
        ensures
            final(self).spec_state() is Loading,
            final(self).spec_failures() == Seq::<String>::empty(),
            h.job == 0,
            final(loader).spec_jobs().len() == 1,
            final(loader).spec_jobs()[0].path == path,
            final(loader).spec_jobs()[0].status is Pending,
            final(loader).spec_jobs()[0].children@ == Seq::<usize>::empty(),
            final(counter).spec_in_flight() == 1,
            final(counter).spec_failed() == 0,
            final(counter).spec_errors() == Seq::<String>::empty(),
            tracks(final(loader).spec_jobs(), *final(counter)),
    {
        *loader = AssetLoader::new();
        *counter = ProgressCounter::new();
        proof {
            assert(tracks(loader.spec_jobs(), *counter));
        }
        let h = loader.load(path, counter);
        self.failures = Vec::new();
        self.state = LoadState::Loading;
        h
    }

    /// One per-tick observation of the attempt: reads the counter's current
    /// status and resolves it as `poll_rel` states, materializing into
    /// `world` exactly when the counter has settled `Complete` while the
    /// machine is still `Loading`.
    pub fn poll(
        &mut self,
        counter: &ProgressCounter,
        attrs: &ObjectAttributes,
        world: &mut World,
    ) -> (r: PollOutcome)
        requires
            old(world).spec_next_id() < u64::MAX,
            old(world).spec_objects().len() < usize::MAX,
        ensures
            poll_rel(*old(self), *final(self), *counter, *attrs, *old(world), *final(world), r),
    {
        match self.state {
            LoadState::Loading => {
                match counter.status() {
                    Completion::Loading => PollOutcome::NoChange,
                    Completion::Complete => {
                        let id = world.materialize(*attrs);
                        self.state = LoadState::Complete;
                        PollOutcome::Materialized(id)
                    },
                    Completion::Failed => {
                        self.failures = clone_strings(counter.errors());
                        self.state = LoadState::Failed;
                        proof {
                            assert(error_views(self.failures@) =~= error_views(
                                counter.spec_errors(),
                            ));
                        }
                        PollOutcome::Aborted
                    },
                }
            },
            _ => PollOutcome::NoChange,
        }
    }
}

} // verus!
