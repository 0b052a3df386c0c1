//! Named stages with dependency edges, topologically ordered once and then
//! executed in that order every tick.
//!
//! A stage declares the names of the stages whose work it needs earlier in
//! the same tick. `finalize` resolves those declarations globally into one
//! execution order, with a stable tie-break: among the stages whose
//! dependencies are already placed, the one registered first is placed next.

use vstd::prelude::*;
use vstd::seq_lib::*;
use vstd::set_lib::*;

verus! {

/// Why the schedule could not be built.
#[derive(Clone, Copy, Debug, PartialEq, Eq, Structural)]
pub enum ScheduleError {
    /// `register` saw a stage name that is already registered.
    DuplicateStage,
    /// `finalize` saw a dependency name that no registered stage carries.
    UnknownDependency,
    /// `finalize` saw a dependency cycle among the registered stages.
    CycleDetected,
}

/// One named, dependency-ordered unit of per-tick work. The payload `A` is
/// whatever the caller executes when the stage runs.
pub struct Stage<A> {
    /// The unique name of the stage.
    pub name: String,
    /// The names of the stages this one must run after, within one tick.
    pub deps: Vec<String>,
    /// What the stage does each tick.
    pub action: A,
}

/// Some registered stage carries the name `dep`.
pub open spec fn known_name<A>(stages: Seq<Stage<A>>, dep: Seq<char>) -> bool {
    exists|k: int| 0 <= k < stages.len() && stages[k].name@ == dep
}

/// Every dependency of every registered stage is itself a registered name.
pub open spec fn deps_known<A>(stages: Seq<Stage<A>>) -> bool {
    forall|i: int, d: int|
        0 <= i < stages.len() && 0 <= d < stages[i].deps@.len() ==> #[trigger] known_name(
            stages,
            stages[i].deps@[d]@,
        )
}

/// The dependency `dep` is met under `placed`: some already-placed stage
/// carries that name.
pub open spec fn dep_met<A>(stages: Seq<Stage<A>>, placed: Seq<bool>, dep: Seq<char>) -> bool {
    exists|k: int| 0 <= k < stages.len() && placed[k] && stages[k].name@ == dep
}

/// Stage `i` is ready to run under `placed`: each of its dependencies is met.
pub open spec fn ready<A>(stages: Seq<Stage<A>>, placed: Seq<bool>, i: int) -> bool {
    forall|d: int|
        0 <= d < stages[i].deps@.len() ==> dep_met(stages, placed, stages[i].deps@[d]@)
}

/// The placement that results from having run exactly the stages in `done`.
pub open spec fn placed_of(n: int, done: Seq<int>) -> Seq<bool> {
    Seq::new(n as nat, |k: int| done.contains(k))
}

/// `order` enumerates every one of the `n` stages exactly once.
pub open spec fn is_permutation(n: int, order: Seq<int>) -> bool {
    &&& order.len() == n
    &&& (forall|i: int| 0 <= i < order.len() ==> 0 <= #[trigger] order[i] < n)
    &&& (forall|i: int, j: int| 0 <= i < j < order.len() ==> order[i] != order[j])
    &&& (forall|k: int| 0 <= k < n ==> order.contains(k))
}

/// Every stage of `order` is placed only when each of its dependencies has
/// been placed at an earlier position.
pub open spec fn order_respects_deps<A>(stages: Seq<Stage<A>>, order: Seq<int>) -> bool {
    forall|i: int|
        0 <= i < order.len() ==> ready(
            stages,
            placed_of(stages.len() as int, order.take(i)),
            order[i],
        )
}

/// A valid execution schedule: a permutation of all registered stages in
/// which every stage comes after all of its dependencies.
pub open spec fn valid_schedule<A>(stages: Seq<Stage<A>>, order: Seq<int>) -> bool {
    &&& is_permutation(stages.len() as int, order)
    &&& order_respects_deps(stages, order)
}

/// Some valid execution schedule exists for the registered stages.
pub open spec fn schedulable<A>(stages: Seq<Stage<A>>) -> bool {
    exists|order: Seq<int>| valid_schedule(stages, order)
}

/// The stable tie-break: at each position the earliest-registered stage that
/// was unplaced and ready was placed, so stages with no ordering constraint
/// between them run in registration order.
pub open spec fn greedy_minimal<A>(stages: Seq<Stage<A>>, order: Seq<int>) -> bool {
    forall|i: int, k: int|
        0 <= i < order.len() && 0 <= k < order[i] && !order.take(i).contains(k) ==> !ready(
            stages,
            placed_of(stages.len() as int, order.take(i)),
            k,
        )
}

/// Declares named stages with dependency edges, derives one topological
/// execution order at `finalize` time, and hands that order out for the tick
/// driver to follow.
pub struct StageScheduler<A> {
    stages: Vec<Stage<A>>,
    order: Option<Vec<usize>>,
}

/// A `Vec<usize>` read as a mathematical sequence of integers.
pub open spec fn order_view(order: Seq<usize>) -> Seq<int> {
    order.map_values(|u: usize| u as int)
}

impl<A> StageScheduler<A> {
    /// The registered stages, in registration order.
    pub closed spec fn spec_stages(&self) -> Seq<Stage<A>> {
        self.stages@
    }

    /// The cached execution order, when `finalize` has derived one.
    pub closed spec fn spec_order(&self) -> Option<Seq<int>> {
        match self.order {
            Some(o) => Some(order_view(o@)),
            None => None,
        }
    }

    /// Registered names are unique, and a cached order is a valid schedule
    /// with the stable tie-break.
    pub open spec fn wf(&self) -> bool {
        &&& (forall|i: int, j: int|
            0 <= i < j < self.spec_stages().len() ==> self.spec_stages()[i].name@
                != self.spec_stages()[j].name@)
        &&& match self.spec_order() {
            Some(ord) => valid_schedule(self.spec_stages(), ord) && greedy_minimal(
                self.spec_stages(),
                ord,
            ),
            None => true,
        }
    }

    /// An empty scheduler with no stages and no derived order.
    pub fn new() -> (s: StageScheduler<A>)
        ensures
            s.spec_stages() == Seq::<Stage<A>>::empty(),
            s.spec_order() is None,
            s.wf(),
    {
        StageScheduler { stages: Vec::new(), order: None }
    }

    /// How many stages are registered.
    pub fn num_stages(&self) -> (n: usize)
        ensures
            n == self.spec_stages().len(),
    {
        self.stages.len()
    }

    /// Whether some registered stage carries `name`.
    pub fn has_stage(&self, name: &String) -> (r: bool)
        ensures
            r == known_name(self.spec_stages(), name@),
    {
        let mut i: usize = 0;
        while i < self.stages.len()
            invariant
                i <= self.stages@.len(),
                forall|j: int| 0 <= j < i ==> self.stages@[j].name@ != name@,
            decreases self.stages@.len() - i,
        {
            if self.stages[i].name == *name {
                proof {
                    assert(known_name(self.spec_stages(), name@)) by {
                        assert(self.spec_stages()[i as int].name@ == name@);
                    }
                }
                return true;
            }
            i = i + 1;
        }
        false
    }

    /// Registers a stage under a fresh name, invalidating any cached order;
    /// rejects a name that is already registered with `DuplicateStage`,
    /// leaving the scheduler unchanged. Whether the declared dependencies are
    /// registered is not judged here but at `finalize` time.
    pub fn register(&mut self, name: String, deps: Vec<String>, action: A) -> (r: Result<
        (),
        ScheduleError,
    >)
        ensures
            final(self).wf() <== old(self).wf(),
            match r {
                Ok(u) => {
                    &&& !known_name(old(self).spec_stages(), name@)
                    &&& final(self).spec_stages() == old(self).spec_stages().push(
                        Stage { name, deps, action },
                    )
                    &&& final(self).spec_order() is None
                },
                Err(e) => {
                    &&& e == ScheduleError::DuplicateStage
                    &&& known_name(old(self).spec_stages(), name@)
                    &&& final(self).spec_stages() == old(self).spec_stages()
                    &&& final(self).spec_order() == old(self).spec_order()
                },
            },
    {
        if self.has_stage(&name) {
            return Err(ScheduleError::DuplicateStage);
        }
        self.order = None;
        self.stages.push(Stage { name, deps, action });
        Ok(())
    }

    /// Whether `dep` is met under `placed`: a linear scan for an
    /// already-placed stage carrying that name.
    fn dep_met_exec(&self, placed: &Vec<bool>, dep: &String) -> (r: bool)
        requires
            placed@.len() == self.spec_stages().len(),
        ensures
            r == dep_met(self.spec_stages(), placed@, dep@),
    {
        let mut k: usize = 0;
        while k < self.stages.len()
            invariant
                placed@.len() == self.stages@.len(),
                k <= self.stages@.len(),
                forall|m: int| 0 <= m < k ==> !(placed@[m] && self.stages@[m].name@ == dep@),
            decreases self.stages@.len() - k,
        {
            if placed[k] && self.stages[k].name == *dep {
                return true;
            }
            k = k + 1;
        }
        false
    }

    /// Whether stage `i` is ready under `placed`: every declared dependency
    /// is met.
    fn ready_exec(&self, placed: &Vec<bool>, i: usize) -> (r: bool)
        requires
            placed@.len() == self.spec_stages().len(),
            i < self.spec_stages().len(),
        ensures
            r == ready(self.spec_stages(), placed@, i as int),
    {
        let deps_len = self.stages[i].deps.len();
        let mut d: usize = 0;
        while d < deps_len
            invariant
                placed@.len() == self.stages@.len(),
                i < self.stages@.len(),
                deps_len == self.stages@[i as int].deps@.len(),
                d <= deps_len,
                forall|e: int|
                    0 <= e < d ==> dep_met(
                        self.stages@,
                        placed@,
                        self.stages@[i as int].deps@[e]@,
                    ),
            decreases deps_len - d,
        {
            if !self.dep_met_exec(placed, &self.stages[i].deps[d]) {
                return false;
            }
            d = d + 1;
        }
        true
    }

    /// Whether every declared dependency of every stage is a registered name.
    fn deps_known_exec(&self) -> (r: bool)
        ensures
            r == deps_known(self.spec_stages()),
    {
        let mut i: usize = 0;
        while i < self.stages.len()
            invariant
                i <= self.stages@.len(),
                forall|a: int, d: int|
                    0 <= a < i && 0 <= d < self.stages@[a].deps@.len() ==> #[trigger] known_name(
                        self.stages@,
                        self.stages@[a].deps@[d]@,
                    ),
            decreases self.stages@.len() - i,
        {
            let deps_len = self.stages[i].deps.len();
            let mut d: usize = 0;
            while d < deps_len
                invariant
                    i < self.stages@.len(),
                    deps_len == self.stages@[i as int].deps@.len(),
                    d <= deps_len,
                    forall|e: int|
                        0 <= e < d ==> #[trigger] known_name(
                            self.stages@,
                            self.stages@[i as int].deps@[e]@,
                        ),
                decreases deps_len - d,
            {
                let dep = &self.stages[i].deps[d];
                if !self.has_stage(dep) {
                    proof {
                        assert(dep@ == self.stages@[i as int].deps@[d as int]@);
                        assert(!known_name(self.stages@, self.stages@[i as int].deps@[d as int]@));
                    }
                    return false;
                }
                d = d + 1;
            }
            i = i + 1;
        }
        true
    }

    /// Derives and caches the execution order: a topological sort of the
    /// registered stages with the stable registration-order tie-break.
    ///
    /// Fails with `UnknownDependency` when some declared dependency is not a
    /// registered name, and with `CycleDetected` when the dependency graph
    /// admits no valid schedule at all; either way no partial order is
    /// cached and the scheduler is left without a usable schedule.
    pub fn finalize(&mut self) -> (r: Result<(), ScheduleError>)
        ensures
            final(self).spec_stages() == old(self).spec_stages(),
            final(self).wf() <== old(self).wf(),
            match r {
                Ok(u) => {
                    &&& deps_known(old(self).spec_stages())
                    &&& final(self).spec_order() matches Some(ord) && valid_schedule(
                        old(self).spec_stages(),
                        ord,
                    ) && greedy_minimal(old(self).spec_stages(), ord)
                },
                Err(e) => {
                    &&& final(self).spec_order() is None
                    &&& match e {
                        ScheduleError::DuplicateStage => false,
                        ScheduleError::UnknownDependency => !deps_known(old(self).spec_stages()),
                        ScheduleError::CycleDetected => deps_known(old(self).spec_stages())
                            && !schedulable(old(self).spec_stages()),
                    }
                },
            },
    {
        if !self.deps_known_exec() {
            self.order = None;
            return Err(ScheduleError::UnknownDependency);
        }
        self.order = None;
        let n = self.stages.len();
        let ghost stages = self.stages@;
        let mut placed: Vec<bool> = Vec::new();
        let mut j: usize = 0;
        while j < n
            invariant
                self.stages@ == old(self).stages@,
                self.order is None,
                stages == old(self).stages@,
                old(self).wf() ==> self.wf(),
                placed@.len() == j,
                j <= n,
                forall|k: int| 0 <= k < j ==> !placed@[k],
            decreases n - j,
        {
            placed.push(false);
            j = j + 1;
        }
        let mut order: Vec<usize> = Vec::new();
        while order.len() < n
            invariant
                self.stages@ == old(self).stages@,
                self.order is None,
                stages == old(self).stages@,
                old(self).wf() ==> self.wf(),
                deps_known(stages),
                n == stages.len(),
                placed@.len() == n,
                order@.len() <= n,
                forall|t: int| 0 <= t < order@.len() ==> 0 <= #[trigger] order@[t] < n,
                forall|k: int|
                    0 <= k < n ==> (placed@[k] <==> order_view(order@).contains(k)),
                forall|t: int, u: int|
                    0 <= t < u < order@.len() ==> order_view(order@)[t] != order_view(order@)[u],
                forall|t: int|
                    0 <= t < order@.len() ==> ready(
                        stages,
                        placed_of(n as int, order_view(order@).take(t)),
                        order_view(order@)[t],
                    ),
                forall|t: int, k: int|
                    0 <= t < order@.len() && 0 <= k < order_view(order@)[t] && !order_view(
                        order@,
                    ).take(t).contains(k) ==> !ready(
                        stages,
                        placed_of(n as int, order_view(order@).take(t)),
                        k,
                    ),
            decreases n - order.len(),
        {
            let ghost done = order_view(order@);
            proof {
                lemma_placed_matches(n as int, done, placed@);
            }
            let mut pick: Option<usize> = None;
            let mut i: usize = 0;
            while pick.is_none() && i < n
                invariant
                    self.stages@ == old(self).stages@,
                    self.order is None,
                    stages == old(self).stages@,
                    old(self).wf() ==> self.wf(),
                    deps_known(stages),
                    n == stages.len(),
                    placed@.len() == n,
                    i <= n,
                    forall|k: int| 0 <= k < i ==> placed@[k] || !ready(stages, placed@, k),
                    match pick {
                        Some(p) => {
                            &&& p < n
                            &&& !placed@[p as int]
                            &&& ready(stages, placed@, p as int)
                            &&& forall|k: int|
                                0 <= k < p ==> placed@[k] || !ready(stages, placed@, k)
                        },
                        None => true,
                    },
                decreases n - i, (if pick is None { 1int } else { 0 }),
            {
                if !placed[i] && self.ready_exec(&placed, i) {
                    pick = Some(i);
                } else {
                    i = i + 1;
                }
            }
            match pick {
                Some(p) => {
                    proof {
                        assert(placed@ =~= placed_of(n as int, done));
                        assert(!done.contains(p as int));
                        assert(ready(stages, placed_of(n as int, done), p as int));
                        assert forall|k: int| 0 <= k < p && !done.contains(k) implies !ready(
                            stages,
                            placed_of(n as int, done),
                            k,
                        ) by {
                            assert(!placed@[k]);
                            assert(!ready(stages, placed@, k));
                        }
                        lemma_take_push(done, p as int);
                    }
                    order.push(p);
                    placed.set(p, true);
                    proof {
                        let done2 = order_view(order@);
                        assert(done2 =~= done.push(p as int));
                        assert(done2.take(done.len() as int) == done);
                        assert forall|k: int| 0 <= k < n implies (placed@[k] <==> done2.contains(
                            k,
                        )) by {
                            if k == p {
                                assert(done2[done2.len() - 1] == p as int);
                                assert(done2.contains(p as int));
                            } else {
                                assert(done2.contains(k) <==> done.contains(k)) by {
                                    if done.contains(k) {
                                        let t = choose|t: int|
                                            0 <= t < done.len() && done[t] == k;
                                        assert(done2[t] == k);
                                    }
                                    if done2.contains(k) {
                                        let t = choose|t: int|
                                            0 <= t < done2.len() && done2[t] == k;
                                        assert(t < done.len());
                                        assert(done[t] == k);
                                    }
                                }
                            }
                        }
                        assert forall|t: int, u: int| 0 <= t < u < done2.len() implies done2[t]
                            != done2[u] by {
                            if u == done2.len() - 1 {
                                assert(done2[t] == done[t]);
                                assert(done2[u] == p as int);
                            } else {
                                assert(done2[t] == done[t] && done2[u] == done[u]);
                            }
                        }
                        assert forall|t: int| 0 <= t < done2.len() implies ready(
                            stages,
                            placed_of(n as int, done2.take(t)),
                            done2[t],
                        ) by {
                            if t < done.len() {
                                assert(done2.take(t) == done.take(t));
                                assert(done2[t] == done[t]);
                            } else {
                                assert(t == done.len());
                                assert(done2.take(t) == done);
                                assert(done2[t] == p as int);
                            }
                        }
                        assert forall|t: int, k: int|
                            0 <= t < done2.len() && 0 <= k < done2[t] && !done2.take(t).contains(
                                k,
                            ) implies !ready(stages, placed_of(n as int, done2.take(t)), k) by {
                            if t < done.len() {
                                assert(done2.take(t) == done.take(t));
                                assert(done2[t] == done[t]);
                            } else {
                                assert(t == done.len());
                                assert(done2.take(t) == done);
                                assert(done2[t] == p as int);
                            }
                        }
                    }
                },
                None => {
                    proof {
                        assert(placed@ =~= placed_of(n as int, done));
                        let u = seq_missing_index(n as int, done);
                        lemma_stall_unschedulable(stages, placed@, u);
                    }
                    return Err(ScheduleError::CycleDetected);
                },
            }
        }
        proof {
            let ord = order_view(order@);
            lemma_full_order_onto(n as int, ord);
        }
        self.order = Some(order);
        Ok(())
    }

    /// The derived execution order, when `finalize` has succeeded since the
    /// last registration.
    pub fn order(&self) -> (r: Option<&Vec<usize>>)
        ensures
            match r {
                Some(o) => self.spec_order() == Some(order_view(o@)),
                None => self.spec_order() is None,
            },
    {
        match &self.order {
            Some(o) => Some(o),
            None => None,
        }
    }

    /// The stage at registration index `i`.
    pub fn stage(&self, i: usize) -> (s: &Stage<A>)
        requires
            i < self.spec_stages().len(),
        ensures
            *s == self.spec_stages()[i as int],
    {
        &self.stages[i]
    }
}

/// In a valid schedule of uniquely named stages, every stage appears after
/// all of its declared dependencies: whenever the stage at position `i`
/// declares a dependency carried by stage `k`, stage `k` stands at an
/// earlier position.
pub proof fn lemma_dependency_precedes<A>(
    stages: Seq<Stage<A>>,
    order: Seq<int>,
    i: int,
    d: int,
    k: int,
)
    requires
        valid_schedule(stages, order),
        forall|a: int, b: int| 0 <= a < b < stages.len() ==> stages[a].name@ != stages[b].name@,
        0 <= i < order.len(),
        0 <= d < stages[order[i]].deps@.len(),
        0 <= k < stages.len(),
        stages[k].name@ == stages[order[i]].deps@[d]@,
    ensures
        exists|j: int| 0 <= j < i && order[j] == k,
{
    let n = stages.len() as int;
    let done = order.take(i);
    assert(ready(stages, placed_of(n, done), order[i]));
    assert(dep_met(stages, placed_of(n, done), stages[order[i]].deps@[d]@));
    let w = choose|w: int|
        0 <= w < n && placed_of(n, done)[w] && stages[w].name@ == stages[order[i]].deps@[d]@;
    assert(done.contains(w));
    assert(w == k) by {
        if w < k {
            assert(stages[w].name@ != stages[k].name@);
        }
        if k < w {
            assert(stages[k].name@ != stages[w].name@);
        }
    }
    let j = choose|j: int| 0 <= j < done.len() && done[j] == w;
    assert(order[j] == k);
}

/// A valid schedule in hand shows the stages schedulable. In particular a
/// dependency graph that admits no valid order — a cyclic one — can never
/// make `finalize` succeed: a success would hand over such a witness.
pub proof fn lemma_schedule_witness<A>(stages: Seq<Stage<A>>, order: Seq<int>)
    requires
        valid_schedule(stages, order),
    ensures
        schedulable(stages),
{
}

/// Taking one more element of a pushed sequence: prefixes of `done.push(p)`
/// up to `done.len()` are prefixes of `done`.
proof fn lemma_take_push(done: Seq<int>, p: int)
    ensures
        forall|t: int| 0 <= t <= done.len() ==> #[trigger] done.push(p).take(t) =~= done.take(t),
        done.push(p).take(done.len() as int) =~= done,
{
    assert forall|t: int| 0 <= t <= done.len() implies #[trigger] done.push(p).take(t) =~= done.take(
        t,
    ) by {
        assert(done.push(p).take(t).len() == t);
    }
    assert(done.take(done.len() as int) =~= done);
}

/// A placement vector that marks exactly the members of `done` is
/// `placed_of(n, done)`.
proof fn lemma_placed_matches(n: int, done: Seq<int>, placed: Seq<bool>)
    requires
        placed.len() == n,
        forall|k: int| 0 <= k < n ==> (placed[k] <==> done.contains(k)),
    ensures
        placed =~= placed_of(n, done),
{
}

/// In a sequence shorter than `n` whose members lie in `0..n`, some value of
/// `0..n` is missing.
proof fn seq_missing_index(n: int, done: Seq<int>) -> (u: int)
    requires
        0 <= done.len() < n,
        forall|t: int| 0 <= t < done.len() ==> 0 <= #[trigger] done[t] < n,
        forall|t: int, s: int| 0 <= t < s < done.len() ==> done[t] != done[s],
    ensures
        0 <= u < n,
        !done.contains(u),
{
    done.unique_seq_to_set();
    let range = set_int_range(0, n);
    lemma_int_range(0, n);
    assert(done.to_set().subset_of(range));
    lemma_len_subset(done.to_set(), range);
    if forall|k: int| 0 <= k < n ==> done.contains(k) {
        assert(range.subset_of(done.to_set()));
        lemma_len_subset(range, done.to_set());
        assert(false);
    }
    let u = choose|k: int| 0 <= k < n && !done.contains(k);
    u
}

/// A permutation-sized sequence of distinct values in `0..n` contains every
/// value of `0..n`.
proof fn lemma_full_order_onto(n: int, order: Seq<int>)
    requires
        order.len() == n,
        0 <= n,
        forall|t: int| 0 <= t < order.len() ==> 0 <= #[trigger] order[t] < n,
        forall|t: int, s: int| 0 <= t < s < order.len() ==> order[t] != order[s],
    ensures
        forall|k: int| 0 <= k < n ==> order.contains(k),
{
    order.unique_seq_to_set();
    let range = set_int_range(0, n);
    lemma_int_range(0, n);
    assert(order.to_set().subset_of(range));
    lemma_subset_equality(order.to_set(), range);
    assert forall|k: int| 0 <= k < n implies order.contains(k) by {
        assert(range.contains(k));
        assert(order.to_set().contains(k));
    }
}

/// The first position of `ord` holding a stage that `placed` does not mark.
proof fn first_unplaced_position(ord: Seq<int>, placed: Seq<bool>, j: int) -> (k: int)
    requires
        0 <= j < ord.len(),
        forall|t: int| 0 <= t < ord.len() ==> 0 <= #[trigger] ord[t] < placed.len(),
        !placed[ord[j]],
    ensures
        0 <= k <= j,
        !placed[ord[k]],
        forall|m: int| 0 <= m < k ==> placed[ord[m]],
    decreases j,
{
    if forall|m: int| 0 <= m < j ==> placed[ord[m]] {
        j
    } else {
        let m = choose|m: int| 0 <= m < j && !placed[ord[m]];
        first_unplaced_position(ord, placed, m)
    }
}

/// When some stage is unplaced and no unplaced stage is ready, no valid
/// schedule exists: any purported order would have a first unplaced stage
/// whose unmet dependency is nonetheless placed earlier in it.
proof fn lemma_stall_unschedulable<A>(stages: Seq<Stage<A>>, placed: Seq<bool>, u: int)
    requires
        placed.len() == stages.len(),
        0 <= u < stages.len(),
        !placed[u],
        forall|i: int| 0 <= i < stages.len() && !placed[i] ==> !ready(stages, placed, i),
    ensures
        !schedulable(stages),
{
    let n = stages.len() as int;
    assert forall|ord: Seq<int>| !valid_schedule(stages, ord) by {
        if valid_schedule(stages, ord) {
            assert(ord.contains(u));
            let j = choose|j: int| 0 <= j < ord.len() && ord[j] == u;
            let k = first_unplaced_position(ord, placed, j);
            let s = ord[k];
            assert(!ready(stages, placed, s));
            let d = choose|d: int|
                0 <= d < stages[s].deps@.len() && !dep_met(stages, placed, stages[s].deps@[d]@);
            assert(ready(stages, placed_of(n, ord.take(k)), s));
            assert(dep_met(stages, placed_of(n, ord.take(k)), stages[s].deps@[d]@));
            let w = choose|w: int|
                0 <= w < n && placed_of(n, ord.take(k))[w] && stages[w].name@
                    == stages[s].deps@[d]@;
            assert(ord.take(k).contains(w));
            let m = choose|m: int| 0 <= m < k && ord.take(k)[m] == w;
            assert(placed[ord[m]]);
            assert(placed[w] && stages[w].name@ == stages[s].deps@[d]@);
            assert(dep_met(stages, placed, stages[s].deps@[d]@));
            assert(false);
        }
    }
}

} // verus!
