//! The application loop: one tick per frame runs every stage's action in the
//! finalized order over one shared context, then yields a decision — keep
//! running, or terminate because the loading attempt failed. Window events
//! are mapped to the same decision each tick.

use crate::loader::AssetLoader;
use crate::loading::{LoadingStateMachine, PollOutcome, poll_rel};
use crate::progress::ProgressCounter;
use crate::schedule::{Stage, StageScheduler, order_view, valid_schedule};
use crate::tag_index::{EntityTagIndex, found_matches};
use crate::world::{ObjectAttributes, World};
use vstd::prelude::*;

verus! {

/// The key code of the escape key.
pub const KEY_ESCAPE: u32 = 27;

/// A per-tick window event, as the windowing collaborator delivers it.
#[derive(Clone, Copy, Debug, PartialEq, Eq, Structural)]
pub enum WindowEvent {
    /// The user asked to close the window.
    CloseRequested,
    /// A key went down, with its key code.
    KeyDown(u32),
    /// Any other event; ignored here.
    Other,
}

/// The per-tick decision of the loop.
#[derive(Clone, Copy, Debug, PartialEq, Eq, Structural)]
pub enum Trans {
    /// Keep running.
    Continue,
    /// Terminate the application.
    Quit,
}

/// Maps one window event to the tick's decision: quit on a close request or
/// on the escape key, keep running on anything else.
pub fn handle_event(event: &WindowEvent) -> (t: Trans)
    ensures
        (t is Quit) <==> (*event is CloseRequested || *event == WindowEvent::KeyDown(KEY_ESCAPE)),
{
    match event {
        WindowEvent::CloseRequested => Trans::Quit,
        WindowEvent::KeyDown(k) => {
            if *k == KEY_ESCAPE {
                Trans::Quit
            } else {
                Trans::Continue
            }
        },
        WindowEvent::Other => Trans::Continue,
    }
}

/// What a stage does each tick to the shared context.
#[derive(Clone, Copy, Debug, PartialEq, Eq, Structural)]
pub enum StageAction {
    /// Poll the loading attempt and materialize on completion.
    PollLoading,
    /// Once something is materialized, resolve the object carrying the given
    /// marker tag, keeping the first resolution.
    FindTagged(u64),
}

/// The shared mutable context one tick threads through the stages: the
/// loading attempt's parts, the live world, the attribute set to
/// materialize, and the object resolved by tag, once found.
pub struct TickContext {
    /// The loader of the current attempt.
    pub loader: AssetLoader,
    /// The counter of the current attempt.
    pub counter: ProgressCounter,
    /// The loading state machine.
    pub machine: LoadingStateMachine,
    /// The live scene.
    pub world: World,
    /// What a completed load materializes.
    pub scene_attrs: ObjectAttributes,
    /// The identity found by the tag lookup, once one is found.
    pub found: Option<u64>,
}

/// How one stage action relates the context after it to the context before
/// it. Polling behaves as `poll_rel` states and touches nothing else; the
/// tag lookup keeps an earlier resolution and otherwise answers as
/// `found_matches` states, touching nothing else.
pub open spec fn action_rel(c0: TickContext, c1: TickContext, a: StageAction) -> bool {
    match a {
        StageAction::PollLoading => {
            &&& (exists|r: PollOutcome|
                poll_rel(c0.machine, c1.machine, c0.counter, c0.scene_attrs, c0.world, c1.world, r))
            &&& c1.loader == c0.loader
            &&& c1.counter == c0.counter
            &&& c1.scene_attrs == c0.scene_attrs
            &&& c1.found == c0.found
        },
        StageAction::FindTagged(tag) => {
            &&& c1.loader == c0.loader
            &&& c1.counter == c0.counter
            &&& c1.machine == c0.machine
            &&& c1.world == c0.world
            &&& c1.scene_attrs == c0.scene_attrs
            &&& match c0.found {
                Some(id) => c1.found == c0.found,
                None => found_matches(c1.found, c0.world.spec_objects(), tag),
            }
        },
    }
}

/// The contexts of `chain` witness, step by step, a run of the actions of
/// the stages that `order` picks out of `stages`: the action of stage
/// `order[t]` takes the context `chain[t]` to `chain[t + 1]`.
pub open spec fn chain_ok(
    chain: Seq<TickContext>,
    stages: Seq<Stage<StageAction>>,
    order: Seq<int>,
) -> bool {
    &&& chain.len() == order.len() + 1
    &&& (forall|t: int| 0 <= t < order.len() ==> 0 <= #[trigger] order[t] < stages.len())
    &&& (forall|t: int|
        0 <= t < order.len() ==> #[trigger] action_rel(
            chain[t],
            chain[t + 1],
            stages[order[t]].action,
        ))
}

/// The context `c1` is reachable from `c0` by running, in order, the actions
/// of the stages that `order` picks out of `stages`.
pub open spec fn run_rel(
    c0: TickContext,
    c1: TickContext,
    stages: Seq<Stage<StageAction>>,
    order: Seq<int>,
) -> bool {
    exists|chain: Seq<TickContext>|
        {
            &&& #[trigger] chain_ok(chain, stages, order)
            &&& chain.first() == c0
            &&& chain.last() == c1
        }
}

/// Along a chain whose first context holds a settled machine (anything but
/// `Loading`), every context holds the same machine and the same world.
proof fn lemma_chain_preserves_settled(
    chain: Seq<TickContext>,
    stages: Seq<Stage<StageAction>>,
    order: Seq<int>,
    t: int,
)
    requires
        chain_ok(chain, stages, order),
        !(chain.first().machine.spec_state() is Loading),
        0 <= t < chain.len(),
    ensures
        chain[t].machine == chain.first().machine,
        chain[t].world == chain.first().world,
    decreases t,
{
    if t > 0 {
        lemma_chain_preserves_settled(chain, stages, order, t - 1);
        assert(action_rel(chain[t - 1], chain[t - 1 + 1], stages[order[t - 1]].action));
        assert(chain[t - 1 + 1] == chain[t]);
        match stages[order[t - 1]].action {
            StageAction::PollLoading => {
                let r = choose|r: PollOutcome|
                    #[trigger] poll_rel(
                        chain[t - 1].machine,
                        chain[t].machine,
                        chain[t - 1].counter,
                        chain[t - 1].scene_attrs,
                        chain[t - 1].world,
                        chain[t].world,
                        r,
                    );
                assert(chain[t].machine == chain[t - 1].machine);
            },
            StageAction::FindTagged(tag) => {},
        }
    }
}

/// Once the attempt has settled, a whole tick is inert: with the machine in
/// a terminal state — or not yet started — running all the stages of a tick
/// changes neither the machine nor the world, so no tick after the
/// materializing one can materialize again, and a `Failed` machine is still
/// `Failed` when the tick's decision is taken.
pub proof fn lemma_settled_tick_is_inert(
    c0: TickContext,
    c1: TickContext,
    stages: Seq<Stage<StageAction>>,
    order: Seq<int>,
)
    requires
        run_rel(c0, c1, stages, order),
        !(c0.machine.spec_state() is Loading),
    ensures
        c1.machine == c0.machine,
        c1.world == c0.world,
{
    let chain = choose|chain: Seq<TickContext>|
        {
            &&& #[trigger] chain_ok(chain, stages, order)
            &&& chain.first() == c0
            &&& chain.last() == c1
        };
    lemma_chain_preserves_settled(chain, stages, order, chain.len() - 1);
    assert(chain[chain.len() - 1] == chain.last());
}

/// Runs one stage's action on the context.
fn run_action(ctx: &mut TickContext, a: StageAction)
    requires
        old(ctx).world.spec_next_id() < u64::MAX,
        old(ctx).world.spec_objects().len() < usize::MAX,
    ensures
        action_rel(*old(ctx), *final(ctx), a),
        final(ctx).world.spec_next_id() <= old(ctx).world.spec_next_id() + 1,
        final(ctx).world.spec_objects().len() <= old(ctx).world.spec_objects().len() + 1,
{
    match a {
        StageAction::PollLoading => {
            let ghost m0 = ctx.machine;
            let ghost w0 = ctx.world;
            let r = ctx.machine.poll(&ctx.counter, &ctx.scene_attrs, &mut ctx.world);
            proof {
                assert(poll_rel(m0, ctx.machine, ctx.counter, ctx.scene_attrs, w0, ctx.world, r));
            }
        },
        StageAction::FindTagged(tag) => {
            if ctx.found.is_none() {
                let index = EntityTagIndex::new();
                ctx.found = index.find(&ctx.world, tag);
            }
        },
    }
}

/// Owns the scheduler and the shared context, drives one tick per frame,
/// and turns a failed loading attempt into a termination decision.
pub struct ApplicationLoop {
    /// The stages and their finalized execution order.
    pub scheduler: StageScheduler<StageAction>,
    /// The shared context the stages work on.
    pub ctx: TickContext,
}

impl ApplicationLoop {
    /// A loop around the given scheduler, with a context holding a fresh
    /// attempt and an empty world.
    pub fn new(scheduler: StageScheduler<StageAction>, scene_attrs: ObjectAttributes) -> (app:
        ApplicationLoop)
        ensures
            app.scheduler == scheduler,
            app.ctx.loader.spec_jobs() == Seq::<crate::loader::LoadJob>::empty(),
            app.ctx.counter.spec_in_flight() == 0,
            app.ctx.counter.spec_failed() == 0,
            app.ctx.machine.spec_state() is Idle,
            app.ctx.world.spec_objects() == Seq::<crate::world::MaterializedObject>::empty(),
            app.ctx.world.spec_next_id() == 0,
            app.ctx.scene_attrs == scene_attrs,
            app.ctx.found is None,
    {
        ApplicationLoop {
            scheduler,
            ctx: TickContext {
                loader: AssetLoader::new(),
                counter: ProgressCounter::new(),
                machine: LoadingStateMachine::new(),
                world: World::new(),
                scene_attrs,
                found: None,
            },
        }
    }

    /// One tick: runs every stage's action exactly once, in the finalized
    /// order, threading the shared context through them; then decides — quit
    /// when the loading attempt has failed, keep running otherwise.
    pub fn tick(&mut self) -> (t: Trans)
        requires
            old(self).scheduler.spec_order() matches Some(ord) && valid_schedule(
                old(self).scheduler.spec_stages(),
                ord,
            ),
            old(self).ctx.world.spec_next_id() + old(self).scheduler.spec_stages().len()
                <= u64::MAX,
            old(self).ctx.world.spec_objects().len() + old(self).scheduler.spec_stages().len()
                <= usize::MAX,
        ensures
            final(self).scheduler == old(self).scheduler,
            run_rel(
                old(self).ctx,
                final(self).ctx,
                old(self).scheduler.spec_stages(),
                old(self).scheduler.spec_order().unwrap(),
            ),
            final(self).ctx.loader == old(self).ctx.loader,
            final(self).ctx.counter == old(self).ctx.counter,
            final(self).ctx.scene_attrs == old(self).ctx.scene_attrs,
            final(self).ctx.world.spec_next_id() <= old(self).ctx.world.spec_next_id() + old(
                self,
            ).scheduler.spec_stages().len(),
            final(self).ctx.world.spec_objects().len() <= old(self).ctx.world.spec_objects().len()
                + old(self).scheduler.spec_stages().len(),
            (t is Quit) <==> final(self).ctx.machine.spec_state() is Failed,
    {
        let ghost stages = self.scheduler.spec_stages();
        let ghost ord = self.scheduler.spec_order().unwrap();
        let ghost c0 = self.ctx;
        let n = self.scheduler.num_stages();
        let mut i: usize = 0;
        let ghost mut chain: Seq<TickContext> = seq![c0];
        while i < n
            invariant
                self.scheduler == old(self).scheduler,
                stages == self.scheduler.spec_stages(),
                Some(ord) == self.scheduler.spec_order(),
                valid_schedule(stages, ord),
                c0 == old(self).ctx,
                n == stages.len(),
                ord.len() == n,
                i <= n,
                chain.len() == i + 1,
                chain.first() == c0,
                chain.last() == self.ctx,
                self.ctx.loader == c0.loader,
                self.ctx.counter == c0.counter,
                self.ctx.scene_attrs == c0.scene_attrs,
                forall|t: int|
                    0 <= t < i ==> #[trigger] action_rel(
                        chain[t],
                        chain[t + 1],
                        stages[ord[t]].action,
                    ),
                self.ctx.world.spec_next_id() <= c0.world.spec_next_id() + i,
                self.ctx.world.spec_objects().len() <= c0.world.spec_objects().len() + i,
                c0.world.spec_next_id() + n <= u64::MAX,
                c0.world.spec_objects().len() + n <= usize::MAX,
            decreases n - i,
        {
            let order_ref = match self.scheduler.order() {
                Some(o) => o,
                None => {
                    proof {
                        assert(false);
                    }
                    return Trans::Continue;
                },
            };
            let idx = order_ref[i];
            proof {
                assert(order_view(order_ref@)[i as int] == idx as int);
                assert(0 <= ord[i as int] < stages.len());
            }
            let a = self.scheduler.stage(idx).action;
            let ghost mid = self.ctx;
            let ghost i0 = i as int;
            run_action(&mut self.ctx, a);
            i = i + 1;
            proof {
                let prev = chain;
                chain = chain.push(self.ctx);
                assert(chain.last() == self.ctx);
                assert(chain[i0] == prev[i0]);
                assert(prev[i0] == prev.last());
                assert(action_rel(chain[i0], chain[i0 + 1], stages[ord[i0]].action));
                assert forall|t: int| 0 <= t < i implies #[trigger] action_rel(
                    chain[t],
                    chain[t + 1],
                    stages[ord[t]].action,
                ) by {
                    if t < i0 {
                        assert(chain[t] == prev[t]);
                        assert(chain[t + 1] == prev[t + 1]);
                    }
                }
            }
        }
        proof {
            assert(chain_ok(chain, stages, ord));
            assert(run_rel(c0, self.ctx, stages, ord));
        }
        match self.ctx.machine.state() {
            crate::loading::LoadState::Failed => Trans::Quit,
            _ => Trans::Continue,
        }
    }
}

} // verus!
