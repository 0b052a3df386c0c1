use stageloop::app_loop::{handle_event, ApplicationLoop, StageAction, Trans, WindowEvent, KEY_ESCAPE};
use stageloop::loader::{AssetLoader, Handle, JobStatus};
use stageloop::loading::{LoadState, LoadingStateMachine, PollOutcome};
use stageloop::progress::{Completion, ProgressCounter};
use stageloop::schedule::StageScheduler;
use stageloop::tag_index::EntityTagIndex;
use stageloop::world::{ObjectAttributes, World};

fn tagged(tag: u64) -> ObjectAttributes {
    let mut a = ObjectAttributes::none();
    a.has_transform = true;
    a.tag = Some(tag);
    a
}

#[test]
fn fresh_counter_reports_complete() {
    let c = ProgressCounter::new();
    assert_eq!(c.status(), Completion::Complete);
    assert!(c.is_settled());
}

#[test]
fn counter_is_loading_while_jobs_are_in_flight() {
    let mut c = ProgressCounter::new();
    c.register_job();
    c.register_job();
    assert_eq!(c.status(), Completion::Loading);
    c.complete_job();
    assert_eq!(c.status(), Completion::Loading);
    c.complete_job();
    assert_eq!(c.status(), Completion::Complete);
    assert_eq!(c.num_failed(), 0);
}

#[test]
fn counter_settles_failed_when_any_job_failed() {
    let mut c = ProgressCounter::new();
    c.register_job();
    c.register_job();
    c.register_job();
    c.complete_job();
    c.fail_job(String::from("bad mesh"));
    assert_eq!(c.status(), Completion::Loading);
    c.complete_job();
    assert_eq!(c.status(), Completion::Failed);
    assert_eq!(c.num_failed(), 1);
    assert_eq!(c.errors().len(), 1);
    assert_eq!(c.errors()[0], String::from("bad mesh"));
}

#[test]
fn loader_registers_children_before_releasing_the_parent() {
    let mut loader = AssetLoader::new();
    let mut counter = ProgressCounter::new();
    let top = loader.load(String::from("scene.ron"), &mut counter);
    assert_eq!(counter.num_in_flight(), 1);
    loader.complete_job(
        top,
        vec![String::from("mesh.gltf"), String::from("texture.png")],
        &mut counter,
    );
    assert_eq!(counter.num_in_flight(), 2);
    assert_eq!(counter.status(), Completion::Loading);
    assert_eq!(loader.num_jobs(), 3);
    assert!(matches!(loader.job(top).status, JobStatus::Done));
    assert_eq!(loader.job(top).children, vec![1, 2]);
    assert!(matches!(loader.job(Handle { job: 1 }).status, JobStatus::Pending));
    assert!(matches!(loader.job(Handle { job: 2 }).status, JobStatus::Pending));
}

#[test]
fn machine_materializes_exactly_once() {
    let mut machine = LoadingStateMachine::new();
    let mut loader = AssetLoader::new();
    let mut counter = ProgressCounter::new();
    let mut world = World::new();
    let attrs = tagged(7);
    let top = machine.start(&mut loader, &mut counter, String::from("scene.ron"));
    assert_eq!(machine.state(), LoadState::Loading);
    assert_eq!(machine.poll(&counter, &attrs, &mut world), PollOutcome::NoChange);
    loader.complete_job(top, Vec::new(), &mut counter);
    assert_eq!(machine.poll(&counter, &attrs, &mut world), PollOutcome::Materialized(0));
    assert_eq!(machine.state(), LoadState::Complete);
    assert_eq!(world.num_objects(), 1);
    for _ in 0..4 {
        assert_eq!(machine.poll(&counter, &attrs, &mut world), PollOutcome::NoChange);
    }
    assert_eq!(world.num_objects(), 1);
    assert_eq!(machine.state(), LoadState::Complete);
}

#[test]
fn machine_records_failures_and_settles_failed() {
    let mut machine = LoadingStateMachine::new();
    let mut loader = AssetLoader::new();
    let mut counter = ProgressCounter::new();
    let mut world = World::new();
    let attrs = tagged(7);
    let top = machine.start(&mut loader, &mut counter, String::from("scene.ron"));
    loader.fail_job(top, String::from("no such file"), &mut counter);
    assert_eq!(machine.poll(&counter, &attrs, &mut world), PollOutcome::Aborted);
    assert_eq!(machine.state(), LoadState::Failed);
    assert_eq!(machine.failures().len(), 1);
    assert_eq!(machine.failures()[0], String::from("no such file"));
    assert_eq!(world.num_objects(), 0);
    assert_eq!(machine.poll(&counter, &attrs, &mut world), PollOutcome::NoChange);
}

#[test]
fn find_returns_none_before_materialization() {
    let world = World::new();
    let index = EntityTagIndex::new();
    assert_eq!(index.find(&world, 7), None);
}

#[test]
fn find_returns_the_first_matching_identity() {
    let mut world = World::new();
    let index = EntityTagIndex::new();
    let plain = ObjectAttributes::none();
    let id0 = world.materialize(plain);
    let id1 = world.materialize(tagged(7));
    let id2 = world.materialize(tagged(7));
    assert_eq!(id0, 0);
    assert_eq!(id2, 2);
    assert_eq!(index.find(&world, 7), Some(id1));
    assert_eq!(index.find(&world, 9), None);
}

#[test]
fn close_and_escape_quit_the_loop() {
    assert_eq!(handle_event(&WindowEvent::CloseRequested), Trans::Quit);
    assert_eq!(handle_event(&WindowEvent::KeyDown(KEY_ESCAPE)), Trans::Quit);
    assert_eq!(handle_event(&WindowEvent::KeyDown(64)), Trans::Continue);
    assert_eq!(handle_event(&WindowEvent::Other), Trans::Continue);
}

fn two_stage_app(tag: u64) -> ApplicationLoop {
    let mut sch: StageScheduler<StageAction> = StageScheduler::new();
    sch.register(String::from("scene_loader"), Vec::new(), StageAction::PollLoading).unwrap();
    sch.register(
        String::from("gltf_loader"),
        vec![String::from("scene_loader")],
        StageAction::FindTagged(tag),
    )
    .unwrap();
    sch.finalize().unwrap();
    ApplicationLoop::new(sch, tagged(tag))
}

#[test]
fn scene_with_two_nested_resources_is_found_by_tag() {
    let mut app = two_stage_app(7);
    let top = app.ctx.machine.start(
        &mut app.ctx.loader,
        &mut app.ctx.counter,
        String::from("scene.ron"),
    );
    assert_eq!(app.tick(), Trans::Continue);
    assert_eq!(app.ctx.found, None);
    app.ctx.loader.complete_job(
        top,
        vec![String::from("mesh.gltf"), String::from("texture.png")],
        &mut app.ctx.counter,
    );
    assert_eq!(app.tick(), Trans::Continue);
    assert_eq!(app.ctx.found, None);
    app.ctx.loader.complete_job(Handle { job: 1 }, Vec::new(), &mut app.ctx.counter);
    app.ctx.loader.complete_job(Handle { job: 2 }, Vec::new(), &mut app.ctx.counter);
    assert_eq!(app.ctx.counter.status(), Completion::Complete);
    assert_eq!(app.tick(), Trans::Continue);
    assert_eq!(app.ctx.machine.state(), LoadState::Complete);
    assert_eq!(app.ctx.found, Some(0));
    assert_eq!(app.tick(), Trans::Continue);
    assert_eq!(app.ctx.world.num_objects(), 1);
}

#[test]
fn one_failed_nested_job_terminates_the_loop() {
    let mut app = two_stage_app(7);
    let top = app.ctx.machine.start(
        &mut app.ctx.loader,
        &mut app.ctx.counter,
        String::from("scene.ron"),
    );
    app.ctx.loader.complete_job(
        top,
        vec![String::from("mesh.gltf"), String::from("texture.png")],
        &mut app.ctx.counter,
    );
    app.ctx.loader.complete_job(Handle { job: 1 }, Vec::new(), &mut app.ctx.counter);
    app.ctx.loader.fail_job(
        Handle { job: 2 },
        String::from("corrupt texture"),
        &mut app.ctx.counter,
    );
    assert_eq!(app.ctx.counter.status(), Completion::Failed);
    assert_eq!(app.tick(), Trans::Quit);
    assert_eq!(app.ctx.machine.state(), LoadState::Failed);
    assert_eq!(app.ctx.machine.failures().len(), 1);
    assert_eq!(app.ctx.world.num_objects(), 0);
    assert_eq!(app.ctx.found, None);
    assert_eq!(app.tick(), Trans::Quit);
}
