use stageloop::app_loop::StageAction;
use stageloop::schedule::{ScheduleError, StageScheduler};

fn names(v: &[&str]) -> Vec<String> {
    v.iter().map(|s| String::from(*s)).collect()
}

#[test]
fn finalize_orders_dependencies_first() {
    let mut sch: StageScheduler<StageAction> = StageScheduler::new();
    sch.register(String::from("scene_loader"), names(&[]), StageAction::PollLoading).unwrap();
    sch.register(
        String::from("gltf_loader"),
        names(&["scene_loader"]),
        StageAction::PollLoading,
    )
    .unwrap();
    assert!(sch.finalize().is_ok());
    let order = sch.order().unwrap().clone();
    assert_eq!(order, vec![0, 1]);
}

#[test]
fn finalize_uses_registration_order_for_ties() {
    let mut sch: StageScheduler<StageAction> = StageScheduler::new();
    sch.register(String::from("a"), names(&["c"]), StageAction::PollLoading).unwrap();
    sch.register(String::from("b"), names(&[]), StageAction::PollLoading).unwrap();
    sch.register(String::from("c"), names(&[]), StageAction::PollLoading).unwrap();
    assert!(sch.finalize().is_ok());
    let order = sch.order().unwrap().clone();
    assert_eq!(order, vec![1, 2, 0]);
}

#[test]
fn finalize_handles_a_diamond() {
    let mut sch: StageScheduler<StageAction> = StageScheduler::new();
    sch.register(String::from("top"), names(&["left", "right"]), StageAction::PollLoading)
        .unwrap();
    sch.register(String::from("left"), names(&["base"]), StageAction::PollLoading).unwrap();
    sch.register(String::from("right"), names(&["base"]), StageAction::PollLoading).unwrap();
    sch.register(String::from("base"), names(&[]), StageAction::PollLoading).unwrap();
    assert!(sch.finalize().is_ok());
    let order = sch.order().unwrap().clone();
    assert_eq!(order, vec![3, 1, 2, 0]);
}

#[test]
fn finalize_on_an_empty_scheduler_yields_an_empty_order() {
    let mut sch: StageScheduler<StageAction> = StageScheduler::new();
    assert!(sch.finalize().is_ok());
    assert_eq!(sch.order().unwrap().clone(), Vec::<usize>::new());
}

#[test]
fn duplicate_stage_is_rejected() {
    let mut sch: StageScheduler<StageAction> = StageScheduler::new();
    sch.register(String::from("a"), names(&[]), StageAction::PollLoading).unwrap();
    let r = sch.register(String::from("a"), names(&[]), StageAction::PollLoading);
    assert_eq!(r, Err(ScheduleError::DuplicateStage));
    assert_eq!(sch.num_stages(), 1);
}

#[test]
fn unknown_dependency_fails_finalize_and_leaves_no_schedule() {
    let mut sch: StageScheduler<StageAction> = StageScheduler::new();
    sch.register(String::from("a"), names(&["missing"]), StageAction::PollLoading).unwrap();
    sch.register(String::from("b"), names(&[]), StageAction::PollLoading).unwrap();
    let r = sch.finalize();
    assert_eq!(r, Err(ScheduleError::UnknownDependency));
    assert!(sch.order().is_none());
}

#[test]
fn cycle_fails_finalize_and_leaves_no_schedule() {
    let mut sch: StageScheduler<StageAction> = StageScheduler::new();
    sch.register(String::from("a"), names(&["b"]), StageAction::PollLoading).unwrap();
    sch.register(String::from("b"), names(&["a"]), StageAction::PollLoading).unwrap();
    let r = sch.finalize();
    assert_eq!(r, Err(ScheduleError::CycleDetected));
    assert!(sch.order().is_none());
}

#[test]
fn self_cycle_is_detected() {
    let mut sch: StageScheduler<StageAction> = StageScheduler::new();
    sch.register(String::from("a"), names(&["a"]), StageAction::PollLoading).unwrap();
    let r = sch.finalize();
    assert_eq!(r, Err(ScheduleError::CycleDetected));
    assert!(sch.order().is_none());
}

#[test]
fn cycle_behind_acyclic_stages_is_still_detected() {
    let mut sch: StageScheduler<StageAction> = StageScheduler::new();
    sch.register(String::from("free"), names(&[]), StageAction::PollLoading).unwrap();
    sch.register(String::from("x"), names(&["y"]), StageAction::PollLoading).unwrap();
    sch.register(String::from("y"), names(&["x"]), StageAction::PollLoading).unwrap();
    assert_eq!(sch.finalize(), Err(ScheduleError::CycleDetected));
    assert!(sch.order().is_none());
}

#[test]
fn registering_after_finalize_invalidates_the_order() {
    let mut sch: StageScheduler<StageAction> = StageScheduler::new();
    sch.register(String::from("a"), names(&[]), StageAction::PollLoading).unwrap();
    assert!(sch.finalize().is_ok());
    assert!(sch.order().is_some());
    sch.register(String::from("b"), names(&["a"]), StageAction::PollLoading).unwrap();
    assert!(sch.order().is_none());
    assert!(sch.finalize().is_ok());
    assert_eq!(sch.order().unwrap().clone(), vec![0, 1]);
}
