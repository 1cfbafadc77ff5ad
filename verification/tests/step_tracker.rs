use cppwatch::event::ExecutorEvent;
use cppwatch::watcher::{Config, Context};

fn test_config() -> Config {
    Config {
        watch_dir: "/tmp/src".to_string(),
        build_dir: "/tmp/src".to_string(),
        build_command: "make -j4".to_string(),
        test_command: "make test".to_string(),
        delay: None,
    }
}

#[test]
fn tracker_new_context_is_empty() {
    let ctx = Context::new(test_config());
    assert_eq!(ctx.steps.len(), 0);
    assert_eq!(ctx.steps_finished, 0);
    assert_eq!(ctx.task_num, 0);
    assert_eq!(ctx.steps_limit, 2);
}

#[test]
fn tracker_steps_limit_counts_nonempty_commands() {
    let mut only_build = test_config();
    only_build.test_command = String::new();
    assert_eq!(Context::new(only_build).steps_limit, 1);
    let mut none = test_config();
    none.build_command = String::new();
    none.test_command = String::new();
    assert_eq!(Context::new(none).steps_limit, 0);
}

#[test]
fn tracker_run_id_increments_once_per_run() {
    let mut ctx = Context::new(test_config());
    ctx.start_step(10);
    assert_eq!(ctx.task_num, 1);
    ctx.finish_step(true, 20);
    ctx.start_step(30);
    assert_eq!(ctx.task_num, 1);
    ctx.finish_step(true, 40);
    ctx.start_step(50);
    assert_eq!(ctx.task_num, 2);
}

#[test]
fn tracker_step_names_follow_ordinal() {
    let mut ctx = Context::new(test_config());
    assert_eq!(ctx.get_step_name(), "Build");
    ctx.start_step(0);
    assert_eq!(ctx.get_step_name(), "Test");
    ctx.start_step(1);
    assert_eq!(ctx.get_step_name(), "Unknown");
}

#[test]
fn tracker_two_passing_steps_emit_one_success() {
    let mut ctx = Context::new(test_config());
    ctx.start_step(0);
    let first = ctx.finish_step(true, 200);
    assert!(first.is_none());
    ctx.start_step(200);
    let second = ctx.finish_step(true, 500);
    match second {
        Some(ExecutorEvent::Success(id, steps)) => {
            assert_eq!(id, 1);
            assert_eq!(steps.len(), 2);
            assert_eq!(steps[0].name, "Build");
            assert_eq!(steps[1].name, "Test");
            assert!(steps[0].status);
            assert!(steps[1].status);
        }
        _ => panic!("expected exactly one success outcome"),
    }
    assert_eq!(ctx.steps.len(), 0);
    assert_eq!(ctx.steps_finished, 0);
}

#[test]
fn tracker_failing_second_step_emits_one_fail() {
    let mut ctx = Context::new(test_config());
    ctx.start_step(0);
    assert!(ctx.finish_step(true, 100).is_none());
    ctx.start_step(100);
    let outcome = ctx.finish_step(false, 150);
    match outcome {
        Some(ExecutorEvent::Fail(id, steps)) => {
            assert_eq!(id, 1);
            assert_eq!(steps.len(), 2);
            assert!(steps[0].status);
            assert!(!steps[1].status);
        }
        _ => panic!("expected exactly one fail outcome"),
    }
    assert_eq!(ctx.steps.len(), 0);
    assert_eq!(ctx.steps_finished, 0);
}

#[test]
fn tracker_first_step_fail_aborts_run() {
    let mut ctx = Context::new(test_config());
    ctx.start_step(0);
    let outcome = ctx.finish_step(false, 50);
    match outcome {
        Some(ExecutorEvent::Fail(id, steps)) => {
            assert_eq!(id, 1);
            assert_eq!(steps.len(), 1);
            assert!(!steps[0].status);
        }
        _ => panic!("expected a fail outcome"),
    }
    assert_eq!(ctx.steps.len(), 0);
}

#[test]
fn tracker_finish_on_empty_run_is_ignored() {
    let mut ctx = Context::new(test_config());
    assert!(ctx.finish_step(true, 5).is_none());
    assert_eq!(ctx.steps_finished, 0);
    assert_eq!(ctx.task_num, 0);
}

#[test]
fn tracker_steps_finished_never_exceeds_limit() {
    let mut ctx = Context::new(test_config());
    for round in 0u64..3 {
        ctx.start_step(round * 100);
        ctx.finish_step(true, round * 100 + 10);
        assert!(ctx.steps_finished <= ctx.steps_limit);
        ctx.start_step(round * 100 + 20);
        ctx.finish_step(true, round * 100 + 30);
        assert!(ctx.steps_finished <= ctx.steps_limit);
        assert_eq!(ctx.steps.len(), 0);
    }
}

#[test]
fn tracker_take_steps_and_reset() {
    let mut ctx = Context::new(test_config());
    ctx.start_step(1);
    let steps = ctx.take_steps();
    assert_eq!(steps.len(), 1);
    assert_eq!(ctx.steps.len(), 0);
    ctx.reset();
    assert_eq!(ctx.steps_finished, 0);
}

#[test]
fn tracker_single_command_run_finishes_in_one_step() {
    let mut only_build = test_config();
    only_build.test_command = String::new();
    let mut ctx = Context::new(only_build);
    ctx.start_step(0);
    match ctx.finish_step(true, 80) {
        Some(ExecutorEvent::Success(id, steps)) => {
            assert_eq!(id, 1);
            assert_eq!(steps.len(), 1);
            assert_eq!(steps[0].get_duration(), 80);
        }
        _ => panic!("expected a success outcome"),
    }
}
