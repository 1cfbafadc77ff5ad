use cppwatch::event::ExecutorEvent;
use cppwatch::filters::{Event, FileEventKind, ProcessEnd, Signal, Tag};
use cppwatch::watcher::{get_command_result, on_update, Config, Context, Decision};

fn config(delay: Option<u64>) -> Config {
    Config {
        watch_dir: "/tmp/src".to_string(),
        build_dir: "/tmp/src".to_string(),
        build_command: "make -j4".to_string(),
        test_command: "make test".to_string(),
        delay,
    }
}

fn ev(tags: Vec<Tag>) -> Event {
    Event { tags }
}

fn mod_event() -> Event {
    ev(vec![
        Tag::Path("main.c".to_string()),
        Tag::FileEventKind(FileEventKind::ModifyData),
    ])
}

fn stop_event() -> Event {
    ev(vec![Tag::Signal(Signal::Interrupt)])
}

fn completion(end: Option<ProcessEnd>) -> Event {
    ev(vec![Tag::ProcessCompletion(end)])
}

#[test]
fn engine_stop_beats_modification() {
    let mut ctx = Context::new(config(None));
    let batch = vec![stop_event(), mod_event()];
    let (decision, outcome) = on_update(&mut ctx, &batch, 0);
    assert_eq!(decision, Decision::Terminate);
    assert!(outcome.is_none());
    let reordered = vec![mod_event(), stop_event()];
    let (decision, outcome) = on_update(&mut ctx, &reordered, 0);
    assert_eq!(decision, Decision::Terminate);
    assert!(outcome.is_none());
}

#[test]
fn engine_restart_when_idle_carries_debounce() {
    let mut ctx = Context::new(config(Some(3)));
    let batch = vec![mod_event()];
    let (decision, outcome) = on_update(&mut ctx, &batch, 0);
    assert_eq!(decision, Decision::Restart { debounce: Some(3) });
    assert!(outcome.is_none());
    let mut no_delay = Context::new(config(None));
    let (decision, _) = on_update(&mut no_delay, &batch, 0);
    assert_eq!(decision, Decision::Restart { debounce: None });
}

#[test]
fn engine_coalesces_while_run_in_flight() {
    let mut ctx = Context::new(config(None));
    ctx.start_step(5);
    let batch = vec![mod_event()];
    let (decision, outcome) = on_update(&mut ctx, &batch, 40);
    assert_eq!(decision, Decision::Coalesce);
    assert!(outcome.is_none());
    assert_eq!(ctx.steps.len(), 1);
    assert_eq!(ctx.steps[0].start_at, 5);
    assert_eq!(ctx.steps[0].stop_at, 5);
    assert_eq!(ctx.task_num, 1);
}

#[test]
fn engine_combined_verdict_is_conjunction() {
    let mut ctx = Context::new(config(None));
    ctx.start_step(0);
    let batch = vec![
        completion(Some(ProcessEnd::Success)),
        completion(Some(ProcessEnd::ExitError)),
    ];
    let (decision, outcome) = on_update(&mut ctx, &batch, 90);
    assert_eq!(decision, Decision::Finish(false));
    match outcome {
        Some(ExecutorEvent::Fail(id, steps)) => {
            assert_eq!(id, 1);
            assert_eq!(steps.len(), 1);
            assert!(!steps[0].status);
        }
        _ => panic!("a failing combined verdict must finalize the run as a fail"),
    }
}

#[test]
fn engine_all_success_verdict_finishes_step() {
    let mut ctx = Context::new(config(None));
    ctx.start_step(0);
    let batch = vec![
        completion(Some(ProcessEnd::Success)),
        completion(Some(ProcessEnd::Success)),
    ];
    let (decision, outcome) = on_update(&mut ctx, &batch, 70);
    assert_eq!(decision, Decision::Finish(true));
    assert!(outcome.is_none());
    assert_eq!(ctx.steps_finished, 1);
}

#[test]
fn engine_ignores_unrecognized_batch() {
    let mut ctx = Context::new(config(None));
    let batch = vec![ev(vec![Tag::Other]), ev(vec![])];
    let (decision, outcome) = on_update(&mut ctx, &batch, 0);
    assert_eq!(decision, Decision::Ignore);
    assert!(outcome.is_none());
    assert_eq!(ctx.task_num, 0);
}

#[test]
fn engine_command_result_mapping() {
    assert_eq!(get_command_result(&completion(Some(ProcessEnd::Success))), Some(true));
    assert_eq!(get_command_result(&completion(Some(ProcessEnd::ExitError))), Some(false));
    assert_eq!(get_command_result(&completion(Some(ProcessEnd::Other))), Some(false));
    assert_eq!(get_command_result(&completion(None)), None);
    assert_eq!(get_command_result(&ev(vec![Tag::Other])), None);
}

#[test]
fn engine_first_completion_tag_decides() {
    let event = ev(vec![
        Tag::ProcessCompletion(None),
        Tag::ProcessCompletion(Some(ProcessEnd::Success)),
    ]);
    assert_eq!(get_command_result(&event), None);
}
