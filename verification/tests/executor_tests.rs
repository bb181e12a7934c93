use vshell::executor::{
    not_found_message, plan_pipeline, ExecutorState, InputSource, OutputSink, StageOutcome,
};
use vshell::parser::parse_input;

#[test]
fn pipe_overrides_mid_stage_stdout_redirection() {
    // for `cmd1 > f.txt | cmd2` the effective stdout of cmd1 is the pipe,
    // never f.txt: the plan never names the file for a mid stage
    let p = parse_input("cmd1 > f.txt | cmd2").unwrap();
    let plans = plan_pipeline(&p);
    assert_eq!(plans.len(), 2);
    assert!(plans[0].run);
    assert!(matches!(plans[0].stdout, OutputSink::PipeToNext));
    assert!(matches!(plans[0].stderr, OutputSink::Inherit));
    assert_eq!(plans[0].stdin, InputSource::ClosedInput);
    assert!(matches!(plans[1].stdout, OutputSink::Inherit));
    assert_eq!(plans[1].stdin, InputSource::PipeFromPrevious);
}

#[test]
fn last_stage_honors_its_redirection() {
    let p = parse_input("a | b > out.txt").unwrap();
    let plans = plan_pipeline(&p);
    match &plans[1].stdout {
        OutputSink::ToFile { name, append } => {
            assert_eq!(name, "out.txt");
            assert!(!append);
        }
        other => panic!("expected a file sink, got {other:?}"),
    }
}

#[test]
fn append_and_truncate_reach_the_plan() {
    // `echo hi > f` truncates, `echo bye >> f` appends
    let p = parse_input("echo hi > f").unwrap();
    let plans = plan_pipeline(&p);
    match &plans[0].stdout {
        OutputSink::ToFile { name, append } => {
            assert_eq!(name, "f");
            assert!(!append);
        }
        other => panic!("expected a file sink, got {other:?}"),
    }
    let p = parse_input("echo bye >> f").unwrap();
    let plans = plan_pipeline(&p);
    match &plans[0].stdout {
        OutputSink::ToFile { name, append } => {
            assert_eq!(name, "f");
            assert!(append);
        }
        other => panic!("expected a file sink, got {other:?}"),
    }
}

#[test]
fn stderr_redirection_is_honored_everywhere() {
    let p = parse_input("a 2> e1 | b 2>> e2").unwrap();
    let plans = plan_pipeline(&p);
    match &plans[0].stderr {
        OutputSink::ToFile { name, append } => {
            assert_eq!(name, "e1");
            assert!(!append);
        }
        other => panic!("expected a file sink, got {other:?}"),
    }
    match &plans[1].stderr {
        OutputSink::ToFile { name, append } => {
            assert_eq!(name, "e2");
            assert!(append);
        }
        other => panic!("expected a file sink, got {other:?}"),
    }
}

#[test]
fn degenerate_stage_is_skipped_and_pipe_state_kept() {
    let p = parse_input("a | | b").unwrap();
    let plans = plan_pipeline(&p);
    assert!(plans[0].run);
    assert!(!plans[1].run);
    assert!(plans[2].run);
    assert_eq!(plans[0].stdin, InputSource::ClosedInput);
    assert_eq!(plans[2].stdin, InputSource::PipeFromPrevious);
}

#[test]
fn single_stage_plan() {
    let p = parse_input("ls").unwrap();
    let plans = plan_pipeline(&p);
    assert_eq!(plans.len(), 1);
    assert!(plans[0].run);
    assert_eq!(plans[0].stdin, InputSource::ClosedInput);
    assert!(matches!(plans[0].stdout, OutputSink::Inherit));
    assert!(matches!(plans[0].stderr, OutputSink::Inherit));
}

#[test]
fn every_spawned_stage_is_reaped_in_spawn_order() {
    let mut state = ExecutorState::new(5);
    state.record(StageOutcome::ProcessSpawned);
    state.record(StageOutcome::BuiltinCompleted);
    state.record(StageOutcome::ProcessSpawned);
    state.record(StageOutcome::SkippedStage);
    state.record(StageOutcome::ProcessSpawned);
    assert!(state.dispatched_all());
    assert_eq!(state.reap_order(), vec![0, 2, 4]);
}

#[test]
fn failed_and_not_found_stages_leave_nothing_to_reap() {
    let mut state = ExecutorState::new(2);
    state.record(StageOutcome::SpawnFailed);
    state.record(StageOutcome::CommandNotFound);
    assert!(state.dispatched_all());
    assert_eq!(state.reap_order(), Vec::<usize>::new());
}

#[test]
fn not_found_text() {
    assert_eq!(not_found_message("frobnicate"), "frobnicate: command not found\n");
}
