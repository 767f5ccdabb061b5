use kurtosis_core::chunk::split_into_chunks;
use kurtosis_core::engine::{
    run_starlark_package, run_starlark_script, upload_starlark_package, EnclaveState, RunOptions,
    RunOutcome,
};
use kurtosis_core::events::{RunEvent, StarlarkError};
use kurtosis_core::ident::LookupError;

fn opts() -> RunOptions {
    RunOptions { dry_run: false, parallelism: 4, no_instruction_caching: false }
}

fn run(state: &mut EnclaveState, script: &[u8], o: &RunOptions) -> RunOutcome {
    run_starlark_script(state, &script.to_vec(), Vec::new(), b"run".to_vec(), o)
}

fn terminal_flag(out: &RunOutcome) -> bool {
    match out.log.events.last() {
        Some(RunEvent::RunFinishedEvent { is_run_successful, .. }) => *is_run_successful,
        _ => panic!("stream must end with the terminal event"),
    }
}

fn count_terminal(out: &RunOutcome) -> usize {
    out.log
        .events
        .iter()
        .filter(|e| matches!(e, RunEvent::RunFinishedEvent { .. }))
        .count()
}

#[test]
fn successful_run_creates_services() {
    let mut state = EnclaveState::new();
    let out = run(&mut state, b"add db postgres\nadd web nginx\nwait db web\n", &opts());
    assert!(out.success);
    assert!(terminal_flag(&out));
    assert_eq!(out.plan.len(), 3);
    assert!(out.skipped.iter().all(|s| !s));
    assert!(state.services.find_live_by_name(&b"db".to_vec()).is_some());
    assert!(state.services.find_live_by_name(&b"web".to_vec()).is_some());
}

#[test]
fn terminal_event_exactly_once_and_last_on_success() {
    let mut state = EnclaveState::new();
    let out = run(&mut state, b"add db postgres\n", &opts());
    assert!(out.success);
    assert_eq!(count_terminal(&out), 1);
    assert!(matches!(
        out.log.events.last(),
        Some(RunEvent::RunFinishedEvent { .. })
    ));
}

#[test]
fn terminal_event_exactly_once_and_last_on_failure() {
    let mut state = EnclaveState::new();
    // Interpretation failure, validation failure, execution failure: each
    // stream still ends with exactly one terminal event.
    let interp = run(&mut state, b"launch db\n", &opts());
    assert!(!interp.success);
    assert_eq!(count_terminal(&interp), 1);
    assert!(matches!(
        interp.log.events.last(),
        Some(RunEvent::RunFinishedEvent { .. })
    ));
    let valid = run(&mut state, b"add db a\nadd db b\n", &opts());
    assert!(!valid.success);
    assert_eq!(count_terminal(&valid), 1);
    let mut state2 = EnclaveState::new();
    run(&mut state2, b"add db postgres\n", &opts());
    let exec = run(&mut state2, b"add db mysql\n", &opts());
    assert!(!exec.success);
    assert_eq!(count_terminal(&exec), 1);
    assert!(matches!(
        exec.log.events.last(),
        Some(RunEvent::RunFinishedEvent { .. })
    ));
}

#[test]
fn interpretation_error_before_any_instruction() {
    let mut state = EnclaveState::new();
    let out = run(&mut state, b"add db postgres\nnonsense line\n", &opts());
    assert!(!out.success);
    assert!(!out.interpreted);
    assert_eq!(out.log.events.len(), 2);
    match &out.log.events[0] {
        RunEvent::Error { error: StarlarkError::InterpretationError { message } } => {
            // The offending 1-based line number, in decimal.
            assert_eq!(message, &b"2".to_vec());
        },
        _ => panic!("expected an interpretation error first"),
    }
    // Zero side effects.
    assert!(state.services.live_indexes().is_empty());
}

#[test]
fn validation_error_before_any_instruction() {
    let mut state = EnclaveState::new();
    let out = run(&mut state, b"add db a\nwait ghost\n", &opts());
    assert!(!out.success);
    assert!(out.interpreted);
    assert_eq!(out.log.events.len(), 2);
    assert!(matches!(
        &out.log.events[0],
        RunEvent::Error { error: StarlarkError::ValidationError { .. } }
    ));
    assert!(state.services.live_indexes().is_empty());
}

#[test]
fn execution_error_keeps_earlier_effects() {
    let mut state = EnclaveState::new();
    run(&mut state, b"add db postgres\n", &opts());
    let out = run(&mut state, b"add web nginx\nadd db mysql\n", &opts());
    assert!(!out.success);
    // The failing instruction is reported as an execution error just before
    // the terminal event.
    let n = out.log.events.len();
    assert!(matches!(
        &out.log.events[n - 2],
        RunEvent::Error { error: StarlarkError::ExecutionError { .. } }
    ));
    // Effects before the failure remain; no rollback.
    assert!(state.services.find_live_by_name(&b"web".to_vec()).is_some());
}

#[test]
fn identical_rerun_with_caching_skips_everything() {
    let mut state = EnclaveState::new();
    let script = b"add db postgres\nadd web nginx\nwait db web\n";
    let first = run(&mut state, script, &opts());
    assert!(first.success);
    assert!(first.skipped.iter().all(|s| !s));
    let services_before = state.services.all_identifiers();
    let second = run(&mut state, script, &opts());
    assert!(second.success);
    assert_eq!(second.cached_prefix, 3);
    assert_eq!(second.skipped, vec![true, true, true]);
    // Zero new side effects: no new identity records were minted.
    assert_eq!(state.services.all_identifiers(), services_before);
    // The announcements carry the skip flags.
    for e in &second.log.events {
        if let RunEvent::Instruction { is_skipped, .. } = e {
            assert!(*is_skipped);
        }
    }
}

#[test]
fn rerun_without_caching_reexecutes_everything() {
    let mut state = EnclaveState::new();
    let script = b"add db postgres\nadd web nginx\n";
    let first = run(&mut state, script, &opts());
    assert!(first.success);
    let no_cache = RunOptions { dry_run: false, parallelism: 4, no_instruction_caching: true };
    let second = run(&mut state, script, &no_cache);
    assert!(second.success);
    assert_eq!(second.skipped, vec![false, false]);
    let mut results = 0;
    for e in &second.log.events {
        if let RunEvent::Instruction { is_skipped, .. } = e {
            assert!(!*is_skipped);
        }
        if matches!(e, RunEvent::InstructionResult { .. }) {
            results += 1;
        }
    }
    assert_eq!(results, 2);
}

#[test]
fn extended_script_applies_only_the_delta() {
    let mut state = EnclaveState::new();
    run(&mut state, b"add db postgres\n", &opts());
    let out = run(&mut state, b"add db postgres\nadd web nginx\n", &opts());
    assert!(out.success);
    assert_eq!(out.cached_prefix, 1);
    assert_eq!(out.skipped, vec![true, false]);
}

#[test]
fn dry_run_skips_everything_and_changes_nothing() {
    let mut state = EnclaveState::new();
    let dry = RunOptions { dry_run: true, parallelism: 4, no_instruction_caching: false };
    let out = run(&mut state, b"add db postgres\nadd web nginx\n", &dry);
    assert!(out.success);
    assert_eq!(out.skipped, vec![true, true]);
    assert!(state.services.live_indexes().is_empty());
    // A dry run still validates.
    let bad = run(&mut state, b"add db a\nadd db b\n", &dry);
    assert!(!bad.success);
}

#[test]
fn dependent_instruction_announced_after_dependency_results() {
    // Three independent additions and one instruction depending on all of
    // them, at parallelism 3: the dependent instruction's announcement must
    // come after the completion of all three, by positions in the stream,
    // not by timing.
    let mut state = EnclaveState::new();
    let o = RunOptions { dry_run: false, parallelism: 3, no_instruction_caching: false };
    let out = run(&mut state, b"add a i1\nadd b i2\nadd c i3\nwait a b c\n", &o);
    assert!(out.success);
    let events = &out.log.events;
    let instr_pos = |idx: usize| {
        events
            .iter()
            .position(|e| matches!(e, RunEvent::Instruction { index, .. } if *index == idx))
            .expect("announced")
    };
    let result_pos = |idx: usize| {
        events
            .iter()
            .position(|e| matches!(e, RunEvent::InstructionResult { index, .. } if *index == idx))
            .expect("completed")
    };
    let wait_announced = instr_pos(3);
    for dep in 0..3 {
        assert!(result_pos(dep) < wait_announced);
        assert!(instr_pos(dep) < result_pos(dep));
    }
}

#[test]
fn removing_absent_service_is_a_no_op() {
    let mut state = EnclaveState::new();
    let out = run(&mut state, b"add db postgres\nrm db\nrm db\n", &opts());
    // rm of an absent service succeeds by design, so the whole run succeeds.
    assert!(out.success);
    assert!(state.services.find_live_by_name(&b"db".to_vec()).is_none());
}

#[test]
fn comments_and_blank_lines_are_ignored() {
    let mut state = EnclaveState::new();
    let out = run(&mut state, b"# a comment\n\nadd db postgres\n\n# done\n", &opts());
    assert!(out.success);
    assert_eq!(out.plan.len(), 1);
    assert_eq!(out.plan[0].line, 3);
}

#[test]
fn package_upload_and_run() {
    let mut state = EnclaveState::new();
    let script = b"add db postgres\n".to_vec();
    let chunks = split_into_chunks(&script, &b"my-package".to_vec());
    let (uuid, name) =
        upload_starlark_package(&mut state, &chunks, true).expect("package upload");
    assert_eq!(name, b"my-package".to_vec());
    let out = run_starlark_package(
        &mut state,
        &uuid,
        Vec::new(),
        b"main.star".to_vec(),
        b"run".to_vec(),
        &opts(),
    )
    .expect("package found");
    assert!(out.success);
    assert!(state.services.find_live_by_name(&b"db".to_vec()).is_some());
    let rr = state.last_run.as_ref().expect("run recorded");
    assert_eq!(rr.package_id, uuid);
    assert_eq!(rr.main_function_name, b"run".to_vec());
}

#[test]
fn package_run_unknown_identifier_not_found() {
    let mut state = EnclaveState::new();
    let r = run_starlark_package(
        &mut state,
        &b"missing".to_vec(),
        Vec::new(),
        b"main.star".to_vec(),
        b"run".to_vec(),
        &opts(),
    );
    assert!(matches!(r, Err(LookupError::NotFoundError)));
}

#[test]
fn run_record_tracks_last_script() {
    let mut state = EnclaveState::new();
    let o = RunOptions { dry_run: false, parallelism: 7, no_instruction_caching: true };
    run_starlark_script(
        &mut state,
        &b"add db postgres\n".to_vec(),
        b"{\"key\":1}".to_vec(),
        b"run".to_vec(),
        &o,
    );
    let rr = state.last_run.as_ref().expect("recorded");
    assert_eq!(rr.serialized_script, b"add db postgres\n".to_vec());
    assert_eq!(rr.serialized_params, b"{\"key\":1}".to_vec());
    assert_eq!(rr.parallelism, 7);
    assert!(rr.no_instruction_caching);
}

#[test]
fn in_flight_instructions_bounded_by_parallelism() {
    // Five independent additions at parallelism 2: in every prefix of the
    // stream, started-but-unfinished instructions never exceed 2.
    let mut state = EnclaveState::new();
    let o = RunOptions { dry_run: false, parallelism: 2, no_instruction_caching: false };
    let out = run(&mut state, b"add a 1\nadd b 2\nadd c 3\nadd d 4\nadd e 5\n", &o);
    assert!(out.success);
    let mut in_flight: i64 = 0;
    let mut peak: i64 = 0;
    for e in &out.log.events {
        match e {
            RunEvent::Instruction { is_skipped: false, .. } => in_flight += 1,
            RunEvent::InstructionResult { .. } => in_flight -= 1,
            _ => {},
        }
        assert!(in_flight <= 2);
        peak = peak.max(in_flight);
    }
    // The bound is tight: two instructions really do run concurrently.
    assert_eq!(peak, 2);
}

#[test]
fn fresh_additions_cannot_fail() {
    // A wait-free plan whose added names are all fresh is owed success.
    let mut state = EnclaveState::new();
    let out = run(&mut state, b"add a 1\nrm ghost\nadd b 2\nrm a\n", &opts());
    assert!(out.success);
    assert!(state.services.find_live_by_name(&b"a".to_vec()).is_none());
    assert!(state.services.find_live_by_name(&b"b".to_vec()).is_some());
}
