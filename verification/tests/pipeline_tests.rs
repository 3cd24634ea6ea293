use django_scaffold::commands::{
    handle_project_command, request_is_valid, CreateProject, ProjectCommand, ProjectSubCommand,
};
use django_scaffold::pipeline::{
    build_environment_outcome, is_terminal, next_state, plan_build_environment,
    plan_remove_file, plan_stage_directory, process_outcome, stage_directory_outcome,
    PipelineState, StepOutcome,
};

/// Drive the machine from `Idle`, recording each non-terminal state whose
/// work would be performed, feeding it the next outcome of `outcomes`.
fn run_recording(outcomes: &[StepOutcome]) -> (PipelineState, Vec<PipelineState>) {
    let mut state = PipelineState::Idle;
    let mut visited = Vec::new();
    let mut i: usize = 0;
    // `Idle` performs no work; it steps straight to the first probe.
    state = next_state(state, StepOutcome::Success);
    while !is_terminal(state) && i < outcomes.len() {
        visited.push(state);
        state = next_state(state, outcomes[i]);
        i += 1;
    }
    (state, visited)
}

#[test]
fn successful_run_reaches_done_in_order() {
    let s = StepOutcome::Success;
    let (end, visited) = run_recording(&[s, s, s, s, s, s, s, s, s, s, s]);
    assert_eq!(end, PipelineState::Done);
    assert_eq!(
        visited,
        vec![
            PipelineState::ProbeInterpreter,
            PipelineState::ProbeIsolationTool,
            PipelineState::StageDirectory,
            PipelineState::CopyStaticAssets,
            PipelineState::EnterDirectory,
            PipelineState::BuildEnvironment,
            PipelineState::InvokeGenerator,
            PipelineState::OverlaySettings,
            PipelineState::OverlayUrls,
            PipelineState::OverlayEnv,
            PipelineState::OverlayApp,
        ]
    );
}

#[test]
fn generator_runs_only_after_directory_entered() {
    let s = StepOutcome::Success;
    let (_, visited) = run_recording(&[s, s, s, s, s, s, s, s, s, s, s]);
    let enter = visited
        .iter()
        .position(|x| *x == PipelineState::EnterDirectory)
        .unwrap();
    let generate = visited
        .iter()
        .position(|x| *x == PipelineState::InvokeGenerator)
        .unwrap();
    assert!(enter < generate);
}

#[test]
fn missing_interpreter_aborts_before_any_mutation() {
    let (end, visited) = run_recording(&[StepOutcome::Failure]);
    assert_eq!(end, PipelineState::Failed);
    // Only the probe itself ever ran: nothing that creates, installs or
    // generates was reached.
    assert_eq!(visited, vec![PipelineState::ProbeInterpreter]);
}

#[test]
fn missing_isolation_tool_tries_installer_then_fails() {
    let (end, visited) = run_recording(&[
        StepOutcome::Success,
        StepOutcome::Failure,
        StepOutcome::Failure,
    ]);
    assert_eq!(end, PipelineState::Failed);
    assert_eq!(
        visited,
        vec![
            PipelineState::ProbeInterpreter,
            PipelineState::ProbeIsolationTool,
            PipelineState::InstallIsolationTool,
        ]
    );
}

#[test]
fn existing_environment_is_skip_not_failure() {
    let next = next_state(PipelineState::BuildEnvironment, StepOutcome::AlreadyExists);
    assert_eq!(next, PipelineState::InvokeGenerator);
    assert_ne!(next, PipelineState::Failed);
}

#[test]
fn failed_settings_patch_still_runs_remaining_overlays() {
    let f = StepOutcome::Failure;
    let mut state = PipelineState::OverlaySettings;
    let mut visited = Vec::new();
    for o in [f, f, f, f] {
        visited.push(state);
        state = next_state(state, o);
    }
    assert_eq!(state, PipelineState::Done);
    assert_eq!(
        visited,
        vec![
            PipelineState::OverlaySettings,
            PipelineState::OverlayUrls,
            PipelineState::OverlayEnv,
            PipelineState::OverlayApp,
        ]
    );
}

#[test]
fn directory_staging_is_idempotent() {
    // First run: the directory is absent, so it is created.
    assert!(plan_stage_directory(false));
    let first = stage_directory_outcome(false, true);
    assert_eq!(first, StepOutcome::Success);
    // Second run with the same name: the directory now exists; nothing is
    // created and the outcome is a skip, not a failure.
    assert!(!plan_stage_directory(true));
    let second = stage_directory_outcome(true, false);
    assert_eq!(second, StepOutcome::AlreadyExists);
    assert_ne!(second, StepOutcome::Failure);
    assert_eq!(
        next_state(PipelineState::StageDirectory, second),
        PipelineState::CopyStaticAssets
    );
}

#[test]
fn environment_builder_decisions() {
    assert!(plan_build_environment(false));
    assert!(!plan_build_environment(true));
    assert_eq!(
        build_environment_outcome(true, false, false),
        StepOutcome::AlreadyExists
    );
    assert_eq!(
        build_environment_outcome(false, true, true),
        StepOutcome::Success
    );
    assert_eq!(
        build_environment_outcome(false, true, false),
        StepOutcome::Failure
    );
    assert_eq!(
        build_environment_outcome(false, false, false),
        StepOutcome::Failure
    );
}

#[test]
fn process_outcome_classifies_launch_and_exit() {
    assert_eq!(process_outcome(true, true), StepOutcome::Success);
    assert_eq!(process_outcome(true, false), StepOutcome::Failure);
    assert_eq!(process_outcome(false, true), StepOutcome::Failure);
}

#[test]
fn removal_of_missing_file_is_skipped() {
    assert!(plan_remove_file(true));
    assert!(!plan_remove_file(false));
}

#[test]
fn terminal_states_absorb() {
    for o in [
        StepOutcome::Success,
        StepOutcome::Failure,
        StepOutcome::AlreadyExists,
    ] {
        assert_eq!(next_state(PipelineState::Done, o), PipelineState::Done);
        assert_eq!(next_state(PipelineState::Failed, o), PipelineState::Failed);
    }
    assert!(is_terminal(PipelineState::Done));
    assert!(is_terminal(PipelineState::Failed));
    assert!(!is_terminal(PipelineState::Idle));
}

#[test]
fn project_command_unpacks_to_request() {
    let cmd = ProjectCommand {
        command: ProjectSubCommand::Create(CreateProject {
            name: "blog".to_string(),
        }),
    };
    let request = handle_project_command(cmd);
    assert_eq!(request.name, "blog");
    assert!(request_is_valid(&request));
    assert!(!request_is_valid(&CreateProject {
        name: String::new()
    }));
}
