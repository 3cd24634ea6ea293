//! The provisioning pipeline as an explicit state machine.
//!
//! The orchestrator alternates outside work (process invocations, filesystem
//! changes) with decisions.  The decisions live here: from the current state
//! and the outcome of the last step, `next_state` yields the next state.  The
//! caller performs the outside work for each state and reports an outcome.

use vstd::prelude::*;

verus! {

/// A stage of the provisioning pipeline.  The machine walks the stages in
/// order, short-circuiting into `Failed` on a fatal outcome; overlay stages
/// are best-effort and never fail the run.
#[derive(Clone, Copy, Debug, PartialEq, Eq, Structural)]
pub enum PipelineState {
    /// Nothing has happened yet.
    Idle,
    /// Check that the required interpreter resolves on the search path.
    ProbeInterpreter,
    /// Check that the isolation tool resolves on the search path.
    ProbeIsolationTool,
    /// Install the isolation tool through the interpreter's package manager.
    InstallIsolationTool,
    /// Create the project root directory (skip when it already exists).
    StageDirectory,
    /// Copy the static assets (container definitions, dependency manifest).
    CopyStaticAssets,
    /// Change the working directory into the project root.
    EnterDirectory,
    /// Create the isolation environment (skip when one already exists).
    BuildEnvironment,
    /// Run the external project generator inside the project root.
    InvokeGenerator,
    /// Patch and install the settings file.
    OverlaySettings,
    /// Install the URL-routing file.
    OverlayUrls,
    /// Install the environment-variable file.
    OverlayEnv,
    /// Install the starter application module.
    OverlayApp,
    /// The pipeline ran to completion.
    Done,
    /// The pipeline aborted on a fatal step.
    Failed,
}

/// What a single step reported back.
#[derive(Clone, Copy, Debug, PartialEq, Eq, Structural)]
pub enum StepOutcome {
    /// The step did its work and the work succeeded.
    Success,
    /// The step attempted its work and the work failed.
    Failure,
    /// The step found its goal already satisfied and did nothing.
    AlreadyExists,
}

/// The transition relation of the pipeline.
///
/// Probes, the installer, directory staging, the working-directory change
/// and the generator invocation are fatal on `Failure`; a failed probe of
/// the isolation tool first tries the installer.  `AlreadyExists` is always
/// a skip, never an error.  The overlay stages and the static-asset copy
/// proceed whatever their outcome.  `Done` and `Failed` absorb.
pub open spec fn next_spec(s: PipelineState, o: StepOutcome) -> PipelineState {
    match s {
        PipelineState::Idle => PipelineState::ProbeInterpreter,
        PipelineState::ProbeInterpreter => if o == StepOutcome::Failure {
            PipelineState::Failed
        } else {
            PipelineState::ProbeIsolationTool
        },
        PipelineState::ProbeIsolationTool => if o == StepOutcome::Failure {
            PipelineState::InstallIsolationTool
        } else {
            PipelineState::StageDirectory
        },
        PipelineState::InstallIsolationTool => if o == StepOutcome::Failure {
            PipelineState::Failed
        } else {
            PipelineState::StageDirectory
        },
        PipelineState::StageDirectory => if o == StepOutcome::Failure {
            PipelineState::Failed
        } else {
            PipelineState::CopyStaticAssets
        },
        PipelineState::CopyStaticAssets => PipelineState::EnterDirectory,
        PipelineState::EnterDirectory => if o == StepOutcome::Failure {
            PipelineState::Failed
        } else {
            PipelineState::BuildEnvironment
        },
        PipelineState::BuildEnvironment => if o == StepOutcome::Failure {
            PipelineState::Failed
        } else {
            PipelineState::InvokeGenerator
        },
        PipelineState::InvokeGenerator => if o == StepOutcome::Failure {
            PipelineState::Failed
        } else {
            PipelineState::OverlaySettings
        },
        PipelineState::OverlaySettings => PipelineState::OverlayUrls,
        PipelineState::OverlayUrls => PipelineState::OverlayEnv,
        PipelineState::OverlayEnv => PipelineState::OverlayApp,
        PipelineState::OverlayApp => PipelineState::Done,
        PipelineState::Done => PipelineState::Done,
        PipelineState::Failed => PipelineState::Failed,
    }
}

/// Step the pipeline: from the current state and the outcome the caller
/// observed for that state's work, compute the next state.
pub fn next_state(s: PipelineState, o: StepOutcome) -> (r: PipelineState)
    ensures
        r == next_spec(s, o),
{
    match s {
        PipelineState::Idle => PipelineState::ProbeInterpreter,
        PipelineState::ProbeInterpreter => if o == StepOutcome::Failure {
            PipelineState::Failed
        } else {
            PipelineState::ProbeIsolationTool
        },
        PipelineState::ProbeIsolationTool => if o == StepOutcome::Failure {
            PipelineState::InstallIsolationTool
        } else {
            PipelineState::StageDirectory
        },
        PipelineState::InstallIsolationTool => if o == StepOutcome::Failure {
            PipelineState::Failed
        } else {
            PipelineState::StageDirectory
        },
        PipelineState::StageDirectory => if o == StepOutcome::Failure {
            PipelineState::Failed
        } else {
            PipelineState::CopyStaticAssets
        },
        PipelineState::CopyStaticAssets => PipelineState::EnterDirectory,
        PipelineState::EnterDirectory => if o == StepOutcome::Failure {
            PipelineState::Failed
        } else {
            PipelineState::BuildEnvironment
        },
        PipelineState::BuildEnvironment => if o == StepOutcome::Failure {
            PipelineState::Failed
        } else {
            PipelineState::InvokeGenerator
        },
        PipelineState::InvokeGenerator => if o == StepOutcome::Failure {
            PipelineState::Failed
        } else {
            PipelineState::OverlaySettings
        },
        PipelineState::OverlaySettings => PipelineState::OverlayUrls,
        PipelineState::OverlayUrls => PipelineState::OverlayEnv,
        PipelineState::OverlayEnv => PipelineState::OverlayApp,
        PipelineState::OverlayApp => PipelineState::Done,
        PipelineState::Done => PipelineState::Done,
        PipelineState::Failed => PipelineState::Failed,
    }
}

/// True for the two absorbing states, where the run is over.
pub open spec fn is_terminal_spec(s: PipelineState) -> bool {
    s == PipelineState::Done || s == PipelineState::Failed
}

/// Whether the run is over.
pub fn is_terminal(s: PipelineState) -> (r: bool)
    ensures
        r == is_terminal_spec(s),
{
    match s {
        PipelineState::Done => true,
        PipelineState::Failed => true,
        _ => false,
    }
}

/// The state reached from `s` after consuming the outcomes in `outs`.
pub open spec fn run_from(s: PipelineState, outs: Seq<StepOutcome>) -> PipelineState
    decreases outs.len(),
{
    if outs.len() == 0 {
        s
    } else {
        run_from(next_spec(s, outs[0]), outs.skip(1))
    }
}

proof fn lemma_run_from_snoc(s: PipelineState, outs: Seq<StepOutcome>, o: StepOutcome)
    ensures
        run_from(s, outs.push(o)) == next_spec(run_from(s, outs), o),
    decreases outs.len(),
{
    reveal_with_fuel(run_from, 3);
    if outs.len() == 0 {
        assert(outs.push(o)[0] == o);
        assert(outs.push(o).skip(1) =~= Seq::<StepOutcome>::empty());
    } else {
        assert(outs.push(o)[0] == outs[0]);
        assert(outs.push(o).skip(1) =~= outs.skip(1).push(o));
        lemma_run_from_snoc(next_spec(s, outs[0]), outs.skip(1), o);
    }
}

/// How many steps separate a state from `Done` when nothing fails.
pub open spec fn steps_remaining(s: PipelineState) -> nat {
    match s {
        PipelineState::Idle => 12,
        PipelineState::ProbeInterpreter => 11,
        PipelineState::ProbeIsolationTool => 10,
        PipelineState::InstallIsolationTool => 10,
        PipelineState::StageDirectory => 9,
        PipelineState::CopyStaticAssets => 8,
        PipelineState::EnterDirectory => 7,
        PipelineState::BuildEnvironment => 6,
        PipelineState::InvokeGenerator => 5,
        PipelineState::OverlaySettings => 4,
        PipelineState::OverlayUrls => 3,
        PipelineState::OverlayEnv => 2,
        PipelineState::OverlayApp => 1,
        PipelineState::Done => 0,
        PipelineState::Failed => 0,
    }
}

/// Law: completion is owed.  From any state but `Failed`, a run whose
/// every outcome is a success or a skip ends in `Done` — no non-failing
/// outcome, an existing directory or environment included, can derail
/// the pipeline.
pub proof fn lemma_nonfailing_run_completes(s: PipelineState, outs: Seq<StepOutcome>)
    requires
        s != PipelineState::Failed,
        outs.len() == steps_remaining(s),
        forall|j: int| 0 <= j < outs.len() ==> outs[j] != StepOutcome::Failure,
    ensures
        run_from(s, outs) == PipelineState::Done,
    decreases outs.len(),
{
    if outs.len() == 0 {
        assert(s == PipelineState::Done);
    } else {
        let next = next_spec(s, outs[0]);
        assert(next != PipelineState::Failed);
        assert(steps_remaining(next) == steps_remaining(s) - 1);
        assert(forall|j: int|
            0 <= j < outs.skip(1).len() ==> #[trigger] outs.skip(1)[j] != StepOutcome::Failure)
            by {
            assert(forall|j: int| 0 <= j < outs.skip(1).len() ==> outs.skip(1)[j] == outs[j + 1]);
        }
        lemma_nonfailing_run_completes(next, outs.skip(1));
    }
}

/// The states that lie strictly beyond the working-directory change.
pub open spec fn past_entry(s: PipelineState) -> bool {
    s == PipelineState::BuildEnvironment || s == PipelineState::InvokeGenerator
        || s == PipelineState::OverlaySettings || s == PipelineState::OverlayUrls
        || s == PipelineState::OverlayEnv || s == PipelineState::OverlayApp
        || s == PipelineState::Done
}

/// A state beyond the working-directory change is only ever entered from
/// another such state, or from `EnterDirectory` on a non-failing outcome.
proof fn lemma_past_entry_step(s: PipelineState, o: StepOutcome)
    requires
        past_entry(next_spec(s, o)),
    ensures
        past_entry(s) || (s == PipelineState::EnterDirectory && o != StepOutcome::Failure),
{
}

/// Law: the generator never runs before the working directory has been
/// changed into the project root.  Whenever a run from the initial state
/// stands at `InvokeGenerator`, some earlier step was `EnterDirectory`
/// and its outcome was not a failure.
pub proof fn lemma_generator_after_entry(outs: Seq<StepOutcome>, k: int)
    requires
        0 <= k <= outs.len(),
        past_entry(run_from(PipelineState::Idle, outs.take(k))),
    ensures
        exists|j: int|
            0 <= j < k && run_from(PipelineState::Idle, outs.take(j)) == PipelineState::EnterDirectory
                && outs[j] != StepOutcome::Failure,
    decreases k,
{
    if k == 0 {
        assert(outs.take(0) =~= Seq::<StepOutcome>::empty());
        assert(run_from(PipelineState::Idle, outs.take(0)) == PipelineState::Idle);
    } else {
        assert(outs.take(k) =~= outs.take(k - 1).push(outs[k - 1]));
        lemma_run_from_snoc(PipelineState::Idle, outs.take(k - 1), outs[k - 1]);
        let prev = run_from(PipelineState::Idle, outs.take(k - 1));
        lemma_past_entry_step(prev, outs[k - 1]);
        if prev == PipelineState::EnterDirectory && outs[k - 1] != StepOutcome::Failure {
            assert(run_from(PipelineState::Idle, outs.take(k - 1))
                == PipelineState::EnterDirectory && outs[k - 1] != StepOutcome::Failure);
        } else {
            lemma_generator_after_entry(outs, k - 1);
            let j = choose|j: int|
                0 <= j < k - 1 && run_from(PipelineState::Idle, outs.take(j))
                    == PipelineState::EnterDirectory && outs[j] != StepOutcome::Failure;
            assert(0 <= j < k && run_from(PipelineState::Idle, outs.take(j))
                == PipelineState::EnterDirectory && outs[j] != StepOutcome::Failure);
        }
    }
}

/// Law: an isolation environment that already exists is a skip, not a
/// failure.  The builder's `AlreadyExists` outcome moves the pipeline
/// straight on to the generator, never into `Failed`.
pub proof fn lemma_existing_environment_is_skip()
    ensures
        next_spec(PipelineState::BuildEnvironment, StepOutcome::AlreadyExists)
            == PipelineState::InvokeGenerator,
        next_spec(PipelineState::BuildEnvironment, StepOutcome::AlreadyExists)
            != PipelineState::Failed,
{
}

/// Law: overlays are best-effort.  From the settings overlay on, the
/// pipeline reaches `Done` whatever the four overlay steps report; in
/// particular a failed settings patch never blocks the later overlays.
pub proof fn lemma_overlays_best_effort(o1: StepOutcome, o2: StepOutcome, o3: StepOutcome, o4: StepOutcome)
    ensures
        run_from(PipelineState::OverlaySettings, seq![o1, o2, o3, o4]) == PipelineState::Done,
{
    reveal_with_fuel(run_from, 6);
    let outs = seq![o1, o2, o3, o4];
    assert(outs.skip(1) =~= seq![o2, o3, o4]);
    assert(outs.skip(1).skip(1) =~= seq![o3, o4]);
    assert(outs.skip(1).skip(1).skip(1) =~= seq![o4]);
    assert(outs.skip(1).skip(1).skip(1).skip(1) =~= Seq::<StepOutcome>::empty());
}

/// The states whose work changes anything on the machine: installing the
/// isolation tool, every filesystem step, and every child process that is
/// not a mere probe.
pub open spec fn state_mutates(s: PipelineState) -> bool {
    s == PipelineState::InstallIsolationTool || s == PipelineState::StageDirectory
        || s == PipelineState::CopyStaticAssets || s == PipelineState::EnterDirectory
        || s == PipelineState::BuildEnvironment || s == PipelineState::InvokeGenerator
        || s == PipelineState::OverlaySettings || s == PipelineState::OverlayUrls
        || s == PipelineState::OverlayEnv || s == PipelineState::OverlayApp
}

/// Law: with the interpreter absent, the pipeline aborts at the probe and
/// mutates nothing.  When the first observed outcome is a failure, every
/// state the run ever stands in is the probe itself or `Failed`; no
/// directory is staged and no installer or generator process is reached.
pub proof fn lemma_missing_interpreter_mutates_nothing(outs: Seq<StepOutcome>, k: int)
    requires
        outs.len() >= 1,
        outs[0] == StepOutcome::Failure,
        0 <= k <= outs.len(),
    ensures
        k == 0 ==> run_from(PipelineState::ProbeInterpreter, outs.take(k))
            == PipelineState::ProbeInterpreter,
        k >= 1 ==> run_from(PipelineState::ProbeInterpreter, outs.take(k)) == PipelineState::Failed,
        !state_mutates(run_from(PipelineState::ProbeInterpreter, outs.take(k))),
    decreases k,
{
    if k == 0 {
        assert(outs.take(0) =~= Seq::<StepOutcome>::empty());
    } else {
        assert(outs.take(k) =~= outs.take(k - 1).push(outs[k - 1]));
        lemma_run_from_snoc(PipelineState::ProbeInterpreter, outs.take(k - 1), outs[k - 1]);
        lemma_missing_interpreter_mutates_nothing(outs, k - 1);
        if k == 1 {
            assert(outs.take(0) =~= Seq::<StepOutcome>::empty());
            assert(outs[0] == StepOutcome::Failure);
        }
    }
}

/// A model of the directory set while staging the project root: creation
/// inserts the name when it is absent and reports `AlreadyExists` when it
/// is present, never failing on a directory that is already there.
pub open spec fn stage_directory_model(dirs: Set<Seq<char>>, name: Seq<char>) -> (Set<
    Seq<char>,
>, StepOutcome) {
    if dirs.contains(name) {
        (dirs, StepOutcome::AlreadyExists)
    } else {
        (dirs.insert(name), StepOutcome::Success)
    }
}

/// Law: directory creation is idempotent.  Staging the same name twice
/// leaves exactly the directories of the first staging — one new directory
/// — and the second staging reports a skip, never a failure.
pub proof fn lemma_stage_directory_idempotent(dirs: Set<Seq<char>>, name: Seq<char>)
    ensures
        ({
            let (d1, o1) = stage_directory_model(dirs, name);
            let (d2, o2) = stage_directory_model(d1, name);
            d2 == d1 && d1.contains(name) && o2 == StepOutcome::AlreadyExists
                && o2 != StepOutcome::Failure && next_spec(PipelineState::StageDirectory, o2)
                != PipelineState::Failed
        }),
{
}

/// Staging decision: create the project root only when it is absent.
pub fn plan_stage_directory(dir_exists: bool) -> (create: bool)
    ensures
        create == !dir_exists,
{
    !dir_exists
}

/// Classify the staging step: an existing directory is a skip, an absent
/// one is created and reports the creation's own success or failure.
pub fn stage_directory_outcome(dir_exists: bool, created: bool) -> (o: StepOutcome)
    ensures
        o == if dir_exists {
            StepOutcome::AlreadyExists
        } else if created {
            StepOutcome::Success
        } else {
            StepOutcome::Failure
        },
{
    if dir_exists {
        StepOutcome::AlreadyExists
    } else if created {
        StepOutcome::Success
    } else {
        StepOutcome::Failure
    }
}

/// Builder decision: materialize the isolation environment only when none
/// exists yet in the project root.
pub fn plan_build_environment(env_exists: bool) -> (invoke: bool)
    ensures
        invoke == !env_exists,
{
    !env_exists
}

/// Classify the builder step: an existing environment is a skip; otherwise
/// the isolation tool ran and its exit status decides.
pub fn build_environment_outcome(env_exists: bool, launched: bool, exit_success: bool) -> (o:
    StepOutcome)
    ensures
        o == if env_exists {
            StepOutcome::AlreadyExists
        } else if launched && exit_success {
            StepOutcome::Success
        } else {
            StepOutcome::Failure
        },
{
    if env_exists {
        StepOutcome::AlreadyExists
    } else if launched && exit_success {
        StepOutcome::Success
    } else {
        StepOutcome::Failure
    }
}

/// Classify a plain child process: it succeeded only when it could be
/// launched at all and exited successfully; a failure to launch counts the
/// same as a failing exit.
pub fn process_outcome(launched: bool, exit_success: bool) -> (o: StepOutcome)
    ensures
        o == if launched && exit_success {
            StepOutcome::Success
        } else {
            StepOutcome::Failure
        },
{
    if launched && exit_success {
        StepOutcome::Success
    } else {
        StepOutcome::Failure
    }
}

/// Overlay decision: remove the generator's artifact only when it exists;
/// removing a file that is not there counts as already done.
pub fn plan_remove_file(file_exists: bool) -> (attempt: bool)
    ensures
        attempt == file_exists,
{
    file_exists
}

} // verus!
