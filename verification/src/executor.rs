//! The pipeline executor's decisions: how each stage's standard streams
//! are wired, and in what order spawned processes are reaped.
//!
//! The executor itself — creating pipes, opening files, spawning and
//! waiting — lives outside the library. It asks [`plan_pipeline`] how to
//! wire every stage, and records each stage's outcome in an
//! [`ExecutorState`], whose [`reap_order`](ExecutorState::reap_order)
//! then names every spawned process, in spawn order, so none is left
//! unwaited.

use vstd::prelude::*;
use vstd::string::StringExecFns;

use crate::parser::{CommandModel, ParsedCommand, RedirectionModel, pipeline_view};

verus! {

/// Where a stage reads its standard input from.
#[derive(Clone, Copy, Debug, PartialEq, Eq, Structural)]
pub enum InputSource {
    /// No earlier stage feeds this one: input is empty and closed.
    ClosedInput,
    /// The read end of the pipe fed by the nearest earlier running stage.
    PipeFromPrevious,
}

/// Where a stage's output stream goes.
#[derive(Clone, Debug)]
pub enum OutputSink {
    /// The stream's inherited default destination.
    Inherit,
    /// The named file, created if absent; appended to or truncated as
    /// `append` says.
    ToFile { name: String, append: bool },
    /// The write end of the pipe feeding the next stage.
    PipeToNext,
}

/// The wiring of one pipeline stage.
#[derive(Clone, Debug)]
pub struct StagePlan {
    /// Whether the stage runs at all: a stage without arguments is a
    /// degenerate segment and is skipped.
    pub run: bool,
    pub stdin: InputSource,
    pub stdout: OutputSink,
    pub stderr: OutputSink,
}

/// Whether `sink` is what redirection `r` asks for when no pipe
/// overrides it: the named file, or the inherited stream.
pub open spec fn sink_matches(sink: OutputSink, r: RedirectionModel) -> bool {
    match r.file_name {
        Some(f) => sink matches OutputSink::ToFile { name, append } && name@ == f && append
            == r.append_to,
        None => sink matches OutputSink::Inherit,
    }
}

/// Some stage before `i` carries arguments, and so runs and feeds the
/// pipe chain.
pub open spec fn runnable_before(stages: Seq<CommandModel>, i: int) -> bool {
    exists|j: int| 0 <= j < i && stages[j].tokens is Some
}

/// The wiring of stage `i` of `n`: it runs exactly when it has
/// arguments; it reads the pipe exactly when an earlier stage runs; its
/// stdout is the pipe to the next stage on every stage but the last —
/// overriding any parsed stdout redirection — and on the last stage
/// follows the redirection; its stderr always follows the redirection.
pub open spec fn plan_matches(plan: StagePlan, cmd: CommandModel, i: int, n: int, stages: Seq<CommandModel>) -> bool {
    &&& plan.run == (cmd.tokens is Some)
    &&& plan.stdin == (if runnable_before(stages, i) {
        InputSource::PipeFromPrevious
    } else {
        InputSource::ClosedInput
    })
    &&& (if i < n - 1 {
        plan.stdout matches OutputSink::PipeToNext
    } else {
        sink_matches(plan.stdout, cmd.stdout)
    })
    &&& sink_matches(plan.stderr, cmd.stderr)
}

/// A mid-pipeline stage's effective stdout is the pipe to the next
/// stage, whatever its parsed stdout redirection says: its target file
/// is never opened. Only the last stage's stdout redirection is honored.
pub proof fn lemma_pipe_overrides_redirection(
    plan: StagePlan,
    cmd: CommandModel,
    i: int,
    n: int,
    stages: Seq<CommandModel>,
)
    requires
        plan_matches(plan, cmd, i, n, stages),
        i < n - 1,
    ensures
        plan.stdout matches OutputSink::PipeToNext,
{
}

/// The sink a redirection asks for, with no pipe overriding it.
fn sink_of(r: &crate::parser::OutputRedirection) -> (sink: OutputSink)
    ensures
        sink_matches(sink, r@),
{
    match &r.file_name {
        Some(f) => OutputSink::ToFile { name: f.clone(), append: r.append_to },
        None => OutputSink::Inherit,
    }
}

/// Compute the wiring of every stage of a parsed pipeline.
pub fn plan_pipeline(pipeline: &Vec<ParsedCommand>) -> (r: Vec<StagePlan>)
    ensures
        r@.len() == pipeline@.len(),
        forall|i: int|
            0 <= i < pipeline@.len() ==> plan_matches(
                #[trigger] r@[i],
                pipeline@[i]@,
                i,
                pipeline@.len() as int,
                pipeline_view(pipeline@),
            ),
{
    let ghost stages = pipeline_view(pipeline@);
    let n = pipeline.len();
    let mut plans: Vec<StagePlan> = Vec::new();
    let mut seen_runnable = false;
    let mut i: usize = 0;
    while i < n
        invariant
            i <= n,
            n == pipeline@.len(),
            stages == pipeline_view(pipeline@),
            plans@.len() == i,
            seen_runnable == runnable_before(stages, i as int),
            forall|j: int|
                0 <= j < i ==> plan_matches(
                    #[trigger] plans@[j],
                    pipeline@[j]@,
                    j,
                    n as int,
                    stages,
                ),
        decreases n - i,
    {
        let cmd = &pipeline[i];
        let run = cmd.tokens.is_some();
        proof {
            assert(stages[i as int] == pipeline@[i as int]@);
        }
        let stdin = if seen_runnable {
            InputSource::PipeFromPrevious
        } else {
            InputSource::ClosedInput
        };
        let stdout = if i + 1 < n {
            OutputSink::PipeToNext
        } else {
            sink_of(&cmd.stdout)
        };
        let stderr = sink_of(&cmd.stderr);
        plans.push(StagePlan { run, stdin, stdout, stderr });
        seen_runnable = seen_runnable || run;
        i = i + 1;
        proof {
            assert(seen_runnable == runnable_before(stages, i as int));
        }
    }
    plans
}

/// How the dispatch of one stage ended.
#[derive(Clone, Copy, Debug, PartialEq, Eq, Structural)]
pub enum StageOutcome {
    /// The stage had no arguments and was skipped.
    SkippedStage,
    /// A builtin ran synchronously to completion.
    BuiltinCompleted,
    /// An external process was spawned and must later be reaped.
    ProcessSpawned,
    /// The spawn failed; no process exists for this stage.
    SpawnFailed,
    /// The command resolved to nothing; the stage only reported it.
    CommandNotFound,
}

/// Dispatch bookkeeping across a pipeline's stages: which stage is next,
/// and which stages hold a live process handle, in spawn order.
pub struct ExecutorState {
    pub total: usize,
    pub next_stage: usize,
    pub spawned: Vec<usize>,
}

impl ExecutorState {
    /// Stages dispatched so far stand in order, each recorded at most
    /// once, all before `next_stage`, which never passes `total`.
    pub open spec fn wf(self) -> bool {
        &&& self.next_stage <= self.total
        &&& forall|i: int| 0 <= i < self.spawned@.len() ==> #[trigger] self.spawned@[i]
            < self.next_stage
        &&& forall|i: int, j: int|
            0 <= i < j < self.spawned@.len() ==> self.spawned@[i] < self.spawned@[j]
    }

    /// Start dispatching a pipeline of `total` stages.
    pub fn new(total: usize) -> (r: ExecutorState)
        ensures
            r.wf(),
            r.total == total,
            r.next_stage == 0,
            r.spawned@ == Seq::<usize>::empty(),
    {
        ExecutorState { total, next_stage: 0, spawned: Vec::new() }
    }

    /// Record the outcome of the next stage. Exactly the spawned stages
    /// join the reap list, in dispatch order.
    pub fn record(&mut self, outcome: StageOutcome)
        requires
            old(self).wf(),
            old(self).next_stage < old(self).total,
        ensures
            final(self).wf(),
            final(self).total == old(self).total,
            final(self).next_stage == old(self).next_stage + 1,
            final(self).spawned@ == (if outcome == StageOutcome::ProcessSpawned {
                old(self).spawned@.push(old(self).next_stage)
            } else {
                old(self).spawned@
            }),
    {
        if matches!(outcome, StageOutcome::ProcessSpawned) {
            let stage = self.next_stage;
            self.spawned.push(stage);
        }
        self.next_stage = self.next_stage + 1;
    }

    /// Whether every stage has been dispatched.
    pub fn dispatched_all(&self) -> (r: bool)
        ensures
            r == (self.next_stage == self.total),
    {
        self.next_stage == self.total
    }

    /// The stages whose processes must now be waited on, in spawn order:
    /// exactly those recorded as spawned, so no process is left behind
    /// once the caller has waited on each.
    pub fn reap_order(self) -> (r: Vec<usize>)
        requires
            self.wf(),
            self.next_stage == self.total,
        ensures
            r@ == self.spawned@,
            forall|i: int| 0 <= i < r@.len() ==> #[trigger] r@[i] < self.total,
            forall|i: int, j: int| 0 <= i < j < r@.len() ==> r@[i] < r@[j],
    {
        self.spawned
    }
}

/// The error line written when a stage's command resolves to nothing.
pub fn not_found_message(command: &str) -> (r: String)
    ensures
        r@ == command@ + ": command not found\n"@,
{
    String::from_str(command).concat(": command not found\n")
}

} // verus!
