//! The process orchestrator's decisions, as data: for each stage of a
//! pipeline, where its standard input and output must be wired (the terminal,
//! a redirection file, or the channel shared with the neighbouring stage),
//! whether a channel must be created before forking it, and whether the parent
//! waits. The surrounding program materializes a plan with the fork, pipe,
//! file-open and exec primitives, stage by stage in order, handing each
//! channel endpoint to exactly one owner and closing every other copy.

use vstd::prelude::*;
use crate::pipeline::PipelineDescription;
use crate::pipeline::PipelineView;

verus! {

/// The reserved exit status of a child whose target program could not be
/// resolved or executed: the contract for "command not found", distinct from
/// any status of the target program itself.
pub const EXEC_FAILURE_STATUS: i32 = 127;

/// Where a stage's standard input comes from.
#[derive(Clone, PartialEq, Eq, Debug)]
pub enum StdinWiring {
    /// Inherit the parent's standard input.
    Inherit,
    /// Open this file read-only and make it standard input.
    FromFile(String),
    /// Read from the channel shared with the previous stage.
    FromChannel,
}

/// The mathematical shape of a standard-input wiring.
pub enum StdinWiringView {
    /// Inherit the parent's standard input.
    Inherit,
    /// Open this file read-only and make it standard input.
    FromFile(Seq<char>),
    /// Read from the channel shared with the previous stage.
    FromChannel,
}

impl View for StdinWiring {
    type V = StdinWiringView;

    open spec fn view(&self) -> StdinWiringView {
        match self {
            StdinWiring::Inherit => StdinWiringView::Inherit,
            StdinWiring::FromFile(f) => StdinWiringView::FromFile(f@),
            StdinWiring::FromChannel => StdinWiringView::FromChannel,
        }
    }
}

/// Where a stage's standard output goes.
#[derive(Clone, PartialEq, Eq, Debug)]
pub enum StdoutWiring {
    /// Inherit the parent's standard output.
    Inherit,
    /// Open this file create/write-only/truncate and make it standard output.
    ToFile(String),
    /// Write to the channel shared with the next stage.
    ToChannel,
}

/// The mathematical shape of a standard-output wiring.
pub enum StdoutWiringView {
    /// Inherit the parent's standard output.
    Inherit,
    /// Open this file create/write-only/truncate and make it standard output.
    ToFile(Seq<char>),
    /// Write to the channel shared with the next stage.
    ToChannel,
}

impl View for StdoutWiring {
    type V = StdoutWiringView;

    open spec fn view(&self) -> StdoutWiringView {
        match self {
            StdoutWiring::Inherit => StdoutWiringView::Inherit,
            StdoutWiring::ToFile(f) => StdoutWiringView::ToFile(f@),
            StdoutWiring::ToChannel => StdoutWiringView::ToChannel,
        }
    }
}

/// Everything one stage needs at fork time.
#[derive(Clone, PartialEq, Eq, Debug)]
pub struct StagePlan {
    /// The argument vector; `argv[0]` names the executable.
    pub argv: Vec<String>,
    /// Where this stage's standard input comes from.
    pub stdin: StdinWiring,
    /// Where this stage's standard output goes.
    pub stdout: StdoutWiring,
    /// Whether a fresh channel to the next stage must be created before this
    /// stage is forked; its read endpoint becomes the next stage's input.
    pub opens_channel: bool,
}

/// The mathematical shape of a stage plan.
pub struct StagePlanView {
    /// The argument vector, as words.
    pub argv: Seq<Seq<char>>,
    /// Where this stage's standard input comes from.
    pub stdin: StdinWiringView,
    /// Where this stage's standard output goes.
    pub stdout: StdoutWiringView,
    /// Whether a fresh channel is created before forking this stage.
    pub opens_channel: bool,
}

impl View for StagePlan {
    type V = StagePlanView;

    open spec fn view(&self) -> StagePlanView {
        StagePlanView {
            argv: self.argv.deep_view(),
            stdin: self.stdin@,
            stdout: self.stdout@,
            opens_channel: self.opens_channel,
        }
    }
}

/// The full wiring of one pipeline: one plan per stage, in forking order, and
/// the wait policy.
pub struct ExecutionPlan {
    /// If true, the parent reports the first stage's process identifier and
    /// returns without waiting; otherwise it waits on every stage in forking
    /// order.
    pub background: bool,
    /// One plan per stage, in forking order.
    pub stages: Vec<StagePlan>,
}

/// Where stage `i`'s standard input comes from: the input redirection file
/// applies only to stage 0 and overrides nothing (stage 0 has no previous
/// channel); every later stage reads the channel from its predecessor.
pub open spec fn spec_stdin_wiring(p: PipelineView, i: int) -> StdinWiringView {
    if i == 0 {
        match p.input {
            Some(f) => StdinWiringView::FromFile(f),
            None => StdinWiringView::Inherit,
        }
    } else {
        StdinWiringView::FromChannel
    }
}

/// Where stage `i`'s standard output goes: every stage but the last writes the
/// channel to its successor; the last writes the output redirection file, if
/// any.
pub open spec fn spec_stdout_wiring(p: PipelineView, i: int) -> StdoutWiringView {
    if i + 1 < p.stages.len() {
        StdoutWiringView::ToChannel
    } else {
        match p.output {
            Some(f) => StdoutWiringView::ToFile(f),
            None => StdoutWiringView::Inherit,
        }
    }
}

/// The wiring plan of a pipeline description: one stage plan per stage, in
/// order, with a channel created exactly between each adjacent pair.
#[verifier::loop_isolation(false)]
pub fn build_plan(pl: &PipelineDescription) -> (plan: ExecutionPlan)
    ensures
        plan.background == pl.background,
        plan.stages@.len() == pl@.stages.len(),
        forall|i: int|
            0 <= i < plan.stages@.len() ==> {
                &&& (#[trigger] plan.stages@[i])@.argv == pl@.stages[i]
                &&& plan.stages@[i]@.stdin == spec_stdin_wiring(pl@, i)
                &&& plan.stages@[i]@.stdout == spec_stdout_wiring(pl@, i)
                &&& plan.stages@[i]@.opens_channel == (i + 1 < pl@.stages.len())
            },
{
    let n = pl.stages.len();
    let mut stages: Vec<StagePlan> = Vec::new();
    let mut i: usize = 0;
    while i < n
        invariant
            i <= n,
            stages@.len() == i,
            forall|k: int|
                0 <= k < i ==> {
                    &&& (#[trigger] stages@[k])@.argv == pl@.stages[k]
                    &&& stages@[k]@.stdin == spec_stdin_wiring(pl@, k)
                    &&& stages@[k]@.stdout == spec_stdout_wiring(pl@, k)
                    &&& stages@[k]@.opens_channel == (k + 1 < pl@.stages.len())
                },
        decreases n - i,
    {
        let mut argv: Vec<String> = Vec::new();
        let mut j: usize = 0;
        while j < pl.stages[i].argv.len()
            invariant
                i < n,
                j <= pl.stages@[i as int].argv@.len(),
                argv@.len() == j,
                forall|k: int|
                    0 <= k < j ==> (#[trigger] argv@[k])@ == pl.stages@[i as int].argv@[k]@,
            decreases pl.stages@[i as int].argv@.len() - j,
        {
            let w = pl.stages[i].argv[j].clone();
            argv.push(w);
            j = j + 1;
        }
        proof {
            assert(argv.deep_view() =~~= pl.stages@[i as int].argv.deep_view());
        }
        let stdin = if i == 0 {
            match &pl.input_path {
                Some(f) => StdinWiring::FromFile(f.clone()),
                None => StdinWiring::Inherit,
            }
        } else {
            StdinWiring::FromChannel
        };
        let stdout = if i + 1 < n {
            StdoutWiring::ToChannel
        } else {
            match &pl.output_path {
                Some(f) => StdoutWiring::ToFile(f.clone()),
                None => StdoutWiring::Inherit,
            }
        };
        let opens_channel = i + 1 < n;
        stages.push(StagePlan { argv, stdin, stdout, opens_channel });
        i = i + 1;
    }
    ExecutionPlan { background: pl.background, stages }
}

/// What the wait primitive reported of a child process.
#[derive(Clone, Copy, PartialEq, Eq, Debug)]
pub enum WaitEvent {
    /// The child exited on its own, with this status.
    Exited(i32),
    /// The child was terminated by this signal.
    Signaled(i32),
    /// The child was stopped; it still exists.
    Stopped,
    /// The child was continued; it still exists.
    Continued,
    /// Some other, non-final notification.
    Other,
}

/// Whether a wait notification completes the supervision of one child: only
/// an exit or a termination by signal does; a stopped or continued
/// notification must not end the wait loop, which retries the wait.
pub fn wait_completes(e: &WaitEvent) -> (done: bool)
    ensures
        done == (*e is Exited || *e is Signaled),
{
    match e {
        WaitEvent::Exited(_) => true,
        WaitEvent::Signaled(_) => true,
        WaitEvent::Stopped => false,
        WaitEvent::Continued => false,
        WaitEvent::Other => false,
    }
}

} // verus!
