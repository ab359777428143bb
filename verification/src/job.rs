//! The pipeline data model: a job is an ordered chain of process stages, each
//! with its own argument vector, input source and output sink.
//!
//! The chain is a singly linked, never cyclic ownership structure: each stage
//! exclusively owns the remainder of the pipeline through its output variant.
//! At the specification level a job is viewed as a flat sequence of
//! [`StageV`] values, which is easier to reason about than the recursive
//! ownership shape.

use vstd::prelude::*;
use vstd::string::StringExecFns;

use crate::builtins::{exec, spec_cd_target, spec_is_builtin, CdTarget, CdTargetV};
use crate::errors::Error;

verus! {

/// Where a stage reads its standard input from.
#[derive(Debug, PartialEq)]
pub enum Input {
    /// Inherit the interpreter's own standard input.
    Inherit,
    /// Redirect from the named file.
    Redirect(String),
    /// Receive from the previous stage via a pipe.
    Pipe,
}

/// How a stage's standard output is redirected to a file.
#[derive(Debug, PartialEq)]
pub enum OutputRedirect {
    /// Open the named file truncating it (creating it if absent).
    Truncate(String),
    /// Open the named file in append mode.
    Append(String),
}

/// Where a stage sends its standard output.
#[derive(Debug, PartialEq)]
pub enum Output {
    /// Inherit the interpreter's own standard output.
    Inherit,
    /// Redirect to a named file.
    Redirect(OutputRedirect),
    /// Send to the next stage via a pipe; the pipe owns the rest of the
    /// pipeline.
    Pipe(Box<Process>),
}

/// One command within a pipeline: an argument vector (command name first)
/// plus the wiring of its standard streams.
#[derive(Debug, PartialEq)]
pub struct Process {
    pub argument_list: Vec<String>,
    pub input: Input,
    pub output: Output,
}

/// Whether the job occupies the interpreter until it finishes.
#[derive(Clone, Copy, Debug, PartialEq, Eq, Structural)]
pub enum JobMode {
    ForeGround,
    BackGround,
    /// Reserved; the parser never produces it.
    Suspended,
}

/// One parsed line's full pipeline plus its foreground/background mode.
#[derive(Debug, PartialEq)]
pub struct Job {
    pub process_list: Process,
    pub mode: JobMode,
}

/// Specification-level input source of one stage.
pub ghost enum InputV {
    Inherit,
    Redirect(Seq<char>),
    Pipe,
}

/// Specification-level output sink of one stage. A pipe is only a marker
/// here: in the flat view the receiving stage is simply the next one.
pub ghost enum OutputV {
    Inherit,
    Truncate(Seq<char>),
    Append(Seq<char>),
    Pipe,
}

/// Specification-level view of one stage.
pub ghost struct StageV {
    pub args: Seq<Seq<char>>,
    pub input: InputV,
    pub output: OutputV,
}

/// Specification-level view of a whole job: the stages in pipeline order,
/// head first, plus the mode.
pub ghost struct JobV {
    pub stages: Seq<StageV>,
    pub mode: JobMode,
}

impl View for Input {
    type V = InputV;

    open spec fn view(&self) -> InputV {
        match self {
            Input::Inherit => InputV::Inherit,
            Input::Redirect(f) => InputV::Redirect(f@),
            Input::Pipe => InputV::Pipe,
        }
    }
}

/// The specification-level sink an [`Output`] names; the pipe's chain is
/// reduced to the marker.
pub open spec fn output_v(o: Output) -> OutputV {
    match o {
        Output::Inherit => OutputV::Inherit,
        Output::Redirect(OutputRedirect::Truncate(f)) => OutputV::Truncate(f@),
        Output::Redirect(OutputRedirect::Append(f)) => OutputV::Append(f@),
        Output::Pipe(_) => OutputV::Pipe,
    }
}

impl Process {
    /// The view of this stage alone; a pipe output is reduced to the marker.
    pub open spec fn head_stage(self) -> StageV {
        StageV {
            args: self.argument_list.deep_view(),
            input: self.input@,
            output: output_v(self.output),
        }
    }

    /// The flat sequence of stages reachable from this stage, itself first.
    pub open spec fn stages(self) -> Seq<StageV>
        decreases self,
    {
        match self.output {
            Output::Pipe(next) => seq![self.head_stage()] + next.stages(),
            _ => seq![self.head_stage()],
        }
    }

    /// Build one stage; `output` may own the rest of the pipeline.
    pub fn new(argument_list: Vec<String>, input: Input, output: Output) -> (r: Process)
        ensures
            r == (Process { argument_list, input, output }),
    {
        Process { argument_list, input, output }
    }
}

impl View for Process {
    type V = Seq<StageV>;

    open spec fn view(&self) -> Seq<StageV> {
        self.stages()
    }
}

impl View for Job {
    type V = JobV;

    open spec fn view(&self) -> JobV {
        JobV { stages: self.process_list.stages(), mode: self.mode }
    }
}

impl JobV {
    /// The invariants of a well-formed pipeline: at least one stage, every
    /// argument vector non-empty, a stage receives via pipe exactly when a
    /// stage precedes it, sends via pipe exactly when a stage follows it,
    /// and every redirect names a non-empty file path.
    pub open spec fn wf(self) -> bool {
        &&& self.stages.len() >= 1
        &&& forall|i: int|
            0 <= i < self.stages.len() ==> (#[trigger] self.stages[i]).args.len() >= 1
        &&& forall|i: int|
            0 <= i < self.stages.len() ==> ((#[trigger] self.stages[i]).input is Pipe <==> i > 0)
        &&& forall|i: int|
            0 <= i < self.stages.len() ==> ((#[trigger] self.stages[i]).output is Pipe <==> i
                < self.stages.len() - 1)
        &&& forall|i: int|
            0 <= i < self.stages.len() ==> ((#[trigger] self.stages[i]).input matches
            InputV::Redirect(f) ==> f.len() >= 1)
        &&& forall|i: int|
            0 <= i < self.stages.len() ==> {
                ||| (#[trigger] self.stages[i]).output matches OutputV::Truncate(f) && f.len()
                    >= 1
                ||| self.stages[i].output matches OutputV::Append(f) && f.len() >= 1
                ||| self.stages[i].output is Inherit
                ||| self.stages[i].output is Pipe
            }
    }
}

impl Job {
    /// Assemble a job from its head stage (owning the rest of the pipeline)
    /// and its mode.
    pub fn new(process_list: Process, mode: JobMode) -> (r: Job)
        ensures
            r == (Job { process_list, mode }),
    {
        Job { process_list, mode }
    }
}

/// The text an argument vector renders to: every argument followed by one
/// space.
pub open spec fn spec_render_args(args: Seq<Seq<char>>) -> Seq<char>
    decreases args.len(),
{
    if args.len() == 0 {
        Seq::empty()
    } else {
        args.first() + " "@ + spec_render_args(args.drop_first())
    }
}

/// The text a pipeline renders to: the arguments, then the input redirect
/// if any, then the output redirect or the rendered rest of the pipeline.
pub open spec fn spec_render_process(p: Process) -> Seq<char>
    decreases p,
{
    spec_render_args(p.argument_list.deep_view()) + (match p.input {
        Input::Redirect(f) => "< "@ + f@ + " "@,
        _ => Seq::<char>::empty(),
    }) + (match p.output {
        Output::Redirect(OutputRedirect::Truncate(f)) => "> "@ + f@ + " "@,
        Output::Redirect(OutputRedirect::Append(f)) => ">> "@ + f@ + " "@,
        Output::Pipe(next) => "| "@ + spec_render_process(*next),
        Output::Inherit => Seq::<char>::empty(),
    })
}

/// The text a job renders to: its pipeline, one space, and `&` for a
/// background job.
pub open spec fn spec_render_job(j: Job) -> Seq<char> {
    spec_render_process(j.process_list) + " "@ + (match j.mode {
        JobMode::BackGround => "&"@,
        _ => Seq::<char>::empty(),
    })
}

/// Render an argument vector, every argument followed by one space.
fn render_args(args: &Vec<String>) -> (r: String)
    ensures
        r@ == spec_render_args(args.deep_view()),
{
    let ghost all = args.deep_view();
    let mut out = String::new();
    let mut i: usize = 0;
    proof {
        assert(all.skip(0) =~= all);
        assert(out@ + spec_render_args(all) =~= spec_render_args(all));
    }
    while i < args.len()
        invariant
            0 <= i <= args@.len(),
            all == args.deep_view(),
            all.len() == args@.len(),
            out@ + spec_render_args(all.skip(i as int)) == spec_render_args(all),
        decreases args@.len() - i,
    {
        let ghost before = out@;
        out.append(args[i].as_str());
        out.append(" ");
        i = i + 1;
        proof {
            let tail = all.skip(i - 1);
            assert(tail.first() == args@[i - 1]@);
            assert(tail.drop_first() =~= all.skip(i as int));
            assert(spec_render_args(tail) == tail.first() + " "@ + spec_render_args(
                all.skip(i as int),
            ));
            assert(out@ + spec_render_args(all.skip(i as int)) =~= before + spec_render_args(
                tail,
            ));
        }
    }
    proof {
        assert(all.skip(args@.len() as int) =~= Seq::<Seq<char>>::empty());
        assert(spec_render_args(Seq::empty()) =~= Seq::<char>::empty());
        assert(out@ =~= spec_render_args(all));
    }
    out
}

impl Process {
    /// Render the pipeline from this stage on as a line of shell syntax.
    pub fn render(&self) -> (r: String)
        ensures
            r@ == spec_render_process(*self),
        decreases *self,
    {
        let mut out = render_args(&self.argument_list);
        match &self.input {
            Input::Redirect(f) => {
                out.append("< ");
                out.append(f.as_str());
                out.append(" ");
            },
            _ => {
                proof {
                    assert(out@ + Seq::<char>::empty() =~= out@);
                }
            },
        }
        match &self.output {
            Output::Redirect(OutputRedirect::Truncate(f)) => {
                out.append("> ");
                out.append(f.as_str());
                out.append(" ");
            },
            Output::Redirect(OutputRedirect::Append(f)) => {
                out.append(">> ");
                out.append(f.as_str());
                out.append(" ");
            },
            Output::Pipe(next) => {
                out.append("| ");
                let rest = next.render();
                out.append(rest.as_str());
            },
            Output::Inherit => {
                proof {
                    assert(out@ + Seq::<char>::empty() =~= out@);
                }
            },
        }
        proof {
            assert(out@ =~= spec_render_process(*self));
        }
        out
    }
}

impl Job {
    /// Render the job as a line of shell syntax, `&` included for a
    /// background job.
    pub fn render(&self) -> (r: String)
        ensures
            r@ == spec_render_job(*self),
    {
        let mut out = self.process_list.render();
        out.append(" ");
        match self.mode {
            JobMode::BackGround => {
                out.append("&");
            },
            _ => {
                proof {
                    assert(out@ + Seq::<char>::empty() =~= out@);
                }
            },
        }
        proof {
            assert(out@ =~= spec_render_job(*self));
        }
        out
    }
}

/// Where a planned stage's standard output goes. Unlike [`Output`] this
/// carries no chain: in a plan the stages already stand in order, so a pipe
/// simply connects a stage to the next one.
#[derive(Debug, PartialEq)]
pub enum StageOutput {
    Inherit,
    Truncate(String),
    Append(String),
    Pipe,
}

/// Everything an executor must do for one stage: the argument vector to
/// hand over, whether the stage is a builtin (and then what it asks for),
/// and how to wire its standard streams.
#[derive(Debug, PartialEq)]
pub struct StagePlan {
    pub argument_list: Vec<String>,
    pub builtin: Option<CdTarget>,
    pub input: Input,
    pub output: StageOutput,
}

/// Specification-level view of [`StagePlan`].
pub ghost struct StagePlanV {
    pub args: Seq<Seq<char>>,
    pub builtin: Option<CdTargetV>,
    pub input: InputV,
    pub output: OutputV,
}

impl View for StageOutput {
    type V = OutputV;

    open spec fn view(&self) -> OutputV {
        match self {
            StageOutput::Inherit => OutputV::Inherit,
            StageOutput::Truncate(f) => OutputV::Truncate(f@),
            StageOutput::Append(f) => OutputV::Append(f@),
            StageOutput::Pipe => OutputV::Pipe,
        }
    }
}

impl View for StagePlan {
    type V = StagePlanV;

    open spec fn view(&self) -> StagePlanV {
        StagePlanV {
            args: self.argument_list.deep_view(),
            builtin: match self.builtin {
                None => None,
                Some(t) => Some(t@),
            },
            input: self.input@,
            output: self.output@,
        }
    }
}

/// The plan a stage of the job view calls for.
pub open spec fn spec_stage_plan(st: StageV) -> StagePlanV {
    StagePlanV {
        args: st.args,
        builtin: if spec_is_builtin(st.args) {
            Some(spec_cd_target(st.args))
        } else {
            None
        },
        input: st.input,
        output: st.output,
    }
}

impl JobV {
    /// No builtin stage is the source of a pipe. A builtin never runs as a
    /// separate process with real redirected streams, so it cannot feed
    /// one; planning such a job is refused.
    pub open spec fn no_builtin_pipe(self) -> bool {
        forall|i: int|
            0 <= i < self.stages.len() ==> !((#[trigger] self.stages[i]).output is Pipe
                && spec_is_builtin(self.stages[i].args))
    }
}

/// Copy an argument vector; string clones keep their characters.
fn clone_args(v: &Vec<String>) -> (r: Vec<String>)
    ensures
        r@ == v@,
{
    let mut r: Vec<String> = Vec::new();
    let mut i: usize = 0;
    while i < v.len()
        invariant
            0 <= i <= v@.len(),
            r@ == v@.take(i as int),
        decreases v@.len() - i,
    {
        r.push(v[i].clone());
        i = i + 1;
        proof {
            assert(r@ =~= v@.take(i as int));
        }
    }
    proof {
        assert(v@.take(v@.len() as int) =~= v@);
    }
    r
}

impl Job {
    /// Walk the pipeline head first and resolve every stage into its plan:
    /// which argument vector to hand over, whether the builtin dispatcher
    /// claims the stage, and where its streams come from and go to. A
    /// builtin stage that would feed a pipe is refused with
    /// [`Error::BuiltinPipe`] before anything could run; the contract says
    /// the plan succeeds exactly when no such stage exists.
    pub fn plan(&self) -> (r: Result<Vec<StagePlan>, Error>)
        requires
            self@.wf(),
        ensures
            match r {
                Ok(p) => {
                    &&& self@.no_builtin_pipe()
                    &&& p@.len() == self@.stages.len()
                    &&& forall|i: int|
                        0 <= i < p@.len() ==> (#[trigger] p@[i])@ == spec_stage_plan(
                            self@.stages[i],
                        )
                },
                Err(e) => !self@.no_builtin_pipe() && e == Error::BuiltinPipe,
            },
    {
        let mut plans: Vec<StagePlan> = Vec::new();
        let mut cur: &Process = &self.process_list;
        proof {
            assert(self@.stages.skip(0) =~= cur.stages());
        }
        loop
            invariant_except_break
                self@.wf(),
                plans@.len() + cur.stages().len() == self@.stages.len(),
                cur.stages().len() >= 1,
                cur.stages() == self@.stages.skip(plans@.len() as int),
                forall|i: int|
                    0 <= i < plans@.len() ==> (#[trigger] plans@[i])@ == spec_stage_plan(
                        self@.stages[i],
                    ),
                forall|i: int|
                    0 <= i < plans@.len() ==> !((#[trigger] self@.stages[i]).output is Pipe
                        && spec_is_builtin(self@.stages[i].args)),
            ensures
                plans@.len() == self@.stages.len(),
                forall|i: int|
                    0 <= i < plans@.len() ==> (#[trigger] plans@[i])@ == spec_stage_plan(
                        self@.stages[i],
                    ),
                self@.no_builtin_pipe(),
            decreases cur.stages().len(),
        {
            let ghost k = plans@.len() as int;
            proof {
                assert(cur.stages()[0] == cur.head_stage());
                assert(self@.stages[k] == cur.head_stage());
                assert(self@.stages[k].args.len() >= 1);
            }
            let builtin = exec(cur.argument_list.as_slice());
            let is_pipe_out = matches!(cur.output, Output::Pipe(_));
            if builtin.is_some() && is_pipe_out {
                return Err(Error::BuiltinPipe);
            }
            let input = match &cur.input {
                Input::Inherit => Input::Inherit,
                Input::Redirect(f) => Input::Redirect(f.clone()),
                Input::Pipe => Input::Pipe,
            };
            let output = match &cur.output {
                Output::Inherit => StageOutput::Inherit,
                Output::Redirect(OutputRedirect::Truncate(f)) => StageOutput::Truncate(
                    f.clone(),
                ),
                Output::Redirect(OutputRedirect::Append(f)) => StageOutput::Append(f.clone()),
                Output::Pipe(_) => StageOutput::Pipe,
            };
            let plan = StagePlan {
                argument_list: clone_args(&cur.argument_list),
                builtin,
                input,
                output,
            };
            proof {
                assert(plan@ == spec_stage_plan(self@.stages[k]));
            }
            plans.push(plan);
            match &cur.output {
                Output::Pipe(next) => {
                    proof {
                        assert(self@.stages.skip(k) == seq![cur.head_stage()] + next.stages());
                        assert forall|t: int|
                            0 <= t < next.stages().len() implies self@.stages.skip(k + 1)[t]
                            == next.stages()[t] by {
                            assert(self@.stages.skip(k)[t + 1] == next.stages()[t]);
                            assert(self@.stages.skip(k)[t + 1] == self@.stages[k + 1 + t]);
                            assert(self@.stages.skip(k + 1)[t] == self@.stages[k + 1 + t]);
                        }
                        assert(self@.stages.skip(k + 1) =~= next.stages());
                    }
                    cur = &**next;
                },
                _ => {
                    proof {
                        assert(cur.stages().len() == 1);
                    }
                    break;
                },
            }
        }
        Ok(plans)
    }
}

} // verus!
