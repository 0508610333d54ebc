//! The three ways to run a benchmark: against a baseline, saving a baseline, and comparing two
//! saved baselines without running anything.

use vstd::prelude::*;
use vstd::string::*;

use crate::command::{ToolConfig, ToolConfigs};
use crate::common::ModulePath;
use crate::costs::{Costs, EventKind};
use crate::summary::{CostsSummary, PercentageDiff, lemma_diff_against_itself_is_zero};
use crate::text::{colons_to_slashes, option_view, truncated};
use crate::tool::ValgrindTool;
use crate::tool_path::{
    BaselineKind, BaselineKindView, BaselineName, NAME_LIMIT, ToolOutputPath, ToolOutputPathKind,
    ToolOutputPathKindView, ToolOutputPathView, lit_slash, sanitized,
};

verus! {

/// Runs a benchmark and compares it against the run before or against a named baseline.
#[derive(Debug, PartialEq, Eq)]
pub struct BaselineBenchmark {
    pub baseline_kind: BaselineKind,
}

/// Runs a benchmark and saves it as the baseline with this name, compared against what the
/// name held before.
#[derive(Debug, PartialEq, Eq)]
pub struct SaveBaselineBenchmark {
    pub baseline: BaselineName,
}

/// Compares the loaded baseline against another baseline. Nothing is run.
#[derive(Debug, PartialEq, Eq)]
pub struct LoadBaselineBenchmark {
    pub loaded_baseline: BaselineName,
    pub baseline: BaselineName,
}

/// The way benchmarks are run: one of three, chosen once for the whole run.
#[derive(Debug, PartialEq, Eq)]
pub enum Benchmark {
    Baseline(BaselineBenchmark),
    SaveBaseline(SaveBaselineBenchmark),
    LoadBaseline(LoadBaselineBenchmark),
}

/// A `Benchmark` over character sequences.
pub enum BenchmarkView {
    Baseline(BaselineKindView),
    SaveBaseline(Seq<char>),
    LoadBaseline(Seq<char>, Seq<char>),
}

impl View for Benchmark {
    type V = BenchmarkView;

    open spec fn view(&self) -> BenchmarkView {
        match self {
            Benchmark::Baseline(b) => BenchmarkView::Baseline(b.baseline_kind@),
            Benchmark::SaveBaseline(b) => BenchmarkView::SaveBaseline(b.baseline@),
            Benchmark::LoadBaseline(b) => BenchmarkView::LoadBaseline(
                b.loaded_baseline@,
                b.baseline@,
            ),
        }
    }
}

/// Why no way to run the benchmarks could be chosen.
#[derive(Debug, Clone, Copy, PartialEq, Eq, Structural)]
pub enum StrategyError {
    /// A baseline is to be loaded, and no baseline to compare it against is named.
    MissingBaseline,
}

/// One step of the run of a benchmark. The steps of a run are taken in their order, and the
/// first that fails ends the run of the benchmark.
#[derive(Debug, PartialEq, Eq)]
pub enum Step {
    /// Create the directory of the file.
    Init(ToolOutputPath),
    /// Rotate the files of this identity: `ToolOutputPath::shift`.
    Shift(ToolOutputPath),
    /// Remove the files of this identity: `ToolOutputPath::clear`.
    Clear(ToolOutputPath),
    /// Read the old table from the files of this identity: the old counts and, for the
    /// flame graphs, the stacks of the baseline. With `true` the files have to be there; with
    /// `false` there is no old table where there are no files.
    ReadOld(ToolOutputPath, bool),
    /// Run the primary tool, which writes the file of this identity.
    Run(ToolOutputPath),
    /// Read the new counts from the files of this identity.
    ReadNew(ToolOutputPath),
    /// Compare the new counts against the old counts, report the comparison and check the
    /// limits of regression.
    Compare,
    /// Render the flame graphs that belong to the file of this identity, the differential
    /// ones against the old table that was read.
    Flamegraphs(ToolOutputPath),
    /// Run the secondary tools for the file of this identity; with `true`, each as a saved
    /// baseline.
    RunTools(ToolOutputPath, bool),
    /// Read what the secondary tools wrote for the file of this identity, without running
    /// them.
    LoadTools(ToolOutputPath),
}

/// A `Step` over character sequences.
pub enum StepView {
    Init(ToolOutputPathView),
    Shift(ToolOutputPathView),
    Clear(ToolOutputPathView),
    ReadOld(ToolOutputPathView, bool),
    Run(ToolOutputPathView),
    ReadNew(ToolOutputPathView),
    Compare,
    Flamegraphs(ToolOutputPathView),
    RunTools(ToolOutputPathView, bool),
    LoadTools(ToolOutputPathView),
}

impl View for Step {
    type V = StepView;

    open spec fn view(&self) -> StepView {
        match self {
            Step::Init(p) => StepView::Init(p@),
            Step::Shift(p) => StepView::Shift(p@),
            Step::Clear(p) => StepView::Clear(p@),
            Step::ReadOld(p, required) => StepView::ReadOld(p@, *required),
            Step::Run(p) => StepView::Run(p@),
            Step::ReadNew(p) => StepView::ReadNew(p@),
            Step::Compare => StepView::Compare,
            Step::Flamegraphs(p) => StepView::Flamegraphs(p@),
            Step::RunTools(p, save) => StepView::RunTools(p@, *save),
            Step::LoadTools(p) => StepView::LoadTools(p@),
        }
    }
}

/// The views of the steps of `v`.
pub open spec fn step_views(v: Seq<Step>) -> Seq<StepView> {
    v.map_values(|s: Step| s@)
}

impl BenchmarkView {
    /// The role of the file that the primary tool writes or reads.
    pub open spec fn kind(self) -> ToolOutputPathKindView {
        match self {
            BenchmarkView::Baseline(_) => ToolOutputPathKindView::Out,
            BenchmarkView::SaveBaseline(name) => ToolOutputPathKindView::Base(name),
            BenchmarkView::LoadBaseline(loaded, _) => ToolOutputPathKindView::Base(loaded),
        }
    }

    /// The baseline that the file is compared against.
    pub open spec fn baseline_kind(self) -> BaselineKindView {
        match self {
            BenchmarkView::Baseline(kind) => kind,
            BenchmarkView::SaveBaseline(name) => BaselineKindView::Name(name),
            BenchmarkView::LoadBaseline(_, name) => BaselineKindView::Name(name),
        }
    }

    /// The identity of the file of the primary tool for the benchmark `name` of `module`,
    /// below `target_dir`.
    pub open spec fn output_path(
        self,
        target_dir: Seq<char>,
        module: Seq<char>,
        name: Seq<char>,
    ) -> ToolOutputPathView {
        let short = truncated(sanitized(name), NAME_LIMIT as nat);
        ToolOutputPathView {
            kind: self.kind(),
            tool: ValgrindTool::Callgrind,
            baseline_kind: self.baseline_kind(),
            dir: target_dir + lit_slash() + colons_to_slashes(module) + lit_slash() + short,
            name: short,
            modifiers: Seq::empty(),
        }
    }

    /// The names of the two sides of the comparison, for display: the new side and the old
    /// side, each where it has a name.
    pub open spec fn baselines(self) -> (Option<Seq<char>>, Option<Seq<char>>) {
        match self {
            BenchmarkView::Baseline(BaselineKindView::Old) => (None, None),
            BenchmarkView::Baseline(BaselineKindView::Name(name)) => (None, Some(name)),
            BenchmarkView::SaveBaseline(name) => (Some(name), Some(name)),
            BenchmarkView::LoadBaseline(loaded, name) => (Some(loaded), Some(name)),
        }
    }

    /// The steps of the run of a benchmark whose primary file is `out`.
    ///
    /// Against the run before: the files are rotated, the tool runs, and the new counts are
    /// compared against the counts that were rotated away, if there are any. Against a
    /// named baseline: the counts of the named slot are read, if it holds any, then the
    /// slot is cleared and the tool runs; the new counts are compared against the counts
    /// that were read. Saving a baseline: the old counts are read from the slot, if it holds
    /// any, the slot is cleared, the tool runs and writes into the slot. Comparing two
    /// baselines: both tables are read, both have to be there, and nothing runs.
    ///
    /// The files of the secondary tools are put in order in the steps of each tool.
    pub open spec fn steps(self, out: ToolOutputPathView) -> Seq<StepView> {
        match self {
            BenchmarkView::Baseline(BaselineKindView::Old) => seq![
                StepView::Init(out),
                StepView::Shift(out),
                StepView::Shift(out.to_log_output()),
                StepView::Run(out),
                StepView::ReadNew(out),
                StepView::ReadOld(out.to_base_path(), false),
                StepView::Compare,
                StepView::Flamegraphs(out),
                StepView::RunTools(out, false),
            ],
            BenchmarkView::Baseline(BaselineKindView::Name(_)) => seq![
                StepView::Init(out),
                StepView::ReadOld(out.to_base_path(), false),
                StepView::Shift(out),
                StepView::Shift(out.to_log_output()),
                StepView::Run(out),
                StepView::ReadNew(out),
                StepView::Compare,
                StepView::Flamegraphs(out),
                StepView::RunTools(out, false),
            ],
            BenchmarkView::SaveBaseline(_) => seq![
                StepView::Init(out),
                StepView::ReadOld(out, false),
                StepView::Clear(out),
                StepView::Clear(out.to_log_output()),
                StepView::Run(out),
                StepView::ReadNew(out),
                StepView::Compare,
                StepView::Flamegraphs(out),
                StepView::RunTools(out, true),
            ],
            BenchmarkView::LoadBaseline(_, _) => seq![
                StepView::ReadNew(out),
                StepView::ReadOld(out.to_base_path(), true),
                StepView::Compare,
                StepView::Flamegraphs(out),
                StepView::LoadTools(out),
            ],
        }
    }
}

/// The way to run that the named baselines ask for: saving where a name to save under is
/// given, else loading where a name to load is given, else against the named baseline or the
/// run before.
pub open spec fn selected(
    save_baseline: Option<Seq<char>>,
    load_baseline: Option<Seq<char>>,
    baseline: Option<Seq<char>>,
) -> Result<BenchmarkView, StrategyError> {
    match (save_baseline, load_baseline, baseline) {
        (Some(name), _, _) => Ok(BenchmarkView::SaveBaseline(name)),
        (None, Some(loaded), Some(name)) => Ok(BenchmarkView::LoadBaseline(loaded, name)),
        (None, Some(_), None) => Err(StrategyError::MissingBaseline),
        (None, None, Some(name)) => Ok(BenchmarkView::Baseline(BaselineKindView::Name(name))),
        (None, None, None) => Ok(BenchmarkView::Baseline(BaselineKindView::Old)),
    }
}

/// An optional name as an optional sequence of characters.
pub open spec fn name_view(name: Option<BaselineName>) -> Option<Seq<char>> {
    match name {
        Some(name) => Some(name@),
        None => None,
    }
}

impl Benchmark {
    /// The way to run that the named baselines ask for.
    pub fn select(
        save_baseline: Option<BaselineName>,
        load_baseline: Option<BaselineName>,
        baseline: Option<BaselineName>,
    ) -> (r: Result<Benchmark, StrategyError>)
        ensures
            match selected(name_view(save_baseline), name_view(load_baseline), name_view(baseline)) {
                Ok(view) => r is Ok && r->Ok_0@ == view,
                Err(e) => r == Err::<Benchmark, StrategyError>(e),
            },
    {
        match (save_baseline, load_baseline, baseline) {
            (Some(name), _, _) => Ok(Benchmark::SaveBaseline(SaveBaselineBenchmark { baseline: name })),
            (None, Some(loaded), Some(name)) => Ok(
                Benchmark::LoadBaseline(
                    LoadBaselineBenchmark { loaded_baseline: loaded, baseline: name },
                ),
            ),
            (None, Some(_), None) => Err(StrategyError::MissingBaseline),
            (None, None, Some(name)) => Ok(
                Benchmark::Baseline(BaselineBenchmark { baseline_kind: BaselineKind::Name(name) }),
            ),
            (None, None, None) => Ok(
                Benchmark::Baseline(BaselineBenchmark { baseline_kind: BaselineKind::Old }),
            ),
        }
    }

    /// The identity of the file of the primary tool for the benchmark `name` of `module`,
    /// below `target_dir`.
    pub fn output_path(&self, target_dir: &str, module: &ModulePath, name: &str) -> (r:
        ToolOutputPath)
        ensures
            r@ == self@.output_path(target_dir@, module@, name@),
    {
        let (kind, baseline_kind) = match self {
            Benchmark::Baseline(b) => (ToolOutputPathKind::Out, b.baseline_kind.clone()),
            Benchmark::SaveBaseline(b) => (
                ToolOutputPathKind::Base(b.baseline.to_string()),
                BaselineKind::Name(b.baseline.clone()),
            ),
            Benchmark::LoadBaseline(b) => (
                ToolOutputPathKind::Base(b.loaded_baseline.to_string()),
                BaselineKind::Name(b.baseline.clone()),
            ),
        };
        ToolOutputPath::new(
            kind,
            ValgrindTool::Callgrind,
            &baseline_kind,
            target_dir,
            module,
            name,
        )
    }

    /// The names of the two sides of the comparison, for display.
    pub fn baselines(&self) -> (r: (Option<String>, Option<String>))
        ensures
            option_view(r.0) == self@.baselines().0,
            option_view(r.1) == self@.baselines().1,
    {
        match self {
            Benchmark::Baseline(b) => match &b.baseline_kind {
                BaselineKind::Old => (None, None),
                BaselineKind::Name(name) => (None, Some(name.to_string())),
            },
            Benchmark::SaveBaseline(b) => (Some(b.baseline.to_string()), Some(b.baseline.to_string())),
            Benchmark::LoadBaseline(b) => (
                Some(b.loaded_baseline.to_string()),
                Some(b.baseline.to_string()),
            ),
        }
    }

    /// The steps of the run of a benchmark whose primary file is `out`.
    pub fn steps(&self, out: &ToolOutputPath) -> (r: Vec<Step>)
        ensures
            step_views(r@) == self@.steps(out@),
    {
        let mut r: Vec<Step> = Vec::new();
        match self {
            Benchmark::Baseline(b) => match &b.baseline_kind {
                BaselineKind::Old => {
                    r.push(Step::Init(out.clone()));
                    r.push(Step::Shift(out.clone()));
                    r.push(Step::Shift(out.to_log_output()));
                    r.push(Step::Run(out.clone()));
                    r.push(Step::ReadNew(out.clone()));
                    r.push(Step::ReadOld(out.to_base_path(), false));
                    r.push(Step::Compare);
                    r.push(Step::Flamegraphs(out.clone()));
                    r.push(Step::RunTools(out.clone(), false));
                    assert(step_views(r@) =~= self@.steps(out@));
                },
                BaselineKind::Name(_) => {
                    r.push(Step::Init(out.clone()));
                    r.push(Step::ReadOld(out.to_base_path(), false));
                    r.push(Step::Shift(out.clone()));
                    r.push(Step::Shift(out.to_log_output()));
                    r.push(Step::Run(out.clone()));
                    r.push(Step::ReadNew(out.clone()));
                    r.push(Step::Compare);
                    r.push(Step::Flamegraphs(out.clone()));
                    r.push(Step::RunTools(out.clone(), false));
                    assert(step_views(r@) =~= self@.steps(out@));
                },
            },
            Benchmark::SaveBaseline(_) => {
                r.push(Step::Init(out.clone()));
                r.push(Step::ReadOld(out.clone(), false));
                r.push(Step::Clear(out.clone()));
                r.push(Step::Clear(out.to_log_output()));
                r.push(Step::Run(out.clone()));
                r.push(Step::ReadNew(out.clone()));
                r.push(Step::Compare);
                r.push(Step::Flamegraphs(out.clone()));
                r.push(Step::RunTools(out.clone(), true));
                assert(step_views(r@) =~= self@.steps(out@));
            },
            Benchmark::LoadBaseline(_) => {
                r.push(Step::ReadNew(out.clone()));
                r.push(Step::ReadOld(out.to_base_path(), true));
                r.push(Step::Compare);
                r.push(Step::Flamegraphs(out.clone()));
                r.push(Step::LoadTools(out.clone()));
                assert(step_views(r@) =~= self@.steps(out@));
            },
        }
        r
    }
}

/// Whether a step starts a process.
pub open spec fn starts_process(step: StepView) -> bool {
    step is Run || step is RunTools
}

/// The comparison of two baselines starts no process, whatever the benchmark; the other
/// ways run the primary tool exactly once.
pub proof fn lemma_load_baseline_runs_nothing(benchmark: BenchmarkView, out: ToolOutputPathView)
    ensures
        benchmark is LoadBaseline ==> forall|i: int|
            0 <= i < benchmark.steps(out).len() ==> !starts_process(
                #[trigger] benchmark.steps(out)[i],
            ),
        !(benchmark is LoadBaseline) ==> exists|i: int|
            0 <= i < benchmark.steps(out).len() && #[trigger] benchmark.steps(out)[i]
                == StepView::Run(out) && forall|j: int|
                0 <= j < benchmark.steps(out).len() && (#[trigger] benchmark.steps(out)[j]) is Run
                    ==> j == i,
{
    let steps = benchmark.steps(out);
    match benchmark {
        BenchmarkView::Baseline(BaselineKindView::Old) => {
            assert(steps[3] == StepView::Run(out));
        },
        BenchmarkView::Baseline(BaselineKindView::Name(_)) => {
            assert(steps[4] == StepView::Run(out));
        },
        BenchmarkView::SaveBaseline(_) => {
            assert(steps[4] == StepView::Run(out));
        },
        BenchmarkView::LoadBaseline(_, _) => {},
    }
}

/// The table of a named baseline is read before its slot is cleared: in the steps of a run
/// against a named baseline, and of a run that saves one, the old counts are read before
/// any rotation or removal.
pub proof fn lemma_named_table_is_read_before_the_shift(
    benchmark: BenchmarkView,
    out: ToolOutputPathView,
    i: int,
    j: int,
)
    requires
        benchmark is SaveBaseline || benchmark matches BenchmarkView::Baseline(
            BaselineKindView::Name(_),
        ),
        0 <= i < benchmark.steps(out).len(),
        0 <= j < benchmark.steps(out).len(),
        benchmark.steps(out)[i] is ReadOld,
        benchmark.steps(out)[j] is Shift || benchmark.steps(out)[j] is Clear,
    ensures
        i < j,
{
}

/// A baseline that was saved under a name and is then loaded and compared against the same
/// name is compared against itself: both sides of the comparison read the file that the
/// saving run wrote, so that every event shows no change.
pub proof fn lemma_saved_baseline_against_itself(
    name: Seq<char>,
    target_dir: Seq<char>,
    module: Seq<char>,
    bench: Seq<char>,
    costs: Costs,
    kind: EventKind,
)
    requires
        costs.cost(kind) is Some,
    ensures
        ({
            let saved = BenchmarkView::SaveBaseline(name).output_path(target_dir, module, bench);
            let loaded = BenchmarkView::LoadBaseline(name, name).output_path(
                target_dir,
                module,
                bench,
            );
            let diff = (CostsSummary { new: costs, old: Some(costs) }).spec_diff_by_kind(kind);
            &&& loaded == saved
            &&& loaded.to_base_path() == saved
            &&& loaded.file_name() == saved.file_name()
            &&& diff.spec_absolute_diff() == Some(0int)
            &&& diff.spec_percentage_diff() matches Some(PercentageDiff::Ratio { numerator, .. })
                && numerator == 0
        }),
{
    lemma_diff_against_itself_is_zero(costs, kind, 0);
}

/// One step of the run of a secondary tool.
#[derive(Debug, PartialEq, Eq)]
pub enum ToolStep {
    /// Read the summaries of the logs of the baseline from the files of this identity.
    ReadOld(ToolOutputPath),
    /// Rotate the files of this identity: `ToolOutputPath::shift`.
    Shift(ToolOutputPath),
    /// Remove the files of this identity.
    Clear(ToolOutputPath),
    /// Set up the sandbox.
    SandboxSetup,
    /// Run the set-up function.
    Setup,
    /// Run the tool, which writes the file of this identity.
    Run(ToolOutputPath),
    /// Run the tear-down function.
    Teardown,
    /// Leave the sandbox.
    SandboxReset,
    /// Read the summaries of the logs from the files of the first identity, and report them
    /// with the files of the output, where the tool writes one.
    Parse(ToolOutputPath, Option<ToolOutputPath>),
}

/// A `ToolStep` over character sequences.
pub enum ToolStepView {
    ReadOld(ToolOutputPathView),
    Shift(ToolOutputPathView),
    Clear(ToolOutputPathView),
    SandboxSetup,
    Setup,
    Run(ToolOutputPathView),
    Teardown,
    SandboxReset,
    Parse(ToolOutputPathView, Option<ToolOutputPathView>),
}

impl View for ToolStep {
    type V = ToolStepView;

    open spec fn view(&self) -> ToolStepView {
        match self {
            ToolStep::ReadOld(p) => ToolStepView::ReadOld(p@),
            ToolStep::Shift(p) => ToolStepView::Shift(p@),
            ToolStep::Clear(p) => ToolStepView::Clear(p@),
            ToolStep::SandboxSetup => ToolStepView::SandboxSetup,
            ToolStep::Setup => ToolStepView::Setup,
            ToolStep::Run(p) => ToolStepView::Run(p@),
            ToolStep::Teardown => ToolStepView::Teardown,
            ToolStep::SandboxReset => ToolStepView::SandboxReset,
            ToolStep::Parse(log, out) => ToolStepView::Parse(
                log@,
                match out {
                    Some(out) => Some(out@),
                    None => None,
                },
            ),
        }
    }
}

/// The views of the steps of `v`.
pub open spec fn tool_step_views(v: Seq<ToolStep>) -> Seq<ToolStepView> {
    v.map_values(|s: ToolStep| s@)
}

/// What surrounds the run of a secondary tool.
#[derive(Debug, Clone, Copy, PartialEq, Eq, Structural)]
pub struct ToolRun {
    /// The tool is run as a saved baseline: its files are cleared, where they are rotated
    /// otherwise.
    pub save_baseline: bool,
    pub has_sandbox: bool,
    pub has_setup: bool,
    pub has_teardown: bool,
}

/// Whether a secondary tool is run, or what it wrote in an earlier run is read without
/// running it.
#[derive(Debug, Clone, Copy, PartialEq, Eq, Structural)]
pub enum ToolMode {
    Run(ToolRun),
    Load,
}

/// The steps of the secondary tool `tool` for the benchmark whose primary file is `out`.
pub open spec fn tool_steps(out: ToolOutputPathView, tool: ValgrindTool, mode: ToolMode) -> Seq<
    ToolStepView,
> {
    match mode {
        ToolMode::Run(run) => run_steps(out, tool, run),
        ToolMode::Load => seq![
            ToolStepView::ReadOld(out.to_tool_output(tool).to_log_output().to_base_path()),
            ToolStepView::Parse(out.to_tool_output(tool).to_log_output(), None),
        ],
    }
}

/// How the files of a secondary tool are put in order before its run, and when the
/// summaries of the baseline are read.
///
/// Saving a baseline: the summaries are read from the slot, then the slot is cleared.
/// Against the run before: the files are rotated, then the summaries are read from the files
/// that were rotated away. Against a named baseline: the summaries are read from the named
/// slot, then the slot is cleared by the rotation.
pub open spec fn tool_head(out: ToolOutputPathView, tool: ValgrindTool, run: ToolRun) -> Seq<
    ToolStepView,
> {
    let path = out.to_tool_output(tool);
    let log = path.to_log_output();
    if run.save_baseline {
        seq![
            ToolStepView::ReadOld(log.to_base_path()),
            ToolStepView::Clear(path),
            ToolStepView::Clear(log),
        ]
    } else {
        match out.baseline_kind {
            BaselineKindView::Old => seq![
                ToolStepView::Shift(path),
                ToolStepView::Shift(log),
                ToolStepView::ReadOld(log.to_base_path()),
            ],
            BaselineKindView::Name(_) => seq![
                ToolStepView::ReadOld(log.to_base_path()),
                ToolStepView::Shift(path),
                ToolStepView::Shift(log),
            ],
        }
    }
}

/// The place of the run of the tool among the steps of its run.
pub open spec fn run_index(run: ToolRun) -> int {
    3 + (if run.has_sandbox {
        1int
    } else {
        0int
    }) + (if run.has_setup {
        1int
    } else {
        0int
    })
}

/// The steps of the run of the secondary tool `tool` for the benchmark whose primary file is
/// `out`: its files are put in order and the summaries of the baseline are read, the tool is
/// run once, with what surrounds its run, and its summaries are read.
pub open spec fn run_steps(out: ToolOutputPathView, tool: ValgrindTool, run: ToolRun) -> Seq<
    ToolStepView,
> {
    tool_head(out, tool, run) + tool_run(out, tool, run)
}

/// The run of a secondary tool with what surrounds it: the sandbox and the set-up function
/// before it, the tear-down function and the leaving of the sandbox after it, and at the end
/// the reading of its summaries.
pub open spec fn tool_run(out: ToolOutputPathView, tool: ValgrindTool, run: ToolRun) -> Seq<
    ToolStepView,
> {
    let path = out.to_tool_output(tool);
    let log = path.to_log_output();
    (if run.has_sandbox {
        seq![ToolStepView::SandboxSetup]
    } else {
        Seq::empty()
    }) + (if run.has_setup {
        seq![ToolStepView::Setup]
    } else {
        Seq::empty()
    }) + seq![ToolStepView::Run(path)] + (if run.has_teardown {
        seq![ToolStepView::Teardown]
    } else {
        Seq::empty()
    }) + (if run.has_sandbox {
        seq![ToolStepView::SandboxReset]
    } else {
        Seq::empty()
    }) + seq![
        ToolStepView::Parse(
            log,
            if tool.spec_has_output_file() {
                Some(path)
            } else {
                None
            },
        ),
    ]
}

fn plan_head(out: &ToolOutputPath, tool: ValgrindTool, run: ToolRun) -> (r: Vec<ToolStep>)
    ensures
        tool_step_views(r@) == tool_head(out@, tool, run),
{
    let path = out.to_tool_output(tool);
    let log = path.to_log_output();
    let mut r: Vec<ToolStep> = Vec::new();
    if run.save_baseline {
        r.push(ToolStep::ReadOld(log.to_base_path()));
        r.push(ToolStep::Clear(path));
        r.push(ToolStep::Clear(log));
    } else {
        match &out.baseline_kind {
            BaselineKind::Old => {
                let base = log.to_base_path();
                r.push(ToolStep::Shift(path));
                r.push(ToolStep::Shift(log));
                r.push(ToolStep::ReadOld(base));
            },
            BaselineKind::Name(_) => {
                r.push(ToolStep::ReadOld(log.to_base_path()));
                r.push(ToolStep::Shift(path));
                r.push(ToolStep::Shift(log));
            },
        }
    }
    assert(tool_step_views(r@) =~= tool_head(out@, tool, run));
    r
}

fn plan_run(out: &ToolOutputPath, tool: ValgrindTool, run: ToolRun) -> (r: Vec<ToolStep>)
    ensures
        tool_step_views(r@) == tool_run(out@, tool, run),
{
    let path = out.to_tool_output(tool);
    let log = path.to_log_output();
    let mut r: Vec<ToolStep> = Vec::new();
    if run.has_sandbox {
        r.push(ToolStep::SandboxSetup);
    }
    let ghost mut expected = if run.has_sandbox {
        seq![ToolStepView::SandboxSetup]
    } else {
        Seq::empty()
    };
    assert(tool_step_views(r@) =~= expected);
    if run.has_setup {
        r.push(ToolStep::Setup);
    }
    proof {
        expected = expected + (if run.has_setup {
            seq![ToolStepView::Setup]
        } else {
            Seq::empty()
        });
        assert(tool_step_views(r@) =~= expected);
    }
    r.push(ToolStep::Run(path.clone()));
    proof {
        expected = expected + seq![ToolStepView::Run(path@)];
        assert(tool_step_views(r@) =~= expected);
    }
    if run.has_teardown {
        r.push(ToolStep::Teardown);
    }
    proof {
        expected = expected + (if run.has_teardown {
            seq![ToolStepView::Teardown]
        } else {
            Seq::empty()
        });
        assert(tool_step_views(r@) =~= expected);
    }
    if run.has_sandbox {
        r.push(ToolStep::SandboxReset);
    }
    proof {
        expected = expected + (if run.has_sandbox {
            seq![ToolStepView::SandboxReset]
        } else {
            Seq::empty()
        });
        assert(tool_step_views(r@) =~= expected);
    }
    let output = if tool.has_output_file() {
        Some(path)
    } else {
        None
    };
    let ghost output_view = if tool.spec_has_output_file() {
        Some(out@.to_tool_output(tool))
    } else {
        None
    };
    r.push(ToolStep::Parse(log, output));
    proof {
        expected = expected + seq![ToolStepView::Parse(log@, output_view)];
        assert(tool_step_views(r@) =~= expected);
        assert(expected == tool_run(out@, tool, run));
    }
    r
}

/// The steps of the secondary tool `tool` for the benchmark whose primary file is `out`.
pub fn plan_tool(out: &ToolOutputPath, tool: ValgrindTool, mode: ToolMode) -> (r: Vec<ToolStep>)
    ensures
        tool_step_views(r@) == tool_steps(out@, tool, mode),
{
    match mode {
        ToolMode::Run(run) => {
            let mut r = plan_head(out, tool, run);
            let mut rest = plan_run(out, tool, run);
            let ghost first = r@;
            let ghost second = rest@;
            r.append(&mut rest);
            assert(tool_step_views(r@) =~= tool_step_views(first) + tool_step_views(second));
            r
        },
        ToolMode::Load => {
            let log = out.to_tool_output(tool).to_log_output();
            let mut r: Vec<ToolStep> = Vec::new();
            r.push(ToolStep::ReadOld(log.to_base_path()));
            r.push(ToolStep::Parse(log, None));
            assert(tool_step_views(r@) =~= tool_steps(out@, tool, mode));
            r
        },
    }
}

/// The run of one secondary tool of a benchmark.
#[derive(Debug, PartialEq, Eq)]
pub struct ToolPlan {
    /// The place of the tool's configuration among the configurations of the benchmark.
    pub index: usize,
    pub tool: ValgrindTool,
    pub steps: Vec<ToolStep>,
}

/// The places of the configurations among the first `n` that are enabled, in their order.
pub open spec fn enabled_places(configs: Seq<ToolConfig>, n: nat) -> Seq<usize>
    decreases n,
{
    if n == 0 {
        Seq::empty()
    } else {
        let rest = enabled_places(configs, (n - 1) as nat);
        if configs[n - 1].is_enabled {
            rest.push((n - 1) as usize)
        } else {
            rest
        }
    }
}

/// Whether `plans` holds the runs of the enabled tools, one for each and in their order.
pub open spec fn are_plans_of(
    plans: Seq<ToolPlan>,
    configs: Seq<ToolConfig>,
    n: nat,
    out: ToolOutputPathView,
    mode: ToolMode,
) -> bool {
    &&& plans.len() == enabled_places(configs, n).len()
    &&& forall|i: int|
        0 <= i < plans.len() ==> (#[trigger] plans[i]).index == enabled_places(configs, n)[i]
            && plans[i].index < n && plans[i].tool == configs[plans[i].index as int].tool
            && tool_step_views(plans[i].steps@) == tool_steps(out, plans[i].tool, mode)
}

/// The steps of the secondary tools of a benchmark whose primary file is `out`: those of
/// each enabled tool, in the order of the configurations, and none for a tool that is not
/// enabled.
pub fn plan_tools(configs: &ToolConfigs, out: &ToolOutputPath, mode: ToolMode) -> (r: Vec<
    ToolPlan,
>)
    ensures
        are_plans_of(r@, configs.0@, configs.0@.len(), out@, mode),
{
    let mut plans: Vec<ToolPlan> = Vec::new();
    let mut i: usize = 0;
    while i < configs.0.len()
        invariant
            i <= configs.0.len(),
            are_plans_of(plans@, configs.0@, i as nat, out@, mode),
        decreases configs.0.len() - i,
    {
        if configs.0[i].is_enabled {
            let tool = configs.0[i].tool;
            let ghost before = plans@;
            plans.push(ToolPlan { index: i, tool, steps: plan_tool(out, tool, mode) });
            assert forall|k: int| 0 <= k < plans@.len() implies (#[trigger] plans@[k]).index
                == enabled_places(configs.0@, (i + 1) as nat)[k] && plans@[k].index < i + 1
                && plans@[k].tool == configs.0@[plans@[k].index as int].tool && tool_step_views(
                plans@[k].steps@,
            ) == tool_steps(out@, plans@[k].tool, mode) by {
                if k < before.len() {
                    assert(plans@[k] == before[k]);
                }
            }
        } else {
            assert forall|k: int| 0 <= k < plans@.len() implies (#[trigger] plans@[k]).index < i + 1 by {}
        }
        i += 1;
    }
    plans
}

/// One process for each run of a tool: the steps of the run of a secondary tool start the
/// tool exactly once, and reading what a tool wrote earlier starts nothing.
pub proof fn lemma_tool_runs_once(out: ToolOutputPathView, tool: ValgrindTool, run: ToolRun)
    ensures
        exists|i: int|
            0 <= i < run_steps(out, tool, run).len() && #[trigger] run_steps(out, tool, run)[i]
                == ToolStepView::Run(out.to_tool_output(tool)),
        forall|i: int, j: int|
            0 <= i < run_steps(out, tool, run).len() && 0 <= j < run_steps(out, tool, run).len()
                && (#[trigger] run_steps(out, tool, run)[i]) is Run && (#[trigger] run_steps(
                out,
                tool,
                run,
            )[j]) is Run ==> i == j,
        forall|i: int|
            0 <= i < tool_steps(out, tool, ToolMode::Load).len() ==> !((#[trigger] tool_steps(
                out,
                tool,
                ToolMode::Load,
            )[i]) is Run),
{
    let steps = run_steps(out, tool, run);
    let before = run_index(run);
    assert(steps[before] == ToolStepView::Run(out.to_tool_output(tool)));
    assert forall|i: int| 0 <= i < steps.len() && (#[trigger] steps[i]) is Run implies i == before by {
        if i < before {
            assert(!(steps[i] is Run));
        } else if i > before {
            assert(!(steps[i] is Run));
        }
    }
}

/// The files of a benchmark are put in order before anything is written: in the steps of a
/// run, every rotation and every removal comes before the run of the primary tool, and in
/// the steps of a secondary tool before the run of that tool.
pub proof fn lemma_rotation_comes_before_the_run(
    benchmark: BenchmarkView,
    out: ToolOutputPathView,
    i: int,
    j: int,
)
    requires
        0 <= i < benchmark.steps(out).len(),
        0 <= j < benchmark.steps(out).len(),
        benchmark.steps(out)[i] is Shift || benchmark.steps(out)[i] is Clear,
        benchmark.steps(out)[j] is Run,
    ensures
        i < j,
{
}

/// In the steps of the run of a secondary tool every rotation and every removal comes
/// before the run of the tool.
pub proof fn lemma_tool_rotation_comes_before_the_run(
    out: ToolOutputPathView,
    tool: ValgrindTool,
    run: ToolRun,
    i: int,
    j: int,
)
    requires
        0 <= i < run_steps(out, tool, run).len(),
        0 <= j < run_steps(out, tool, run).len(),
        run_steps(out, tool, run)[i] is Shift || run_steps(out, tool, run)[i] is Clear,
        run_steps(out, tool, run)[j] is Run,
    ensures
        i < j,
{
    let steps = run_steps(out, tool, run);
    let at = run_index(run);
    assert(steps[at] is Run);
    if i >= 3 {
        assert(!(steps[i] is Shift) && !(steps[i] is Clear));
    }
    if j < 3 {
        assert(!(steps[j] is Run));
    }
}

} // verus!
