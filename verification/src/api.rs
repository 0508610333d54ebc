//! The description of the benchmarks as the front end hands it over: plain values, with most
//! settings optional.

use vstd::prelude::*;

use crate::costs::EventKind;
use crate::text::{clone_option, clone_strings, option_view, views};
use crate::tool::ValgrindTool;

verus! {

/// Which flame graphs are wanted.
#[derive(Debug, Clone, Copy, PartialEq, Eq, Structural)]
pub enum FlamegraphKind {
    /// The graph of the run alone.
    Regular,
    /// The differential graph against the baseline alone.
    Differential,
    /// Both.
    All,
    /// No graph at all.
    Disabled,
}

/// The way the stacks of a flame graph grow.
#[derive(Debug, Clone, Copy, PartialEq, Eq, Structural)]
pub enum Direction {
    TopToBottom,
    BottomToTop,
}

/// The wanted flame graphs of a benchmark.
#[derive(Debug, Clone, PartialEq, Eq)]
pub struct FlamegraphConfig {
    pub kind: Option<FlamegraphKind>,
    pub negate_differential: Option<bool>,
    pub normalize_differential: Option<bool>,
    pub event_kinds: Option<Vec<EventKind>>,
    pub direction: Option<Direction>,
    pub title: Option<String>,
    pub subtitle: Option<String>,
    /// The least width of a frame that is shown, in thousandths of a percent of the width
    /// of the graph.
    pub min_width: Option<u32>,
}

/// How the benchmarked process is expected to end.
#[derive(Debug, Clone, Copy, PartialEq, Eq, Structural)]
pub enum ExitWith {
    /// With the exit code zero.
    Success,
    /// With an exit code other than zero.
    Failure,
    /// With exactly this exit code.
    Code(i32),
}

/// What a stream of the benchmarked process is connected to.
#[derive(Debug, Clone, PartialEq, Eq)]
pub enum Stdio {
    /// The stream of the engine itself.
    Inherit,
    /// Nothing.
    Null,
    /// The file at this path.
    File(String),
    /// A pipe whose content is captured.
    Pipe,
}

/// What the benchmarked process reads from its standard input.
#[derive(Debug, Clone, PartialEq, Eq)]
pub enum Stdin {
    /// What the companion set-up process writes to the given one of its streams.
    Setup(Pipe),
    /// These bytes.
    Bytes(Vec<u8>),
    /// Anything a stream can be connected to.
    Stdio(Stdio),
}

/// A stream of the companion set-up process.
#[derive(Debug, Clone, Copy, PartialEq, Eq, Structural)]
pub enum Pipe {
    Stdout,
    Stderr,
}

/// A secondary tool to run on a benchmark.
#[derive(Debug, Clone, PartialEq, Eq)]
pub struct Tool {
    pub kind: ValgrindTool,
    pub enable: Option<bool>,
    pub raw_args: Vec<String>,
    pub outfile_modifier: Option<String>,
}

/// The limits of regression of a benchmark.
#[derive(Debug, Clone, PartialEq, Eq)]
pub struct RegressionConfig {
    /// For each event the limit of its growth, in thousandths of a percent.
    pub limits: Vec<(EventKind, u64)>,
    pub fail_fast: Option<bool>,
}

/// The views of pairs of strings.
pub open spec fn pair_views(v: Seq<(String, String)>) -> Seq<(Seq<char>, Seq<char>)> {
    v.map_values(|p: (String, String)| (p.0@, p.1@))
}

pub(crate) fn clone_pairs(v: &Vec<(String, String)>) -> (r: Vec<(String, String)>)
    ensures
        r@ == v@,
{
    let mut r: Vec<(String, String)> = Vec::new();
    let mut i: usize = 0;
    while i < v.len()
        invariant
            i <= v.len(),
            r@ == v@.take(i as int),
        decreases v.len() - i,
    {
        r.push((v[i].0.clone(), v[i].1.clone()));
        assert(v@.take(i + 1) == v@.take(i as int).push(v@[i as int]));
        i += 1;
    }
    assert(v@.take(v@.len() as int) == v@);
    r
}

pub(crate) fn clone_kinds(v: &Vec<EventKind>) -> (r: Vec<EventKind>)
    ensures
        r@ == v@,
{
    let mut r: Vec<EventKind> = Vec::new();
    let mut i: usize = 0;
    while i < v.len()
        invariant
            i <= v.len(),
            r@ == v@.take(i as int),
        decreases v.len() - i,
    {
        r.push(v[i]);
        assert(v@.take(i + 1) == v@.take(i as int).push(v@[i as int]));
        i += 1;
    }
    assert(v@.take(v@.len() as int) == v@);
    r
}

pub(crate) fn clone_limits(v: &Vec<(EventKind, u64)>) -> (r: Vec<(EventKind, u64)>)
    ensures
        r@ == v@,
{
    let mut r: Vec<(EventKind, u64)> = Vec::new();
    let mut i: usize = 0;
    while i < v.len()
        invariant
            i <= v.len(),
            r@ == v@.take(i as int),
        decreases v.len() - i,
    {
        r.push(v[i]);
        assert(v@.take(i + 1) == v@.take(i as int).push(v@[i as int]));
        i += 1;
    }
    assert(v@.take(v@.len() as int) == v@);
    r
}

/// A `FlamegraphConfig` over character sequences.
pub struct FlamegraphConfigView {
    pub kind: Option<FlamegraphKind>,
    pub negate_differential: Option<bool>,
    pub normalize_differential: Option<bool>,
    pub event_kinds: Option<Seq<EventKind>>,
    pub direction: Option<Direction>,
    pub title: Option<Seq<char>>,
    pub subtitle: Option<Seq<char>>,
    pub min_width: Option<u32>,
}

impl View for FlamegraphConfig {
    type V = FlamegraphConfigView;

    open spec fn view(&self) -> FlamegraphConfigView {
        FlamegraphConfigView {
            kind: self.kind,
            negate_differential: self.negate_differential,
            normalize_differential: self.normalize_differential,
            event_kinds: match self.event_kinds {
                Some(kinds) => Some(kinds@),
                None => None,
            },
            direction: self.direction,
            title: option_view(self.title),
            subtitle: option_view(self.subtitle),
            min_width: self.min_width,
        }
    }
}

impl FlamegraphConfig {
    /// A copy of the configuration.
    pub fn duplicate(&self) -> (r: Self)
        ensures
            r@ == self@,
    {
        FlamegraphConfig {
            kind: self.kind,
            negate_differential: self.negate_differential,
            normalize_differential: self.normalize_differential,
            event_kinds: match &self.event_kinds {
                Some(kinds) => Some(clone_kinds(kinds)),
                None => None,
            },
            direction: self.direction,
            title: clone_option(&self.title),
            subtitle: clone_option(&self.subtitle),
            min_width: self.min_width,
        }
    }
}

/// A `RegressionConfig` over sequences.
pub struct RegressionConfigView {
    pub limits: Seq<(EventKind, u64)>,
    pub fail_fast: Option<bool>,
}

impl View for RegressionConfig {
    type V = RegressionConfigView;

    open spec fn view(&self) -> RegressionConfigView {
        RegressionConfigView { limits: self.limits@, fail_fast: self.fail_fast }
    }
}

impl RegressionConfig {
    /// A copy of the configuration.
    pub fn duplicate(&self) -> (r: Self)
        ensures
            r@ == self@,
    {
        RegressionConfig { limits: clone_limits(&self.limits), fail_fast: self.fail_fast }
    }
}

/// A `Tool` over character sequences.
pub struct ToolView {
    pub kind: ValgrindTool,
    pub enable: Option<bool>,
    pub raw_args: Seq<Seq<char>>,
    pub outfile_modifier: Option<Seq<char>>,
}

impl View for Tool {
    type V = ToolView;

    open spec fn view(&self) -> ToolView {
        ToolView {
            kind: self.kind,
            enable: self.enable,
            raw_args: views(self.raw_args@),
            outfile_modifier: option_view(self.outfile_modifier),
        }
    }
}

impl Tool {
    /// A copy of the tool.
    pub fn duplicate(&self) -> (r: Self)
        ensures
            r@ == self@,
    {
        Tool {
            kind: self.kind,
            enable: self.enable,
            raw_args: clone_strings(&self.raw_args),
            outfile_modifier: clone_option(&self.outfile_modifier),
        }
    }
}

/// The views of the tools of `v`.
pub open spec fn tool_views(v: Seq<Tool>) -> Seq<ToolView> {
    v.map_values(|t: Tool| t@)
}

/// The place of the first tool of `kind` among `tools`, or their number where there is none.
pub open spec fn place_of(tools: Seq<ToolView>, kind: ValgrindTool) -> int
    decreases tools.len(),
{
    if tools.len() == 0 {
        0
    } else if tools[0].kind == kind {
        0
    } else {
        1 + place_of(tools.drop_first(), kind)
    }
}

/// The tools with `tool` in the place of the first tool of its kind, or at the end where
/// there is none of its kind.
pub open spec fn with_tool(tools: Seq<ToolView>, tool: ToolView) -> Seq<ToolView> {
    if 0 <= place_of(tools, tool.kind) < tools.len() {
        tools.update(place_of(tools, tool.kind), tool)
    } else {
        tools.push(tool)
    }
}

/// The tools with each of `others`, in their order, taking the place of the tool of its
/// kind.
pub open spec fn with_tools(tools: Seq<ToolView>, others: Seq<ToolView>) -> Seq<ToolView>
    decreases others.len(),
{
    if others.len() == 0 {
        tools
    } else {
        with_tool(with_tools(tools, others.drop_last()), others.last())
    }
}

/// A directory of its own in which a benchmark runs, and the files that are copied into it.
#[derive(Debug, Clone, PartialEq, Eq)]
pub struct Sandbox {
    pub enabled: Option<bool>,
    pub fixtures: Vec<String>,
}

/// A `Sandbox` over character sequences.
pub struct SandboxView {
    pub enabled: Option<bool>,
    pub fixtures: Seq<Seq<char>>,
}

impl View for Sandbox {
    type V = SandboxView;

    open spec fn view(&self) -> SandboxView {
        SandboxView { enabled: self.enabled, fixtures: views(self.fixtures@) }
    }
}

impl Sandbox {
    /// A copy of the sandbox.
    pub fn duplicate(&self) -> (r: Self)
        ensures
            r@ == self@,
    {
        Sandbox { enabled: self.enabled, fixtures: clone_strings(&self.fixtures) }
    }
}

/// The settings of a benchmark, of a group or of the whole run. What an inner level says
/// goes before what an outer level says.
#[derive(Debug, Clone, PartialEq, Eq)]
pub struct BenchmarkConfig {
    pub env_clear: Option<bool>,
    pub raw_callgrind_args: Vec<String>,
    /// The variables of the environment that are set, with their values.
    pub envs: Vec<(String, String)>,
    pub flamegraph_config: Option<FlamegraphConfig>,
    pub regression_config: Option<RegressionConfig>,
    pub tools: Vec<Tool>,
    /// The number of characters to which the description of a benchmark is cut, or none
    /// where it is not cut.
    pub truncate_description: Option<Option<usize>>,
    pub sandbox: Option<Sandbox>,
}

/// A `BenchmarkConfig` over character sequences.
pub struct BenchmarkConfigView {
    pub env_clear: Option<bool>,
    pub raw_callgrind_args: Seq<Seq<char>>,
    pub envs: Seq<(Seq<char>, Seq<char>)>,
    pub flamegraph_config: Option<FlamegraphConfigView>,
    pub regression_config: Option<RegressionConfigView>,
    pub tools: Seq<ToolView>,
    pub truncate_description: Option<Option<usize>>,
    pub sandbox: Option<SandboxView>,
}

impl View for BenchmarkConfig {
    type V = BenchmarkConfigView;

    open spec fn view(&self) -> BenchmarkConfigView {
        BenchmarkConfigView {
            env_clear: self.env_clear,
            raw_callgrind_args: views(self.raw_callgrind_args@),
            envs: pair_views(self.envs@),
            flamegraph_config: match self.flamegraph_config {
                Some(c) => Some(c@),
                None => None,
            },
            regression_config: match self.regression_config {
                Some(c) => Some(c@),
                None => None,
            },
            tools: tool_views(self.tools@),
            truncate_description: self.truncate_description,
            sandbox: match self.sandbox {
                Some(s) => Some(s@),
                None => None,
            },
        }
    }
}

/// The second setting where there is one, else the first.
pub open spec fn update_option<T>(first: Option<T>, other: Option<T>) -> Option<T> {
    if other is Some {
        other
    } else {
        first
    }
}

impl BenchmarkConfigView {
    /// The settings without anything set.
    pub open spec fn empty() -> BenchmarkConfigView {
        BenchmarkConfigView {
            env_clear: None,
            raw_callgrind_args: Seq::empty(),
            envs: Seq::empty(),
            flamegraph_config: None,
            regression_config: None,
            tools: Seq::empty(),
            truncate_description: None,
            sandbox: None,
        }
    }

    /// These settings with those of an inner level on top: a single setting of the inner
    /// level goes before that of this level, lists of arguments and variables are joined, and
    /// each tool of the inner level takes the place of the tool of its kind.
    pub open spec fn updated(self, other: BenchmarkConfigView) -> BenchmarkConfigView {
        BenchmarkConfigView {
            env_clear: update_option(self.env_clear, other.env_clear),
            raw_callgrind_args: self.raw_callgrind_args + other.raw_callgrind_args,
            envs: self.envs + other.envs,
            flamegraph_config: update_option(self.flamegraph_config, other.flamegraph_config),
            regression_config: update_option(self.regression_config, other.regression_config),
            tools: with_tools(self.tools, other.tools),
            truncate_description: update_option(
                self.truncate_description,
                other.truncate_description,
            ),
            sandbox: update_option(self.sandbox, other.sandbox),
        }
    }

    /// These settings with those of an inner level on top, where the inner level has any.
    pub open spec fn updated_with(self, other: Option<BenchmarkConfigView>) -> BenchmarkConfigView {
        match other {
            Some(other) => self.updated(other),
            None => self,
        }
    }
}

/// An optional configuration as an optional view.
pub open spec fn config_view(config: Option<BenchmarkConfig>) -> Option<BenchmarkConfigView> {
    match config {
        Some(c) => Some(c@),
        None => None,
    }
}

fn place_of_kind(tools: &Vec<Tool>, kind: ValgrindTool) -> (r: usize)
    ensures
        r == place_of(tool_views(tools@), kind),
        r <= tools@.len(),
{
    let ghost all = tool_views(tools@);
    let mut i: usize = 0;
    assert(all.skip(0) == all);
    while i < tools.len()
        invariant
            i <= tools.len(),
            all == tool_views(tools@),
            place_of(all, kind) == i + place_of(all.skip(i as int), kind),
        decreases tools.len() - i,
    {
        let ghost rest = all.skip(i as int);
        assert(rest[0] == tools@[i as int]@);
        if tools[i].kind == kind {
            return i;
        }
        assert(rest.drop_first() == all.skip(i + 1));
        i += 1;
    }
    assert(all.skip(all.len() as int).len() == 0);
    i
}

impl BenchmarkConfig {
    /// The settings without anything set.
    pub fn empty() -> (r: Self)
        ensures
            r@ == BenchmarkConfigView::empty(),
    {
        let r = BenchmarkConfig {
            env_clear: None,
            raw_callgrind_args: Vec::new(),
            envs: Vec::new(),
            flamegraph_config: None,
            regression_config: None,
            tools: Vec::new(),
            truncate_description: None,
            sandbox: None,
        };
        assert(r@.raw_callgrind_args =~= Seq::<Seq<char>>::empty());
        assert(r@.envs =~= Seq::<(Seq<char>, Seq<char>)>::empty());
        assert(r@.tools =~= Seq::<ToolView>::empty());
        r
    }

    /// A copy of the settings.
    pub fn duplicate(&self) -> (r: Self)
        ensures
            r@ == self@,
    {
        let mut tools: Vec<Tool> = Vec::new();
        let mut i: usize = 0;
        while i < self.tools.len()
            invariant
                i <= self.tools.len(),
                tools@.len() == i,
                forall|j: int| 0 <= j < i ==> (#[trigger] tools@[j])@ == self.tools@[j]@,
            decreases self.tools.len() - i,
        {
            tools.push(self.tools[i].duplicate());
            i += 1;
        }
        assert(tool_views(tools@) =~= tool_views(self.tools@));
        BenchmarkConfig {
            env_clear: self.env_clear,
            raw_callgrind_args: clone_strings(&self.raw_callgrind_args),
            envs: clone_pairs(&self.envs),
            flamegraph_config: match &self.flamegraph_config {
                Some(c) => Some(c.duplicate()),
                None => None,
            },
            regression_config: match &self.regression_config {
                Some(c) => Some(c.duplicate()),
                None => None,
            },
            tools,
            truncate_description: self.truncate_description,
            sandbox: match &self.sandbox {
                Some(s) => Some(s.duplicate()),
                None => None,
            },
        }
    }

    /// These settings with those of an inner level on top.
    pub fn update(self, other: &BenchmarkConfig) -> (r: Self)
        ensures
            r@ == self@.updated(other@),
    {
        let ghost before = self@;
        let mut config = self;
        if other.env_clear.is_some() {
            config.env_clear = other.env_clear;
        }
        let mut args = clone_strings(&other.raw_callgrind_args);
        config.raw_callgrind_args.append(&mut args);
        assert(views(config.raw_callgrind_args@) =~= before.raw_callgrind_args + views(
            other.raw_callgrind_args@,
        ));
        let mut envs = clone_pairs(&other.envs);
        config.envs.append(&mut envs);
        assert(pair_views(config.envs@) =~= before.envs + pair_views(other.envs@));
        match &other.flamegraph_config {
            Some(c) => {
                config.flamegraph_config = Some(c.duplicate());
            },
            None => {},
        }
        match &other.regression_config {
            Some(c) => {
                config.regression_config = Some(c.duplicate());
            },
            None => {},
        }
        let mut tools: Vec<Tool> = Vec::new();
        std::mem::swap(&mut tools, &mut config.tools);
        let ghost others = tool_views(other.tools@);
        let mut i: usize = 0;
        assert(others.take(0) =~= Seq::<ToolView>::empty());
        while i < other.tools.len()
            invariant
                i <= other.tools.len(),
                others == tool_views(other.tools@),
                tool_views(tools@) == with_tools(before.tools, others.take(i as int)),
            decreases other.tools.len() - i,
        {
            proof {
                assert(others.take(i + 1).drop_last() == others.take(i as int));
                assert(others.take(i + 1).last() == other.tools@[i as int]@);
            }
            let tool = other.tools[i].duplicate();
            let place = place_of_kind(&tools, tool.kind);
            let ghost old_tools = tools@;
            if place < tools.len() {
                tools.set(place, tool);
                assert(tool_views(tools@) =~= tool_views(old_tools).update(place as int, tool@));
            } else {
                tools.push(tool);
                assert(tool_views(tools@) =~= tool_views(old_tools).push(tool@));
            }
            i += 1;
        }
        assert(others.take(others.len() as int) == others);
        config.tools = tools;
        if other.truncate_description.is_some() {
            config.truncate_description = other.truncate_description;
        }
        match &other.sandbox {
            Some(s) => {
                config.sandbox = Some(s.duplicate());
            },
            None => {},
        }
        config
    }

    /// These settings with those of an inner level on top, where the inner level has any.
    pub fn update_from(self, other: Option<&BenchmarkConfig>) -> (r: Self)
        ensures
            r@ == self@.updated_with(
                match other {
                    Some(c) => Some(c@),
                    None => None,
                },
            ),
    {
        match other {
            Some(other) => self.update(other),
            None => self,
        }
    }
}

/// One benchmark of a library function.
#[derive(Debug, Clone, PartialEq, Eq)]
pub struct LibraryBenchmarkBench {
    pub id: Option<String>,
    pub function_name: String,
    /// The arguments of the function, as they are displayed.
    pub args: Option<String>,
    pub config: Option<BenchmarkConfig>,
}

/// The benchmarks of one library function.
#[derive(Debug, Clone, PartialEq, Eq)]
pub struct LibraryBenchmarkBenches {
    pub benches: Vec<LibraryBenchmarkBench>,
    pub config: Option<BenchmarkConfig>,
}

/// A group of benchmarks of library functions.
#[derive(Debug, Clone, PartialEq, Eq)]
pub struct LibraryBenchmarkGroup {
    pub id: String,
    pub config: Option<BenchmarkConfig>,
    pub compare_by_id: Option<bool>,
    pub library_benchmarks: Vec<LibraryBenchmarkBenches>,
    pub has_setup: bool,
    pub has_teardown: bool,
}

/// All groups of benchmarks of library functions, with the settings of the whole run.
#[derive(Debug, Clone, PartialEq, Eq)]
pub struct LibraryBenchmarkGroups {
    pub config: BenchmarkConfig,
    pub groups: Vec<LibraryBenchmarkGroup>,
    pub has_setup: bool,
    pub has_teardown: bool,
}

/// The command that a benchmark of a binary runs.
#[derive(Debug, Clone, PartialEq, Eq)]
pub struct Command {
    pub path: String,
    pub args: Vec<String>,
    pub envs: Vec<(String, String)>,
    pub env_clear: Option<bool>,
}

/// One benchmark of a binary.
#[derive(Debug, Clone, PartialEq, Eq)]
pub struct BinaryBenchmarkBench {
    pub id: Option<String>,
    /// The arguments of the benchmark function, as they are displayed.
    pub args: Option<String>,
    /// The name of the benchmark function.
    pub bench: String,
    pub command: Command,
    pub config: Option<BenchmarkConfig>,
    pub has_setup: bool,
    pub has_teardown: bool,
}

/// The benchmarks of one benchmark function of a binary.
#[derive(Debug, Clone, PartialEq, Eq)]
pub struct BinaryBenchmarkBenches {
    pub benches: Vec<BinaryBenchmarkBench>,
    pub config: Option<BenchmarkConfig>,
}

/// A group of benchmarks of binaries.
#[derive(Debug, Clone, PartialEq, Eq)]
pub struct BinaryBenchmarkGroup {
    pub id: String,
    pub config: Option<BenchmarkConfig>,
    pub benches: Vec<BinaryBenchmarkBenches>,
    pub has_setup: bool,
    pub has_teardown: bool,
}

/// All groups of benchmarks of binaries, with the settings of the whole run.
#[derive(Debug, Clone, PartialEq, Eq)]
pub struct BinaryBenchmark {
    pub config: BenchmarkConfig,
    pub groups: Vec<BinaryBenchmarkGroup>,
    pub has_setup: bool,
    pub has_teardown: bool,
}

} // verus!
