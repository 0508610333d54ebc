//! The groups and their benchmarks, as the engine runs them: built once from the description
//! that the front end hands over, and not changed thereafter.

use vstd::prelude::*;
use vstd::string::*;

use crate::api;
use crate::api::{BenchmarkConfigView, RegressionConfigView, ToolView, update_option};
use crate::command::{NoCapture, RunOptions, ToolConfig, ToolConfigs};
use crate::common::{ModulePath, path_separator};
use crate::costs::EventKind;
use crate::error::{Error, ExitStatus, Output, ProcessError};
use crate::flamegraph::{Config, DEFAULT_MIN_WIDTH, Direction};
use crate::runner::{BenchShape, GroupShape, RunShape};
use crate::summary::{
    CallgrindRegressionSummary, CostsSummary, RegressionConfig, limits_of, regressions_of,
};
use crate::text::{
    clone_option, clone_strings, concat3, decimal, decimal_string, option_view, truncate_utf8,
    truncated, views,
};
use crate::tool::ValgrindTool;
use crate::tool_args::{ToolArgs, with_raw_args};

verus! {

/// Whether a helper function sets up or tears down.
#[derive(Debug, Clone, Copy, PartialEq, Eq, Structural)]
pub enum AssistantKind {
    Setup,
    Teardown,
}

impl AssistantKind {
    /// `setup` or `teardown`.
    pub open spec fn spec_id(self) -> Seq<char> {
        match self {
            AssistantKind::Setup => seq!['s', 'e', 't', 'u', 'p'],
            AssistantKind::Teardown => seq!['t', 'e', 'a', 'r', 'd', 'o', 'w', 'n'],
        }
    }

    /// `setup` or `teardown`.
    pub fn id(&self) -> (r: String)
        ensures
            r@ == self.spec_id(),
    {
        proof {
            reveal_strlit("setup");
            reveal_strlit("teardown");
        }
        let r = match self {
            AssistantKind::Setup => "setup",
            AssistantKind::Teardown => "teardown",
        };
        assert(r@ =~= self.spec_id());
        String::from_str(r)
    }
}

/// A set-up or tear-down function of the whole run, of a group or of a benchmark. The engine
/// runs it by starting the benchmark executable once more, with arguments that select the
/// function.
#[derive(Debug, Clone, PartialEq, Eq)]
pub struct Assistant {
    pub kind: AssistantKind,
    pub group_name: Option<String>,
    /// The places of the benchmark function and of the benchmark in its group.
    pub indices: Option<(usize, usize)>,
}

/// `--iai-run`
pub open spec fn lit_run_flag() -> Seq<char> {
    seq!['-', '-', 'i', 'a', 'i', '-', 'r', 'u', 'n']
}

impl Assistant {
    /// The function of the whole run.
    pub fn new_main(kind: AssistantKind) -> (r: Self)
        ensures
            r == (Assistant { kind, group_name: None, indices: None }),
    {
        Assistant { kind, group_name: None, indices: None }
    }

    /// The function of the group `group_name`.
    pub fn new_group(kind: AssistantKind, group_name: &str) -> (r: Self)
        ensures
            r.kind == kind,
            option_view(r.group_name) == Some(group_name@),
            r.indices is None,
    {
        Assistant { kind, group_name: Some(String::from_str(group_name)), indices: None }
    }

    /// The function of the benchmark at `indices` in the group `group_name`.
    pub fn new_bench(kind: AssistantKind, group_name: &str, indices: (usize, usize)) -> (r: Self)
        ensures
            r.kind == kind,
            option_view(r.group_name) == Some(group_name@),
            r.indices == Some(indices),
    {
        Assistant { kind, group_name: Some(String::from_str(group_name)), indices: Some(indices) }
    }

    /// The arguments that select the function: `--iai-run`, the group where there is one,
    /// `setup` or `teardown`, and the two places where there are any.
    pub open spec fn spec_args(self) -> Seq<Seq<char>> {
        seq![lit_run_flag()] + (match self.group_name {
            Some(name) => seq![name@],
            None => Seq::empty(),
        }) + seq![self.kind.spec_id()] + (match self.indices {
            Some(indices) => seq![decimal(indices.0 as nat), decimal(indices.1 as nat)],
            None => Seq::empty(),
        })
    }

    /// The arguments that select the function.
    pub fn args(&self) -> (r: Vec<String>)
        ensures
            views(r@) == self.spec_args(),
    {
        proof {
            reveal_strlit("--iai-run");
            assert("--iai-run"@ =~= lit_run_flag());
        }
        let mut r: Vec<String> = Vec::new();
        r.push(String::from_str("--iai-run"));
        match &self.group_name {
            Some(name) => {
                r.push(name.clone());
            },
            None => {},
        }
        r.push(self.kind.id());
        match self.indices {
            Some((group_index, bench_index)) => {
                r.push(decimal_string(group_index as u64));
                r.push(decimal_string(bench_index as u64));
            },
            None => {},
        }
        assert(views(r@) =~= self.spec_args());
        r
    }

    /// Whether the output of the function is captured: it is, unless streams are to be
    /// shown.
    pub fn captures(nocapture: NoCapture) -> (r: bool)
        ensures
            r == nocapture is False,
    {
        matches!(nocapture, NoCapture::False)
    }

    /// Nothing, where the function ended with success; otherwise the error of the process,
    /// under the name of the function in `module`.
    pub fn finish(&self, status: ExitStatus, output: Option<Output>, module: &ModulePath) -> (r:
        Result<(), Error>)
        ensures
            status.spec_success() ==> r is Ok,
            !status.spec_success() ==> r is Err && (r->Err_0 matches Error::ProcessError(e) && e.id@
                == module@ + path_separator() + self.kind.spec_id() && e.status == status
                && e.output == output && e.output_path is None),
    {
        if status.success() {
            Ok(())
        } else {
            Err(
                Error::ProcessError(
                    ProcessError {
                        id: module.join(self.kind.id().as_str()).to_string(),
                        output,
                        status,
                        output_path: None,
                    },
                ),
            )
        }
    }
}

/// The function that is toggled to collect the counts of a library benchmark.
pub open spec fn default_toggle() -> Seq<char> {
    "*::__iai_callgrind_wrapper_mod::*"@
}

/// The number of characters to which the description of a benchmark is cut where nothing
/// else is said.
pub const TRUNCATE_DESCRIPTION: usize = 50;

/// A single benchmark of a library function.
#[derive(Debug, PartialEq, Eq)]
pub struct LibBench {
    /// The place of the benchmark function in its group.
    pub bench_index: usize,
    /// The place of the benchmark among those of its function.
    pub index: usize,
    pub id: Option<String>,
    pub function: String,
    pub args: Option<String>,
    pub run_options: RunOptions,
    pub callgrind_args: ToolArgs,
    pub flamegraph_config: Option<Config>,
    pub regression_config: Option<RegressionConfig>,
    pub tools: ToolConfigs,
    pub module: ModulePath,
    pub entry_point: Option<String>,
    pub truncate_description: Option<usize>,
}

/// A group of benchmarks of library functions.
#[derive(Debug, PartialEq, Eq)]
pub struct Group {
    pub id: String,
    pub benches: Vec<LibBench>,
    pub compare_by_id: bool,
    pub module: ModulePath,
    pub setup: Option<Assistant>,
    pub teardown: Option<Assistant>,
}

/// All groups of benchmarks of library functions.
#[derive(Debug, PartialEq, Eq)]
pub struct Groups(pub Vec<Group>);

/// Whether `config` is what the description `value` settles to.
pub open spec fn is_config_of(config: Config, value: api::FlamegraphConfigView) -> bool {
    &&& config.kind == match value.kind {
        Some(kind) => kind,
        None => api::FlamegraphKind::All,
    }
    &&& config.negate_differential == (value.negate_differential == Some(true))
    &&& config.normalize_differential == (value.normalize_differential == Some(true))
    &&& config.event_kinds@ == match value.event_kinds {
        Some(kinds) => kinds,
        None => seq![EventKind::EstimatedCycles],
    }
    &&& config.direction == match value.direction {
        Some(direction) => Direction::spec_from_api(direction),
        None => Direction::Inverted,
    }
    &&& option_view(config.title) == value.title
    &&& option_view(config.subtitle) == value.subtitle
    &&& config.min_width == match value.min_width {
        Some(width) => width,
        None => DEFAULT_MIN_WIDTH,
    }
}

/// Whether `config` is what the description `value` of a tool settles to.
pub open spec fn is_tool_config_of(config: ToolConfig, value: ToolView) -> bool {
    &&& config.tool == value.kind
    &&& config.is_enabled == !(value.enable == Some(false))
    &&& config.args@ == with_raw_args(value.kind, value.raw_args)
    &&& option_view(config.outfile_modifier) == value.outfile_modifier
}

/// Whether `configs` are what the descriptions `values` of the tools settle to, one by one.
pub open spec fn are_tool_configs_of(configs: Seq<ToolConfig>, values: Seq<ToolView>) -> bool {
    &&& configs.len() == values.len()
    &&& forall|i: int| 0 <= i < configs.len() ==> is_tool_config_of(#[trigger] configs[i], values[i])
}

/// Whether `config` is what the limits `value` settle to.
pub open spec fn is_regression_of(
    config: Option<RegressionConfig>,
    value: Option<RegressionConfigView>,
) -> bool {
    match value {
        Some(value) => config is Some && config->0.limits@ == limits_of(value.limits)
            && config->0.fail_fast == (value.fail_fast == Some(true)),
        None => config is None,
    }
}

/// Whether `config` is what the wishes `value` for flame graphs settle to.
pub open spec fn is_flamegraph_of(
    config: Option<Config>,
    value: Option<api::FlamegraphConfigView>,
) -> bool {
    match value {
        Some(value) => config is Some && is_config_of(config->0, value),
        None => config is None,
    }
}

/// What the command line adds to the settings of every benchmark.
pub struct MetaView {
    pub callgrind_args: Seq<Seq<char>>,
    pub regression_config: Option<RegressionConfigView>,
}

/// What the command line adds to the settings of every benchmark: arguments for the primary
/// tool, and limits of regression that go before those of the description.
#[derive(Debug, Clone, PartialEq, Eq)]
pub struct Metadata {
    pub callgrind_args: Vec<String>,
    pub regression_config: Option<api::RegressionConfig>,
}

impl View for Metadata {
    type V = MetaView;

    open spec fn view(&self) -> MetaView {
        MetaView {
            callgrind_args: views(self.callgrind_args@),
            regression_config: match self.regression_config {
                Some(c) => Some(c@),
                None => None,
            },
        }
    }
}

/// Whether the settled parts of a benchmark are what the settings `resolved` and the command
/// line `meta` ask for.
pub open spec fn is_settled(
    run_options: RunOptions,
    callgrind_args: ToolArgs,
    flamegraph_config: Option<Config>,
    regression_config: Option<RegressionConfig>,
    tools: ToolConfigs,
    resolved: BenchmarkConfigView,
    env_clear: bool,
    meta: MetaView,
) -> bool {
    &&& run_options.env_clear == env_clear
    &&& api::pair_views(run_options.envs@) == resolved.envs
    &&& run_options.current_dir is None
    &&& run_options.exit_with is None
    &&& run_options.stdin is None
    &&& run_options.stdout is None
    &&& run_options.stderr is None
    &&& callgrind_args@ == with_raw_args(
        ValgrindTool::Callgrind,
        resolved.raw_callgrind_args + meta.callgrind_args,
    )
    &&& is_flamegraph_of(flamegraph_config, resolved.flamegraph_config)
    &&& is_regression_of(
        regression_config,
        update_option(resolved.regression_config, meta.regression_config),
    )
    &&& are_tool_configs_of(tools.0@, resolved.tools)
}

/// Whether `bench` is the benchmark that `source` describes, at the given places in the
/// group of `module`, with the settings `resolved`.
pub open spec fn is_lib_bench_of(
    bench: LibBench,
    source: api::LibraryBenchmarkBench,
    bench_index: usize,
    index: usize,
    module: Seq<char>,
    resolved: BenchmarkConfigView,
    meta: MetaView,
) -> bool {
    &&& bench.bench_index == bench_index
    &&& bench.index == index
    &&& bench.id == source.id
    &&& bench.function == source.function_name
    &&& bench.args == source.args
    &&& bench.module@ == module + path_separator() + source.function_name@
    &&& option_view(bench.entry_point) == Some(default_toggle())
    &&& bench.truncate_description == match resolved.truncate_description {
        Some(truncate) => truncate,
        None => Some(TRUNCATE_DESCRIPTION),
    }
    &&& is_settled(
        bench.run_options,
        bench.callgrind_args,
        bench.flamegraph_config,
        bench.regression_config,
        bench.tools,
        resolved,
        !(resolved.env_clear == Some(false)),
        meta,
    )
}

pub(crate) struct Settled {
    pub run_options: RunOptions,
    pub callgrind_args: ToolArgs,
    pub flamegraph_config: Option<Config>,
    pub regression_config: Option<RegressionConfig>,
    pub tools: ToolConfigs,
}

pub(crate) fn settle(config: api::BenchmarkConfig, env_clear: bool, meta: &Metadata) -> (r: Settled)
    ensures
        is_settled(
            r.run_options,
            r.callgrind_args,
            r.flamegraph_config,
            r.regression_config,
            r.tools,
            config@,
            env_clear,
            meta@,
        ),
{
    let mut raw = config.raw_callgrind_args;
    let ghost first = raw@;
    let mut more = clone_strings(&meta.callgrind_args);
    raw.append(&mut more);
    assert(views(raw@) =~= views(first) + views(meta.callgrind_args@));
    let callgrind_args = ToolArgs::from_raw_args(ValgrindTool::Callgrind, raw);
    let flamegraph_config = match config.flamegraph_config {
        Some(c) => Some(Config::from_api(c)),
        None => None,
    };
    let regression_config = match &meta.regression_config {
        Some(c) => Some(RegressionConfig::from_api(c)),
        None => match &config.regression_config {
            Some(c) => Some(RegressionConfig::from_api(c)),
            None => None,
        },
    };
    let ghost values = api::tool_views(config.tools@);
    let mut sources = config.tools;
    let mut tools: Vec<ToolConfig> = Vec::new();
    let mut i: usize = 0;
    while i < sources.len()
        invariant
            i <= sources.len(),
            tools@.len() == i,
            sources@.len() == values.len(),
            forall|j: int| i <= j < sources@.len() ==> (#[trigger] sources@[j])@ == values[j],
            forall|j: int| 0 <= j < i ==> is_tool_config_of(#[trigger] tools@[j], values[j]),
        decreases sources.len() - i,
    {
        let tool = sources[i].duplicate();
        tools.push(ToolConfig::from_api(tool));
        i += 1;
    }
    Settled {
        run_options: RunOptions {
            env_clear,
            current_dir: None,
            exit_with: None,
            envs: config.envs,
            stdin: None,
            stdout: None,
            stderr: None,
        },
        callgrind_args,
        flamegraph_config,
        regression_config,
        tools: ToolConfigs(tools),
    }
}

/// The number of benchmarks of the first `n` benchmark functions.
pub open spec fn flat_len(lists: Seq<api::LibraryBenchmarkBenches>, n: nat) -> nat
    decreases n,
{
    if n == 0 {
        0
    } else {
        flat_len(lists, (n - 1) as nat) + lists[n - 1].benches@.len()
    }
}

/// The settings of a benchmark: those of the whole run, with those of its group, of its
/// function and its own on top, in this order.
pub open spec fn resolved_config(
    global: BenchmarkConfigView,
    group: Option<BenchmarkConfigView>,
    benches: Option<BenchmarkConfigView>,
    bench: Option<BenchmarkConfigView>,
) -> BenchmarkConfigView {
    global.updated_with(group).updated_with(benches).updated_with(bench)
}

/// Whether `group` is the group that `source` describes, in the module `module`.
pub open spec fn is_group_of(
    group: Group,
    source: api::LibraryBenchmarkGroup,
    module: Seq<char>,
    global: BenchmarkConfigView,
    meta: MetaView,
) -> bool {
    let lists = source.library_benchmarks@;
    &&& group.id@ == source.id@
    &&& group.module@ == module + path_separator() + source.id@
    &&& group.compare_by_id == (source.compare_by_id == Some(true))
    &&& match group.setup {
        Some(a) => source.has_setup && a.kind == AssistantKind::Setup && option_view(a.group_name)
            == Some(source.id@) && a.indices is None,
        None => !source.has_setup,
    }
    &&& match group.teardown {
        Some(a) => source.has_teardown && a.kind == AssistantKind::Teardown && option_view(
            a.group_name,
        ) == Some(source.id@) && a.indices is None,
        None => !source.has_teardown,
    }
    &&& group.benches@.len() == flat_len(lists, lists.len())
    &&& forall|j: int, i: int|
        0 <= j < lists.len() && 0 <= i < lists[j].benches@.len() ==> is_lib_bench_of(
            #[trigger] group.benches@[flat_len(lists, j as nat) + i],
            lists[j].benches@[i],
            j as usize,
            i as usize,
            group.module@,
            resolved_config(
                global,
                api::config_view(source.config),
                api::config_view(lists[j].config),
                api::config_view(lists[j].benches@[i].config),
            ),
            meta,
        )
}

fn lib_bench(
    source: &api::LibraryBenchmarkBench,
    bench_index: usize,
    index: usize,
    module: &ModulePath,
    config: api::BenchmarkConfig,
    meta: &Metadata,
) -> (r: LibBench)
    ensures
        is_lib_bench_of(r, *source, bench_index, index, module@, config@, meta@),
{
    let truncate_description = match config.truncate_description {
        Some(truncate) => truncate,
        None => Some(TRUNCATE_DESCRIPTION),
    };
    let env_clear = match config.env_clear {
        Some(clear) => clear,
        None => true,
    };
    let settled = settle(config, env_clear, meta);
    LibBench {
        bench_index,
        index,
        id: clone_option(&source.id),
        function: source.function_name.clone(),
        args: clone_option(&source.args),
        run_options: settled.run_options,
        callgrind_args: settled.callgrind_args,
        flamegraph_config: settled.flamegraph_config,
        regression_config: settled.regression_config,
        tools: settled.tools,
        module: module.join(source.function_name.as_str()),
        entry_point: Some(String::from_str("*::__iai_callgrind_wrapper_mod::*")),
        truncate_description,
    }
}

fn lib_group(
    source: &api::LibraryBenchmarkGroup,
    module: &ModulePath,
    global: &api::BenchmarkConfig,
    meta: &Metadata,
) -> (r: Group)
    ensures
        is_group_of(r, *source, module@, global@, meta@),
{
    let group_module = module.join(source.id.as_str());
    let group_config = global.duplicate().update_from(source.config.as_ref());
    let setup = if source.has_setup {
        Some(Assistant::new_group(AssistantKind::Setup, source.id.as_str()))
    } else {
        None
    };
    let teardown = if source.has_teardown {
        Some(Assistant::new_group(AssistantKind::Teardown, source.id.as_str()))
    } else {
        None
    };
    let ghost lists = source.library_benchmarks@;
    let mut benches: Vec<LibBench> = Vec::new();
    let mut j: usize = 0;
    while j < source.library_benchmarks.len()
        invariant
            j <= source.library_benchmarks.len(),
            lists == source.library_benchmarks@,
            group_config@ == global@.updated_with(api::config_view(source.config)),
            group_module@ == module@ + path_separator() + source.id@,
            benches@.len() == flat_len(lists, j as nat),
            forall|a: int, i: int|
                0 <= a < j && 0 <= i < lists[a].benches@.len() ==> is_lib_bench_of(
                    #[trigger] benches@[flat_len(lists, a as nat) + i],
                    lists[a].benches@[i],
                    a as usize,
                    i as usize,
                    group_module@,
                    resolved_config(
                        global@,
                        api::config_view(source.config),
                        api::config_view(lists[a].config),
                        api::config_view(lists[a].benches@[i].config),
                    ),
                    meta@,
                ),
        decreases source.library_benchmarks.len() - j,
    {
        let list = &source.library_benchmarks[j];
        let ghost start = benches@.len();
        let ghost before = benches@;
        let mut i: usize = 0;
        while i < list.benches.len()
            invariant
                i <= list.benches.len(),
                j < source.library_benchmarks.len(),
                lists == source.library_benchmarks@,
                *list == lists[j as int],
                start == flat_len(lists, j as nat),
                group_config@ == global@.updated_with(api::config_view(source.config)),
                group_module@ == module@ + path_separator() + source.id@,
                benches@.len() == start + i,
                forall|k: int| 0 <= k < start ==> benches@[k] == before[k],
                before.len() == start,
                forall|k: int|
                    0 <= k < i ==> is_lib_bench_of(
                        #[trigger] benches@[start + k],
                        list.benches@[k],
                        j,
                        k as usize,
                        group_module@,
                        resolved_config(
                            global@,
                            api::config_view(source.config),
                            api::config_view(list.config),
                            api::config_view(list.benches@[k].config),
                        ),
                        meta@,
                    ),
            decreases list.benches.len() - i,
        {
            let bench = &list.benches[i];
            let config = group_config.duplicate().update_from(list.config.as_ref()).update_from(
                bench.config.as_ref(),
            );
            let ghost old_benches = benches@;
            benches.push(lib_bench(bench, j, i, &group_module, config, meta));
            assert forall|k: int| 0 <= k < i + 1 implies is_lib_bench_of(
                #[trigger] benches@[start + k],
                list.benches@[k],
                j,
                k as usize,
                group_module@,
                resolved_config(
                    global@,
                    api::config_view(source.config),
                    api::config_view(list.config),
                    api::config_view(list.benches@[k].config),
                ),
                meta@,
            ) by {
                if k < i {
                    assert(benches@[start + k] == old_benches[start + k]);
                }
            }
            i += 1;
        }
        proof {
            assert forall|a: int, i: int|
                0 <= a < j + 1 && 0 <= i < lists[a].benches@.len() implies is_lib_bench_of(
                #[trigger] benches@[flat_len(lists, a as nat) + i],
                lists[a].benches@[i],
                a as usize,
                i as usize,
                group_module@,
                resolved_config(
                    global@,
                    api::config_view(source.config),
                    api::config_view(lists[a].config),
                    api::config_view(lists[a].benches@[i].config),
                ),
                meta@,
            ) by {
                if a < j {
                    lemma_flat_len_monotone(lists, a + 1, j as int);
                    assert(benches@[flat_len(lists, a as nat) + i] == before[flat_len(
                        lists,
                        a as nat,
                    ) + i]);
                }
            }
        }
        j += 1;
    }
    Group {
        id: source.id.clone(),
        benches,
        compare_by_id: match source.compare_by_id {
            Some(b) => b,
            None => false,
        },
        module: group_module,
        setup,
        teardown,
    }
}

/// The benchmarks of more functions are no fewer.
pub proof fn lemma_flat_len_monotone(lists: Seq<api::LibraryBenchmarkBenches>, a: int, b: int)
    requires
        0 <= a <= b <= lists.len(),
    ensures
        flat_len(lists, a as nat) <= flat_len(lists, b as nat),
    decreases b - a,
{
    if a < b {
        lemma_flat_len_monotone(lists, a, b - 1);
    }
}

impl Groups {
    /// The groups that the description asks for, in its order; the benchmarks of a group are
    /// those of its functions, one function after the other.
    ///
    /// Every benchmark gets its settings settled: those of the whole run, with those of its
    /// group, of its function and its own on top, and with what the command line adds.
    pub fn from_library_benchmark(
        module: &ModulePath,
        benchmark_groups: api::LibraryBenchmarkGroups,
        meta: &Metadata,
    ) -> (r: Self)
        ensures
            r.0@.len() == benchmark_groups.groups@.len(),
            forall|g: int|
                0 <= g < r.0@.len() ==> is_group_of(
                    #[trigger] r.0@[g],
                    benchmark_groups.groups@[g],
                    module@,
                    benchmark_groups.config@,
                    meta@,
                ),
    {
        let mut groups: Vec<Group> = Vec::new();
        let mut g: usize = 0;
        while g < benchmark_groups.groups.len()
            invariant
                g <= benchmark_groups.groups.len(),
                groups@.len() == g,
                forall|k: int|
                    0 <= k < g ==> is_group_of(
                        #[trigger] groups@[k],
                        benchmark_groups.groups@[k],
                        module@,
                        benchmark_groups.config@,
                        meta@,
                    ),
            decreases benchmark_groups.groups.len() - g,
        {
            groups.push(lib_group(&benchmark_groups.groups[g], module, &benchmark_groups.config, meta));
            g += 1;
        }
        Groups(groups)
    }

    /// What the groups ask of the walk: a group has a set-up and a tear-down where its
    /// description has them, a benchmark of a library function has neither, and it fails
    /// fast where its limits of regression say so.
    pub fn shape(&self, has_setup: bool, has_teardown: bool) -> (r: RunShape)
        ensures
            r.has_setup == has_setup,
            r.has_teardown == has_teardown,
            r.groups@.len() == self.0@.len(),
            forall|g: int|
                0 <= g < r.groups@.len() ==> {
                    let shape = #[trigger] r.groups@[g];
                    let group = self.0@[g];
                    &&& shape.has_setup == group.setup is Some
                    &&& shape.has_teardown == group.teardown is Some
                    &&& shape.benches@.len() == group.benches@.len()
                    &&& forall|b: int|
                        0 <= b < shape.benches@.len() ==> #[trigger] shape.benches@[b] == (BenchShape {
                            has_setup: false,
                            has_teardown: false,
                            fail_fast: fails_fast(group.benches@[b].regression_config),
                        })
                },
    {
        let mut groups: Vec<GroupShape> = Vec::new();
        let mut g: usize = 0;
        while g < self.0.len()
            invariant
                g <= self.0.len(),
                groups@.len() == g,
                forall|k: int|
                    0 <= k < g ==> {
                        let shape = #[trigger] groups@[k];
                        let group = self.0@[k];
                        &&& shape.has_setup == group.setup is Some
                        &&& shape.has_teardown == group.teardown is Some
                        &&& shape.benches@.len() == group.benches@.len()
                        &&& forall|b: int|
                            0 <= b < shape.benches@.len() ==> #[trigger] shape.benches@[b] == (BenchShape {
                                has_setup: false,
                                has_teardown: false,
                                fail_fast: fails_fast(group.benches@[b].regression_config),
                            })
                    },
            decreases self.0.len() - g,
        {
            let group = &self.0[g];
            let mut benches: Vec<BenchShape> = Vec::new();
            let mut b: usize = 0;
            while b < group.benches.len()
                invariant
                    b <= group.benches.len(),
                    benches@.len() == b,
                    forall|k: int|
                        0 <= k < b ==> #[trigger] benches@[k] == (BenchShape {
                            has_setup: false,
                            has_teardown: false,
                            fail_fast: fails_fast(group.benches@[k].regression_config),
                        }),
                decreases group.benches.len() - b,
            {
                benches.push(
                    BenchShape {
                        has_setup: false,
                        has_teardown: false,
                        fail_fast: group.benches[b].fail_fast(),
                    },
                );
                b += 1;
            }
            groups.push(
                GroupShape {
                    has_setup: group.setup.is_some(),
                    has_teardown: group.teardown.is_some(),
                    benches,
                },
            );
            g += 1;
        }
        RunShape { has_setup, has_teardown, groups }
    }
}

/// Whether the limits of regression say that the first regression ends the group's run.
pub open spec fn fails_fast(config: Option<RegressionConfig>) -> bool {
    match config {
        Some(config) => config.fail_fast,
        None => false,
    }
}

/// The name of a benchmark: the name of its function and, where it has one, a dot and its id.
pub open spec fn bench_name(function: Seq<char>, id: Option<Seq<char>>) -> Seq<char> {
    match id {
        Some(id) => function + seq!['.'] + id,
        None => function,
    }
}

pub(crate) fn name_of(function: &String, id: &Option<String>) -> (r: String)
    ensures
        r@ == bench_name(function@, option_view(*id)),
{
    proof {
        reveal_strlit(".");
        assert("."@ =~= seq!['.']);
    }
    match id {
        Some(id) => concat3(function.as_str(), ".", id.as_str()),
        None => function.clone(),
    }
}

pub(crate) fn regressions(config: &Option<RegressionConfig>, costs_summary: &CostsSummary) -> (r: Vec<
    CallgrindRegressionSummary,
>)
    ensures
        r@ == match *config {
            Some(config) => regressions_of(*costs_summary, config.limits@),
            None => Seq::empty(),
        },
{
    match config {
        Some(config) => config.check(costs_summary),
        None => Vec::new(),
    }
}

/// `...`
pub open spec fn lit_ellipsis() -> Seq<char> {
    seq!['.', '.', '.']
}

/// The description `text` as a header shows it: whole where no limit is set or where it
/// fits into `limit` bytes, and otherwise its longest beginning that fits, followed by
/// `...`.
pub open spec fn shortened(text: Seq<char>, limit: Option<usize>) -> Seq<char> {
    match limit {
        Some(limit) => if truncated(text, limit as nat).len() < text.len() {
            truncated(text, limit as nat) + lit_ellipsis()
        } else {
            text
        },
        None => text,
    }
}

/// The description `text` as a header shows it.
pub fn shorten(text: &str, limit: Option<usize>) -> (r: String)
    ensures
        r@ == shortened(text@, limit),
{
    match limit {
        Some(limit) => {
            let mut cut = truncate_utf8(text, limit);
            if cut.as_str().unicode_len() < text.unicode_len() {
                proof {
                    reveal_strlit("...");
                    assert("..."@ =~= lit_ellipsis());
                }
                cut.append("...");
                cut
            } else {
                String::from_str(text)
            }
        },
        None => String::from_str(text),
    }
}

impl LibBench {
    /// The arguments of the primary tool for a run of the benchmark: those of the benchmark
    /// and, where the benchmark has an entry point, in front of the others the argument
    /// that has the counts collected from the entry point on.
    pub fn run_args(&self) -> (r: ToolArgs)
        ensures
            r@ == match option_view(self.entry_point) {
                Some(entry) => self.callgrind_args@.with_toggle_collect(entry),
                None => self.callgrind_args@,
            },
    {
        let mut args = self.callgrind_args.clone();
        match &self.entry_point {
            Some(entry) => {
                args.insert_toggle_collect(entry.as_str());
            },
            None => {},
        }
        args
    }

    /// The description of the benchmark for its header: the displayed arguments, shortened
    /// to the limit of the benchmark.
    pub fn description(&self) -> (r: Option<String>)
        ensures
            option_view(r) == match option_view(self.args) {
                Some(args) => Some(shortened(args, self.truncate_description)),
                None => None,
            },
    {
        match &self.args {
            Some(args) => Some(shorten(args.as_str(), self.truncate_description)),
            None => None,
        }
    }

    /// The name of the benchmark, which tells it from the others of its group.
    pub fn name(&self) -> (r: String)
        ensures
            r@ == bench_name(self.function@, option_view(self.id)),
    {
        name_of(&self.function, &self.id)
    }

    /// The arguments with which the benchmark executable runs the benchmark function:
    /// `--iai-run`, the group, the two places and the path of the function.
    pub fn bench_args(&self, group: &Group) -> (r: Vec<String>)
        ensures
            views(r@) == seq![
                lit_run_flag(),
                group.id@,
                decimal(self.bench_index as nat),
                decimal(self.index as nat),
                self.module@,
            ],
    {
        proof {
            reveal_strlit("--iai-run");
            assert("--iai-run"@ =~= lit_run_flag());
        }
        let mut r: Vec<String> = Vec::new();
        r.push(String::from_str("--iai-run"));
        r.push(group.id.clone());
        r.push(decimal_string(self.bench_index as u64));
        r.push(decimal_string(self.index as u64));
        r.push(self.module.to_string());
        assert(views(r@) =~= seq![
            lit_run_flag(),
            group.id@,
            decimal(self.bench_index as nat),
            decimal(self.index as nat),
            self.module@,
        ]);
        r
    }

    /// Whether the first regression of the benchmark ends its group's run.
    pub fn fail_fast(&self) -> (r: bool)
        ensures
            r == fails_fast(self.regression_config),
    {
        match &self.regression_config {
            Some(config) => config.fail_fast,
            None => false,
        }
    }

    /// The regressions of the benchmark: those that its limits record for the comparison,
    /// and none where it has no limits.
    pub fn check_regressions(&self, costs_summary: &CostsSummary) -> (r: Vec<
        CallgrindRegressionSummary,
    >)
        ensures
            r@ == match self.regression_config {
                Some(config) => regressions_of(*costs_summary, config.limits@),
                None => Seq::empty(),
            },
    {
        regressions(&self.regression_config, costs_summary)
    }
}

} // verus!
