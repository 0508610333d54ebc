//! The groups of benchmarks of binaries.

use vstd::prelude::*;
use vstd::string::*;

use crate::api;
use crate::api::BenchmarkConfigView;
use crate::command::{RunOptions, ToolConfigs};
use crate::common::{ModulePath, path_separator};
use crate::flamegraph::Config;
use crate::lib_bench::{
    Assistant, AssistantKind, Metadata, MetaView, bench_name, fails_fast, is_settled,
    name_of, regressions, resolved_config, settle,
};
use crate::runner::{BenchShape, GroupShape, RunShape};
use crate::summary::{CallgrindRegressionSummary, CostsSummary, RegressionConfig, regressions_of};
use crate::text::{clone_option, clone_strings, concat3, option_view, views};
use crate::tool_args::ToolArgs;

verus! {

/// The directory of its own in which a benchmark of a binary runs.
#[derive(Debug, PartialEq, Eq)]
pub struct Sandbox {
    pub enabled: bool,
    /// The files and directories that are copied into the sandbox.
    pub fixtures: Vec<String>,
    /// The directory to go back to when the benchmark has run.
    pub current_dir: String,
}

impl Sandbox {
    /// A sandbox without fixtures.
    pub fn new(enabled: bool, current_dir: String) -> (r: Self)
        ensures
            r.enabled == enabled,
            r.current_dir == current_dir,
            r.fixtures@.len() == 0,
    {
        Sandbox { enabled, fixtures: Vec::new(), current_dir }
    }

    /// The sandbox that the description asks for: off, unless it says otherwise.
    pub fn from_api(s: api::Sandbox, current_dir: String) -> (r: Self)
        ensures
            r.enabled == (s.enabled == Some(true)),
            r.fixtures == s.fixtures,
            r.current_dir == current_dir,
    {
        Sandbox {
            enabled: match s.enabled {
                Some(enabled) => enabled,
                None => false,
            },
            fixtures: s.fixtures,
            current_dir,
        }
    }
}

/// A single benchmark of a binary.
#[derive(Debug, PartialEq, Eq)]
pub struct BinBench {
    pub id: Option<String>,
    pub args: Option<String>,
    pub function_name: String,
    pub command: api::Command,
    pub run_options: RunOptions,
    pub callgrind_args: ToolArgs,
    pub flamegraph_config: Option<Config>,
    pub regression_config: Option<RegressionConfig>,
    pub tools: ToolConfigs,
    pub setup: Option<Assistant>,
    pub teardown: Option<Assistant>,
    pub sandbox: Sandbox,
}

/// A group of benchmarks of binaries.
#[derive(Debug, PartialEq, Eq)]
pub struct Group {
    pub name: String,
    pub module: ModulePath,
    pub benches: Vec<BinBench>,
    pub setup: Option<Assistant>,
    pub teardown: Option<Assistant>,
}

/// All groups of benchmarks of binaries.
#[derive(Debug, PartialEq, Eq)]
pub struct Groups(pub Vec<Group>);

/// What the words give when they are joined to one line that a shell splits into the same
/// words again, as the library for shell quoting does it.
pub uninterp spec fn shell_joined(words: Seq<Seq<char>>) -> Seq<char>;

/// Whether a word holds a nul character.
pub open spec fn has_nul(words: Seq<Seq<char>>) -> bool {
    exists|i: int| 0 <= i < words.len() && (#[trigger] words[i]).contains('\0')
}

/// Calls `shlex::try_join` on the words. The call quotes each word where a shell needs it and
/// puts single spaces between the words; it fails where, and only where, a word holds a nul
/// character. The contract gives the joined line a name and says when there is none.
#[verifier::external_body]
fn shell_join(words: &Vec<String>) -> (r: Option<String>)
    ensures
        r is None <==> has_nul(views(words@)),
        r is Some ==> r->0@ == shell_joined(views(words@)),
{
    shlex::try_join(words.iter().map(String::as_str)).ok()
}

/// `) -> `
pub open spec fn lit_arrow() -> Seq<char> {
    seq![')', ' ', '-', '>', ' ']
}

/// The description of a benchmark of a binary: the displayed arguments in brackets, an
/// arrow, the path of the executable and the arguments of the command on one line.
pub open spec fn described(args: Option<Seq<char>>, path: Seq<char>, joined: Seq<char>) -> Seq<char> {
    seq!['('] + (match args {
        Some(args) => args,
        None => Seq::empty(),
    }) + lit_arrow() + path + seq![' '] + joined
}

/// The description of a benchmark of a binary from the line of its command's arguments.
pub fn describe(args: Option<&String>, path: &str, joined: &str) -> (r: String)
    ensures
        r@ == described(
            match args {
                Some(a) => Some(a@),
                None => None,
            },
            path@,
            joined@,
        ),
{
    proof {
        reveal_strlit("(");
        reveal_strlit("");
        reveal_strlit(") -> ");
        reveal_strlit(" ");
        assert("("@ =~= seq!['(']);
        assert(""@ =~= Seq::<char>::empty());
        assert(") -> "@ =~= lit_arrow());
        assert(" "@ =~= seq![' ']);
    }
    let shown = match args {
        Some(a) => a.as_str(),
        None => "",
    };
    let mut r = concat3("(", shown, ") -> ");
    r.append(path);
    r.append(" ");
    r.append(joined);
    r
}

/// Whether `bench` is the benchmark that `source` describes, at the given places in the
/// group `group_name`, with the settings `resolved`.
pub open spec fn is_bin_bench_of(
    bench: BinBench,
    source: api::BinaryBenchmarkBench,
    group_index: usize,
    bench_index: usize,
    group_name: Seq<char>,
    current_dir: Seq<char>,
    resolved: BenchmarkConfigView,
    meta: MetaView,
) -> bool {
    let with_envs = BenchmarkConfigView {
        envs: resolved.envs + api::pair_views(source.command.envs@),
        ..resolved
    };
    &&& bench.id == source.id
    &&& bench.args == source.args
    &&& bench.function_name == source.bench
    &&& bench.command.path@ == source.command.path@
    &&& views(bench.command.args@) == views(source.command.args@)
    &&& api::pair_views(bench.command.envs@) == api::pair_views(source.command.envs@)
    &&& bench.command.env_clear == source.command.env_clear
    &&& is_settled(
        bench.run_options,
        bench.callgrind_args,
        bench.flamegraph_config,
        bench.regression_config,
        bench.tools,
        with_envs,
        match resolved.env_clear {
            Some(clear) => clear,
            None => !(source.command.env_clear == Some(false)),
        },
        meta,
    )
    &&& match bench.setup {
        Some(a) => source.has_setup && a.kind == AssistantKind::Setup && option_view(a.group_name)
            == Some(group_name) && a.indices == Some((group_index, bench_index)),
        None => !source.has_setup,
    }
    &&& match bench.teardown {
        Some(a) => source.has_teardown && a.kind == AssistantKind::Teardown && option_view(
            a.group_name,
        ) == Some(group_name) && a.indices == Some((group_index, bench_index)),
        None => !source.has_teardown,
    }
    &&& bench.sandbox.current_dir@ == current_dir
    &&& bench.sandbox.enabled == match resolved.sandbox {
        Some(s) => s.enabled == Some(true),
        None => false,
    }
    &&& views(bench.sandbox.fixtures@) == match resolved.sandbox {
        Some(s) => s.fixtures,
        None => Seq::empty(),
    }
}

/// The number of benchmarks of the first `n` benchmark functions.
pub open spec fn flat_len(lists: Seq<api::BinaryBenchmarkBenches>, n: nat) -> nat
    decreases n,
{
    if n == 0 {
        0
    } else {
        flat_len(lists, (n - 1) as nat) + lists[n - 1].benches@.len()
    }
}

/// The benchmarks of more functions are no fewer.
pub proof fn lemma_flat_len_monotone(lists: Seq<api::BinaryBenchmarkBenches>, a: int, b: int)
    requires
        0 <= a <= b <= lists.len(),
    ensures
        flat_len(lists, a as nat) <= flat_len(lists, b as nat),
    decreases b - a,
{
    if a < b {
        lemma_flat_len_monotone(lists, a, b - 1);
    }
}

/// Whether `group` is the group that `source` describes, in the module `module`.
pub open spec fn is_group_of(
    group: Group,
    source: api::BinaryBenchmarkGroup,
    module: Seq<char>,
    current_dir: Seq<char>,
    global: BenchmarkConfigView,
    meta: MetaView,
) -> bool {
    let lists = source.benches@;
    &&& group.name@ == source.id@
    &&& group.module@ == module + path_separator() + source.id@
    &&& match group.setup {
        Some(a) => source.has_setup && a.kind == AssistantKind::Setup && option_view(a.group_name)
            == Some(source.id@) && a.indices is None,
        None => !source.has_setup,
    }
    &&& match group.teardown {
        Some(a) => source.has_teardown && a.kind == AssistantKind::Teardown && option_view(
            a.group_name,
        ) == Some(source.id@) && a.indices is None,
        None => !source.has_teardown,
    }
    &&& group.benches@.len() == flat_len(lists, lists.len())
    &&& forall|j: int, i: int|
        0 <= j < lists.len() && 0 <= i < lists[j].benches@.len() ==> is_bin_bench_of(
            #[trigger] group.benches@[flat_len(lists, j as nat) + i],
            lists[j].benches@[i],
            j as usize,
            i as usize,
            source.id@,
            current_dir,
            resolved_config(
                global,
                api::config_view(source.config),
                api::config_view(lists[j].config),
                api::config_view(lists[j].benches@[i].config),
            ),
            meta,
        )
}

fn bin_bench(
    source: &api::BinaryBenchmarkBench,
    group_index: usize,
    bench_index: usize,
    group_name: &str,
    current_dir: &str,
    config: api::BenchmarkConfig,
    meta: &Metadata,
) -> (r: BinBench)
    ensures
        is_bin_bench_of(
            r,
            *source,
            group_index,
            bench_index,
            group_name@,
            current_dir@,
            config@,
            meta@,
        ),
{
    let ghost resolved = config@;
    let mut config = config;
    let mut envs = api::clone_pairs(&source.command.envs);
    config.envs.append(&mut envs);
    assert(api::pair_views(config.envs@) =~= resolved.envs + api::pair_views(source.command.envs@));
    let env_clear = match config.env_clear {
        Some(clear) => clear,
        None => match source.command.env_clear {
            Some(clear) => clear,
            None => true,
        },
    };
    let mut sandbox_config: Option<api::Sandbox> = None;
    std::mem::swap(&mut sandbox_config, &mut config.sandbox);
    let sandbox = match sandbox_config {
        Some(s) => Sandbox::from_api(s, String::from_str(current_dir)),
        None => {
            let s = Sandbox::new(false, String::from_str(current_dir));
            assert(views(s.fixtures@) =~= Seq::<Seq<char>>::empty());
            s
        },
    };
    assert(config@ == (BenchmarkConfigView {
        envs: resolved.envs + api::pair_views(source.command.envs@),
        sandbox: None,
        ..resolved
    }));
    let settled = settle(config, env_clear, meta);
    let setup = if source.has_setup {
        Some(Assistant::new_bench(AssistantKind::Setup, group_name, (group_index, bench_index)))
    } else {
        None
    };
    let teardown = if source.has_teardown {
        Some(Assistant::new_bench(AssistantKind::Teardown, group_name, (group_index, bench_index)))
    } else {
        None
    };
    BinBench {
        id: clone_option(&source.id),
        args: clone_option(&source.args),
        function_name: source.bench.clone(),
        command: api::Command {
            path: source.command.path.clone(),
            args: clone_strings(&source.command.args),
            envs: api::clone_pairs(&source.command.envs),
            env_clear: source.command.env_clear,
        },
        run_options: settled.run_options,
        callgrind_args: settled.callgrind_args,
        flamegraph_config: settled.flamegraph_config,
        regression_config: settled.regression_config,
        tools: settled.tools,
        setup,
        teardown,
        sandbox,
    }
}

fn bin_group(
    source: &api::BinaryBenchmarkGroup,
    module: &ModulePath,
    current_dir: &str,
    global: &api::BenchmarkConfig,
    meta: &Metadata,
) -> (r: Group)
    ensures
        is_group_of(r, *source, module@, current_dir@, global@, meta@),
{
    let group_module = module.join(source.id.as_str());
    let group_config = global.duplicate().update_from(source.config.as_ref());
    let setup = if source.has_setup {
        Some(Assistant::new_group(AssistantKind::Setup, source.id.as_str()))
    } else {
        None
    };
    let teardown = if source.has_teardown {
        Some(Assistant::new_group(AssistantKind::Teardown, source.id.as_str()))
    } else {
        None
    };
    let ghost lists = source.benches@;
    let mut benches: Vec<BinBench> = Vec::new();
    let mut j: usize = 0;
    while j < source.benches.len()
        invariant
            j <= source.benches.len(),
            lists == source.benches@,
            group_config@ == global@.updated_with(api::config_view(source.config)),
            benches@.len() == flat_len(lists, j as nat),
            forall|a: int, i: int|
                0 <= a < j && 0 <= i < lists[a].benches@.len() ==> is_bin_bench_of(
                    #[trigger] benches@[flat_len(lists, a as nat) + i],
                    lists[a].benches@[i],
                    a as usize,
                    i as usize,
                    source.id@,
                    current_dir@,
                    resolved_config(
                        global@,
                        api::config_view(source.config),
                        api::config_view(lists[a].config),
                        api::config_view(lists[a].benches@[i].config),
                    ),
                    meta@,
                ),
        decreases source.benches.len() - j,
    {
        let list = &source.benches[j];
        let ghost start = benches@.len();
        let ghost before = benches@;
        let mut i: usize = 0;
        while i < list.benches.len()
            invariant
                i <= list.benches.len(),
                j < source.benches.len(),
                lists == source.benches@,
                *list == lists[j as int],
                start == flat_len(lists, j as nat),
                group_config@ == global@.updated_with(api::config_view(source.config)),
                benches@.len() == start + i,
                forall|k: int| 0 <= k < start ==> benches@[k] == before[k],
                before.len() == start,
                forall|k: int|
                    0 <= k < i ==> is_bin_bench_of(
                        #[trigger] benches@[start + k],
                        list.benches@[k],
                        j,
                        k as usize,
                        source.id@,
                        current_dir@,
                        resolved_config(
                            global@,
                            api::config_view(source.config),
                            api::config_view(list.config),
                            api::config_view(list.benches@[k].config),
                        ),
                        meta@,
                    ),
            decreases list.benches.len() - i,
        {
            let bench = &list.benches[i];
            let config = group_config.duplicate().update_from(list.config.as_ref()).update_from(
                bench.config.as_ref(),
            );
            let ghost old_benches = benches@;
            benches.push(bin_bench(bench, j, i, source.id.as_str(), current_dir, config, meta));
            assert forall|k: int| 0 <= k < i + 1 implies is_bin_bench_of(
                #[trigger] benches@[start + k],
                list.benches@[k],
                j,
                k as usize,
                source.id@,
                current_dir@,
                resolved_config(
                    global@,
                    api::config_view(source.config),
                    api::config_view(list.config),
                    api::config_view(list.benches@[k].config),
                ),
                meta@,
            ) by {
                if k < i {
                    assert(benches@[start + k] == old_benches[start + k]);
                }
            }
            i += 1;
        }
        proof {
            assert forall|a: int, i: int|
                0 <= a < j + 1 && 0 <= i < lists[a].benches@.len() implies is_bin_bench_of(
                #[trigger] benches@[flat_len(lists, a as nat) + i],
                lists[a].benches@[i],
                a as usize,
                i as usize,
                source.id@,
                current_dir@,
                resolved_config(
                    global@,
                    api::config_view(source.config),
                    api::config_view(lists[a].config),
                    api::config_view(lists[a].benches@[i].config),
                ),
                meta@,
            ) by {
                if a < j {
                    lemma_flat_len_monotone(lists, a + 1, j as int);
                    assert(benches@[flat_len(lists, a as nat) + i] == before[flat_len(
                        lists,
                        a as nat,
                    ) + i]);
                }
            }
        }
        j += 1;
    }
    Group { name: source.id.clone(), module: group_module, benches, setup, teardown }
}

impl Groups {
    /// The groups that the description asks for, in its order; the benchmarks of a group are
    /// those of its functions, one function after the other.
    ///
    /// Every benchmark gets its settings settled: those of the whole run, with those of its
    /// group, of its function and its own on top, with the variables of its command and with
    /// what the command line adds. Its environment is cleared unless its settings or, where
    /// they are silent, its command say otherwise.
    pub fn from_binary_benchmark(
        module: &ModulePath,
        benchmark: api::BinaryBenchmark,
        meta: &Metadata,
        current_dir: &str,
    ) -> (r: Self)
        ensures
            r.0@.len() == benchmark.groups@.len(),
            forall|g: int|
                0 <= g < r.0@.len() ==> is_group_of(
                    #[trigger] r.0@[g],
                    benchmark.groups@[g],
                    module@,
                    current_dir@,
                    benchmark.config@,
                    meta@,
                ),
    {
        let mut groups: Vec<Group> = Vec::new();
        let mut g: usize = 0;
        while g < benchmark.groups.len()
            invariant
                g <= benchmark.groups.len(),
                groups@.len() == g,
                forall|k: int|
                    0 <= k < g ==> is_group_of(
                        #[trigger] groups@[k],
                        benchmark.groups@[k],
                        module@,
                        current_dir@,
                        benchmark.config@,
                        meta@,
                    ),
            decreases benchmark.groups.len() - g,
        {
            groups.push(bin_group(&benchmark.groups[g], module, current_dir, &benchmark.config, meta));
            g += 1;
        }
        Groups(groups)
    }

    /// What the groups ask of the walk: groups and benchmarks have a set-up and a tear-down
    /// where their descriptions have them, and a benchmark fails fast where its limits of
    /// regression say so.
    pub fn shape(&self, has_setup: bool, has_teardown: bool) -> (r: RunShape)
        ensures
            r.has_setup == has_setup,
            r.has_teardown == has_teardown,
            r.groups@.len() == self.0@.len(),
            forall|g: int|
                0 <= g < r.groups@.len() ==> {
                    let shape = #[trigger] r.groups@[g];
                    let group = self.0@[g];
                    &&& shape.has_setup == group.setup is Some
                    &&& shape.has_teardown == group.teardown is Some
                    &&& shape.benches@.len() == group.benches@.len()
                    &&& forall|b: int|
                        0 <= b < shape.benches@.len() ==> #[trigger] shape.benches@[b] == (BenchShape {
                            has_setup: group.benches@[b].setup is Some,
                            has_teardown: group.benches@[b].teardown is Some,
                            fail_fast: fails_fast(group.benches@[b].regression_config),
                        })
                },
    {
        let mut groups: Vec<GroupShape> = Vec::new();
        let mut g: usize = 0;
        while g < self.0.len()
            invariant
                g <= self.0.len(),
                groups@.len() == g,
                forall|k: int|
                    0 <= k < g ==> {
                        let shape = #[trigger] groups@[k];
                        let group = self.0@[k];
                        &&& shape.has_setup == group.setup is Some
                        &&& shape.has_teardown == group.teardown is Some
                        &&& shape.benches@.len() == group.benches@.len()
                        &&& forall|b: int|
                            0 <= b < shape.benches@.len() ==> #[trigger] shape.benches@[b] == (BenchShape {
                                has_setup: group.benches@[b].setup is Some,
                                has_teardown: group.benches@[b].teardown is Some,
                                fail_fast: fails_fast(group.benches@[b].regression_config),
                            })
                    },
            decreases self.0.len() - g,
        {
            let group = &self.0[g];
            let mut benches: Vec<BenchShape> = Vec::new();
            let mut b: usize = 0;
            while b < group.benches.len()
                invariant
                    b <= group.benches.len(),
                    benches@.len() == b,
                    forall|k: int|
                        0 <= k < b ==> #[trigger] benches@[k] == (BenchShape {
                            has_setup: group.benches@[k].setup is Some,
                            has_teardown: group.benches@[k].teardown is Some,
                            fail_fast: fails_fast(group.benches@[k].regression_config),
                        }),
                decreases group.benches.len() - b,
            {
                let bench = &group.benches[b];
                benches.push(
                    BenchShape {
                        has_setup: bench.setup.is_some(),
                        has_teardown: bench.teardown.is_some(),
                        fail_fast: bench.fail_fast(),
                    },
                );
                b += 1;
            }
            groups.push(
                GroupShape {
                    has_setup: group.setup.is_some(),
                    has_teardown: group.teardown.is_some(),
                    benches,
                },
            );
            g += 1;
        }
        RunShape { has_setup, has_teardown, groups }
    }
}

impl BinBench {
    /// The name of the benchmark, which tells it from the others of its group.
    pub fn name(&self) -> (r: String)
        ensures
            r@ == bench_name(self.function_name@, option_view(self.id)),
    {
        name_of(&self.function_name, &self.id)
    }

    /// The description of the benchmark for its header: the displayed arguments, and the
    /// command with `path` for its executable. There is none where an argument of the
    /// command holds a nul character.
    pub fn description(&self, path: &str) -> (r: Option<String>)
        ensures
            r is None <==> has_nul(views(self.command.args@)),
            r is Some ==> r->0@ == described(
                option_view(self.args),
                path@,
                shell_joined(views(self.command.args@)),
            ),
    {
        match shell_join(&self.command.args) {
            Some(joined) => Some(describe(self.args.as_ref(), path, joined.as_str())),
            None => None,
        }
    }

    /// Whether the first regression of the benchmark ends its group's run.
    pub fn fail_fast(&self) -> (r: bool)
        ensures
            r == fails_fast(self.regression_config),
    {
        match &self.regression_config {
            Some(config) => config.fail_fast,
            None => false,
        }
    }

    /// The regressions of the benchmark: those that its limits record for the comparison,
    /// and none where it has no limits.
    pub fn check_regressions(&self, costs_summary: &CostsSummary) -> (r: Vec<
        CallgrindRegressionSummary,
    >)
        ensures
            r@ == match self.regression_config {
                Some(config) => regressions_of(*costs_summary, config.limits@),
                None => Seq::empty(),
            },
    {
        regressions(&self.regression_config, costs_summary)
    }
}

} // verus!
