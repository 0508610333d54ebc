use iai_callgrind_runner::api;
use iai_callgrind_runner::bin_bench;
use iai_callgrind_runner::command::NoCapture;
use iai_callgrind_runner::common::ModulePath;
use iai_callgrind_runner::costs::EventKind;
use iai_callgrind_runner::error::{Error, ExitStatus, ProcessError};
use iai_callgrind_runner::lib_bench::{shorten, Assistant, AssistantKind, Groups, Metadata};
use iai_callgrind_runner::runner::{agenda, BenchShape, Task};
use iai_callgrind_runner::tool::ValgrindTool;

fn texts(items: &[&str]) -> Vec<String> {
    items.iter().map(|s| (*s).to_owned()).collect()
}

fn config() -> api::BenchmarkConfig {
    api::BenchmarkConfig::empty()
}

fn tool(kind: ValgrindTool, arg: &str) -> api::Tool {
    api::Tool { kind, enable: None, raw_args: texts(&[arg]), outfile_modifier: None }
}

fn meta() -> Metadata {
    Metadata { callgrind_args: texts(&["--meta=1"]), regression_config: None }
}

fn lib_bench(name: &str, id: Option<&str>, config: Option<api::BenchmarkConfig>) -> api::LibraryBenchmarkBench {
    api::LibraryBenchmarkBench {
        id: id.map(str::to_owned),
        function_name: name.to_owned(),
        args: Some("1, 2".to_owned()),
        config,
    }
}

#[test]
fn assistants_select_their_function_by_arguments() {
    assert_eq!(AssistantKind::Setup.id(), "setup");
    assert_eq!(AssistantKind::Teardown.id(), "teardown");
    let main = Assistant::new_main(AssistantKind::Setup);
    assert_eq!(main, Assistant { kind: AssistantKind::Setup, group_name: None, indices: None });
    assert_eq!(main.args(), texts(&["--iai-run", "setup"]));
    let group = Assistant::new_group(AssistantKind::Teardown, "my_group");
    assert_eq!(group.group_name, Some("my_group".to_owned()));
    assert_eq!(group.indices, None);
    assert_eq!(group.args(), texts(&["--iai-run", "my_group", "teardown"]));
    let bench = Assistant::new_bench(AssistantKind::Setup, "my_group", (3, 12));
    assert_eq!(bench.indices, Some((3, 12)));
    assert_eq!(bench.args(), texts(&["--iai-run", "my_group", "setup", "3", "12"]));
    assert!(Assistant::captures(NoCapture::False));
    assert!(!Assistant::captures(NoCapture::True));
    assert!(!Assistant::captures(NoCapture::Stderr));
    assert!(!Assistant::captures(NoCapture::Stdout));
}

#[test]
fn failed_assistant_is_a_process_error() {
    let assistant = Assistant::new_group(AssistantKind::Teardown, "g");
    let module = ModulePath::new("m::g");
    assert_eq!(assistant.finish(ExitStatus { code: Some(0) }, None, &module), Ok(()));
    assert_eq!(
        assistant.finish(ExitStatus { code: Some(1) }, None, &module),
        Err(Error::ProcessError(ProcessError {
            id: "m::g::teardown".to_owned(),
            output: None,
            status: ExitStatus { code: Some(1) },
            output_path: None,
        }))
    );
}

#[test]
fn settings_of_inner_levels_go_first() {
    let mut outer = config();
    outer.env_clear = Some(true);
    outer.raw_callgrind_args = texts(&["--a"]);
    outer.envs = vec![("A".to_owned(), "1".to_owned())];
    outer.tools = vec![tool(ValgrindTool::DHAT, "--outer"), tool(ValgrindTool::Massif, "--m")];
    outer.truncate_description = Some(Some(10));
    let mut inner = config();
    inner.env_clear = Some(false);
    inner.raw_callgrind_args = texts(&["--b"]);
    inner.envs = vec![("B".to_owned(), "2".to_owned())];
    inner.tools = vec![tool(ValgrindTool::DHAT, "--inner"), tool(ValgrindTool::DRD, "--d")];
    inner.regression_config =
        Some(api::RegressionConfig { limits: vec![(EventKind::Ir, 1)], fail_fast: Some(true) });
    inner.sandbox = Some(api::Sandbox { enabled: Some(true), fixtures: texts(&["f"]) });

    let merged = outer.duplicate().update(&inner);
    assert_eq!(merged.env_clear, Some(false));
    assert_eq!(merged.raw_callgrind_args, texts(&["--a", "--b"]));
    assert_eq!(
        merged.envs,
        vec![("A".to_owned(), "1".to_owned()), ("B".to_owned(), "2".to_owned())]
    );
    assert_eq!(
        merged.tools,
        vec![
            tool(ValgrindTool::DHAT, "--inner"),
            tool(ValgrindTool::Massif, "--m"),
            tool(ValgrindTool::DRD, "--d")
        ]
    );
    assert_eq!(merged.truncate_description, Some(Some(10)));
    assert_eq!(merged.regression_config, inner.regression_config);
    assert_eq!(merged.sandbox, inner.sandbox);
    assert_eq!(outer.duplicate(), outer);
    assert_eq!(outer.duplicate().update_from(None), outer);
    assert_eq!(outer.duplicate().update(&config()), outer);
}

#[test]
fn groups_of_library_benchmarks() {
    let mut global = config();
    global.raw_callgrind_args = texts(&["--global=1"]);
    let mut group_config = config();
    group_config.env_clear = Some(false);
    group_config.tools = vec![tool(ValgrindTool::DHAT, "--mode=heap")];
    let mut bench_config = config();
    bench_config.raw_callgrind_args = texts(&["--bench=1", "--error-exitcode=9"]);
    bench_config.regression_config =
        Some(api::RegressionConfig { limits: vec![], fail_fast: Some(true) });
    bench_config.flamegraph_config = Some(api::FlamegraphConfig {
        kind: Some(api::FlamegraphKind::Regular),
        negate_differential: None,
        normalize_differential: None,
        event_kinds: None,
        direction: None,
        title: None,
        subtitle: None,
        min_width: None,
    });
    bench_config.truncate_description = Some(None);

    let description = api::LibraryBenchmarkGroups {
        config: global,
        groups: vec![
            api::LibraryBenchmarkGroup {
                id: "first".to_owned(),
                config: Some(group_config),
                compare_by_id: Some(true),
                library_benchmarks: vec![
                    api::LibraryBenchmarkBenches {
                        benches: vec![lib_bench("fib", Some("10"), None), lib_bench("fib", None, None)],
                        config: None,
                    },
                    api::LibraryBenchmarkBenches { benches: vec![], config: None },
                    api::LibraryBenchmarkBenches {
                        benches: vec![lib_bench("sort", Some("big"), Some(bench_config))],
                        config: None,
                    },
                ],
                has_setup: true,
                has_teardown: false,
            },
            api::LibraryBenchmarkGroup {
                id: "second".to_owned(),
                config: None,
                compare_by_id: None,
                library_benchmarks: vec![],
                has_setup: false,
                has_teardown: true,
            },
        ],
        has_setup: false,
        has_teardown: false,
    };
    let groups = Groups::from_library_benchmark(&ModulePath::new("my_crate"), description, &meta());
    assert_eq!(groups.0.len(), 2);
    let first = &groups.0[0];
    assert_eq!(first.id, "first");
    assert_eq!(first.module.to_string(), "my_crate::first");
    assert!(first.compare_by_id);
    assert_eq!(first.setup, Some(Assistant::new_group(AssistantKind::Setup, "first")));
    assert_eq!(first.teardown, None);
    assert_eq!(first.benches.len(), 3);

    let fib = &first.benches[0];
    assert_eq!((fib.bench_index, fib.index), (0, 0));
    assert_eq!(fib.name(), "fib.10");
    assert_eq!(first.benches[1].name(), "fib");
    assert_eq!((first.benches[1].bench_index, first.benches[1].index), (0, 1));
    assert_eq!(fib.module.to_string(), "my_crate::first::fib");
    assert_eq!(fib.args, Some("1, 2".to_owned()));
    assert!(!fib.run_options.env_clear);
    assert_eq!(fib.callgrind_args.other, texts(&["--global=1", "--meta=1"]));
    assert_eq!(fib.callgrind_args.tool, ValgrindTool::Callgrind);
    assert_eq!(fib.flamegraph_config, None);
    assert_eq!(fib.regression_config, None);
    assert!(!fib.fail_fast());
    assert_eq!(fib.tools.0.len(), 1);
    assert_eq!(fib.tools.0[0].tool, ValgrindTool::DHAT);
    assert_eq!(fib.tools.0[0].args.other, texts(&["--mode=heap"]));
    assert_eq!(fib.truncate_description, Some(50));
    assert_eq!(fib.entry_point, Some("*::__iai_callgrind_wrapper_mod::*".to_owned()));
    assert_eq!(
        fib.bench_args(first),
        texts(&["--iai-run", "first", "0", "0", "my_crate::first::fib"])
    );

    let sort = &first.benches[2];
    assert_eq!((sort.bench_index, sort.index), (2, 0));
    assert_eq!(sort.name(), "sort.big");
    assert_eq!(sort.callgrind_args.other, texts(&["--global=1", "--bench=1", "--meta=1"]));
    assert_eq!(sort.callgrind_args.error_exitcode, "9");
    assert_eq!(sort.truncate_description, None);
    assert!(sort.fail_fast());
    assert_eq!(sort.regression_config.as_ref().unwrap().limits, vec![(EventKind::Ir, 10_000)]);
    assert_eq!(
        sort.flamegraph_config.as_ref().unwrap().kind,
        api::FlamegraphKind::Regular
    );
    assert_eq!(
        sort.bench_args(first),
        texts(&["--iai-run", "first", "2", "0", "my_crate::first::sort"])
    );

    let second = &groups.0[1];
    assert!(!second.compare_by_id);
    assert_eq!(second.teardown, Some(Assistant::new_group(AssistantKind::Teardown, "second")));
    assert!(second.benches.is_empty());

    let shape = groups.shape(true, false);
    assert_eq!(
        shape.groups[0].benches,
        vec![
            BenchShape { has_setup: false, has_teardown: false, fail_fast: false },
            BenchShape { has_setup: false, has_teardown: false, fail_fast: false },
            BenchShape { has_setup: false, has_teardown: false, fail_fast: true },
        ]
    );
    assert_eq!(
        agenda(&shape),
        vec![
            Task::MainSetup,
            Task::GroupSetup(0),
            Task::Bench(0, 0, false),
            Task::Bench(0, 1, false),
            Task::Bench(0, 2, true),
            Task::GroupTeardown(1),
        ]
    );
}

#[test]
fn limits_of_the_command_line_go_first() {
    let mut global = config();
    global.regression_config =
        Some(api::RegressionConfig { limits: vec![(EventKind::Dr, 7)], fail_fast: Some(true) });
    let description = api::LibraryBenchmarkGroups {
        config: global,
        groups: vec![api::LibraryBenchmarkGroup {
            id: "g".to_owned(),
            config: None,
            compare_by_id: None,
            library_benchmarks: vec![api::LibraryBenchmarkBenches {
                benches: vec![lib_bench("f", None, None)],
                config: None,
            }],
            has_setup: false,
            has_teardown: false,
        }],
        has_setup: false,
        has_teardown: false,
    };
    let from_command_line = Metadata {
        callgrind_args: Vec::new(),
        regression_config: Some(api::RegressionConfig {
            limits: vec![(EventKind::Ir, 5_000)],
            fail_fast: None,
        }),
    };
    let groups =
        Groups::from_library_benchmark(&ModulePath::new("c"), description, &from_command_line);
    let bench = &groups.0[0].benches[0];
    assert_eq!(bench.regression_config.as_ref().unwrap().limits, vec![(EventKind::Ir, 5_000)]);
    assert!(!bench.fail_fast());
    assert!(bench.run_options.env_clear);
}

#[test]
fn groups_of_binary_benchmarks() {
    let mut group_config = config();
    group_config.envs = vec![("GROUP".to_owned(), "1".to_owned())];
    group_config.sandbox = Some(api::Sandbox { enabled: Some(true), fixtures: texts(&["data"]) });
    let command = |env_clear: Option<bool>| api::Command {
        path: "/bin/echo".to_owned(),
        args: texts(&["hello world", "plain"]),
        envs: vec![("CMD".to_owned(), "2".to_owned())],
        env_clear,
    };
    let bench = |id: &str, env_clear: Option<bool>, has_setup: bool| api::BinaryBenchmarkBench {
        id: Some(id.to_owned()),
        args: None,
        bench: "echo".to_owned(),
        command: command(env_clear),
        config: None,
        has_setup,
        has_teardown: !has_setup,
    };
    let description = api::BinaryBenchmark {
        config: config(),
        groups: vec![api::BinaryBenchmarkGroup {
            id: "bins".to_owned(),
            config: Some(group_config),
            benches: vec![
                api::BinaryBenchmarkBenches { benches: vec![bench("a", None, true)], config: None },
                api::BinaryBenchmarkBenches {
                    benches: vec![bench("b", Some(false), false), bench("c", Some(true), true)],
                    config: None,
                },
            ],
            has_setup: true,
            has_teardown: true,
        }],
        has_setup: true,
        has_teardown: true,
    };
    let groups = bin_bench::Groups::from_binary_benchmark(
        &ModulePath::new("my_crate"),
        description,
        &meta(),
        "/work",
    );
    let group = &groups.0[0];
    assert_eq!(group.name, "bins");
    assert_eq!(group.module.to_string(), "my_crate::bins");
    assert_eq!(group.benches.len(), 3);
    let a = &group.benches[0];
    assert_eq!(a.name(), "echo.a");
    assert!(a.run_options.env_clear);
    assert_eq!(
        a.run_options.envs,
        vec![("GROUP".to_owned(), "1".to_owned()), ("CMD".to_owned(), "2".to_owned())]
    );
    assert_eq!(a.setup, Some(Assistant::new_bench(AssistantKind::Setup, "bins", (0, 0))));
    assert_eq!(a.teardown, None);
    assert!(a.sandbox.enabled);
    assert_eq!(a.sandbox.fixtures, texts(&["data"]));
    assert_eq!(a.sandbox.current_dir, "/work");
    assert_eq!(a.command, command(None));
    let b = &group.benches[1];
    assert!(!b.run_options.env_clear);
    assert_eq!(b.setup, None);
    assert_eq!(b.teardown, Some(Assistant::new_bench(AssistantKind::Teardown, "bins", (1, 0))));
    let c = &group.benches[2];
    assert_eq!(c.setup, Some(Assistant::new_bench(AssistantKind::Setup, "bins", (1, 1))));
    assert_eq!(c.callgrind_args.other, texts(&["--meta=1"]));

    assert_eq!(
        agenda(&groups.shape(true, true)),
        vec![
            Task::MainSetup,
            Task::GroupSetup(0),
            Task::BenchSetup(0, 0),
            Task::Bench(0, 0, false),
            Task::Bench(0, 1, false),
            Task::BenchTeardown(0, 1),
            Task::BenchSetup(0, 2),
            Task::Bench(0, 2, false),
            Task::GroupTeardown(0),
            Task::MainTeardown,
        ]
    );
}

#[test]
fn description_of_a_binary_benchmark_quotes_the_arguments() {
    let description = api::BinaryBenchmark {
        config: config(),
        groups: vec![api::BinaryBenchmarkGroup {
            id: "g".to_owned(),
            config: None,
            benches: vec![api::BinaryBenchmarkBenches {
                benches: vec![
                    api::BinaryBenchmarkBench {
                        id: None,
                        args: Some("\"x\"".to_owned()),
                        bench: "run".to_owned(),
                        command: api::Command {
                            path: "/bin/echo".to_owned(),
                            args: texts(&["hello world", "plain", "", "it's"]),
                            envs: vec![],
                            env_clear: None,
                        },
                        config: None,
                        has_setup: false,
                        has_teardown: false,
                    },
                    api::BinaryBenchmarkBench {
                        id: None,
                        args: None,
                        bench: "run".to_owned(),
                        command: api::Command {
                            path: "/bin/echo".to_owned(),
                            args: texts(&["nul\0byte"]),
                            envs: vec![],
                            env_clear: None,
                        },
                        config: None,
                        has_setup: false,
                        has_teardown: false,
                    },
                ],
                config: None,
            }],
            has_setup: false,
            has_teardown: false,
        }],
        has_setup: false,
        has_teardown: false,
    };
    let groups =
        bin_bench::Groups::from_binary_benchmark(&ModulePath::new("c"), description, &meta(), "/");
    let benches = &groups.0[0].benches;
    assert_eq!(
        benches[0].description("bin/echo"),
        Some("(\"x\") -> bin/echo 'hello world' plain '' \"it's\"".to_owned())
    );
    assert_eq!(benches[1].description("bin/echo"), None);
    assert_eq!(bin_bench::describe(None, "p", "a b"), "() -> p a b");
    assert_eq!(benches[0].name(), "run");
}

#[test]
fn sandboxes() {
    let off = bin_bench::Sandbox::new(false, "/w".to_owned());
    assert!(!off.enabled && off.fixtures.is_empty());
    let default = bin_bench::Sandbox::from_api(
        api::Sandbox { enabled: None, fixtures: texts(&["a", "b"]) },
        "/w".to_owned(),
    );
    assert!(!default.enabled);
    assert_eq!(default.fixtures, texts(&["a", "b"]));
    assert_eq!(default.current_dir, "/w");
}

fn one_library_bench(args: &str, bench_config: Option<api::BenchmarkConfig>) -> Groups {
    let description = api::LibraryBenchmarkGroups {
        config: config(),
        groups: vec![api::LibraryBenchmarkGroup {
            id: "group".to_owned(),
            config: None,
            compare_by_id: None,
            library_benchmarks: vec![api::LibraryBenchmarkBenches {
                benches: vec![api::LibraryBenchmarkBench {
                    id: Some("id".to_owned()),
                    function_name: "fib".to_owned(),
                    args: Some(args.to_owned()),
                    config: bench_config,
                }],
                config: None,
            }],
            has_setup: false,
            has_teardown: false,
        }],
        has_setup: false,
        has_teardown: false,
    };
    Groups::from_library_benchmark(&ModulePath::new("benches"), description, &meta())
}

#[test]
fn counts_are_collected_from_the_entry_point_on() {
    let groups = one_library_bench("1", None);
    let bench = &groups.0[0].benches[0];
    let entry = bench.entry_point.clone().unwrap();
    let args = bench.run_args();
    assert_eq!(args.other[0], format!("--toggle-collect={entry}"));
    assert_eq!(args.other[1..], bench.callgrind_args.other[..]);
    assert_eq!(args.to_vec().len(), bench.callgrind_args.to_vec().len() + 1);

    let mut without = one_library_bench("1", None);
    without.0[0].benches[0].entry_point = None;
    let bench = &without.0[0].benches[0];
    assert_eq!(bench.run_args(), bench.callgrind_args);
}

#[test]
fn long_descriptions_are_cut() {
    assert_eq!(shorten("short", Some(50)), "short");
    assert_eq!(shorten("0123456789", Some(4)), "0123...");
    assert_eq!(shorten("0123456789", Some(10)), "0123456789");
    assert_eq!(shorten("0123456789", None), "0123456789");
    assert_eq!(shorten("a\u{e9}b", Some(2)), "a...");
    assert_eq!(shorten("abc", Some(0)), "...");

    let long = "x".repeat(60);
    let groups = one_library_bench(&long, None);
    assert_eq!(groups.0[0].benches[0].description(), Some(format!("{}...", "x".repeat(50))));

    let mut uncut = config();
    uncut.truncate_description = Some(None);
    let groups = one_library_bench(&long, Some(uncut));
    assert_eq!(groups.0[0].benches[0].description(), Some(long));

    let mut none = one_library_bench("1", None);
    none.0[0].benches[0].args = None;
    assert_eq!(none.0[0].benches[0].description(), None);
}

#[test]
fn command_of_a_binary_benchmark_keeps_its_environment() {
    let command = api::Command {
        path: "/bin/echo".to_owned(),
        args: texts(&["a"]),
        envs: vec![("CMD".to_owned(), "2".to_owned())],
        env_clear: Some(false),
    };
    let description = api::BinaryBenchmark {
        config: config(),
        groups: vec![api::BinaryBenchmarkGroup {
            id: "group".to_owned(),
            config: None,
            has_setup: false,
            has_teardown: false,
            benches: vec![api::BinaryBenchmarkBenches {
                benches: vec![api::BinaryBenchmarkBench {
                    id: None,
                    args: None,
                    bench: "echo".to_owned(),
                    command: command.clone(),
                    config: None,
                    has_setup: false,
                    has_teardown: false,
                }],
                config: None,
            }],
        }],
        has_setup: false,
        has_teardown: false,
    };
    let groups = bin_bench::Groups::from_binary_benchmark(
        &ModulePath::new("benches"),
        description,
        &meta(),
        "/work",
    );
    assert_eq!(groups.0[0].benches[0].command, command);
}
