use iai_callgrind_runner::api;
use iai_callgrind_runner::command::{ToolConfig, ToolConfigs};
use iai_callgrind_runner::common::ModulePath;
use iai_callgrind_runner::strategy::{
    plan_tool, plan_tools, Benchmark, BaselineBenchmark, LoadBaselineBenchmark,
    SaveBaselineBenchmark, Step, StrategyError, ToolMode, ToolPlan, ToolRun, ToolStep,
};
use iai_callgrind_runner::tool::ValgrindTool;
use iai_callgrind_runner::tool_path::{BaselineKind, BaselineName, ToolOutputPathKind};

fn name(s: &str) -> BaselineName {
    BaselineName::parse(s).unwrap()
}

#[test]
fn one_way_to_run_is_selected() {
    assert_eq!(
        Benchmark::select(None, None, None),
        Ok(Benchmark::Baseline(BaselineBenchmark { baseline_kind: BaselineKind::Old }))
    );
    assert_eq!(
        Benchmark::select(None, None, Some(name("main"))),
        Ok(Benchmark::Baseline(BaselineBenchmark {
            baseline_kind: BaselineKind::Name(name("main"))
        }))
    );
    assert_eq!(
        Benchmark::select(Some(name("new")), Some(name("x")), Some(name("main"))),
        Ok(Benchmark::SaveBaseline(SaveBaselineBenchmark { baseline: name("new") }))
    );
    assert_eq!(
        Benchmark::select(None, Some(name("feature")), Some(name("main"))),
        Ok(Benchmark::LoadBaseline(LoadBaselineBenchmark {
            loaded_baseline: name("feature"),
            baseline: name("main")
        }))
    );
    assert_eq!(
        Benchmark::select(None, Some(name("feature")), None),
        Err(StrategyError::MissingBaseline)
    );
}

#[test]
fn output_paths_and_labels() {
    let module = ModulePath::new("m::g");
    let old = Benchmark::select(None, None, None).unwrap();
    let path = old.output_path("/t", &module, "fib.10");
    assert_eq!(path.kind, ToolOutputPathKind::Out);
    assert_eq!(path.tool, ValgrindTool::Callgrind);
    assert_eq!(path.to_path(), "/t/m/g/fib.10/callgrind.fib.10.out");
    assert_eq!(old.baselines(), (None, None));

    let against = Benchmark::select(None, None, Some(name("main"))).unwrap();
    assert_eq!(against.baselines(), (None, Some("main".to_owned())));
    assert_eq!(
        against.output_path("/t", &module, "fib").to_base_path().file_name(),
        "callgrind.fib.out.base@main"
    );

    let save = Benchmark::select(Some(name("main")), None, None).unwrap();
    assert_eq!(save.baselines(), (Some("main".to_owned()), Some("main".to_owned())));
    assert_eq!(save.output_path("/t", &module, "fib").file_name(), "callgrind.fib.out.base@main");

    let load = Benchmark::select(None, Some(name("feature")), Some(name("main"))).unwrap();
    assert_eq!(load.baselines(), (Some("feature".to_owned()), Some("main".to_owned())));
    let loaded = load.output_path("/t", &module, "fib");
    assert_eq!(loaded.file_name(), "callgrind.fib.out.base@feature");
    assert_eq!(loaded.to_base_path().file_name(), "callgrind.fib.out.base@main");
}

#[test]
fn saved_baseline_loaded_against_itself_reads_one_file() {
    let module = ModulePath::new("m::g");
    let save = Benchmark::select(Some(name("main")), None, None).unwrap();
    let load = Benchmark::select(None, Some(name("main")), Some(name("main"))).unwrap();
    let saved = save.output_path("/t", &module, "fib");
    let loaded = load.output_path("/t", &module, "fib");
    assert_eq!(saved, loaded);
    assert_eq!(loaded.to_base_path(), saved);
}

#[test]
fn steps_against_a_baseline() {
    let benchmark = Benchmark::select(None, None, None).unwrap();
    let out = benchmark.output_path("/t", &ModulePath::new("m"), "fib");
    assert_eq!(
        benchmark.steps(&out),
        vec![
            Step::Init(out.clone()),
            Step::Shift(out.clone()),
            Step::Shift(out.to_log_output()),
            Step::Run(out.clone()),
            Step::ReadNew(out.clone()),
            Step::ReadOld(out.to_base_path(), false),
            Step::Compare,
            Step::Flamegraphs(out.clone()),
            Step::RunTools(out.clone(), false),
        ]
    );
}

#[test]
fn named_baseline_is_read_before_its_slot_is_cleared() {
    let benchmark = Benchmark::select(None, None, Some(name("main"))).unwrap();
    let out = benchmark.output_path("/t", &ModulePath::new("m"), "fib");
    assert_eq!(out.to_base_path().kind, ToolOutputPathKind::Base("main".to_owned()));
    assert_eq!(
        benchmark.steps(&out),
        vec![
            Step::Init(out.clone()),
            Step::ReadOld(out.to_base_path(), false),
            Step::Shift(out.clone()),
            Step::Shift(out.to_log_output()),
            Step::Run(out.clone()),
            Step::ReadNew(out.clone()),
            Step::Compare,
            Step::Flamegraphs(out.clone()),
            Step::RunTools(out.clone(), false),
        ]
    );
    let dhat = out.to_tool_output(ValgrindTool::DHAT);
    let plain = ToolRun { save_baseline: false, has_sandbox: false, has_setup: true, has_teardown: false };
    assert_eq!(
        plan_tool(&out, ValgrindTool::DHAT, ToolMode::Run(plain)),
        vec![
            ToolStep::ReadOld(dhat.to_log_output().to_base_path()),
            ToolStep::Shift(dhat.clone()),
            ToolStep::Shift(dhat.to_log_output()),
            ToolStep::Setup,
            ToolStep::Run(dhat.clone()),
            ToolStep::Parse(dhat.to_log_output(), Some(dhat.clone())),
        ]
    );
}

#[test]
fn steps_of_saving_and_loading() {
    let save = Benchmark::select(Some(name("main")), None, None).unwrap();
    let out = save.output_path("/t", &ModulePath::new("m"), "fib");
    assert_eq!(
        save.steps(&out),
        vec![
            Step::Init(out.clone()),
            Step::ReadOld(out.clone(), false),
            Step::Clear(out.clone()),
            Step::Clear(out.to_log_output()),
            Step::Run(out.clone()),
            Step::ReadNew(out.clone()),
            Step::Compare,
            Step::Flamegraphs(out.clone()),
            Step::RunTools(out.clone(), true),
        ]
    );
    let load = Benchmark::select(None, Some(name("feature")), Some(name("main"))).unwrap();
    let out = load.output_path("/t", &ModulePath::new("m"), "fib");
    let steps = load.steps(&out);
    assert_eq!(
        steps,
        vec![
            Step::ReadNew(out.clone()),
            Step::ReadOld(out.to_base_path(), true),
            Step::Compare,
            Step::Flamegraphs(out.clone()),
            Step::LoadTools(out.clone()),
        ]
    );
    assert!(!steps.iter().any(|s| matches!(s, Step::Run(_) | Step::RunTools(..))));
}

#[test]
fn steps_of_a_secondary_tool() {
    let benchmark = Benchmark::select(None, None, None).unwrap();
    let out = benchmark.output_path("/t", &ModulePath::new("m"), "fib");
    let dhat = out.to_tool_output(ValgrindTool::DHAT);
    let plain = ToolRun { save_baseline: false, has_sandbox: false, has_setup: false, has_teardown: false };
    assert_eq!(
        plan_tool(&out, ValgrindTool::DHAT, ToolMode::Run(plain)),
        vec![
            ToolStep::Shift(dhat.clone()),
            ToolStep::Shift(dhat.to_log_output()),
            ToolStep::ReadOld(dhat.to_log_output().to_base_path()),
            ToolStep::Run(dhat.clone()),
            ToolStep::Parse(dhat.to_log_output(), Some(dhat.clone())),
        ]
    );
    let memcheck = out.to_tool_output(ValgrindTool::Memcheck);
    let full = ToolRun { save_baseline: true, has_sandbox: true, has_setup: true, has_teardown: true };
    assert_eq!(
        plan_tool(&out, ValgrindTool::Memcheck, ToolMode::Run(full)),
        vec![
            ToolStep::ReadOld(memcheck.to_log_output().to_base_path()),
            ToolStep::Clear(memcheck.clone()),
            ToolStep::Clear(memcheck.to_log_output()),
            ToolStep::SandboxSetup,
            ToolStep::Setup,
            ToolStep::Run(memcheck.clone()),
            ToolStep::Teardown,
            ToolStep::SandboxReset,
            ToolStep::Parse(memcheck.to_log_output(), None),
        ]
    );
    assert_eq!(
        plan_tool(&out, ValgrindTool::DHAT, ToolMode::Load),
        vec![
            ToolStep::ReadOld(dhat.to_log_output().to_base_path()),
            ToolStep::Parse(dhat.to_log_output(), None),
        ]
    );
}

#[test]
fn one_plan_for_each_enabled_tool() {
    let tool = |kind: ValgrindTool, enable: bool| {
        ToolConfig::from_api(api::Tool {
            kind,
            enable: Some(enable),
            raw_args: Vec::new(),
            outfile_modifier: None,
        })
    };
    let configs = ToolConfigs(vec![
        tool(ValgrindTool::DHAT, false),
        tool(ValgrindTool::Memcheck, true),
        tool(ValgrindTool::DRD, false),
        tool(ValgrindTool::Massif, true),
    ]);
    let benchmark = Benchmark::select(None, None, None).unwrap();
    let out = benchmark.output_path("/t", &ModulePath::new("m"), "fib");
    let run = ToolMode::Run(ToolRun {
        save_baseline: false,
        has_sandbox: false,
        has_setup: false,
        has_teardown: false,
    });
    assert_eq!(
        plan_tools(&configs, &out, run),
        vec![
            ToolPlan {
                index: 1,
                tool: ValgrindTool::Memcheck,
                steps: plan_tool(&out, ValgrindTool::Memcheck, run),
            },
            ToolPlan {
                index: 3,
                tool: ValgrindTool::Massif,
                steps: plan_tool(&out, ValgrindTool::Massif, run),
            },
        ]
    );
    let runs: usize = plan_tools(&configs, &out, run)
        .iter()
        .map(|plan| plan.steps.iter().filter(|s| matches!(s, ToolStep::Run(_))).count())
        .sum();
    assert_eq!(runs, 2);
    assert!(plan_tools(&ToolConfigs(Vec::new()), &out, ToolMode::Load).is_empty());
}

#[test]
fn names_of_baselines_hold_letters_digits_and_underscores() {
    for accepted in ["main_2", "Feature", "", "_", "Az09"] {
        let parsed = BaselineName::parse(accepted).unwrap();
        assert_eq!(parsed.to_string(), accepted);
        assert_eq!(parsed.as_str(), accepted);
        assert_eq!(parsed.clone(), parsed);
    }
    for refused in ["x.out", "a b", "a/b", "a@b", "caf\u{e9}", "a-b"] {
        assert_eq!(BaselineName::parse(refused), None);
    }
}
