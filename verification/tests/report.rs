use iai_callgrind_runner::command::{ToolConfig, ToolConfigs};
use iai_callgrind_runner::common::ModulePath;
use iai_callgrind_runner::costs::{Costs, EventKind};
use iai_callgrind_runner::error::Error;
use iai_callgrind_runner::report::{
    earlier_with_same_id, final_result, merge_summaries, BenchmarkKind, BenchmarkSummary,
    CallgrindSummary, LogfileSummary, ToolRunSummary,
};
use iai_callgrind_runner::summary::{CostsSummary, RegressionConfig};
use iai_callgrind_runner::tool::ValgrindTool;
use iai_callgrind_runner::tool_args::ToolArgs;
use iai_callgrind_runner::tool_path::{BaselineKind, ToolOutputPath, ToolOutputPathKind};

fn log(pid: i32) -> LogfileSummary {
    LogfileSummary { command: "bench".to_owned(), pid, summary: vec![format!("pid {pid}")] }
}

fn summary() -> BenchmarkSummary {
    BenchmarkSummary::new(
        BenchmarkKind::LibraryBenchmark,
        "/root".to_owned(),
        "/root/pkg".to_owned(),
        "benches/b.rs".to_owned(),
        "/root/target/b".to_owned(),
        ModulePath::new("b::group::fib"),
        Some("10".to_owned()),
        None,
    )
}

fn regressed_summary(new: u64) -> BenchmarkSummary {
    let mut old_costs = Costs::new();
    old_costs.insert(EventKind::Ir, 100);
    let mut new_costs = Costs::new();
    new_costs.insert(EventKind::Ir, new);
    let events = CostsSummary::new(&new_costs, Some(&old_costs));
    let regressions =
        RegressionConfig { limits: vec![(EventKind::Ir, 5000)], fail_fast: false }.check(&events);
    let mut callgrind = CallgrindSummary::new(vec!["log".to_owned()], vec!["out".to_owned()]);
    callgrind.add_summary("bench".to_owned(), Some("old".to_owned()), events, regressions);
    let mut summary = summary();
    summary.callgrind_summary = Some(callgrind);
    summary
}

#[test]
fn logs_stand_beside_the_logs_of_the_baseline() {
    assert_eq!(
        merge_summaries(vec![log(1), log(2)], vec![log(3)]),
        vec![
            ToolRunSummary { new: Some(log(1)), old: Some(log(3)) },
            ToolRunSummary { new: Some(log(2)), old: None },
        ]
    );
    assert_eq!(
        merge_summaries(vec![], vec![log(3), log(4)]),
        vec![
            ToolRunSummary { new: None, old: Some(log(3)) },
            ToolRunSummary { new: None, old: Some(log(4)) },
        ]
    );
    assert!(merge_summaries(vec![], vec![]).is_empty());
}

#[test]
fn summary_of_a_tool() {
    let out = ToolOutputPath::new(
        ToolOutputPathKind::Out,
        ValgrindTool::DHAT,
        &BaselineKind::Old,
        "/t",
        &ModulePath::new("m"),
        "fib",
    );
    let config = ToolConfig::new(
        ValgrindTool::DHAT,
        true,
        ToolArgs::from_raw_args(ValgrindTool::DHAT, vec![]),
        None,
    );
    let entries: Vec<String> =
        ["dhat.fib.log.1", "dhat.fib.log.2", "dhat.fib.out", "callgrind.fib.out"]
            .iter()
            .map(|s| (*s).to_owned())
            .collect();
    let summary = ToolConfigs::parse(
        &config,
        &out.to_log_output(),
        Some(&out),
        &entries,
        vec![log(1)],
        vec![log(2)],
    );
    assert_eq!(summary.tool, ValgrindTool::DHAT);
    assert_eq!(summary.log_paths, vec!["/t/m/fib/dhat.fib.log.1", "/t/m/fib/dhat.fib.log.2"]);
    assert_eq!(summary.out_paths, vec!["/t/m/fib/dhat.fib.out"]);
    assert_eq!(summary.summaries, vec![ToolRunSummary { new: Some(log(1)), old: Some(log(2)) }]);
    let loaded = config.parse_load(&out.to_log_output(), None, &entries, vec![log(1)], vec![]);
    assert!(loaded.out_paths.is_empty());
    assert_eq!(loaded.summaries, vec![ToolRunSummary { new: Some(log(1)), old: None }]);
}

#[test]
fn regressions_are_recorded_or_fail_fast() {
    let fine = regressed_summary(104);
    let bad = regressed_summary(106);
    assert!(!fine.is_regressed());
    assert!(bad.is_regressed());
    assert!(!summary().is_regressed());

    let mut is_regressed = false;
    assert_eq!(fine.check_regression(&mut is_regressed, true), Ok(()));
    assert!(!is_regressed);
    assert_eq!(bad.check_regression(&mut is_regressed, false), Ok(()));
    assert!(is_regressed);
    assert_eq!(fine.check_regression(&mut is_regressed, false), Ok(()));
    assert!(is_regressed);

    let mut untouched = false;
    assert_eq!(
        bad.check_regression(&mut untouched, true),
        Err(Error::RegressionError(true))
    );
    assert!(!untouched);
    assert_eq!(final_result(true), Err(Error::RegressionError(false)));
    assert_eq!(final_result(false), Ok(()));
}

#[test]
fn benchmarks_with_the_same_id_are_compared() {
    let ids = vec![
        Some("a".to_owned()),
        None,
        Some("b".to_owned()),
        Some("a".to_owned()),
        None,
        Some("a".to_owned()),
    ];
    assert_eq!(earlier_with_same_id(&ids, 0), Vec::<usize>::new());
    assert_eq!(earlier_with_same_id(&ids, 3), vec![0]);
    assert_eq!(earlier_with_same_id(&ids, 5), vec![0, 3]);
    assert_eq!(earlier_with_same_id(&ids, 4), Vec::<usize>::new());
    assert_eq!(earlier_with_same_id(&ids, 2), Vec::<usize>::new());
    assert_eq!(earlier_with_same_id(&ids, 6), Vec::<usize>::new());
}

#[test]
fn summary_of_a_log() {
    let lines: Vec<String> = [
        "==1234== Memcheck, a memory error detector",
        "==1234== Command: target/bench --iai-run group",
        "==1234== ",
        "==1234==",
        "plain line",
        "==1234== ERROR SUMMARY: 0 errors from 0 contexts (suppressed: 0 from 0)",
        "==99== other process",
    ]
    .iter()
    .map(|s| (*s).to_owned())
    .collect();
    let summary = LogfileSummary::from_lines(&lines).unwrap();
    assert_eq!(summary.pid, 1234);
    assert_eq!(summary.command, "target/bench --iai-run group");
    assert_eq!(
        summary.summary,
        vec![
            "Memcheck, a memory error detector",
            "Command: target/bench --iai-run group",
            "",
            "",
            "plain line",
            "ERROR SUMMARY: 0 errors from 0 contexts (suppressed: 0 from 0)",
            "other process",
        ]
    );
    let no_command = LogfileSummary::from_lines(&vec!["==7==text".to_owned()]).unwrap();
    assert_eq!((no_command.pid, no_command.command.as_str()), (7, ""));
    assert_eq!(no_command.summary, vec!["text"]);

    assert_eq!(LogfileSummary::from_lines(&Vec::new()), None);
    for first in ["plain", "==", "==12", "==12=", "==x==", "====", "==2147483648== too big"] {
        assert_eq!(LogfileSummary::from_lines(&vec![first.to_owned()]), None);
    }
    assert_eq!(
        LogfileSummary::from_lines(&vec!["==2147483647== fits".to_owned()]).unwrap().pid,
        i32::MAX
    );
}

#[test]
fn loaded_logs_keep_their_sides() {
    let out = ToolOutputPath::new(
        ToolOutputPathKind::Out,
        ValgrindTool::Memcheck,
        &BaselineKind::Old,
        "/t",
        &ModulePath::new("m"),
        "fib",
    );
    let config = ToolConfig::new(
        ValgrindTool::Memcheck,
        true,
        ToolArgs::from_raw_args(ValgrindTool::Memcheck, vec![]),
        None,
    );
    let loaded = config.parse_load(
        &out.to_log_output(),
        None,
        &vec!["memcheck.fib.log".to_owned()],
        vec![log(1), log(2)],
        vec![log(3)],
    );
    assert_eq!(
        loaded.summaries,
        vec![
            ToolRunSummary { new: Some(log(1)), old: Some(log(3)) },
            ToolRunSummary { new: Some(log(2)), old: None },
        ]
    );
    assert_eq!(loaded.log_paths, vec!["/t/m/fib/memcheck.fib.log"]);
}
