use iai_callgrind_runner::common::{FileAction, ModulePath};
use iai_callgrind_runner::costs::EventKind;
use iai_callgrind_runner::parser::{parse, Sentinel};
use iai_callgrind_runner::strategy::{Benchmark, Step};
use iai_callgrind_runner::summary::{CostsSummary, PercentageDiff, RegressionConfig};
use iai_callgrind_runner::tool::ValgrindTool;
use iai_callgrind_runner::tool_path::ToolOutputPath;

/// The files of one directory, with their lines.
struct Dir {
    files: Vec<(String, Vec<String>)>,
}

impl Dir {
    fn names(&self) -> Vec<String> {
        self.files.iter().map(|(name, _)| name.clone()).collect()
    }

    fn perform(&mut self, actions: Vec<FileAction>) {
        for action in actions {
            match action {
                FileAction::CreateDirAll(_) => {}
                FileAction::Remove(name) => self.files.retain(|(n, _)| *n != name),
                FileAction::Rename(from, to) => {
                    self.files.retain(|(n, _)| *n != to);
                    for file in &mut self.files {
                        if file.0 == from {
                            file.0 = to.clone();
                        }
                    }
                }
            }
        }
    }

    fn read(&self, path: &ToolOutputPath) -> Vec<Vec<String>> {
        self.files
            .iter()
            .filter(|(name, _)| path.matches(name))
            .map(|(_, lines)| lines.clone())
            .collect()
    }
}

fn log_with(instructions: u64) -> Vec<String> {
    format!(
        "# callgrind format\nversion: 1\nevents: Ir\n\nfn=(1) bench::fib\n1 {instructions}\n\ntotals: {instructions}\n"
    )
    .lines()
    .map(str::to_owned)
    .collect()
}

/// Runs the benchmark once: the tool "writes" a log with the given count.
fn run_once(dir: &mut Dir, benchmark: &Benchmark, instructions: u64) -> CostsSummary {
    let out = benchmark.output_path("/target/iai", &ModulePath::new("bench::group"), "fib.10");
    let sentinel = Sentinel::new("bench::fib");
    let mut new_costs = None;
    let mut old_costs = None;
    let mut summary = None;
    for step in benchmark.steps(&out) {
        match step {
            Step::Init(path) => assert_eq!(path.dir, "/target/iai/bench/group/fib.10"),
            Step::Shift(path) => {
                let actions = path.shift(&dir.names());
                dir.perform(actions);
            }
            Step::Clear(path) => {
                let actions = path.clear(&dir.names());
                dir.perform(actions);
            }
            Step::Run(path) => {
                dir.files.push((path.file_name(), log_with(instructions)));
                dir.files.push((path.to_log_output().file_name(), Vec::new()));
            }
            Step::ReadNew(path) => {
                new_costs = Some(parse(&dir.read(&path)).unwrap().costs_of(&sentinel).unwrap());
            }
            Step::ReadOld(path, required) => {
                if required || path.is_present(&dir.names()) {
                    old_costs = Some(parse(&dir.read(&path)).unwrap().costs_of(&sentinel).unwrap());
                }
            }
            Step::Compare => {
                summary = Some(CostsSummary::new(new_costs.as_ref().unwrap(), old_costs.as_ref()));
            }
            Step::Flamegraphs(_) | Step::RunTools(..) | Step::LoadTools(_) => {}
        }
    }
    summary.unwrap()
}

#[test]
fn fib_10_run_twice_against_the_run_before() {
    let benchmark = Benchmark::select(None, None, None).unwrap();
    let mut dir = Dir { files: Vec::new() };

    let first = run_once(&mut dir, &benchmark, 1000);
    assert_eq!(dir.names(), vec!["callgrind.fib.10.out", "callgrind.fib.10.log"]);
    let diff = first.diff_by_kind(EventKind::Ir);
    assert_eq!((diff.new, diff.old), (Some(1000), None));
    assert_eq!(diff.percentage_diff(), None);

    let second = run_once(&mut dir, &benchmark, 1050);
    let mut names = dir.names();
    names.sort();
    assert_eq!(
        names,
        vec![
            "callgrind.fib.10.log",
            "callgrind.fib.10.log.old",
            "callgrind.fib.10.out",
            "callgrind.fib.10.out.old"
        ]
    );
    let diff = second.diff_by_kind(EventKind::Ir);
    assert_eq!((diff.new, diff.old), (Some(1050), Some(1000)));
    // (1050 - 1000) * 100 / 1000 = +5 %
    assert_eq!(
        diff.percentage_diff(),
        Some(PercentageDiff::Ratio { numerator: 5000, denominator: 1000 })
    );
    assert_eq!(diff.absolute_diff(), Some(-50));
    // +5 % is within a limit of 5 % and beyond a limit of 4.999 %
    assert!(!diff.exceeds(5000));
    assert!(diff.exceeds(4999));
    let limits = RegressionConfig { limits: vec![(EventKind::Ir, 4999)], fail_fast: false };
    assert_eq!(limits.check(&second).len(), 1);
}

#[test]
fn saved_baseline_loaded_against_itself_shows_no_change() {
    let name = || iai_callgrind_runner::tool_path::BaselineName::parse("main").unwrap();
    let mut dir = Dir { files: Vec::new() };
    let save = Benchmark::select(Some(name()), None, None).unwrap();
    let saved = run_once(&mut dir, &save, 1234);
    assert_eq!(saved.diff_by_kind(EventKind::Ir).old, None);
    assert_eq!(
        dir.names(),
        vec!["callgrind.fib.10.out.base@main", "callgrind.fib.10.log.base@main"]
    );

    let load = Benchmark::select(None, Some(name()), Some(name())).unwrap();
    let loaded = run_once(&mut dir, &load, 0);
    for (_, diff) in loaded.all_diffs() {
        assert_eq!((diff.new, diff.old), (Some(1234), Some(1234)));
        assert_eq!(diff.absolute_diff(), Some(0));
        assert_eq!(
            diff.percentage_diff(),
            Some(PercentageDiff::Ratio { numerator: 0, denominator: 1234 })
        );
    }
    // nothing was run and nothing was written
    assert_eq!(dir.files.len(), 2);

    // saving again keeps only the most recent save
    let again = run_once(&mut dir, &save, 1300);
    assert_eq!(again.diff_by_kind(EventKind::Ir).old, Some(1234));
    assert_eq!(dir.files.len(), 2);
    assert_eq!(
        run_once(&mut dir, &load, 0).diff_by_kind(EventKind::Ir).new,
        Some(1300)
    );
}

#[test]
fn run_against_a_named_baseline_is_compared_with_the_table_before_the_shift() {
    let name = || iai_callgrind_runner::tool_path::BaselineName::parse("main").unwrap();
    let mut dir = Dir { files: Vec::new() };
    let save = Benchmark::select(Some(name()), None, None).unwrap();
    run_once(&mut dir, &save, 1000);

    let against = Benchmark::select(None, None, Some(name())).unwrap();
    let compared = run_once(&mut dir, &against, 1100);
    let diff = compared.diff_by_kind(EventKind::Ir);
    assert_eq!((diff.new, diff.old), (Some(1100), Some(1000)));
    assert_eq!(
        diff.percentage_diff(),
        Some(PercentageDiff::Ratio { numerator: 10000, denominator: 1000 })
    );
    // the named slot was cleared, and nothing was kept as an old copy
    let mut names = dir.names();
    names.sort();
    assert_eq!(names, vec!["callgrind.fib.10.log", "callgrind.fib.10.out"]);

    // the slot is empty now: a further run has nothing to be compared with
    let further = run_once(&mut dir, &against, 1200);
    assert_eq!(further.diff_by_kind(EventKind::Ir).old, None);
    let mut names = dir.names();
    names.sort();
    assert_eq!(names, vec!["callgrind.fib.10.log", "callgrind.fib.10.out"]);
}
