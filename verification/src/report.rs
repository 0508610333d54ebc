//! What is reported of a benchmark: the comparison of the primary tool, the summaries of the
//! secondary tools, and whether a limit of regression was exceeded.

use vstd::prelude::*;
use vstd::string::*;

use crate::command::{ToolConfig, ToolConfigs};
use crate::common::ModulePath;
use crate::error::Error;
use crate::flamegraph::FlamegraphSummary;
use crate::summary::{CallgrindRegressionSummary, CostsSummary};
use crate::text::{
    chars_match_at, chars_of, decimal_value, find_char, first_index, is_number, is_prefix,
    option_view, parse_u64, str_eq, views,
};
use crate::tool::ValgrindTool;
use crate::tool_path::ToolOutputPath;

verus! {

/// What the log of one process of a secondary tool says.
#[derive(Debug, PartialEq, Eq)]
pub struct LogfileSummary {
    pub command: String,
    pub pid: i32,
    /// The lines of the tool's own summary.
    pub summary: Vec<String>,
}

/// The log of one process of a secondary tool beside the log of the process it is compared
/// against.
#[derive(Debug, PartialEq, Eq)]
pub struct ToolRunSummary {
    pub new: Option<LogfileSummary>,
    pub old: Option<LogfileSummary>,
}

/// What a secondary tool left behind for one benchmark.
#[derive(Debug, PartialEq, Eq)]
pub struct ToolSummary {
    pub tool: ValgrindTool,
    pub log_paths: Vec<String>,
    pub out_paths: Vec<String>,
    pub summaries: Vec<ToolRunSummary>,
}

/// The greater of two lengths.
pub open spec fn longer(a: nat, b: nat) -> nat {
    if a < b {
        b
    } else {
        a
    }
}

/// Whether `merged` holds the new logs beside the old logs, place by place: where one side
/// has fewer logs, the other side's logs stand alone.
pub open spec fn are_merged(
    merged: Seq<ToolRunSummary>,
    new: Seq<LogfileSummary>,
    old: Seq<LogfileSummary>,
) -> bool {
    &&& merged.len() == longer(new.len(), old.len())
    &&& forall|i: int|
        0 <= i < merged.len() ==> (#[trigger] merged[i]).new == (if i < new.len() {
            Some(new[i])
        } else {
            None
        }) && merged[i].old == (if i < old.len() {
            Some(old[i])
        } else {
            None
        })
}

/// The new logs beside the old logs, place by place: where one side has fewer logs, the other
/// side's logs stand alone.
pub fn merge_summaries(new: Vec<LogfileSummary>, old: Vec<LogfileSummary>) -> (r: Vec<
    ToolRunSummary,
>)
    ensures
        are_merged(r@, new@, old@),
{
    let ghost new_seq = new@;
    let ghost old_seq = old@;
    let mut new = new;
    let mut old = old;
    let mut reversed: Vec<ToolRunSummary> = Vec::new();
    let total = if new.len() < old.len() {
        old.len()
    } else {
        new.len()
    };
    let mut done: usize = 0;
    while done < total
        invariant
            done <= total,
            total == longer(new_seq.len(), old_seq.len()),
            reversed@.len() == done,
            new@ == new_seq.take(if new_seq.len() <= total - done {
                new_seq.len() as int
            } else {
                total - done
            }),
            old@ == old_seq.take(if old_seq.len() <= total - done {
                old_seq.len() as int
            } else {
                total - done
            }),
            forall|k: int|
                0 <= k < done ==> (#[trigger] reversed@[k]).new == (if total - 1 - k < new_seq.len() {
                    Some(new_seq[total - 1 - k])
                } else {
                    None
                }) && reversed@[k].old == (if total - 1 - k < old_seq.len() {
                    Some(old_seq[total - 1 - k])
                } else {
                    None
                }),
        decreases total - done,
    {
        let place = total - 1 - done;
        let new_item = if place < new.len() {
            new.pop()
        } else {
            None
        };
        let old_item = if place < old.len() {
            old.pop()
        } else {
            None
        };
        reversed.push(ToolRunSummary { new: new_item, old: old_item });
        done += 1;
    }
    let mut r: Vec<ToolRunSummary> = Vec::new();
    let ghost all = reversed@;
    while reversed.len() > 0
        invariant
            reversed@ == all.take(reversed@.len() as int),
            reversed@.len() <= all.len(),
            r@.len() == all.len() - reversed@.len(),
            all.len() == total,
            forall|i: int| 0 <= i < r@.len() ==> #[trigger] r@[i] == all[total - 1 - i],
        decreases reversed.len(),
    {
        let item = reversed.pop().unwrap();
        r.push(item);
    }
    r
}

impl ToolConfigs {
    /// The summary of what a tool left behind: the new logs beside the old ones, and the
    /// files of the log and of the output that are among `entries`, the names of the files
    /// in the directory.
    pub fn parse(
        tool_config: &ToolConfig,
        log_path: &ToolOutputPath,
        out_path: Option<&ToolOutputPath>,
        entries: &Vec<String>,
        summaries: Vec<LogfileSummary>,
        old_summaries: Vec<LogfileSummary>,
    ) -> (r: ToolSummary)
        ensures
            r.tool == tool_config.tool,
            views(r.log_paths@) == log_path@.real_paths(views(entries@)),
            views(r.out_paths@) == match out_path {
                Some(path) => path@.real_paths(views(entries@)),
                None => Seq::empty(),
            },
            are_merged(r.summaries@, summaries@, old_summaries@),
    {
        let out_paths = match out_path {
            Some(path) => path.real_paths(entries),
            None => {
                let empty: Vec<String> = Vec::new();
                assert(views(empty@) =~= Seq::<Seq<char>>::empty());
                empty
            },
        };
        ToolSummary {
            tool: tool_config.tool,
            log_paths: log_path.real_paths(entries),
            out_paths,
            summaries: merge_summaries(summaries, old_summaries),
        }
    }
}

impl ToolConfig {
    /// The summary of what the tool left behind in an earlier run, read without running it:
    /// as `ToolConfigs::parse` gives it.
    pub fn parse_load(
        &self,
        log_path: &ToolOutputPath,
        out_path: Option<&ToolOutputPath>,
        entries: &Vec<String>,
        summaries: Vec<LogfileSummary>,
        old_summaries: Vec<LogfileSummary>,
    ) -> (r: ToolSummary)
        ensures
            r.tool == self.tool,
            views(r.log_paths@) == log_path@.real_paths(views(entries@)),
            views(r.out_paths@) == match out_path {
                Some(path) => path@.real_paths(views(entries@)),
                None => Seq::empty(),
            },
            are_merged(r.summaries@, summaries@, old_summaries@),
    {
        ToolConfigs::parse(self, log_path, out_path, entries, summaries, old_summaries)
    }
}

/// The comparison of one run of the primary tool.
#[derive(Debug, PartialEq, Eq)]
pub struct CallgrindRunSummary {
    /// The command that was run, with its arguments.
    pub command: String,
    /// The path of the file of the baseline.
    pub baseline: Option<String>,
    pub events: CostsSummary,
    pub regressions: Vec<CallgrindRegressionSummary>,
}

/// What the primary tool left behind for one benchmark.
#[derive(Debug, PartialEq, Eq)]
pub struct CallgrindSummary {
    pub log_paths: Vec<String>,
    pub out_paths: Vec<String>,
    pub flamegraphs: Vec<FlamegraphSummary>,
    pub summaries: Vec<CallgrindRunSummary>,
}

impl CallgrindSummary {
    /// The summary with the files that are there and nothing else yet.
    pub fn new(log_paths: Vec<String>, out_paths: Vec<String>) -> (r: Self)
        ensures
            r.log_paths == log_paths,
            r.out_paths == out_paths,
            r.flamegraphs@.len() == 0,
            r.summaries@.len() == 0,
    {
        CallgrindSummary { log_paths, out_paths, flamegraphs: Vec::new(), summaries: Vec::new() }
    }

    /// Adds the comparison of a run.
    pub fn add_summary(
        &mut self,
        command: String,
        baseline: Option<String>,
        events: CostsSummary,
        regressions: Vec<CallgrindRegressionSummary>,
    )
        ensures
            final(self).summaries@ == old(self).summaries@.push(
                CallgrindRunSummary { command, baseline, events, regressions },
            ),
            final(self).log_paths == old(self).log_paths,
            final(self).out_paths == old(self).out_paths,
            final(self).flamegraphs == old(self).flamegraphs,
    {
        self.summaries.push(CallgrindRunSummary { command, baseline, events, regressions });
    }

    /// Whether a run has exceeded a limit of regression.
    pub open spec fn spec_is_regressed(self) -> bool {
        exists|i: int|
            0 <= i < self.summaries@.len() && (#[trigger] self.summaries@[i]).regressions@.len() > 0
    }

    /// Whether a run has exceeded a limit of regression.
    pub fn is_regressed(&self) -> (r: bool)
        ensures
            r == self.spec_is_regressed(),
    {
        let mut i: usize = 0;
        while i < self.summaries.len()
            invariant
                i <= self.summaries.len(),
                forall|j: int| 0 <= j < i ==> (#[trigger] self.summaries@[j]).regressions@.len() == 0,
            decreases self.summaries.len() - i,
        {
            if self.summaries[i].regressions.len() > 0 {
                return true;
            }
            i += 1;
        }
        false
    }
}

/// The kind of a benchmark.
#[derive(Debug, Clone, Copy, PartialEq, Eq, Structural)]
pub enum BenchmarkKind {
    LibraryBenchmark,
    BinaryBenchmark,
}

/// Everything that is reported of one benchmark.
#[derive(Debug, PartialEq, Eq)]
pub struct BenchmarkSummary {
    pub kind: BenchmarkKind,
    pub project_root: String,
    pub package_dir: String,
    pub benchmark_file: String,
    pub benchmark_exe: String,
    pub module: ModulePath,
    pub id: Option<String>,
    pub details: Option<String>,
    pub callgrind_summary: Option<CallgrindSummary>,
    pub tool_summaries: Vec<ToolSummary>,
}

impl BenchmarkSummary {
    /// The summary of a benchmark that has not run yet.
    pub fn new(
        kind: BenchmarkKind,
        project_root: String,
        package_dir: String,
        benchmark_file: String,
        benchmark_exe: String,
        module: ModulePath,
        id: Option<String>,
        details: Option<String>,
    ) -> (r: Self)
        ensures
            r.kind == kind,
            r.project_root == project_root,
            r.package_dir == package_dir,
            r.benchmark_file == benchmark_file,
            r.benchmark_exe == benchmark_exe,
            r.module == module,
            r.id == id,
            r.details == details,
            r.callgrind_summary is None,
            r.tool_summaries@.len() == 0,
    {
        BenchmarkSummary {
            kind,
            project_root,
            package_dir,
            benchmark_file,
            benchmark_exe,
            module,
            id,
            details,
            callgrind_summary: None,
            tool_summaries: Vec::new(),
        }
    }

    /// Whether the benchmark has exceeded a limit of regression.
    pub open spec fn spec_is_regressed(self) -> bool {
        match self.callgrind_summary {
            Some(summary) => summary.spec_is_regressed(),
            None => false,
        }
    }

    /// Whether the benchmark has exceeded a limit of regression.
    pub fn is_regressed(&self) -> (r: bool)
        ensures
            r == self.spec_is_regressed(),
    {
        match &self.callgrind_summary {
            Some(summary) => summary.is_regressed(),
            None => false,
        }
    }

    /// Records a regression of the benchmark in `is_regressed`. Where the benchmark has
    /// regressed and is to fail fast, nothing is recorded and the regression is the error
    /// that ends the group's run at once.
    pub fn check_regression(&self, is_regressed: &mut bool, fail_fast: bool) -> (r: Result<
        (),
        Error,
    >)
        ensures
            self.spec_is_regressed() && fail_fast ==> r == Err::<(), Error>(
                Error::RegressionError(true),
            ) && *final(is_regressed) == *old(is_regressed),
            !(self.spec_is_regressed() && fail_fast) ==> r is Ok && *final(is_regressed) == (*old(
                is_regressed,
            ) || self.spec_is_regressed()),
    {
        let regressed = self.is_regressed();
        if regressed && fail_fast {
            return Err(Error::RegressionError(true));
        }
        *is_regressed = *is_regressed || regressed;
        Ok(())
    }
}

/// The result of the whole run: the error of regression where a benchmark has regressed.
pub fn final_result(is_regressed: bool) -> (r: Result<(), Error>)
    ensures
        is_regressed ==> r == Err::<(), Error>(Error::RegressionError(false)),
        !is_regressed ==> r is Ok,
{
    if is_regressed {
        Err(Error::RegressionError(false))
    } else {
        Ok(())
    }
}

/// The places before `at` of the benchmarks that have the same id as the benchmark at `at`,
/// in their order: the benchmarks that it is compared with, where its group compares by id.
/// A benchmark without id is compared with none, and so is a place beyond the benchmarks.
pub fn earlier_with_same_id(ids: &Vec<Option<String>>, at: usize) -> (r: Vec<usize>)
    ensures
        at >= ids@.len() ==> r@.len() == 0,
        forall|k: int|
            0 <= k < r@.len() ==> (#[trigger] r@[k]) < at < ids@.len() && ids@[at as int] is Some
                && option_view(ids@[r@[k] as int]) == option_view(ids@[at as int]),
        forall|k: int, l: int| 0 <= k < l < r@.len() ==> r@[k] < r@[l],
        forall|j: int|
            0 <= j < at < ids@.len() && ids@[at as int] is Some && option_view(#[trigger] ids@[j])
                == option_view(ids@[at as int]) ==> r@.contains(j as usize),
{
    let mut r: Vec<usize> = Vec::new();
    if at >= ids.len() {
        return r;
    }
    let id = match &ids[at] {
        Some(id) => id,
        None => {
            return r;
        },
    };
    let mut j: usize = 0;
    while j < at
        invariant
            j <= at < ids@.len(),
            ids@[at as int] == Some(*id),
            forall|k: int| 0 <= k < r@.len() ==> (#[trigger] r@[k]) < j && option_view(
                ids@[r@[k] as int],
            ) == Some(id@),
            forall|k: int, l: int| 0 <= k < l < r@.len() ==> r@[k] < r@[l],
            forall|i: int|
                0 <= i < j && option_view(#[trigger] ids@[i]) == Some(id@) ==> r@.contains(i as usize),
        decreases at - j,
    {
        let same = match &ids[j] {
            Some(other) => str_eq(other.as_str(), id.as_str()),
            None => false,
        };
        if same {
            let ghost before = r@;
            r.push(j);
            assert(r@[r@.len() - 1] == j);
            assert forall|i: int|
                0 <= i < j + 1 && option_view(#[trigger] ids@[i]) == Some(id@) implies r@.contains(
                i as usize,
            ) by {
                if i < j {
                    let k = choose|k: int| 0 <= k < before.len() && before[k] == i as usize;
                    assert(r@[k] == i as usize);
                }
            }
        }
        j += 1;
    }
    r
}

/// The number between the two pairs of equals signs that start a line of a tool's log, if the
/// line starts like that and the number is one of a process.
pub open spec fn line_pid(line: Seq<char>) -> Option<i32> {
    let inner = line.skip(2);
    let end = first_index(inner, '=');
    if is_prefix(seq!['=', '='], line) && 0 <= end < inner.len() && is_prefix(
        seq!['=', '='],
        inner.skip(end),
    ) && is_number(inner.take(end)) && decimal_value(inner.take(end)) <= i32::MAX {
        Some(decimal_value(inner.take(end)) as i32)
    } else {
        None
    }
}

/// What follows the mark of the process on a line of a tool's log, without the one space
/// behind the mark; the whole line where it has no mark.
pub open spec fn line_text(line: Seq<char>) -> Seq<char> {
    if line_pid(line) is None {
        line
    } else {
        let rest = line.skip(2).skip(first_index(line.skip(2), '=') + 2);
        if rest.len() > 0 && rest[0] == ' ' {
            rest.skip(1)
        } else {
            rest
        }
    }
}

/// `Command: `
pub open spec fn lit_command() -> Seq<char> {
    seq!['C', 'o', 'm', 'm', 'a', 'n', 'd', ':', ' ']
}

/// The command that the log names: what follows `Command: ` on the first line that has it,
/// or nothing where no line has it.
pub open spec fn command_of(texts: Seq<Seq<char>>) -> Seq<char>
    decreases texts.len(),
{
    if texts.len() == 0 {
        Seq::empty()
    } else if is_prefix(lit_command(), texts[0]) {
        texts[0].skip(9)
    } else {
        command_of(texts.drop_first())
    }
}

/// The texts of the lines of a log.
pub open spec fn line_texts(lines: Seq<Seq<char>>) -> Seq<Seq<char>> {
    lines.map_values(|l: Seq<char>| line_text(l))
}

fn pid_and_text(line: &str) -> (r: (Option<i32>, String))
    ensures
        r.0 == line_pid(line@),
        r.1@ == line_text(line@),
{
    proof {
        reveal_strlit("==");
        assert("=="@ =~= seq!['=', '=']);
    }
    let chars = chars_of(line);
    let len = chars.len();
    let marks = chars_of("==");
    if !chars_match_at(&chars, 0, &marks) {
        return (None, String::from_str(line));
    }
    let inner = line.substring_char(2, len);
    assert(inner@ =~= line@.skip(2));
    let inner_chars = chars_of(inner);
    let inner_len = inner_chars.len();
    let end = match find_char(&inner_chars, '=') {
        Some(end) => end,
        None => {
            return (None, String::from_str(line));
        },
    };
    let closes = chars_match_at(&inner_chars, end, &marks);
    proof {
        let tail = inner@.skip(end as int);
        if end + 2 <= inner@.len() {
            assert(tail.subrange(0, 2) =~= inner@.subrange(end as int, end + 2));
        }
        assert(closes == is_prefix(seq!['=', '='], tail));
    }
    if !closes {
        return (None, String::from_str(line));
    }
    let digits = inner.substring_char(0, end);
    assert(digits@ =~= inner@.take(end as int));
    let pid = match parse_u64(&chars_of(digits)) {
        Some(value) => {
            if value > 0x7fff_ffff {
                return (None, String::from_str(line));
            }
            value as i32
        },
        None => {
            return (None, String::from_str(line));
        },
    };
    let rest = inner.substring_char(end + 2, inner_len);
    assert(rest@ =~= inner@.skip(end + 2));
    let rest_chars = chars_of(rest);
    let text = if rest_chars.len() > 0 && rest_chars[0] == ' ' {
        let cut = rest.substring_char(1, rest_chars.len());
        assert(cut@ =~= rest@.skip(1));
        String::from_str(cut)
    } else {
        String::from_str(rest)
    };
    (Some(pid), text)
}

impl LogfileSummary {
    /// What the lines of a log say: the process that the first line marks, the command after
    /// `Command: `, and the text of every line without its mark.
    ///
    /// There is none where the first line does not start with the mark of a process, as in
    /// `==1234== `.
    pub fn from_lines(lines: &Vec<String>) -> (r: Option<LogfileSummary>)
        ensures
            match r {
                Some(summary) => lines@.len() > 0 && Some(summary.pid) == line_pid(lines@[0]@)
                    && views(summary.summary@) == line_texts(views(lines@)) && summary.command@
                    == command_of(line_texts(views(lines@))),
                None => lines@.len() == 0 || line_pid(lines@[0]@) is None,
            },
    {
        proof {
            reveal_strlit("Command: ");
            assert("Command: "@ =~= lit_command());
        }
        if lines.len() == 0 {
            return None;
        }
        let pid = match pid_and_text(lines[0].as_str()).0 {
            Some(pid) => pid,
            None => {
                return None;
            },
        };
        let ghost all = line_texts(views(lines@));
        let mut summary: Vec<String> = Vec::new();
        let mut command: Option<String> = None;
        let marker = chars_of("Command: ");
        let mut i: usize = 0;
        assert(all.skip(0) == all);
        while i < lines.len()
            invariant
                i <= lines.len(),
                all == line_texts(views(lines@)),
                marker@ == lit_command(),
                summary@.len() == i,
                forall|j: int| 0 <= j < i ==> (#[trigger] summary@[j])@ == all[j],
                match command {
                    Some(c) => c@ == command_of(all),
                    None => command_of(all) == command_of(all.skip(i as int)),
                },
            decreases lines.len() - i,
        {
            let text = pid_and_text(lines[i].as_str()).1;
            assert(text@ == all[i as int]);
            if command.is_none() {
                let ghost rest = all.skip(i as int);
                assert(rest[0] == text@);
                let text_chars = chars_of(text.as_str());
                if chars_match_at(&text_chars, 0, &marker) {
                    let named = text.as_str().substring_char(9, text_chars.len());
                    assert(named@ =~= text@.skip(9));
                    command = Some(String::from_str(named));
                } else {
                    assert(rest.drop_first() == all.skip(i + 1));
                }
            }
            summary.push(text);
            i += 1;
        }
        assert(views(summary@) =~= all);
        let command = match command {
            Some(c) => c,
            None => {
                assert(all.skip(all.len() as int).len() == 0);
                String::new()
            },
        };
        Some(LogfileSummary { command, pid, summary })
    }
}

} // verus!
