//! The invocation of a tool: what the process is started with, and whether it ended as
//! expected.

use vstd::prelude::*;
use vstd::string::*;

use crate::api;
use crate::common::{ModulePath, path_separator};
use crate::error::{Error, ExitStatus, Output, ProcessError};
use crate::text::{clone_strings, option_view, str_eq, views};
use crate::tool::ValgrindTool;
use crate::tool_args::{ToolArgs, with_raw_args};
use crate::tool_path::{ToolOutputPath, ToolOutputPathView};

verus! {

/// Which streams of the benchmarked process are shown instead of captured.
#[derive(Debug, Clone, Copy, PartialEq, Eq, Structural)]
pub enum NoCapture {
    /// Both.
    True,
    /// Neither.
    False,
    /// The standard error alone; the standard output is discarded.
    Stderr,
    /// The standard output alone; the standard error is discarded.
    Stdout,
}

/// How a benchmark is run.
#[derive(Debug, PartialEq, Eq)]
pub struct RunOptions {
    pub env_clear: bool,
    pub current_dir: Option<String>,
    pub exit_with: Option<api::ExitWith>,
    pub envs: Vec<(String, String)>,
    pub stdin: Option<api::Stdin>,
    pub stdout: Option<api::Stdio>,
    pub stderr: Option<api::Stdio>,
}

/// The configuration of one tool for one benchmark.
#[derive(Debug, PartialEq, Eq)]
pub struct ToolConfig {
    pub tool: ValgrindTool,
    pub is_enabled: bool,
    pub args: ToolArgs,
    pub outfile_modifier: Option<String>,
}

/// The configurations of the secondary tools of one benchmark.
#[derive(Debug, PartialEq, Eq)]
pub struct ToolConfigs(pub Vec<ToolConfig>);

/// A tool that is about to be started.
#[derive(Debug, PartialEq, Eq)]
pub struct ToolCommand {
    pub tool: ValgrindTool,
    pub nocapture: NoCapture,
    /// The program that starts the tool.
    pub program: String,
}

/// What a tool left behind.
#[derive(Debug, PartialEq, Eq)]
pub struct ToolOutput {
    pub tool: ValgrindTool,
    pub output: Option<Output>,
}

/// What the process of a tool is started with.
#[derive(Debug, PartialEq, Eq)]
pub struct CommandPlan {
    pub program: String,
    /// The variables of the environment that are taken away.
    pub env_remove: Vec<String>,
    pub current_dir: Option<String>,
    pub args: Vec<String>,
    /// The variables of the environment that are set.
    pub envs: Vec<(String, String)>,
    pub stdin: Option<api::Stdin>,
    pub stdout: Option<api::Stdio>,
    pub stderr: Option<api::Stdio>,
    /// Whether the streams that are connected to nothing else are captured.
    pub capture: bool,
}

/// `LD_PRELOAD`
pub open spec fn lit_ld_preload() -> Seq<char> {
    seq!['L', 'D', '_', 'P', 'R', 'E', 'L', 'O', 'A', 'D']
}

/// `LD_LIBRARY_PATH`
pub open spec fn lit_ld_library_path() -> Seq<char> {
    seq!['L', 'D', '_', 'L', 'I', 'B', 'R', 'A', 'R', 'Y', '_', 'P', 'A', 'T', 'H']
}

/// `DEBUGINFOD_URLS`
pub open spec fn lit_debuginfod_urls() -> Seq<char> {
    seq!['D', 'E', 'B', 'U', 'G', 'I', 'N', 'F', 'O', 'D', '_', 'U', 'R', 'L', 'S']
}

/// `PATH`
pub open spec fn lit_path() -> Seq<char> {
    seq!['P', 'A', 'T', 'H']
}

/// `HOME`
pub open spec fn lit_home() -> Seq<char> {
    seq!['H', 'O', 'M', 'E']
}

/// Whether the variable `key` stays in the cleared environment of `tool`: the variables of
/// the loader always, and for Memcheck those that it needs to find debug symbols and programs.
pub open spec fn keeps_env(tool: ValgrindTool, key: Seq<char>) -> bool {
    key == lit_ld_preload() || key == lit_ld_library_path() || (tool is Memcheck && (key
        == lit_debuginfod_urls() || key == lit_path() || key == lit_home()))
}

/// The variables among `keys` that leave the cleared environment of `tool`, in their order.
pub open spec fn removed_keys(tool: ValgrindTool, keys: Seq<Seq<char>>) -> Seq<Seq<char>>
    decreases keys.len(),
{
    if keys.len() == 0 {
        Seq::empty()
    } else {
        let rest = removed_keys(tool, keys.drop_last());
        if keeps_env(tool, keys.last()) {
            rest
        } else {
            rest.push(keys.last())
        }
    }
}

/// Whether a process that ended with `status` ended as expected: with zero where nothing or
/// success is expected, with anything but zero where failure is expected, with the given code
/// where one is expected. A process that a signal ended never ended as expected.
pub open spec fn exit_is_expected(status: ExitStatus, exit_with: Option<api::ExitWith>) -> bool {
    match status.code {
        None => false,
        Some(code) => match exit_with {
            None | Some(api::ExitWith::Success) => code == 0,
            Some(api::ExitWith::Failure) => code != 0,
            Some(api::ExitWith::Code(expected)) => code == expected,
        },
    }
}

/// What the standard output is connected to: what the run's options say, or else what the
/// shown streams ask for, for the primary tool.
pub open spec fn planned_stdout(
    tool: ValgrindTool,
    nocapture: NoCapture,
    stdout: Option<api::Stdio>,
) -> Option<api::Stdio> {
    if stdout is Some {
        stdout
    } else if tool is Callgrind && nocapture is Stderr {
        Some(api::Stdio::Null)
    } else if tool is Callgrind && nocapture is Stdout {
        Some(api::Stdio::Inherit)
    } else {
        None
    }
}

/// What the standard error is connected to: what the run's options say, or else what the
/// shown streams ask for, for the primary tool.
pub open spec fn planned_stderr(
    tool: ValgrindTool,
    nocapture: NoCapture,
    stderr: Option<api::Stdio>,
) -> Option<api::Stdio> {
    if stderr is Some {
        stderr
    } else if tool is Callgrind && nocapture is Stderr {
        Some(api::Stdio::Inherit)
    } else if tool is Callgrind && nocapture is Stdout {
        Some(api::Stdio::Null)
    } else {
        None
    }
}

fn keeps(tool: ValgrindTool, key: &str) -> (r: bool)
    ensures
        r == keeps_env(tool, key@),
{
    proof {
        reveal_strlit("LD_PRELOAD");
        reveal_strlit("LD_LIBRARY_PATH");
        reveal_strlit("DEBUGINFOD_URLS");
        reveal_strlit("PATH");
        reveal_strlit("HOME");
        assert("LD_PRELOAD"@ =~= lit_ld_preload());
        assert("LD_LIBRARY_PATH"@ =~= lit_ld_library_path());
        assert("DEBUGINFOD_URLS"@ =~= lit_debuginfod_urls());
        assert("PATH"@ =~= lit_path());
        assert("HOME"@ =~= lit_home());
    }
    str_eq(key, "LD_PRELOAD") || str_eq(key, "LD_LIBRARY_PATH") || (matches!(
        tool,
        ValgrindTool::Memcheck
    ) && (str_eq(key, "DEBUGINFOD_URLS") || str_eq(key, "PATH") || str_eq(key, "HOME")))
}

impl ToolCommand {
    /// The command of `tool`, started by `program`.
    pub fn new(tool: ValgrindTool, program: &str, nocapture: NoCapture) -> (r: Self)
        ensures
            r.tool == tool,
            r.nocapture == nocapture,
            r.program@ == program@,
    {
        ToolCommand { tool, nocapture, program: String::from_str(program) }
    }

    /// The variables that leave the environment when it is cleared, where `keys` are the
    /// variables that are set.
    pub fn env_clear(&self, keys: &Vec<String>) -> (r: Vec<String>)
        ensures
            views(r@) == removed_keys(self.tool, views(keys@)),
    {
        let mut r: Vec<String> = Vec::new();
        let mut i: usize = 0;
        assert(views(r@) =~= Seq::<Seq<char>>::empty());
        assert(views(keys@).take(0) =~= Seq::<Seq<char>>::empty());
        while i < keys.len()
            invariant
                i <= keys.len(),
                views(r@) == removed_keys(self.tool, views(keys@).take(i as int)),
            decreases keys.len() - i,
        {
            proof {
                let next = views(keys@).take(i + 1);
                assert(next.drop_last() == views(keys@).take(i as int));
                assert(next.last() == keys@[i as int]@);
            }
            if !keeps(self.tool, keys[i].as_str()) {
                let ghost before = r@;
                let key = keys[i].clone();
                r.push(key);
                assert(views(r@) =~= views(before).push(key@));
            }
            i += 1;
        }
        assert(views(keys@).take(keys@.len() as int) == views(keys@));
        r
    }

    /// What the process of the tool is started with.
    ///
    /// The arguments are those of the tool, with the output file and the log file set to
    /// the files of `output_path`, then the executable and its arguments. Where the run's
    /// options clear the environment, the variables among `env_keys` leave it but for those
    /// that the tool keeps. The primary tool runs uncaptured where streams are to be shown.
    pub fn plan(
        &self,
        config: ToolConfig,
        executable: &str,
        executable_args: &Vec<String>,
        run_options: RunOptions,
        output_path: &ToolOutputPath,
        env_keys: &Vec<String>,
    ) -> (r: CommandPlan)
        ensures
            r.program@ == self.program@,
            views(r.env_remove@) == if run_options.env_clear {
                removed_keys(self.tool, views(env_keys@))
            } else {
                Seq::<Seq<char>>::empty()
            },
            r.current_dir == run_options.current_dir,
            views(r.args@) == config.args@.with_output_arg(
                output_path@,
                match config.outfile_modifier {
                    Some(m) => Some(m@),
                    None => None,
                },
            ).with_log_arg(
                output_path@,
                match config.outfile_modifier {
                    Some(m) => Some(m@),
                    None => None,
                },
            ).to_vec() + seq![executable@] + views(executable_args@),
            r.envs == run_options.envs,
            r.stdin == run_options.stdin,
            r.stdout == planned_stdout(self.tool, self.nocapture, run_options.stdout),
            r.stderr == planned_stderr(self.tool, self.nocapture, run_options.stderr),
            r.capture == !(self.tool is Callgrind && !(self.nocapture is False)),
    {
        let env_remove = if run_options.env_clear {
            self.env_clear(env_keys)
        } else {
            let empty: Vec<String> = Vec::new();
            assert(views(empty@) =~= Seq::<Seq<char>>::empty());
            empty
        };
        let mut tool_args = config.args;
        tool_args.set_output_arg(output_path, config.outfile_modifier.as_ref());
        tool_args.set_log_arg(output_path, config.outfile_modifier.as_ref());
        let mut args = tool_args.to_vec();
        let ghost first = args@;
        args.push(String::from_str(executable));
        let mut rest = clone_strings(executable_args);
        args.append(&mut rest);
        assert(views(args@) =~= views(first) + seq![executable@] + views(executable_args@));
        let is_primary = matches!(self.tool, ValgrindTool::Callgrind);
        let stdout = match run_options.stdout {
            Some(stdout) => Some(stdout),
            None => match self.nocapture {
                NoCapture::Stderr if is_primary => Some(api::Stdio::Null),
                NoCapture::Stdout if is_primary => Some(api::Stdio::Inherit),
                _ => None,
            },
        };
        let stderr = match run_options.stderr {
            Some(stderr) => Some(stderr),
            None => match self.nocapture {
                NoCapture::Stderr if is_primary => Some(api::Stdio::Inherit),
                NoCapture::Stdout if is_primary => Some(api::Stdio::Null),
                _ => None,
            },
        };
        CommandPlan {
            program: self.program.clone(),
            env_remove,
            current_dir: run_options.current_dir,
            args,
            envs: run_options.envs,
            stdin: run_options.stdin,
            stdout,
            stderr,
            capture: !(is_primary && !matches!(self.nocapture, NoCapture::False)),
        }
    }

    /// What the tool left behind, where it ended as expected; the error of the process
    /// otherwise.
    pub fn finish(
        &self,
        output: Option<Output>,
        status: ExitStatus,
        output_path: &ToolOutputPath,
        exit_with: Option<&api::ExitWith>,
    ) -> (r: Result<ToolOutput, Error>)
        ensures
            ({
                let expected = match exit_with {
                    Some(e) => Some(*e),
                    None => None,
                };
                &&& exit_is_expected(status, expected) ==> r == Ok::<ToolOutput, Error>(
                    ToolOutput { tool: self.tool, output },
                )
                &&& !exit_is_expected(status, expected) ==> is_process_error(
                    r,
                    self.tool,
                    output,
                    status,
                    output_path@.to_log_output(),
                )
            }),
    {
        match check_exit(self.tool, output, status, &output_path.to_log_output(), exit_with) {
            Ok(output) => Ok(ToolOutput { tool: self.tool, output }),
            Err(e) => Err(e),
        }
    }
}

/// Whether `r` is the error of a process of `tool` that ended with `status`.
pub open spec fn is_process_error<T>(
    r: Result<T, Error>,
    tool: ValgrindTool,
    output: Option<Output>,
    status: ExitStatus,
    log: ToolOutputPathView,
) -> bool {
    &&& r is Err
    &&& r->Err_0 matches Error::ProcessError(e)
    &&& e.id@ == tool.spec_id()
    &&& e.output == output
    &&& e.status == status
    &&& e.output_path is Some
    &&& e.output_path->0@ == log
}

/// The output of the process of `tool`, where it ended as `exit_with` expects; the error of
/// the process otherwise, with the output, the status and the identity of the log.
pub fn check_exit(
    tool: ValgrindTool,
    output: Option<Output>,
    status: ExitStatus,
    output_path: &ToolOutputPath,
    exit_with: Option<&api::ExitWith>,
) -> (r: Result<Option<Output>, Error>)
    ensures
        ({
            let expected = match exit_with {
                Some(e) => Some(*e),
                None => None,
            };
            &&& exit_is_expected(status, expected) ==> r == Ok::<Option<Output>, Error>(output)
            &&& !exit_is_expected(status, expected) ==> is_process_error(
                r,
                tool,
                output,
                status,
                output_path@,
            )
        }),
{
    let as_expected = match status.code {
        None => false,
        Some(code) => match exit_with {
            None | Some(api::ExitWith::Success) => code == 0,
            Some(api::ExitWith::Failure) => code != 0,
            Some(api::ExitWith::Code(expected)) => code == *expected,
        },
    };
    if as_expected {
        Ok(output)
    } else {
        Err(
            Error::ProcessError(
                ProcessError { id: tool.id(), output, status, output_path: Some(output_path.clone()) },
            ),
        )
    }
}

impl RunOptions {
    /// The stream of the companion set-up process that the benchmarked process reads,
    /// where it reads one. The set-up process then runs beside the benchmarked process, and
    /// how it ended is looked at when the benchmarked process has ended.
    pub fn setup_pipe(&self) -> (r: Option<api::Pipe>)
        ensures
            r == match self.stdin {
                Some(api::Stdin::Setup(pipe)) => Some(pipe),
                _ => None,
            },
    {
        match &self.stdin {
            Some(api::Stdin::Setup(pipe)) => Some(*pipe),
            _ => None,
        }
    }
}

/// `::setup`
pub open spec fn lit_setup_suffix() -> Seq<char> {
    seq![':', ':', 's', 'e', 't', 'u', 'p']
}

/// Nothing, where the companion set-up process ended with success; the error of the process
/// otherwise.
pub fn check_setup_child(status: ExitStatus, module: &ModulePath) -> (r: Result<(), Error>)
    ensures
        status.spec_success() ==> r is Ok,
        !status.spec_success() ==> r is Err && (r->Err_0 matches Error::ProcessError(e) && e.id@
            == module@ + lit_setup_suffix() && e.status == status && e.output is None
            && e.output_path is None),
{
    if status.success() {
        Ok(())
    } else {
        proof {
            reveal_strlit("setup");
            assert(path_separator() + "setup"@ =~= lit_setup_suffix());
            assert(module@ + path_separator() + "setup"@ =~= module@
                + lit_setup_suffix());
        }
        Err(
            Error::ProcessError(
                ProcessError {
                    id: module.join("setup").to_string(),
                    output: None,
                    status,
                    output_path: None,
                },
            ),
        )
    }
}

impl ToolConfig {
    /// The configuration of `tool`.
    pub fn new(tool: ValgrindTool, is_enabled: bool, args: ToolArgs, modifier: Option<String>) -> (r:
        Self)
        ensures
            r == (ToolConfig { tool, is_enabled, args, outfile_modifier: modifier }),
    {
        ToolConfig { tool, is_enabled, args, outfile_modifier: modifier }
    }

    /// The configuration that the description of a tool asks for: enabled unless it says
    /// otherwise.
    pub fn from_api(value: api::Tool) -> (r: Self)
        ensures
            r.tool == value.kind,
            r.is_enabled == !(value.enable == Some(false)),
            r.args@ == with_raw_args(value.kind, views(value.raw_args@)),
            r.outfile_modifier == value.outfile_modifier,
    {
        ToolConfig {
            tool: value.kind,
            is_enabled: match value.enable {
                Some(enable) => enable,
                None => true,
            },
            args: ToolArgs::from_raw_args(value.kind, value.raw_args),
            outfile_modifier: value.outfile_modifier,
        }
    }
}

impl Clone for ToolConfig {
    fn clone(&self) -> (r: Self)
        ensures
            r.tool == self.tool,
            r.is_enabled == self.is_enabled,
            r.args@ == self.args@,
            option_view(r.outfile_modifier) == option_view(self.outfile_modifier),
    {
        ToolConfig {
            tool: self.tool,
            is_enabled: self.is_enabled,
            args: self.args.clone(),
            outfile_modifier: match &self.outfile_modifier {
                Some(m) => Some(m.clone()),
                None => None,
            },
        }
    }
}

/// The tools among `configs` that are enabled, in their order.
pub open spec fn enabled_tools(configs: Seq<ToolConfig>) -> Seq<ValgrindTool>
    decreases configs.len(),
{
    if configs.len() == 0 {
        Seq::empty()
    } else {
        let rest = enabled_tools(configs.drop_last());
        if configs.last().is_enabled {
            rest.push(configs.last().tool)
        } else {
            rest
        }
    }
}

impl ToolConfigs {
    /// Whether a tool is enabled.
    pub fn has_tools_enabled(&self) -> (r: bool)
        ensures
            r == exists|i: int| 0 <= i < self.0@.len() && (#[trigger] self.0@[i]).is_enabled,
    {
        let mut i: usize = 0;
        while i < self.0.len()
            invariant
                i <= self.0.len(),
                forall|j: int| 0 <= j < i ==> !(#[trigger] self.0@[j]).is_enabled,
            decreases self.0.len() - i,
        {
            if self.0[i].is_enabled {
                return true;
            }
            i += 1;
        }
        false
    }

    /// The tools that are enabled, in their order.
    pub fn enabled(&self) -> (r: Vec<ValgrindTool>)
        ensures
            r@ == enabled_tools(self.0@),
    {
        let mut r: Vec<ValgrindTool> = Vec::new();
        let mut i: usize = 0;
        assert(self.0@.take(0) =~= Seq::<ToolConfig>::empty());
        while i < self.0.len()
            invariant
                i <= self.0.len(),
                r@ == enabled_tools(self.0@.take(i as int)),
            decreases self.0.len() - i,
        {
            assert(self.0@.take(i + 1).drop_last() == self.0@.take(i as int));
            if self.0[i].is_enabled {
                r.push(self.0[i].tool);
            }
            i += 1;
        }
        assert(self.0@.take(self.0@.len() as int) == self.0@);
        r
    }

    /// The identity of the output of each enabled tool, in their order: that of
    /// `output_path` for the tool.
    pub fn output_paths(&self, output_path: &ToolOutputPath) -> (r: Vec<ToolOutputPath>)
        ensures
            r@.len() == enabled_tools(self.0@).len(),
            forall|i: int|
                0 <= i < r@.len() ==> (#[trigger] r@[i])@ == output_path@.to_tool_output(
                    enabled_tools(self.0@)[i],
                ),
    {
        let tools = self.enabled();
        let mut r: Vec<ToolOutputPath> = Vec::new();
        let mut i: usize = 0;
        while i < tools.len()
            invariant
                i <= tools.len(),
                r@.len() == i,
                forall|j: int|
                    0 <= j < i ==> (#[trigger] r@[j])@ == output_path@.to_tool_output(tools@[j]),
            decreases tools.len() - i,
        {
            r.push(output_path.to_tool_output(tools[i]));
            i += 1;
        }
        r
    }
}

} // verus!
