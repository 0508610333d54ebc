use iai_callgrind_runner::api;
use iai_callgrind_runner::command::{
    check_exit, check_setup_child, NoCapture, RunOptions, ToolCommand, ToolConfig, ToolConfigs,
};
use iai_callgrind_runner::common::ModulePath;
use iai_callgrind_runner::error::{Error, ExitStatus, Output, ProcessError};
use iai_callgrind_runner::tool::ValgrindTool;
use iai_callgrind_runner::tool_args::ToolArgs;
use iai_callgrind_runner::tool_path::{BaselineKind, ToolOutputPath, ToolOutputPathKind};

fn list(items: &[&str]) -> Vec<String> {
    items.iter().map(|s| (*s).to_owned()).collect()
}

fn path(tool: ValgrindTool) -> ToolOutputPath {
    ToolOutputPath::new(
        ToolOutputPathKind::Out,
        tool,
        &BaselineKind::Old,
        "/t",
        &ModulePath::new("m"),
        "fib",
    )
}

fn run_options() -> RunOptions {
    RunOptions {
        env_clear: true,
        current_dir: None,
        exit_with: None,
        envs: vec![("KEY".to_owned(), "value".to_owned())],
        stdin: None,
        stdout: None,
        stderr: None,
    }
}

fn exited(code: i32) -> ExitStatus {
    ExitStatus { code: Some(code) }
}

#[test]
fn raw_arguments_are_sorted_out() {
    let args = ToolArgs::from_raw_args(
        ValgrindTool::Memcheck,
        list(&[
            "--tool=callgrind",
            "--leak-check=full",
            "--log-file=mine.log",
            "--xml-file=x",
            "--dhat-out-file=d",
            "--massif-out-file=m",
            "--bb-out-file=b",
            "--pc-out-file=p",
            "--callgrind-out-file=c",
            "-v",
            "--error-exitcode=3",
            "--trace-children",
            "positional",
            "--",
            "--key=",
        ]),
    );
    assert_eq!(args.tool, ValgrindTool::Memcheck);
    assert!(args.verbose);
    assert_eq!(args.error_exitcode, "3");
    assert_eq!(
        args.other,
        list(&["--leak-check=full", "--trace-children", "positional", "--", "--key="])
    );
    assert!(args.output_paths.is_empty());
    assert_eq!(args.log_path, None);
    assert_eq!(
        args.to_vec(),
        list(&[
            "--tool=memcheck",
            "--error-exitcode=3",
            "--verbose",
            "--leak-check=full",
            "--trace-children",
            "positional",
            "--",
            "--key="
        ])
    );
}

#[test]
fn exit_code_on_errors_by_tool() {
    for (tool, code) in [
        (ValgrindTool::Memcheck, "201"),
        (ValgrindTool::Helgrind, "201"),
        (ValgrindTool::DRD, "201"),
        (ValgrindTool::Callgrind, "0"),
        (ValgrindTool::DHAT, "0"),
        (ValgrindTool::Massif, "0"),
        (ValgrindTool::BBV, "0"),
    ] {
        let args = ToolArgs::from_raw_args(tool, Vec::new());
        assert_eq!(args.error_exitcode, code);
        assert!(!args.verbose);
        assert_eq!(args.clone(), args);
    }
    assert!(ToolArgs::from_raw_args(ValgrindTool::DRD, list(&["--verbose"])).verbose);
}

#[test]
fn output_and_log_arguments() {
    let mut args = ToolArgs::from_raw_args(ValgrindTool::DHAT, Vec::new());
    args.set_output_arg(&path(ValgrindTool::DHAT), None);
    args.set_log_arg(&path(ValgrindTool::DHAT), Some(&"%p".to_owned()));
    assert_eq!(args.output_paths, list(&["--dhat-out-file=/t/m/fib/dhat.fib.out"]));
    assert_eq!(args.log_path, Some("--log-file=/t/m/fib/dhat.fib.log.%p".to_owned()));

    let mut memcheck = ToolArgs::from_raw_args(ValgrindTool::Memcheck, Vec::new());
    memcheck.set_output_arg(&path(ValgrindTool::Memcheck), None);
    assert!(memcheck.output_paths.is_empty());

    for (tool, arg) in [
        (ValgrindTool::Callgrind, "--callgrind-out-file=/t/m/fib/callgrind.fib.out.7"),
        (ValgrindTool::Massif, "--massif-out-file=/t/m/fib/massif.fib.out.7"),
        (ValgrindTool::BBV, "--bb-out-file=/t/m/fib/exp-bbv.fib.out.7"),
    ] {
        let mut args = ToolArgs::from_raw_args(tool, Vec::new());
        args.set_output_arg(&path(tool), Some(&"7".to_owned()));
        assert_eq!(args.output_paths, list(&[arg]));
    }
}

#[test]
fn cleared_environment_keeps_what_the_tool_needs() {
    let keys = list(&["PATH", "LD_PRELOAD", "HOME", "RUST_LOG", "LD_LIBRARY_PATH", "DEBUGINFOD_URLS"]);
    let callgrind = ToolCommand::new(ValgrindTool::Callgrind, "valgrind", NoCapture::False);
    assert_eq!(
        callgrind.env_clear(&keys),
        list(&["PATH", "HOME", "RUST_LOG", "DEBUGINFOD_URLS"])
    );
    let memcheck = ToolCommand::new(ValgrindTool::Memcheck, "valgrind", NoCapture::False);
    assert_eq!(memcheck.env_clear(&keys), list(&["RUST_LOG"]));
    assert!(memcheck.env_clear(&Vec::new()).is_empty());
}

#[test]
fn plan_of_the_primary_tool() {
    let command = ToolCommand::new(ValgrindTool::Callgrind, "/usr/bin/valgrind", NoCapture::False);
    let config = ToolConfig::new(
        ValgrindTool::Callgrind,
        true,
        ToolArgs::from_raw_args(ValgrindTool::Callgrind, list(&["--cache-sim=yes"])),
        None,
    );
    let plan = command.plan(
        config,
        "/bin/bench",
        &list(&["--iai-run", "group"]),
        run_options(),
        &path(ValgrindTool::Callgrind),
        &list(&["PATH", "LD_PRELOAD"]),
    );
    assert_eq!(plan.program, "/usr/bin/valgrind");
    assert_eq!(
        plan.args,
        list(&[
            "--tool=callgrind",
            "--error-exitcode=0",
            "--cache-sim=yes",
            "--callgrind-out-file=/t/m/fib/callgrind.fib.out",
            "--log-file=/t/m/fib/callgrind.fib.log",
            "/bin/bench",
            "--iai-run",
            "group"
        ])
    );
    assert_eq!(plan.env_remove, list(&["PATH"]));
    assert_eq!(plan.envs, vec![("KEY".to_owned(), "value".to_owned())]);
    assert_eq!(plan.current_dir, None);
    assert_eq!((plan.stdin, plan.stdout, plan.stderr), (None, None, None));
    assert!(plan.capture);
}

#[test]
fn shown_streams_and_explicit_streams() {
    let config = || {
        ToolConfig::new(
            ValgrindTool::Callgrind,
            true,
            ToolArgs::from_raw_args(ValgrindTool::Callgrind, Vec::new()),
            None,
        )
    };
    let plan_of = |tool: ValgrindTool, nocapture: NoCapture, options: RunOptions| {
        ToolCommand::new(tool, "valgrind", nocapture).plan(
            config(),
            "bench",
            &Vec::new(),
            options,
            &path(tool),
            &list(&["PATH"]),
        )
    };
    let mut kept = run_options();
    kept.env_clear = false;
    kept.current_dir = Some("/work".to_owned());
    let plan = plan_of(ValgrindTool::Callgrind, NoCapture::Stderr, kept);
    assert!(plan.env_remove.is_empty());
    assert_eq!(plan.current_dir, Some("/work".to_owned()));
    assert_eq!(plan.stdout, Some(api::Stdio::Null));
    assert_eq!(plan.stderr, Some(api::Stdio::Inherit));
    assert!(!plan.capture);

    let plan = plan_of(ValgrindTool::Callgrind, NoCapture::Stdout, run_options());
    assert_eq!(plan.stdout, Some(api::Stdio::Inherit));
    assert_eq!(plan.stderr, Some(api::Stdio::Null));
    assert!(!plan.capture);
    assert!(!plan_of(ValgrindTool::Callgrind, NoCapture::True, run_options()).capture);

    // the secondary tools are always captured
    let plan = plan_of(ValgrindTool::DHAT, NoCapture::Stdout, run_options());
    assert_eq!((plan.stdout.clone(), plan.stderr.clone()), (None, None));
    assert!(plan.capture);

    // what the run's options say goes first
    let mut explicit = run_options();
    explicit.stdin = Some(api::Stdin::Bytes(b"input".to_vec()));
    explicit.stdout = Some(api::Stdio::File("out.txt".to_owned()));
    explicit.stderr = Some(api::Stdio::Pipe);
    let plan = plan_of(ValgrindTool::Callgrind, NoCapture::Stderr, explicit);
    assert_eq!(plan.stdin, Some(api::Stdin::Bytes(b"input".to_vec())));
    assert_eq!(plan.stdout, Some(api::Stdio::File("out.txt".to_owned())));
    assert_eq!(plan.stderr, Some(api::Stdio::Pipe));
}

#[test]
fn exit_status_against_the_expected_exit() {
    let log = path(ValgrindTool::Callgrind).to_log_output();
    let verdict = |code: Option<i32>, exit_with: Option<api::ExitWith>| {
        check_exit(
            ValgrindTool::Callgrind,
            None,
            ExitStatus { code },
            &log,
            exit_with.as_ref(),
        )
        .is_ok()
    };
    assert!(verdict(Some(0), None));
    assert!(verdict(Some(0), Some(api::ExitWith::Success)));
    assert!(verdict(Some(0), Some(api::ExitWith::Code(0))));
    assert!(!verdict(Some(0), Some(api::ExitWith::Code(1))));
    assert!(!verdict(Some(0), Some(api::ExitWith::Failure)));
    assert!(verdict(Some(1), Some(api::ExitWith::Failure)));
    assert!(verdict(Some(-1), Some(api::ExitWith::Failure)));
    assert!(!verdict(Some(1), Some(api::ExitWith::Success)));
    assert!(!verdict(Some(1), None));
    assert!(verdict(Some(42), Some(api::ExitWith::Code(42))));
    assert!(!verdict(Some(42), Some(api::ExitWith::Code(43))));
    assert!(!verdict(None, None));
    assert!(!verdict(None, Some(api::ExitWith::Failure)));
    assert!(!verdict(None, Some(api::ExitWith::Code(0))));
}

#[test]
fn process_error_carries_the_output_and_the_log() {
    let output = || Output { status: exited(3), stdout: b"out".to_vec(), stderr: b"err".to_vec() };
    let log = path(ValgrindTool::DHAT).to_log_output();
    assert_eq!(
        check_exit(ValgrindTool::DHAT, Some(output()), exited(3), &log, None),
        Err(Error::ProcessError(ProcessError {
            id: "dhat".to_owned(),
            output: Some(output()),
            status: exited(3),
            output_path: Some(log.clone()),
        }))
    );
    assert_eq!(
        check_exit(
            ValgrindTool::DHAT,
            Some(output()),
            exited(3),
            &log,
            Some(&api::ExitWith::Code(3))
        ),
        Ok(Some(output()))
    );
    let command = ToolCommand::new(ValgrindTool::DHAT, "valgrind", NoCapture::False);
    let finished = command
        .finish(Some(output()), exited(0), &path(ValgrindTool::DHAT), None)
        .unwrap();
    assert_eq!(finished.tool, ValgrindTool::DHAT);
    assert_eq!(finished.output, Some(output()));
    match command.finish(None, exited(1), &path(ValgrindTool::DHAT), None) {
        Err(Error::ProcessError(error)) => {
            assert_eq!(error.output_path, Some(log));
            assert_eq!(error.output, None);
        }
        other => panic!("unexpected {other:?}"),
    }
}

#[test]
fn companion_set_up_process_has_to_succeed() {
    let module = ModulePath::new("m::group");
    assert_eq!(check_setup_child(exited(0), &module), Ok(()));
    assert_eq!(
        check_setup_child(exited(2), &module),
        Err(Error::ProcessError(ProcessError {
            id: "m::group::setup".to_owned(),
            output: None,
            status: exited(2),
            output_path: None,
        }))
    );
    assert!(check_setup_child(ExitStatus { code: None }, &module).is_err());
    assert!(exited(0).success());
    assert!(!exited(1).success());
}

#[test]
fn enabled_tools_and_their_paths() {
    let tool = |kind: ValgrindTool, enable: Option<bool>| {
        ToolConfig::from_api(api::Tool {
            kind,
            enable,
            raw_args: list(&["-v"]),
            outfile_modifier: Some("%p".to_owned()),
        })
    };
    let configs = ToolConfigs(vec![
        tool(ValgrindTool::DHAT, None),
        tool(ValgrindTool::Memcheck, Some(false)),
        tool(ValgrindTool::Massif, Some(true)),
    ]);
    assert!(configs.0[0].is_enabled);
    assert!(!configs.0[1].is_enabled);
    assert!(configs.0[0].args.verbose);
    assert_eq!(configs.0[0].outfile_modifier, Some("%p".to_owned()));
    assert!(configs.has_tools_enabled());
    assert_eq!(configs.enabled(), vec![ValgrindTool::DHAT, ValgrindTool::Massif]);
    let paths = configs.output_paths(&path(ValgrindTool::Callgrind));
    assert_eq!(
        paths.iter().map(ToolOutputPath::file_name).collect::<Vec<_>>(),
        list(&["dhat.fib.out", "massif.fib.out"])
    );
    assert!(!ToolConfigs(vec![tool(ValgrindTool::DRD, Some(false))]).has_tools_enabled());
    assert!(!ToolConfigs(Vec::new()).has_tools_enabled());
    assert_eq!(configs.0[2].clone(), tool(ValgrindTool::Massif, Some(true)));
}

#[test]
fn errors_say_what_they_are_about() {
    let errors = vec![
        Error::LaunchError("valgrind".to_owned(), "not found".to_owned()),
        Error::ProcessError(ProcessError {
            id: "dhat".to_owned(),
            output: None,
            status: exited(1),
            output_path: None,
        }),
        Error::ParseError("a.out".to_owned(), iai_callgrind_runner::parser::ParseError::EmptyFile),
        Error::RegressionError(false),
        Error::VersionMismatch(
            iai_callgrind_runner::error::VersionOrder::Less,
            "0.1.0".to_owned(),
            "0.2.0".to_owned(),
        ),
        Error::IoError("/t".to_owned(), "denied".to_owned()),
        Error::BenchmarkError(ValgrindTool::DHAT, ModulePath::new("m"), "stdin".to_owned()),
        Error::CostsError(iai_callgrind_runner::costs::CostsError::OutOfRange),
        Error::FlamegraphError(iai_callgrind_runner::flamegraph::FlamegraphError::NoStacks),
        Error::InvalidArguments(1),
    ];
    let fatal: Vec<bool> = errors.iter().map(Error::is_fatal).collect();
    assert_eq!(
        fatal,
        vec![false, false, false, false, true, true, false, false, false, true]
    );
    for error in &errors {
        assert!(!error.message().is_empty());
    }
    assert_eq!(errors[0].message(), "Error launching 'valgrind': not found");
    assert_eq!(errors[1].message(), "Error running 'dhat': Exit code was unexpected");
    assert_eq!(errors[2].message(), "Error parsing file 'a.out': Empty file");
    assert_eq!(
        errors[4].message(),
        "Version mismatch: the runner has version '0.1.0' and the library has version '0.2.0'"
    );
    assert_eq!(errors[6].message(), "Error in benchmark 'm' of dhat: stdin");
    let with_log = Error::ProcessError(ProcessError {
        id: "callgrind".to_owned(),
        output: None,
        status: ExitStatus { code: None },
        output_path: Some(path(ValgrindTool::Callgrind).to_log_output()),
    });
    assert_eq!(
        with_log.message(),
        "Error running 'callgrind': Terminated by a signal. The log is at \
         '/t/m/fib/callgrind.fib.log'"
    );
    assert!(errors[0].message().contains("valgrind"));
    assert!(errors[1].message().contains("dhat"));
    assert!(errors[2].message().contains("a.out"));
    assert!(errors[5].message().contains("/t"));
}

#[test]
fn set_up_runs_beside_a_benchmark_that_reads_it() {
    let mut options = run_options();
    assert_eq!(options.setup_pipe(), None);
    options.stdin = Some(api::Stdin::Setup(api::Pipe::Stderr));
    assert_eq!(options.setup_pipe(), Some(api::Pipe::Stderr));
    options.stdin = Some(api::Stdin::Setup(api::Pipe::Stdout));
    assert_eq!(options.setup_pipe(), Some(api::Pipe::Stdout));
    options.stdin = Some(api::Stdin::Bytes(vec![1, 2]));
    assert_eq!(options.setup_pipe(), None);
    options.stdin = Some(api::Stdin::Stdio(api::Stdio::Pipe));
    assert_eq!(options.setup_pipe(), None);
}

#[test]
fn toggle_goes_in_front_of_the_other_arguments() {
    let mut args = ToolArgs::from_raw_args(
        ValgrindTool::Callgrind,
        list(&["--toggle-collect=mine", "--cache-sim=yes"]),
    );
    let before = args.to_vec();
    args.insert_toggle_collect("*::wrapper::*");
    assert_eq!(
        args.other,
        list(&["--toggle-collect=*::wrapper::*", "--toggle-collect=mine", "--cache-sim=yes"])
    );
    let after = args.to_vec();
    assert_eq!(after.len(), before.len() + 1);
    assert!(after.contains(&"--toggle-collect=*::wrapper::*".to_owned()));
}
