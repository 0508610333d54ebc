//! What can go wrong in a run of the engine.

use vstd::prelude::*;
use vstd::string::*;

use crate::common::ModulePath;
use crate::costs::CostsError;
use crate::flamegraph::FlamegraphError;
use crate::parser::ParseError;
use crate::text::concat3;
use crate::tool::ValgrindTool;
use crate::tool_path::ToolOutputPath;

verus! {

/// How a process ended: with an exit code, or without one where a signal ended it.
#[derive(Debug, Clone, Copy, PartialEq, Eq, Structural)]
pub struct ExitStatus {
    pub code: Option<i32>,
}

impl ExitStatus {
    /// Whether the process ended with the exit code zero.
    pub open spec fn spec_success(self) -> bool {
        self.code == Some(0i32)
    }

    /// Whether the process ended with the exit code zero.
    pub fn success(&self) -> (r: bool)
        ensures
            r == self.spec_success(),
    {
        match self.code {
            Some(code) => code == 0,
            None => false,
        }
    }
}

/// What a process left behind: how it ended, and what it wrote to its captured streams.
#[derive(Debug, PartialEq, Eq)]
pub struct Output {
    pub status: ExitStatus,
    pub stdout: Vec<u8>,
    pub stderr: Vec<u8>,
}

/// A process that did not end as expected.
#[derive(Debug, PartialEq, Eq)]
pub struct ProcessError {
    /// The tool or the function that ran.
    pub id: String,
    pub output: Option<Output>,
    pub status: ExitStatus,
    /// The identity of the log of the run.
    pub output_path: Option<ToolOutputPath>,
}

/// How the version of the caller stands to the version of the engine.
#[derive(Debug, Clone, Copy, PartialEq, Eq, Structural)]
pub enum VersionOrder {
    /// The engine is older than the caller.
    Less,
    /// Both have the same version.
    Equal,
    /// The engine is newer than the caller.
    Greater,
    /// One of the two versions cannot be read.
    Unreadable,
}

/// An error of the engine.
#[derive(Debug, PartialEq, Eq)]
pub enum Error {
    /// The process could not be started: the executable, and why.
    LaunchError(String, String),
    /// The process ended with an unexpected status.
    ProcessError(ProcessError),
    /// The output of the profiler at this path is malformed.
    ParseError(String, ParseError),
    /// A limit of regression was exceeded; with `true`, the run of the group ended at once.
    RegressionError(bool),
    /// The caller and the engine do not have the same version: how the engine's version
    /// stands to the caller's, the engine's version, the caller's version.
    VersionMismatch(VersionOrder, String, String),
    /// An operation on the file at this path failed, and why.
    IoError(String, String),
    /// The benchmark of this module could not be set up for this tool, and why.
    BenchmarkError(ValgrindTool, ModulePath, String),
    /// A table of counts lacks what is needed.
    CostsError(CostsError),
    /// A flame graph could not be made.
    FlamegraphError(FlamegraphError),
    /// The engine was called with too few arguments: their number.
    InvalidArguments(usize),
}

impl Error {
    /// Whether the whole run ends with this error: so it is for a mismatch of versions, for
    /// too few arguments and for a failed operation on a file. Every other error loses the
    /// benchmark at hand only.
    pub open spec fn spec_is_fatal(self) -> bool {
        self is VersionMismatch || self is IoError || self is InvalidArguments
    }

    /// Whether the whole run ends with this error.
    pub fn is_fatal(&self) -> (r: bool)
        ensures
            r == self.spec_is_fatal(),
    {
        matches!(
            self,
            Error::VersionMismatch(_, _, _) | Error::IoError(_, _) | Error::InvalidArguments(_)
        )
    }

    /// What the error says, in words, with the path, the executable or the tool that it is
    /// about.
    pub open spec fn spec_message(self) -> Seq<char> {
        match self {
            Error::LaunchError(executable, message) => "Error launching '"@ + executable@ + "': "@
                + message@,
            Error::ProcessError(error) => "Error running '"@ + error.id@ + "': "@ + (
            match error.status.code {
                Some(code) => "Exit code was unexpected"@,
                None => "Terminated by a signal"@,
            }) + (match error.output_path {
                Some(path) => ". The log is at '"@ + path@.to_path() + "'"@,
                None => Seq::empty(),
            }),
            Error::ParseError(path, error) => "Error parsing file '"@ + path@ + "': "@
                + error.spec_message(),
            Error::RegressionError(_) => "Performance has regressed."@,
            Error::VersionMismatch(_, runner, library) => "Version mismatch: the runner has version '"@
                + runner@ + "' and the library has version '"@ + library@ + "'"@,
            Error::IoError(path, message) => "Error on file '"@ + path@ + "': "@ + message@,
            Error::BenchmarkError(tool, module, message) => "Error in benchmark '"@ + module@
                + "' of "@ + tool.spec_id() + ": "@ + message@,
            Error::CostsError(error) => error.spec_message(),
            Error::FlamegraphError(error) => error.spec_message(),
            Error::InvalidArguments(_) => "Too few arguments"@,
        }
    }

    /// What the error says, in words, with the path, the executable or the tool that it is
    /// about.
    pub fn message(&self) -> (r: String)
        ensures
            r@ == self.spec_message(),
    {
        match self {
            Error::LaunchError(executable, message) => {
                let mut r = concat3("Error launching '", executable.as_str(), "': ");
                r.append(message.as_str());
                r
            },
            Error::ProcessError(error) => {
                let mut r = concat3("Error running '", error.id.as_str(), "': ");
                match error.status.code {
                    Some(_) => r.append("Exit code was unexpected"),
                    None => r.append("Terminated by a signal"),
                }
                match &error.output_path {
                    Some(path) => {
                        let ghost before = r@;
                        let place = concat3(". The log is at '", path.to_path().as_str(), "'");
                        r.append(place.as_str());
                        assert(r@ =~= before + (". The log is at '"@ + path@.to_path() + "'"@));
                    },
                    None => {
                        assert(r@ =~= r@ + Seq::<char>::empty());
                    },
                }
                r
            },
            Error::ParseError(path, error) => {
                let mut r = concat3("Error parsing file '", path.as_str(), "': ");
                r.append(error.message().as_str());
                r
            },
            Error::RegressionError(_) => String::from_str("Performance has regressed."),
            Error::VersionMismatch(_, runner, library) => {
                let mut r = concat3(
                    "Version mismatch: the runner has version '",
                    runner.as_str(),
                    "' and the library has version '",
                );
                r.append(library.as_str());
                r.append("'");
                r
            },
            Error::IoError(path, message) => {
                let mut r = concat3("Error on file '", path.as_str(), "': ");
                r.append(message.as_str());
                r
            },
            Error::BenchmarkError(tool, module, message) => {
                let mut r = concat3("Error in benchmark '", module.0.as_str(), "' of ");
                r.append(tool.id().as_str());
                r.append(": ");
                r.append(message.as_str());
                r
            },
            Error::CostsError(error) => error.message(),
            Error::FlamegraphError(error) => error.message(),
            Error::InvalidArguments(_) => String::from_str("Too few arguments"),
        }
    }
}

} // verus!
