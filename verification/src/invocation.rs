//! How the engine is called: the arguments that the driver passes, and the check that driver
//! and engine have the same version.

use vstd::prelude::*;
use vstd::string::*;

use crate::error::{Error, VersionOrder};
use crate::text::{str_eq, views};

verus! {

/// How the first of two version strings stands to the second, as the library that compares
/// versions sees it.
pub uninterp spec fn version_order(first: Seq<char>, second: Seq<char>) -> VersionOrder;

/// Calls `version_compare::compare` on the two version strings. The call gives one of less,
/// equal and greater, or an error where one of the strings is no version. The contract
/// gives this result a name and says no more of it.
#[verifier::external_body]
fn order_of_versions(first: &str, second: &str) -> (r: VersionOrder)
    ensures
        r == version_order(first@, second@),
{
    match version_compare::compare(first, second) {
        Ok(version_compare::Cmp::Lt) => VersionOrder::Less,
        Ok(version_compare::Cmp::Eq) => VersionOrder::Equal,
        Ok(version_compare::Cmp::Gt) => VersionOrder::Greater,
        _ => VersionOrder::Unreadable,
    }
}

/// Nothing, where the versions are equal; otherwise the mismatch, with how the engine's
/// version stands to the caller's and with both versions.
pub fn check_version_order(order: VersionOrder, runner_version: &str, library_version: &str) -> (r:
    Result<(), Error>)
    ensures
        order is Equal ==> r is Ok,
        !(order is Equal) ==> r is Err && (r->Err_0 matches Error::VersionMismatch(o, runner, library)
            && o == order && runner@ == runner_version@ && library@ == library_version@),
{
    match order {
        VersionOrder::Equal => Ok(()),
        _ => Err(
            Error::VersionMismatch(
                order,
                String::from_str(runner_version),
                String::from_str(library_version),
            ),
        ),
    }
}

/// Nothing, where the engine and its caller have the same version; the mismatch otherwise.
/// A mismatch ends the whole run.
pub fn check_version(runner_version: &str, library_version: &str) -> (r: Result<(), Error>)
    ensures
        version_order(runner_version@, library_version@) is Equal ==> r is Ok,
        !(version_order(runner_version@, library_version@) is Equal) ==> r is Err && (
        r->Err_0 matches Error::VersionMismatch(o, runner, library) && o == version_order(
            runner_version@,
            library_version@,
        ) && runner@ == runner_version@ && library@ == library_version@),
{
    check_version_order(
        order_of_versions(runner_version, library_version),
        runner_version,
        library_version,
    )
}

/// The kind of benchmarks that the engine is to run.
#[derive(Debug, Clone, Copy, PartialEq, Eq, Structural)]
pub enum Mode {
    /// Benchmarks of library functions.
    LibBench,
    /// Benchmarks of binaries.
    BinBench,
}

/// What the driver asks of the engine.
#[derive(Debug, PartialEq, Eq)]
pub struct Invocation {
    /// The path of the engine's own executable.
    pub runner: String,
    pub mode: Mode,
    /// The arguments that belong to the mode.
    pub arguments: Vec<String>,
}

/// `--lib-bench`
pub open spec fn lit_lib_bench() -> Seq<char> {
    seq!['-', '-', 'l', 'i', 'b', '-', 'b', 'e', 'n', 'c', 'h']
}

/// What the driver asks of the engine, by the arguments that it passes: the path of the
/// engine's executable, the version of the caller, the mode, and what belongs to the mode.
///
/// The versions are compared before the mode is read: where the caller's version is not
/// `runner_version`, the result is the `VersionMismatch` with how the engine's version stands
/// to the caller's and with both versions, whatever follows. It fails with
/// `InvalidArguments`, and the number of arguments, where the version or the mode is not
/// there. The mode is that of library benchmarks where the third argument is `--lib-bench`,
/// and that of binaries otherwise.
pub fn parse_arguments(arguments: &Vec<String>, runner_version: &str) -> (r: Result<
    Invocation,
    Error,
>)
    ensures
        arguments@.len() < 2 ==> r is Err && (r->Err_0 matches Error::InvalidArguments(n) && n
            == arguments@.len()),
        arguments@.len() >= 2 && !(version_order(runner_version@, arguments@[1]@) is Equal) ==> r is Err
            && (r->Err_0 matches Error::VersionMismatch(o, runner, library) && o == version_order(
            runner_version@,
            arguments@[1]@,
        ) && runner@ == runner_version@ && library@ == arguments@[1]@),
        arguments@.len() == 2 && version_order(runner_version@, arguments@[1]@) is Equal ==> r is Err
            && (r->Err_0 matches Error::InvalidArguments(n) && n == 2),
        arguments@.len() >= 3 && version_order(runner_version@, arguments@[1]@) is Equal ==> r is Ok
            && r->Ok_0.runner@ == arguments@[0]@ && r->Ok_0.mode == (if arguments@[2]@
            == lit_lib_bench() {
            Mode::LibBench
        } else {
            Mode::BinBench
        }) && views(r->Ok_0.arguments@) == views(arguments@).skip(3),
{
    proof {
        reveal_strlit("--lib-bench");
        assert("--lib-bench"@ =~= lit_lib_bench());
    }
    if arguments.len() < 2 {
        return Err(Error::InvalidArguments(arguments.len()));
    }
    match check_version(runner_version, arguments[1].as_str()) {
        Ok(()) => {},
        Err(e) => {
            return Err(e);
        },
    }
    if arguments.len() < 3 {
        return Err(Error::InvalidArguments(arguments.len()));
    }
    let mode = if str_eq(arguments[2].as_str(), "--lib-bench") {
        Mode::LibBench
    } else {
        Mode::BinBench
    };
    let mut rest: Vec<String> = Vec::new();
    let mut i: usize = 3;
    while i < arguments.len()
        invariant
            3 <= i <= arguments.len(),
            rest@.len() == i - 3,
            forall|j: int| 0 <= j < rest@.len() ==> (#[trigger] rest@[j])@ == arguments@[j + 3]@,
        decreases arguments.len() - i,
    {
        rest.push(arguments[i].clone());
        i += 1;
    }
    assert(views(rest@) =~= views(arguments@).skip(3));
    Ok(Invocation { runner: arguments[0].clone(), mode, arguments: rest })
}

} // verus!
