use iai_callgrind_runner::error::{Error, VersionOrder};
use iai_callgrind_runner::invocation::{
    check_version, check_version_order, parse_arguments, Invocation, Mode,
};

fn args(items: &[&str]) -> Vec<String> {
    items.iter().map(|s| (*s).to_owned()).collect()
}

#[test]
fn same_version_is_required() {
    assert_eq!(check_version("0.10.2", "0.10.2"), Ok(()));
    assert_eq!(check_version("1.0", "1.0.0"), Ok(()));
    assert_eq!(
        check_version("0.9.0", "0.10.0"),
        Err(Error::VersionMismatch(
            VersionOrder::Less,
            "0.9.0".to_owned(),
            "0.10.0".to_owned()
        ))
    );
    assert_eq!(
        check_version("0.10.1", "0.10.0"),
        Err(Error::VersionMismatch(
            VersionOrder::Greater,
            "0.10.1".to_owned(),
            "0.10.0".to_owned()
        ))
    );
    assert_eq!(
        check_version("0.10.1", "snapshot"),
        Err(Error::VersionMismatch(
            VersionOrder::Unreadable,
            "0.10.1".to_owned(),
            "snapshot".to_owned()
        ))
    );
    assert_eq!(
        check_version("0.10.1", ""),
        Err(Error::VersionMismatch(VersionOrder::Greater, "0.10.1".to_owned(), String::new()))
    );
}

#[test]
fn verdict_on_an_order_of_versions() {
    assert_eq!(check_version_order(VersionOrder::Equal, "a", "b"), Ok(()));
    for order in [VersionOrder::Less, VersionOrder::Greater, VersionOrder::Unreadable] {
        assert_eq!(
            check_version_order(order, "a", "b"),
            Err(Error::VersionMismatch(order, "a".to_owned(), "b".to_owned()))
        );
    }
}

#[test]
fn arguments_of_the_driver() {
    assert_eq!(
        parse_arguments(
            &args(&["/bin/runner", "0.10.0", "--lib-bench", "pkg", "bench.rs", "mod"]),
            "0.10.0"
        ),
        Ok(Invocation {
            runner: "/bin/runner".to_owned(),
            mode: Mode::LibBench,
            arguments: args(&["pkg", "bench.rs", "mod"]),
        })
    );
    assert_eq!(
        parse_arguments(&args(&["/bin/runner", "0.10.0", "--bin-bench"]), "0.10.0"),
        Ok(Invocation { runner: "/bin/runner".to_owned(), mode: Mode::BinBench, arguments: vec![] })
    );
    assert_eq!(
        parse_arguments(&args(&["r", "0.10.0", "anything"]), "0.10.0").unwrap().mode,
        Mode::BinBench
    );
}

#[test]
fn bad_calls_end_the_run() {
    for passed in [args(&[]), args(&["r"]), args(&["r", "0.10.0"])] {
        let error = parse_arguments(&passed, "0.10.0").unwrap_err();
        assert_eq!(error, Error::InvalidArguments(passed.len()));
        assert!(error.is_fatal());
    }
    let error = parse_arguments(&args(&["r", "0.9.0", "--lib-bench"]), "0.10.0").unwrap_err();
    assert_eq!(
        error,
        Error::VersionMismatch(VersionOrder::Greater, "0.10.0".to_owned(), "0.9.0".to_owned())
    );
    assert!(error.is_fatal());
}

#[test]
fn versions_are_compared_before_the_mode_is_read() {
    assert_eq!(
        parse_arguments(&args(&["r", "0.9.0"]), "0.10.0"),
        Err(Error::VersionMismatch(VersionOrder::Greater, "0.10.0".to_owned(), "0.9.0".to_owned()))
    );
    assert_eq!(
        parse_arguments(&args(&["r", "0.11.0", "--bin-bench", "x"]), "0.10.0"),
        Err(Error::VersionMismatch(VersionOrder::Less, "0.10.0".to_owned(), "0.11.0".to_owned()))
    );
    assert_eq!(
        parse_arguments(&args(&["r", "snapshot", "--lib-bench"]), "0.10.0"),
        Err(Error::VersionMismatch(
            VersionOrder::Unreadable,
            "0.10.0".to_owned(),
            "snapshot".to_owned()
        ))
    );
}
