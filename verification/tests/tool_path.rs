use iai_callgrind_runner::common::{FileAction, ModulePath};
use iai_callgrind_runner::tool::ValgrindTool;
use iai_callgrind_runner::tool_path::{
    BaselineKind, BaselineName, ToolOutputPath, ToolOutputPathKind,
};

fn out_path(name: &str) -> ToolOutputPath {
    ToolOutputPath::new(
        ToolOutputPathKind::Out,
        ValgrindTool::Callgrind,
        &BaselineKind::Old,
        "/target/iai",
        &ModulePath::new("my_crate::my_group"),
        name,
    )
}

fn named_path(kind: ToolOutputPathKind, baseline: &str) -> ToolOutputPath {
    ToolOutputPath::new(
        kind,
        ValgrindTool::Callgrind,
        &BaselineKind::Name(BaselineName::parse(baseline).unwrap()),
        "/target/iai",
        &ModulePath::new("my_crate::my_group"),
        "fib.10",
    )
}

fn strings(names: &[&str]) -> Vec<String> {
    names.iter().map(|s| (*s).to_owned()).collect()
}

/// Shifts the files of `path` in the directory.
fn shift_dir(path: &ToolOutputPath, dir: &mut Vec<String>) {
    let actions = path.shift(dir);
    perform(dir, &actions);
}

/// Performs the actions on the names of the files of a directory.
fn perform(dir: &mut Vec<String>, actions: &[FileAction]) {
    for action in actions {
        match action {
            FileAction::CreateDirAll(_) => {}
            FileAction::Remove(name) => {
                let at = dir.iter().position(|f| f == name).expect("the file is there");
                dir.remove(at);
            }
            FileAction::Rename(from, to) => {
                let at = dir.iter().position(|f| f == from).expect("the file is there");
                dir.remove(at);
                dir.retain(|f| f != to);
                dir.push(to.clone());
            }
        }
    }
}

#[test]
fn path_of_a_fresh_benchmark() {
    let path = out_path("fib.10");
    assert_eq!(path.dir, "/target/iai/my_crate/my_group/fib.10");
    assert_eq!(path.name, "fib.10");
    assert_eq!(path.extension(), "out");
    assert_eq!(path.file_name(), "callgrind.fib.10.out");
    assert_eq!(
        path.to_path(),
        "/target/iai/my_crate/my_group/fib.10/callgrind.fib.10.out"
    );
    assert_eq!(path.to_string(), path.to_path());
    assert!(path.modifiers.is_empty());
}

#[test]
fn name_is_sanitized() {
    assert_eq!(out_path("a/b:c").name, "a_b_c");
    assert_eq!(out_path("q?<>\\*|\"").name, "q_______");
    assert_eq!(out_path("tab\there").name, "tab_here");
    assert_eq!(out_path("\u{85}x").name, "_x");
    assert_eq!(out_path("..").name, "_");
    assert_eq!(out_path(".").name, "_");
    assert_eq!(out_path("a..b").name, "a..b");
    assert_eq!(out_path("résumé").name, "résumé");
}

#[test]
fn name_is_cut_to_200_bytes_between_characters() {
    let long = "a".repeat(250);
    assert_eq!(out_path(&long).name, "a".repeat(200));
    // 'é' takes two bytes: 199 bytes of 'a' and one 'é' are 201 bytes.
    let mut odd = "a".repeat(199);
    odd.push('é');
    odd.push_str("tail");
    assert_eq!(out_path(&odd).name, "a".repeat(199));
    let exact = "é".repeat(100);
    assert_eq!(out_path(&exact).name, exact);
}

#[test]
fn with_init_gives_the_path_and_the_directory_to_create() {
    let (path, action) = ToolOutputPath::with_init(
        ToolOutputPathKind::Out,
        ValgrindTool::DHAT,
        &BaselineKind::Old,
        "/target/iai",
        "my_crate::group",
        "bench",
    );
    assert_eq!(path.dir, "/target/iai/my_crate/group/bench");
    assert_eq!(path.tool, ValgrindTool::DHAT);
    assert_eq!(action, FileAction::CreateDirAll("/target/iai/my_crate/group/bench".to_owned()));
    assert_eq!(path.init(), action);
}

#[test]
fn extension_of_every_role() {
    let mut path = out_path("fib.10");
    let mods = strings(&["123", "t1"]);
    let cases: Vec<(ToolOutputPathKind, &str, &str)> = vec![
        (ToolOutputPathKind::Out, "out", "out.123.t1"),
        (ToolOutputPathKind::Log, "log", "log.123.t1"),
        (ToolOutputPathKind::OldOut, "out.old", "out.123.t1.old"),
        (ToolOutputPathKind::OldLog, "log.old", "log.123.t1.old"),
        (ToolOutputPathKind::BaseLog("main".to_owned()), "log.base@main", "log.123.t1.base@main"),
        (ToolOutputPathKind::Base("main".to_owned()), "out.base@main", "out.123.t1.base@main"),
    ];
    for (kind, plain, modified) in cases {
        path.kind = kind;
        assert_eq!(path.extension(), plain);
        assert_eq!(path.with_modifiers(mods.clone()).extension(), modified);
    }
}

#[test]
fn projections_to_sibling_identities() {
    let out = out_path("fib.10");
    assert_eq!(out.to_base_path().kind, ToolOutputPathKind::OldOut);
    assert_eq!(out.to_log_output().kind, ToolOutputPathKind::Log);
    assert_eq!(out.to_log_output().to_base_path().kind, ToolOutputPathKind::OldLog);
    assert_eq!(out.to_base_path().to_log_output().kind, ToolOutputPathKind::Log);
    assert_eq!(out.to_base_path().to_base_path().kind, ToolOutputPathKind::OldOut);

    let named = named_path(ToolOutputPathKind::Out, "main");
    assert_eq!(named.to_base_path().kind, ToolOutputPathKind::Base("main".to_owned()));
    assert_eq!(
        named.to_log_output().to_base_path().kind,
        ToolOutputPathKind::BaseLog("main".to_owned())
    );
    let loaded = named_path(ToolOutputPathKind::Base("feature".to_owned()), "main");
    assert_eq!(loaded.to_base_path().kind, ToolOutputPathKind::Base("main".to_owned()));
    assert_eq!(loaded.to_log_output().kind, ToolOutputPathKind::BaseLog("feature".to_owned()));

    let dhat = out.to_tool_output(ValgrindTool::DHAT);
    assert_eq!(dhat.tool, ValgrindTool::DHAT);
    assert_eq!(dhat.kind, out.kind);
    assert_eq!(dhat.dir, out.dir);
    assert_eq!(dhat.file_name(), "dhat.fib.10.out");
}

#[test]
fn matching_goes_by_prefix_and_suffix() {
    let out = out_path("fib.10");
    assert!(out.matches("callgrind.fib.10.out"));
    assert!(out.matches("callgrind.fib.10.out.1234"));
    assert!(!out.matches("callgrind.fib.10.out.old"));
    assert!(!out.matches("callgrind.fib.10.out.base@main"));
    assert!(!out.matches("callgrind.fib.10.out.1234.base@main"));
    assert!(!out.matches("callgrind.fib.10.log"));
    assert!(!out.matches("callgrind.fib.11.out"));
    assert!(!out.matches("dhat.fib.10.out"));
    assert!(!out.matches("callgrind.fib.10."));
    assert!(!out.matches("callgrind.fib.10"));
    let old = out.to_base_path();
    assert!(old.matches("callgrind.fib.10.out.old"));
    assert!(old.matches("callgrind.fib.10.out.1234.old"));
    assert!(!old.matches("callgrind.fib.10.out"));
    assert!(!old.matches("callgrind.fib.10.log.old"));
    let base = named_path(ToolOutputPathKind::Base("main".to_owned()), "main");
    assert!(base.matches("callgrind.fib.10.out.base@main"));
    assert!(!base.matches("callgrind.fib.10.out.base@other"));
    assert!(!base.matches("callgrind.fib.10.log.base@main"));
    let log = named_path(ToolOutputPathKind::BaseLog("main".to_owned()), "main");
    assert!(log.matches("callgrind.fib.10.log.base@main"));
}

#[test]
fn real_paths_rescans_the_listing() {
    let out = out_path("fib.10");
    let entries = strings(&[
        "callgrind.fib.10.out",
        "callgrind.fib.10.out.old",
        "callgrind.fib.10.log",
        "dhat.fib.10.out",
        "callgrind.fib.10.out.77",
        "summary.json",
    ]);
    assert_eq!(
        out.real_paths(&entries),
        strings(&[
            "/target/iai/my_crate/my_group/fib.10/callgrind.fib.10.out",
            "/target/iai/my_crate/my_group/fib.10/callgrind.fib.10.out.77",
        ])
    );
    assert!(out.is_present(&entries));
    assert!(out.is_multiple(&entries));
    assert!(out.to_base_path().is_present(&entries));
    assert!(!out.to_base_path().is_multiple(&entries));
    assert!(!out.to_tool_output(ValgrindTool::Massif).is_present(&entries));
    assert!(!out.is_present(&Vec::new()));
}

#[test]
fn shift_against_the_run_before_rotates() {
    let out = out_path("fib.10");
    let entries = strings(&[
        "callgrind.fib.10.out.old",
        "callgrind.fib.10.out",
        "callgrind.fib.10.log",
        "dhat.fib.10.out",
    ]);
    assert_eq!(
        out.shift(&entries),
        vec![
            FileAction::Remove("callgrind.fib.10.out.old".to_owned()),
            FileAction::Rename(
                "callgrind.fib.10.out".to_owned(),
                "callgrind.fib.10.out.old".to_owned()
            ),
        ]
    );
    assert_eq!(
        out.clear(&entries),
        vec![FileAction::Remove("callgrind.fib.10.out".to_owned())]
    );
    assert!(out.shift(&Vec::new()).is_empty());
    // what is removed is not moved as well
    assert_eq!(
        out.to_base_path().shift(&entries),
        vec![FileAction::Remove("callgrind.fib.10.out.old".to_owned())]
    );
}

#[test]
fn shift_against_a_named_baseline_clears_the_slot() {
    let path = named_path(ToolOutputPathKind::Base("main".to_owned()), "main");
    let entries = strings(&[
        "callgrind.fib.10.out.base@main",
        "callgrind.fib.10.out.base@other",
        "callgrind.fib.10.out",
    ]);
    assert_eq!(
        path.shift(&entries),
        vec![FileAction::Remove("callgrind.fib.10.out.base@main".to_owned())]
    );
}

#[test]
fn shift_of_a_current_file_against_a_named_baseline_clears_the_slot() {
    let out = named_path(ToolOutputPathKind::Out, "main");
    let entries = strings(&[
        "callgrind.fib.10.out",
        "callgrind.fib.10.out.base@main",
        "callgrind.fib.10.out.base@other",
        "callgrind.fib.10.out.old",
        "callgrind.fib.10.log.base@main",
        "dhat.fib.10.out.base@main",
    ]);
    let actions = out.shift(&entries);
    assert_eq!(
        actions,
        vec![
            FileAction::Remove("callgrind.fib.10.out.base@main".to_owned()),
            FileAction::Remove("callgrind.fib.10.out".to_owned()),
        ]
    );
    // nothing is moved to the old role
    assert!(!actions.iter().any(|a| matches!(a, FileAction::Rename(..))));
    let mut dir = entries.clone();
    shift_dir(&out, &mut dir);
    assert!(!out.to_base_path().is_present(&dir));
    assert!(!out.is_present(&dir));
    assert_eq!(
        dir,
        strings(&[
            "callgrind.fib.10.out.base@other",
            "callgrind.fib.10.out.old",
            "callgrind.fib.10.log.base@main",
            "dhat.fib.10.out.base@main",
        ])
    );
    // the log has a slot of its own
    assert_eq!(
        out.to_log_output().shift(&entries),
        vec![FileAction::Remove("callgrind.fib.10.log.base@main".to_owned())]
    );
}

#[test]
fn two_runs_leave_one_current_and_one_old_file() {
    let out = out_path("fib.10");
    let mut dir: Vec<String> = Vec::new();

    // first run
    shift_dir(&out, &mut dir);
    dir.push(out.file_name());
    assert_eq!(dir, strings(&["callgrind.fib.10.out"]));
    assert_eq!(out.real_paths(&dir).len(), 1);
    assert!(!out.to_base_path().is_present(&dir));

    // second run
    shift_dir(&out, &mut dir);
    dir.push(out.file_name());
    dir.sort();
    assert_eq!(dir, strings(&["callgrind.fib.10.out", "callgrind.fib.10.out.old"]));

    // and any number of further runs
    for _ in 0..5 {
        shift_dir(&out, &mut dir);
        assert!(!out.is_present(&dir));
        assert_eq!(out.to_base_path().real_paths(&dir).len(), 1);
        dir.push(out.file_name());
        assert_eq!(out.real_paths(&dir).len(), 1);
        assert_eq!(out.to_base_path().real_paths(&dir).len(), 1);
    }
    // a shift without a run in between leaves neither role behind
    shift_dir(&out, &mut dir);
    shift_dir(&out, &mut dir);
    assert!(dir.is_empty());
}

#[test]
fn tools_are_told_apart_by_the_prefix_of_the_file_name() {
    let primary = out_path("fib.10");
    let secondary = primary.to_tool_output(ValgrindTool::DHAT);
    assert_eq!(primary.dir, secondary.dir);
    let mut dir = strings(&[
        "callgrind.fib.10.out",
        "callgrind.fib.10.log",
        "dhat.fib.10.out",
        "dhat.fib.10.log",
    ]);
    let listing = dir.clone();
    perform(&mut dir, &primary.clear(&listing));
    perform(&mut dir, &primary.to_log_output().clear(&listing));
    assert_eq!(dir, strings(&["dhat.fib.10.out", "dhat.fib.10.log"]));
    assert!(secondary.is_present(&dir));
    assert!(secondary.to_log_output().is_present(&dir));

    for tool in [
        ValgrindTool::Memcheck,
        ValgrindTool::Helgrind,
        ValgrindTool::DRD,
        ValgrindTool::Massif,
        ValgrindTool::DHAT,
        ValgrindTool::BBV,
    ] {
        let other = primary.to_tool_output(tool);
        assert!(!primary.matches(&other.file_name()));
        assert!(!other.matches(&primary.file_name()));
        assert!(other.matches(&other.file_name()));
    }
}

#[test]
fn tool_ids() {
    let ids = [
        (ValgrindTool::Callgrind, "callgrind", true),
        (ValgrindTool::Memcheck, "memcheck", false),
        (ValgrindTool::Helgrind, "helgrind", false),
        (ValgrindTool::DRD, "drd", false),
        (ValgrindTool::Massif, "massif", true),
        (ValgrindTool::DHAT, "dhat", true),
        (ValgrindTool::BBV, "exp-bbv", true),
    ];
    for (tool, id, has_output) in ids {
        assert_eq!(tool.id(), id);
        assert_eq!(tool.has_output_file(), has_output);
        assert_eq!(ValgrindTool::from_id(id), Some(tool));
        assert_eq!(tool.is_primary(), tool == ValgrindTool::Callgrind);
    }
    assert_eq!(ValgrindTool::from_id("cachegrind"), None);
    assert_eq!(ValgrindTool::from_id(""), None);
}

#[test]
fn module_paths() {
    let module = ModulePath::new("my_crate");
    assert_eq!(module.join("group").to_string(), "my_crate::group");
    assert_eq!(module.join("group").join("bench").to_dir(), "my_crate/group/bench");
    assert_eq!(ModulePath::new("a:b::c").to_dir(), "a:b/c");
    assert_eq!(ModulePath::new("").to_dir(), "");
}
