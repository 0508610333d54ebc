use iai_callgrind_runner::api;
use iai_callgrind_runner::common::{FileAction, ModulePath};
use iai_callgrind_runner::costs::{Costs, CostsError, EventKind};
use iai_callgrind_runner::flamegraph::{
    create_differential, differential_lines, BaselineFlamegraphGenerator, Config,
    DifferentialOptions, Direction, Flamegraph, FlamegraphError, FlamegraphGenerator,
    FlamegraphMap, FlamegraphParser, LoadBaselineFlamegraphGenerator,
    SaveBaselineFlamegraphGenerator,
};
use iai_callgrind_runner::flamegraph_path::{OutputPath, OutputPathKind};
use iai_callgrind_runner::parser::{parse_table, CostRecord, ParseError, Parser, Sentinel};
use iai_callgrind_runner::tool::ValgrindTool;
use iai_callgrind_runner::tool_path::{
    BaselineKind, BaselineName, ToolOutputPath, ToolOutputPathKind,
};

fn tool_path(kind: ToolOutputPathKind, baseline: BaselineKind) -> ToolOutputPath {
    ToolOutputPath::new(
        kind,
        ValgrindTool::Callgrind,
        &baseline,
        "/t",
        &ModulePath::new("m"),
        "fib",
    )
}

fn named(name: &str) -> BaselineKind {
    BaselineKind::Name(BaselineName::parse(name).unwrap())
}

fn names(list: &[&str]) -> Vec<String> {
    list.iter().map(|s| (*s).to_owned()).collect()
}

fn config(kind: api::FlamegraphKind, event_kinds: Vec<EventKind>) -> Config {
    Config {
        kind,
        negate_differential: false,
        normalize_differential: false,
        event_kinds,
        direction: Direction::Inverted,
        title: Some("title".to_owned()),
        subtitle: None,
        min_width: 100,
    }
}

fn stack(context: &str, ir: u64) -> CostRecord {
    let mut costs = Costs::new();
    costs.insert(EventKind::Ir, ir);
    CostRecord { context: context.to_owned(), costs }
}

fn map(stacks: Vec<CostRecord>) -> FlamegraphMap {
    FlamegraphMap { stacks }
}

#[test]
fn extension_of_every_flamegraph_role() {
    let mut path = OutputPath::new(
        &tool_path(ToolOutputPathKind::Out, BaselineKind::Old),
        EventKind::Ir,
    );
    assert_eq!(path.kind, OutputPathKind::Regular);
    let cases = vec![
        (OutputPathKind::Regular, "flamegraph.Ir.svg"),
        (OutputPathKind::Old, "flamegraph.Ir.old.svg"),
        (OutputPathKind::Base("a".to_owned()), "flamegraph.Ir.base@a.svg"),
        (OutputPathKind::DiffOld, "flamegraph.Ir.diff.old.svg"),
        (OutputPathKind::DiffBase("a".to_owned()), "flamegraph.Ir.diff.base@a.svg"),
        (
            OutputPathKind::DiffBases("a".to_owned(), "b".to_owned()),
            "flamegraph.Ir.base@a.diff.base@b.svg",
        ),
    ];
    for (kind, extension) in cases {
        path.kind = kind;
        assert_eq!(path.extension(), extension);
    }
    path.kind = OutputPathKind::Regular;
    path.set_event_kind(EventKind::EstimatedCycles);
    assert_eq!(path.file_name(), "callgrind.fib.flamegraph.EstimatedCycles.svg");
    assert_eq!(path.to_path(), "/t/m/fib/callgrind.fib.flamegraph.EstimatedCycles.svg");
    assert_eq!(path.init(), FileAction::CreateDirAll("/t/m/fib".to_owned()));
}

#[test]
fn flamegraph_projections() {
    let regular = OutputPath::new(
        &tool_path(ToolOutputPathKind::Out, BaselineKind::Old),
        EventKind::Ir,
    );
    assert_eq!(regular.to_base_path().kind, OutputPathKind::Old);
    assert_eq!(regular.to_diff_path().kind, OutputPathKind::DiffOld);
    assert_eq!(regular.to_diff_path().to_diff_path().kind, OutputPathKind::DiffOld);
    assert_eq!(regular.to_base_path().to_diff_path().kind, OutputPathKind::DiffOld);

    let against = OutputPath::new(
        &tool_path(ToolOutputPathKind::Log, named("main")),
        EventKind::Ir,
    );
    assert_eq!(against.kind, OutputPathKind::Regular);
    assert_eq!(against.to_base_path().kind, OutputPathKind::Base("main".to_owned()));
    assert_eq!(against.to_diff_path().kind, OutputPathKind::DiffBase("main".to_owned()));

    let loaded = OutputPath::new(
        &tool_path(ToolOutputPathKind::Base("feature".to_owned()), named("main")),
        EventKind::Ir,
    );
    assert_eq!(loaded.kind, OutputPathKind::Base("feature".to_owned()));
    assert_eq!(
        loaded.to_diff_path().kind,
        OutputPathKind::DiffBases("feature".to_owned(), "main".to_owned())
    );
    let old = OutputPath::new(
        &tool_path(ToolOutputPathKind::OldOut, BaselineKind::Old),
        EventKind::Ir,
    );
    assert_eq!(old.kind, OutputPathKind::Old);
}

#[test]
fn flamegraphs_are_tracked_per_event_kind() {
    let path = OutputPath::new(
        &tool_path(ToolOutputPathKind::Out, BaselineKind::Old),
        EventKind::Ir,
    );
    let entries = names(&[
        "callgrind.fib.flamegraph.Ir.svg",
        "callgrind.fib.flamegraph.Dr.svg",
        "callgrind.fib.flamegraph.Ir.old.svg",
        "callgrind.fib.flamegraph.Dw.old.svg",
        "callgrind.fib.flamegraph.Ir.diff.old.svg",
        "callgrind.fib.out",
        "callgrind.other.flamegraph.Ir.svg",
    ]);
    assert_eq!(path.matching(&entries, false), names(&["callgrind.fib.flamegraph.Ir.svg"]));
    assert_eq!(
        path.matching(&entries, true),
        names(&["callgrind.fib.flamegraph.Ir.svg", "callgrind.fib.flamegraph.Dr.svg"])
    );
    assert_eq!(
        path.real_paths(&entries, false),
        names(&["/t/m/fib/callgrind.fib.flamegraph.Ir.svg"])
    );
    assert_eq!(
        path.real_paths(&entries, true),
        names(&[
            "/t/m/fib/callgrind.fib.flamegraph.Ir.svg",
            "/t/m/fib/callgrind.fib.flamegraph.Dr.svg"
        ])
    );
    assert_eq!(path.real_paths(&entries, false), vec![path.to_path()]);
    // with every event kind: no graph of a kind that is no longer wanted stays behind
    assert_eq!(
        path.shift(&entries, true),
        vec![
            FileAction::Remove("callgrind.fib.flamegraph.Ir.old.svg".to_owned()),
            FileAction::Remove("callgrind.fib.flamegraph.Dw.old.svg".to_owned()),
            FileAction::Rename(
                "callgrind.fib.flamegraph.Ir.svg".to_owned(),
                "callgrind.fib.flamegraph.Ir.old.svg".to_owned()
            ),
            FileAction::Rename(
                "callgrind.fib.flamegraph.Dr.svg".to_owned(),
                "callgrind.fib.flamegraph.Dr.old.svg".to_owned()
            ),
        ]
    );
    assert_eq!(
        path.shift(&entries, false),
        vec![
            FileAction::Remove("callgrind.fib.flamegraph.Ir.old.svg".to_owned()),
            FileAction::Rename(
                "callgrind.fib.flamegraph.Ir.svg".to_owned(),
                "callgrind.fib.flamegraph.Ir.old.svg".to_owned()
            ),
        ]
    );
    assert_eq!(
        path.to_base_path().shift(&entries, false),
        vec![FileAction::Remove("callgrind.fib.flamegraph.Ir.old.svg".to_owned())]
    );
    assert_eq!(
        path.clear_diff(&entries),
        vec![FileAction::Remove("callgrind.fib.flamegraph.Ir.diff.old.svg".to_owned())]
    );
    assert_eq!(
        path.to_diff_path().clear(&entries, true),
        vec![FileAction::Remove("callgrind.fib.flamegraph.Ir.diff.old.svg".to_owned())]
    );
}

#[test]
fn differential_graphs_of_a_named_baseline() {
    let path = OutputPath::new(
        &tool_path(ToolOutputPathKind::Base("main".to_owned()), named("main")),
        EventKind::Ir,
    );
    let entries = names(&[
        "callgrind.fib.flamegraph.Ir.diff.base@main.svg",
        "callgrind.fib.flamegraph.Ir.base@main.diff.base@other.svg",
        "callgrind.fib.flamegraph.Ir.base@other.diff.base@main.svg",
        "callgrind.fib.flamegraph.Ir.diff.base@other.svg",
        "callgrind.fib.flamegraph.Ir.base@main.svg",
        "callgrind.fib.flamegraph.Ir.diff.old.svg",
    ]);
    assert_eq!(
        path.clear_diff(&entries),
        vec![
            FileAction::Remove("callgrind.fib.flamegraph.Ir.diff.base@main.svg".to_owned()),
            FileAction::Remove(
                "callgrind.fib.flamegraph.Ir.base@main.diff.base@other.svg".to_owned()
            ),
            FileAction::Remove(
                "callgrind.fib.flamegraph.Ir.base@other.diff.base@main.svg".to_owned()
            ),
        ]
    );
    assert_eq!(
        path.shift(&entries, true),
        vec![FileAction::Remove("callgrind.fib.flamegraph.Ir.base@main.svg".to_owned())]
    );
}

#[test]
fn settled_configuration() {
    let default = Config::from_api(api::FlamegraphConfig {
        kind: None,
        negate_differential: None,
        normalize_differential: None,
        event_kinds: None,
        direction: None,
        title: None,
        subtitle: None,
        min_width: None,
    });
    assert_eq!(default.kind, api::FlamegraphKind::All);
    assert!(!default.negate_differential);
    assert!(!default.normalize_differential);
    assert_eq!(default.event_kinds, vec![EventKind::EstimatedCycles]);
    assert_eq!(default.direction, Direction::Inverted);
    let given = Config::from_api(api::FlamegraphConfig {
        kind: Some(api::FlamegraphKind::Regular),
        negate_differential: Some(true),
        normalize_differential: Some(true),
        event_kinds: Some(vec![EventKind::Ir, EventKind::Dr]),
        direction: Some(api::Direction::BottomToTop),
        title: Some("t".to_owned()),
        subtitle: Some("s".to_owned()),
        min_width: None,
    });
    assert_eq!(given.kind, api::FlamegraphKind::Regular);
    assert!(given.negate_differential && given.normalize_differential);
    assert_eq!(given.event_kinds, vec![EventKind::Ir, EventKind::Dr]);
    assert_eq!(given.direction, Direction::Straight);
    assert_eq!(Direction::from_api(api::Direction::TopToBottom), Direction::Inverted);
    assert_eq!(given.clone(), given);
}

#[test]
fn title_and_subtitle() {
    let titles = |title: Option<&str>, subtitle: Option<&str>, heading: &str| {
        let mut c = config(api::FlamegraphKind::All, vec![EventKind::Ir]);
        c.title = title.map(str::to_owned);
        c.subtitle = subtitle.map(str::to_owned);
        let f = Flamegraph::new(heading.to_owned(), c);
        (f.config.title, f.config.subtitle)
    };
    assert_eq!(
        titles(None, None, "my::bench id:1 2"),
        (Some("my::bench".to_owned()), Some("id:1 2".to_owned()))
    );
    assert_eq!(titles(None, None, "my::bench"), (Some("my::bench".to_owned()), None));
    assert_eq!(
        titles(None, Some("sub"), "my bench"),
        (Some("my bench".to_owned()), Some("sub".to_owned()))
    );
    assert_eq!(
        titles(Some("top"), None, "my bench"),
        (Some("top".to_owned()), Some("my bench".to_owned()))
    );
    assert_eq!(
        titles(Some("top"), Some("sub"), "my bench"),
        (Some("top".to_owned()), Some("sub".to_owned()))
    );
}

#[test]
fn kinds_of_graphs_and_options() {
    let all = Flamegraph::new("h".to_owned(), config(api::FlamegraphKind::All, vec![EventKind::Ir]));
    assert!(all.is_regular() && all.is_differential());
    assert_eq!(all.differential_options(), Some(DifferentialOptions { normalize: false }));
    let options = all.options().unwrap();
    assert_eq!(options.title, "title");
    assert_eq!(options.subtitle, Some("h".to_owned()));
    assert_eq!(options.direction, Direction::Inverted);
    assert!(!options.negate_differentials);
    assert!(all.needs_base(false, true));
    assert!(!all.needs_base(true, true));
    assert!(!all.needs_base(false, false));
    assert!(!all.needs_summary());
    let untitled = Flamegraph {
        config: Config { title: None, ..config(api::FlamegraphKind::All, vec![EventKind::Ir]) },
    };
    assert_eq!(untitled.options(), None);

    let regular = Flamegraph { config: config(api::FlamegraphKind::Regular, vec![EventKind::LLhits]) };
    assert!(regular.is_regular() && !regular.is_differential());
    assert_eq!(regular.differential_options(), None);
    assert!(!regular.needs_base(false, true));
    assert!(regular.needs_summary());
    let differential =
        Flamegraph { config: config(api::FlamegraphKind::Differential, vec![EventKind::Ir]) };
    assert!(!differential.is_regular() && differential.is_differential());
    let none = Flamegraph { config: config(api::FlamegraphKind::Disabled, vec![EventKind::Ir]) };
    assert!(!none.is_regular() && !none.is_differential());
}

#[test]
fn stacks_are_folded_from_the_call_contexts() {
    let table = parse_table(
        &"format\nevents: Ir\nfn=helper'fib'main\n1 30\n\nfn=fib'main\n1 20\n\nfn=boot\n1 5\n"
            .lines()
            .map(str::to_owned)
            .collect(),
    )
    .unwrap();
    let all = FlamegraphMap::from_table(&table, None);
    assert_eq!(
        all.to_stack_format(&EventKind::Ir),
        Ok(names(&["main;fib;helper 30", "main;fib 20", "boot 5"]))
    );
    let bounded = FlamegraphMap::from_table(&table, Some(&Sentinel::new("main")));
    assert_eq!(
        bounded.to_stack_format(&EventKind::Ir),
        Ok(names(&["main;fib;helper 30", "main;fib 20"]))
    );
    assert_eq!(
        bounded.to_stack_counts(&EventKind::Ir),
        Ok(vec![("main;fib;helper".to_owned(), 30), ("main;fib".to_owned(), 20)])
    );
    assert_eq!(
        all.to_stack_format(&EventKind::Dr),
        Err(CostsError::MissingEvent(EventKind::Dr))
    );
    assert!(FlamegraphMap::from_table(&table, Some(&Sentinel::new("nowhere"))).is_empty());
    assert_eq!(map(vec![]).to_stack_format(&EventKind::Ir), Ok(vec![]));
}

#[test]
fn summary_of_every_stack() {
    let full = |ir: u64| {
        let mut costs = Costs::new();
        for (kind, value) in [
            (EventKind::Ir, ir),
            (EventKind::Dr, 0),
            (EventKind::Dw, 0),
            (EventKind::I1mr, 0),
            (EventKind::D1mr, 0),
            (EventKind::D1mw, 0),
            (EventKind::ILmr, 0),
            (EventKind::DLmr, 0),
            (EventKind::DLmw, 0),
        ] {
            costs.insert(kind, value);
        }
        costs
    };
    let mut good = map(vec![
        CostRecord { context: "a".to_owned(), costs: full(10) },
        CostRecord { context: "b".to_owned(), costs: full(20) },
    ]);
    assert_eq!(good.make_summary(), Ok(()));
    assert_eq!(
        good.to_stack_format(&EventKind::EstimatedCycles),
        Ok(names(&["a 10", "b 20"]))
    );
    let mut bad = map(vec![
        CostRecord { context: "a".to_owned(), costs: full(10) },
        stack("b", 20),
    ]);
    let before = map(vec![
        CostRecord { context: "a".to_owned(), costs: full(10) },
        stack("b", 20),
    ]);
    assert_eq!(bad.make_summary(), Err(CostsError::MissingEvent(EventKind::Dr)));
    assert_eq!(bad, before);
}

#[test]
fn differential_of_an_empty_corpus_is_an_error_with_a_message() {
    let options = DifferentialOptions { normalize: false };
    let some = vec![("main".to_owned(), 10u64)];
    let empty: Vec<(String, u64)> = Vec::new();
    assert_eq!(
        create_differential(&map(vec![]), options, EventKind::Ir, &some),
        Err(FlamegraphError::NoStacks)
    );
    assert_eq!(
        create_differential(&map(vec![stack("main", 1)]), options, EventKind::Ir, &empty),
        Err(FlamegraphError::NoStacks)
    );
    assert_eq!(
        create_differential(&map(vec![]), options, EventKind::Ir, &empty),
        Err(FlamegraphError::NoStacks)
    );
    assert_eq!(
        FlamegraphError::NoStacks.message(),
        "Unable to create a flamegraph: No stacks found"
    );
    for error in [
        FlamegraphError::NoStacks,
        FlamegraphError::Costs(CostsError::OutOfRange),
        FlamegraphError::TooManySamples,
        FlamegraphError::MissingBase,
        FlamegraphError::InvalidStack,
        FlamegraphError::Differential,
    ] {
        assert!(!error.message().is_empty());
    }
}

#[test]
fn differential_corpus_has_both_counts_of_every_stack() {
    let base = map(vec![stack("main;a", 10), stack("main;b", 5)]);
    let current = vec![("main;a".to_owned(), 12u64), ("main;c".to_owned(), 7u64)];
    let mut lines = create_differential(
        &base,
        DifferentialOptions { normalize: false },
        EventKind::Ir,
        &current,
    )
    .unwrap();
    lines.sort();
    assert_eq!(lines, names(&["main;a 10 12", "main;b 5 0", "main;c 0 7"]));
}

#[test]
fn differential_refuses_what_cannot_be_counted() {
    let options = DifferentialOptions { normalize: true };
    let base = map(vec![stack("main", 10)]);
    assert_eq!(
        create_differential(&base, options, EventKind::Dr, &vec![("main".to_owned(), 1)]),
        Err(FlamegraphError::Costs(CostsError::MissingEvent(EventKind::Dr)))
    );
    assert_eq!(
        create_differential(&base, options, EventKind::Ir, &vec![("ma\nin".to_owned(), 1)]),
        Err(FlamegraphError::InvalidStack)
    );
    assert_eq!(
        create_differential(
            &base,
            options,
            EventKind::Ir,
            &vec![("a".to_owned(), u64::MAX), ("b".to_owned(), 1)]
        ),
        Err(FlamegraphError::TooManySamples)
    );
    assert_eq!(differential_lines(None), Err(FlamegraphError::Differential));
    assert_eq!(
        differential_lines(Some("a 1 2\nb 3 4\n".to_owned())),
        Ok(names(&["a 1 2", "b 3 4"]))
    );
}

#[test]
fn graphs_of_a_run_against_the_run_before() {
    let out = tool_path(ToolOutputPathKind::Out, BaselineKind::Old);
    let generator = BaselineFlamegraphGenerator { baseline_kind: BaselineKind::Old };
    let flamegraph = Flamegraph::new(
        "m::fib".to_owned(),
        config(api::FlamegraphKind::All, vec![EventKind::Ir]),
    );
    let entries = names(&["callgrind.fib.flamegraph.Ir.svg", "callgrind.fib.out"]);
    let current = map(vec![stack("main", 1050)]);
    let base = map(vec![stack("main", 1000)]);

    let plan = generator.create(&flamegraph, &out, &entries, &current, Some(&base)).unwrap();
    assert_eq!(
        plan.actions,
        vec![
            FileAction::CreateDirAll("/t/m/fib".to_owned()),
            FileAction::Rename(
                "callgrind.fib.flamegraph.Ir.svg".to_owned(),
                "callgrind.fib.flamegraph.Ir.old.svg".to_owned()
            ),
        ]
    );
    assert_eq!(plan.outputs.len(), 1);
    let output = &plan.outputs[0];
    assert_eq!(output.count_name, "Ir");
    assert_eq!(output.regular, Some(names(&["main 1050"])));
    assert_eq!(output.differential, Some(names(&["main 1000 1050"])));
    assert_eq!(
        output.summary.regular_path,
        Some("/t/m/fib/callgrind.fib.flamegraph.Ir.svg".to_owned())
    );
    assert_eq!(
        output.summary.base_path,
        Some("/t/m/fib/callgrind.fib.flamegraph.Ir.old.svg".to_owned())
    );
    assert_eq!(
        output.summary.diff_path,
        Some("/t/m/fib/callgrind.fib.flamegraph.Ir.diff.old.svg".to_owned())
    );

    // the first run: nothing to compare against
    let first = generator.create(&flamegraph, &out, &Vec::new(), &current, None).unwrap();
    assert_eq!(first.outputs[0].differential, None);
    assert_eq!(first.outputs[0].summary.base_path, None);
    assert_eq!(first.outputs[0].summary.diff_path, None);

    // an empty baseline corpus is an error, but the files are still put in order first
    assert_eq!(
        generator.create(&flamegraph, &out, &entries, &current, Some(&map(vec![]))),
        Err(FlamegraphError::NoStacks)
    );
    // no graph wanted: the files are put in order and nothing is rendered
    let nothing = Flamegraph::new(
        "m::fib".to_owned(),
        config(api::FlamegraphKind::Disabled, vec![EventKind::Ir]),
    );
    let plan = generator.create(&nothing, &out, &entries, &map(vec![]), None).unwrap();
    assert_eq!(plan.actions.len(), 2);
    assert!(plan.outputs.is_empty());
}

#[test]
fn graphs_of_a_saved_and_of_a_loaded_baseline() {
    let out = tool_path(ToolOutputPathKind::Base("main".to_owned()), named("main"));
    let flamegraph = Flamegraph::new(
        "m::fib".to_owned(),
        config(api::FlamegraphKind::All, vec![EventKind::Ir, EventKind::Dr]),
    );
    let mut both = Costs::new();
    both.insert(EventKind::Ir, 3);
    both.insert(EventKind::Dr, 4);
    let current = map(vec![CostRecord { context: "main".to_owned(), costs: both }]);
    let entries = names(&[
        "callgrind.fib.flamegraph.Ir.base@main.svg",
        "callgrind.fib.flamegraph.Ir.diff.base@main.svg",
    ]);
    let save = SaveBaselineFlamegraphGenerator { baseline: BaselineName::parse("main").unwrap() };
    let plan = save.create(&flamegraph, &out, &entries, &current, None).unwrap();
    assert_eq!(
        plan.actions,
        vec![
            FileAction::CreateDirAll("/t/m/fib".to_owned()),
            FileAction::Remove("callgrind.fib.flamegraph.Ir.base@main.svg".to_owned()),
            FileAction::Remove("callgrind.fib.flamegraph.Ir.diff.base@main.svg".to_owned()),
        ]
    );
    assert_eq!(plan.outputs.len(), 2);
    assert_eq!(plan.outputs[1].regular, Some(names(&["main 4"])));
    assert_eq!(plan.outputs[1].differential, None);
    assert_eq!(
        plan.outputs[1].summary.regular_path,
        Some("/t/m/fib/callgrind.fib.flamegraph.Dr.base@main.svg".to_owned())
    );
    assert_eq!(
        save.create(&flamegraph, &out, &entries, &map(vec![stack("main", 1)]), None),
        Err(FlamegraphError::Costs(CostsError::MissingEvent(EventKind::Dr)))
    );

    let loaded = tool_path(ToolOutputPathKind::Base("feature".to_owned()), named("main"));
    let load = LoadBaselineFlamegraphGenerator {
        loaded_baseline: BaselineName::parse("feature").unwrap(),
        baseline: BaselineName::parse("main").unwrap(),
    };
    assert_eq!(
        load.create(&flamegraph, &loaded, &entries, &current, None),
        Err(FlamegraphError::MissingBase)
    );
    let plan = load.create(&flamegraph, &loaded, &entries, &current, Some(&current)).unwrap();
    assert!(plan.actions.is_empty());
    assert_eq!(plan.outputs[0].regular, None);
    assert_eq!(plan.outputs[0].differential, Some(names(&["main 3 3"])));
    assert_eq!(
        plan.outputs[0].summary.diff_path,
        Some("/t/m/fib/callgrind.fib.flamegraph.Ir.base@feature.diff.base@main.svg".to_owned())
    );
    assert_eq!(
        plan.outputs[0].summary.regular_path,
        Some("/t/m/fib/callgrind.fib.flamegraph.Ir.base@feature.svg".to_owned())
    );
}

#[test]
fn stacks_are_prepared_before_rendering() {
    let plain = Flamegraph { config: config(api::FlamegraphKind::All, vec![EventKind::Ir]) };
    assert_eq!(plain.prepare(map(vec![]), None), Err(FlamegraphError::NoStacks));
    let (current, base) = plain.prepare(map(vec![stack("a", 1)]), Some(map(vec![]))).unwrap();
    assert_eq!(current, map(vec![stack("a", 1)]));
    assert_eq!(base, Some(map(vec![])));
    let derived =
        Flamegraph { config: config(api::FlamegraphKind::All, vec![EventKind::EstimatedCycles]) };
    assert_eq!(
        derived.prepare(map(vec![stack("a", 1)]), None),
        Err(FlamegraphError::Costs(CostsError::MissingEvent(EventKind::Dr)))
    );
}

#[test]
fn parser_of_folded_stacks() {
    let files = vec!["format\nevents: Ir\nfn=fib'main\n1 20\n\nfn=boot\n1 5\n"
        .lines()
        .map(str::to_owned)
        .collect::<Vec<String>>()];
    assert_eq!(
        FlamegraphParser { sentinel: Some(Sentinel::new("main")) }.parse(&files),
        Ok(map(vec![stack("main;fib", 20)]))
    );
    assert_eq!(
        FlamegraphParser { sentinel: None }.parse(&files),
        Ok(map(vec![stack("main;fib", 20), stack("boot", 5)]))
    );
    assert_eq!(FlamegraphParser { sentinel: None }.parse(&Vec::new()), Err(ParseError::EmptyFile));
}

#[test]
fn files_are_put_in_order_whatever_becomes_of_the_corpora() {
    let flamegraph = Flamegraph::new(
        "m::fib".to_owned(),
        config(api::FlamegraphKind::All, vec![EventKind::Ir]),
    );
    let current = map(vec![stack("main", 1050)]);
    let entries = names(&[
        "callgrind.fib.flamegraph.Ir.svg",
        "callgrind.fib.flamegraph.Ir.diff.old.svg",
        "callgrind.fib.out",
    ]);

    let out = tool_path(ToolOutputPathKind::Out, BaselineKind::Old);
    let against = BaselineFlamegraphGenerator { baseline_kind: BaselineKind::Old };
    let actions = against.file_actions(&out, &entries);
    assert_eq!(
        actions,
        vec![
            FileAction::CreateDirAll("/t/m/fib".to_owned()),
            FileAction::Remove("callgrind.fib.flamegraph.Ir.diff.old.svg".to_owned()),
            FileAction::Rename(
                "callgrind.fib.flamegraph.Ir.svg".to_owned(),
                "callgrind.fib.flamegraph.Ir.old.svg".to_owned()
            ),
        ]
    );
    // the corpora fail, the actions are there all the same
    assert_eq!(
        against.create(&flamegraph, &out, &entries, &current, Some(&map(vec![]))),
        Err(FlamegraphError::NoStacks)
    );
    // and where they do not fail, the plan starts with the same actions
    let plan = against.create(&flamegraph, &out, &entries, &current, None).unwrap();
    assert_eq!(plan.actions, actions);

    let saved = tool_path(ToolOutputPathKind::Base("main".to_owned()), named("main"));
    let save = SaveBaselineFlamegraphGenerator { baseline: BaselineName::parse("main").unwrap() };
    let entries = names(&["callgrind.fib.flamegraph.Ir.base@main.svg", "callgrind.fib.out"]);
    assert_eq!(
        save.file_actions(&saved, &entries),
        vec![
            FileAction::CreateDirAll("/t/m/fib".to_owned()),
            FileAction::Remove("callgrind.fib.flamegraph.Ir.base@main.svg".to_owned()),
        ]
    );
    assert_eq!(
        save.create(&flamegraph, &saved, &entries, &current, None).unwrap().actions,
        save.file_actions(&saved, &entries)
    );

    let loaded = tool_path(ToolOutputPathKind::Base("feature".to_owned()), named("main"));
    let load = LoadBaselineFlamegraphGenerator {
        loaded_baseline: BaselineName::parse("feature").unwrap(),
        baseline: BaselineName::parse("main").unwrap(),
    };
    let entries = names(&[
        "callgrind.fib.flamegraph.Ir.base@feature.diff.base@main.svg",
        "callgrind.fib.flamegraph.Ir.base@feature.svg",
    ]);
    assert_eq!(
        load.file_actions(&loaded, &entries),
        vec![FileAction::Remove(
            "callgrind.fib.flamegraph.Ir.base@feature.diff.base@main.svg".to_owned()
        )]
    );
    assert_eq!(
        load.create(&flamegraph, &loaded, &entries, &current, None),
        Err(FlamegraphError::MissingBase)
    );
}

#[test]
fn differential_corpus_is_there_where_nothing_stands_in_the_way() {
    for normalize in [false, true] {
        let base = map(vec![stack("main;a", 10), stack("main;a ", 5), stack("", 0)]);
        let current = vec![("main;a".to_owned(), 12u64), ("x y".to_owned(), 7u64)];
        let lines =
            create_differential(&base, DifferentialOptions { normalize }, EventKind::Ir, &current)
                .unwrap();
        assert!(!lines.is_empty());
        assert!(lines.len() <= 5);
        for line in &lines {
            assert!(!line.contains('\n'));
            let mut words = line.rsplitn(3, ' ');
            let second = words.next().unwrap();
            let first = words.next().unwrap();
            assert!(words.next().is_some());
            assert_eq!(second.parse::<u64>().unwrap().to_string(), second);
            assert_eq!(first.parse::<u64>().unwrap().to_string(), first);
        }
    }
    let all = Flamegraph::new(
        "m::fib".to_owned(),
        config(api::FlamegraphKind::All, vec![EventKind::Ir, EventKind::Ir]),
    );
    let out = tool_path(ToolOutputPathKind::Out, BaselineKind::Old);
    let plan = BaselineFlamegraphGenerator { baseline_kind: BaselineKind::Old }
        .create(
            &all,
            &out,
            &Vec::new(),
            &map(vec![stack("main", 2)]),
            Some(&map(vec![stack("main", 1)])),
        )
        .unwrap();
    assert_eq!(plan.outputs.len(), 2);
    for output in &plan.outputs {
        assert_eq!(output.differential, Some(names(&["main 1 2"])));
    }
}

#[test]
fn least_width_of_a_frame() {
    let mut description = api::FlamegraphConfig {
        kind: None,
        negate_differential: None,
        normalize_differential: None,
        event_kinds: None,
        direction: None,
        title: None,
        subtitle: None,
        min_width: None,
    };
    assert_eq!(Config::from_api(description.clone()).min_width, 100);
    description.min_width = Some(2500);
    let config = Config::from_api(description);
    assert_eq!(config.min_width, 2500);
    let flamegraph = Flamegraph::new("m::fib".to_owned(), config);
    assert_eq!(flamegraph.options().unwrap().min_width, 2500);
}

#[test]
fn nothing_is_read_where_nothing_is_rendered() {
    let graphs = |kind: api::FlamegraphKind, kinds: Vec<EventKind>| {
        Flamegraph::new("m::fib".to_owned(), config(kind, kinds))
    };
    let against = BaselineFlamegraphGenerator { baseline_kind: BaselineKind::Old };
    let save = SaveBaselineFlamegraphGenerator { baseline: BaselineName::parse("main").unwrap() };
    let load = LoadBaselineFlamegraphGenerator {
        loaded_baseline: BaselineName::parse("feature").unwrap(),
        baseline: BaselineName::parse("main").unwrap(),
    };
    let all = graphs(api::FlamegraphKind::All, vec![EventKind::Ir]);
    assert!(against.is_rendering(&all) && save.is_rendering(&all) && load.is_rendering(&all));
    let regular = graphs(api::FlamegraphKind::Regular, vec![EventKind::Ir]);
    assert!(against.is_rendering(&regular) && save.is_rendering(&regular));
    assert!(!load.is_rendering(&regular));
    let differential = graphs(api::FlamegraphKind::Differential, vec![EventKind::Ir]);
    assert!(against.is_rendering(&differential) && load.is_rendering(&differential));
    assert!(!save.is_rendering(&differential));
    for nothing in [
        graphs(api::FlamegraphKind::Disabled, vec![EventKind::Ir]),
        graphs(api::FlamegraphKind::All, vec![]),
    ] {
        assert!(!against.is_rendering(&nothing));
        assert!(!save.is_rendering(&nothing));
        assert!(!load.is_rendering(&nothing));
    }
    assert_eq!(map(vec![]).check_stacks(), Err(FlamegraphError::NoStacks));
    assert_eq!(map(vec![stack("main", 1)]).check_stacks(), Ok(()));
}

#[test]
fn summary_fails_with_the_error_of_the_first_stack_that_fails() {
    let with = |kinds: &[EventKind]| {
        let mut costs = Costs::new();
        for kind in kinds {
            costs.insert(*kind, 1);
        }
        CostRecord { context: "s".to_owned(), costs }
    };
    let mut stacks = map(vec![
        with(&[EventKind::Ir, EventKind::Dr]),
        with(&[EventKind::Ir]),
        with(&[]),
    ]);
    assert_eq!(stacks.make_summary(), Err(CostsError::MissingEvent(EventKind::Dw)));

    let derived = Flamegraph::new(
        "m::fib".to_owned(),
        config(api::FlamegraphKind::All, vec![EventKind::EstimatedCycles]),
    );
    assert_eq!(
        derived.prepare(map(vec![with(&[EventKind::Ir]), with(&[])]), None),
        Err(FlamegraphError::Costs(CostsError::MissingEvent(EventKind::Dr)))
    );
    let all = [
        EventKind::Ir,
        EventKind::Dr,
        EventKind::Dw,
        EventKind::I1mr,
        EventKind::D1mr,
        EventKind::D1mw,
        EventKind::ILmr,
        EventKind::DLmr,
        EventKind::DLmw,
    ];
    assert_eq!(
        derived.prepare(map(vec![with(&all)]), Some(map(vec![with(&all), with(&all[..8])]))),
        Err(FlamegraphError::Costs(CostsError::MissingEvent(EventKind::DLmw)))
    );
}

#[test]
fn differential_corpus_adds_up_the_counts_of_each_stack() {
    let base = map(vec![stack("main;a ", 1), stack("main;a", 2), stack("main;b\t", 4)]);
    let current =
        vec![("main;a\u{a0}".to_owned(), 3u64), ("main;a".to_owned(), 5u64), (" ".to_owned(), 6u64)];
    let mut lines = create_differential(
        &base,
        DifferentialOptions { normalize: false },
        EventKind::Ir,
        &current,
    )
    .unwrap();
    lines.sort();
    assert_eq!(lines, names(&[" 0 6", "main;a 3 8", "main;b 4 0"]));

    // normalized: the counts of the run stay, and those of the baseline where the sums agree
    let base = map(vec![stack("a", 3), stack("b", 4)]);
    let same = vec![("a".to_owned(), 5u64), ("c".to_owned(), 2u64)];
    let mut lines =
        create_differential(&base, DifferentialOptions { normalize: true }, EventKind::Ir, &same)
            .unwrap();
    lines.sort();
    assert_eq!(lines, names(&["a 3 5", "b 4 0", "c 0 2"]));
    let more = vec![("a".to_owned(), 10u64), ("c".to_owned(), 4u64)];
    let mut lines =
        create_differential(&base, DifferentialOptions { normalize: true }, EventKind::Ir, &more)
            .unwrap();
    lines.sort();
    assert_eq!(lines.len(), 3);
    assert!(lines[0].starts_with("a ") && lines[0].ends_with(" 10"));
    assert!(lines[1].starts_with("b ") && lines[1].ends_with(" 0"));
    assert!(lines[2].starts_with("c ") && lines[2].ends_with(" 4"));
}

#[test]
fn graphs_against_a_named_baseline_clear_the_named_slot() {
    let path = OutputPath::new(&tool_path(ToolOutputPathKind::Out, named("main")), EventKind::Ir);
    let entries = names(&[
        "callgrind.fib.flamegraph.Ir.svg",
        "callgrind.fib.flamegraph.Dr.svg",
        "callgrind.fib.flamegraph.Ir.base@main.svg",
        "callgrind.fib.flamegraph.Dw.base@main.svg",
        "callgrind.fib.flamegraph.Ir.base@other.svg",
        "callgrind.fib.flamegraph.Ir.old.svg",
        "callgrind.fib.flamegraph.Ir.diff.base@main.svg",
    ]);
    let actions = path.shift(&entries, true);
    assert_eq!(
        actions,
        vec![
            FileAction::Remove("callgrind.fib.flamegraph.Ir.base@main.svg".to_owned()),
            FileAction::Remove("callgrind.fib.flamegraph.Dw.base@main.svg".to_owned()),
            FileAction::Remove("callgrind.fib.flamegraph.Ir.svg".to_owned()),
            FileAction::Remove("callgrind.fib.flamegraph.Dr.svg".to_owned()),
        ]
    );
    assert!(!actions.iter().any(|a| matches!(a, FileAction::Rename(..))));
    assert_eq!(
        path.shift(&entries, false),
        vec![
            FileAction::Remove("callgrind.fib.flamegraph.Ir.base@main.svg".to_owned()),
            FileAction::Remove("callgrind.fib.flamegraph.Ir.svg".to_owned()),
        ]
    );
}
