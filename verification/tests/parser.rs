use iai_callgrind_runner::costs::{Costs, EventKind};
use iai_callgrind_runner::parser::{
    parse, parse_table, CostRecord, ParseError, Parser, Sentinel, SentinelParser, SummaryParser,
};

fn lines(text: &str) -> Vec<String> {
    text.lines().map(str::to_owned).collect()
}

fn costs(pairs: &[(EventKind, u64)]) -> Costs {
    let mut costs = Costs::new();
    for (kind, value) in pairs {
        costs.insert(*kind, *value);
    }
    costs
}

const LOG: &str = "\
# callgrind format
version: 1
creator: callgrind-3.21.0
pid: 2946
cmd:  target/release/deps/bench --iai-run group 0 0 bench::fib
part: 1


desc: I1 cache: 32768 B, 64 B, 8-way associative
desc: Trigger: Program termination

positions: line
events: Ir Dr Dw
summary: 1588 330 207

ob=(1) /usr/lib/ld-linux-x86-64.so.2
fl=(1) ???
fn=(1) _start
0 10 2 1

fl=(2) benches/fib.rs
fn=(2) bench::fib.10
16 1000 200
cfn=(3) bench::helper
calls=1 20
16 50 10 5
+3 500 100 100

fn=(3) bench::helper
20 28 18 101

totals: 1588 330 207
";

#[test]
fn table_reproduces_the_counts_of_a_synthetic_log() {
    let table = parse_table(&lines(LOG)).unwrap();
    assert_eq!(table.events, vec![EventKind::Ir, EventKind::Dr, EventKind::Dw]);
    assert_eq!(
        table.total,
        Some(costs(&[(EventKind::Ir, 1588), (EventKind::Dr, 330), (EventKind::Dw, 207)]))
    );
    assert_eq!(
        table.records,
        vec![
            CostRecord {
                context: "(1) _start".to_owned(),
                costs: costs(&[(EventKind::Ir, 10), (EventKind::Dr, 2), (EventKind::Dw, 1)]),
            },
            CostRecord {
                context: "(2) bench::fib.10".to_owned(),
                // the self cost and the cost of the call; the line that starts with `+`
                // does not start with a digit and is left aside
                costs: costs(&[(EventKind::Ir, 1050), (EventKind::Dr, 210), (EventKind::Dw, 5)]),
            },
            CostRecord {
                context: "(3) bench::helper".to_owned(),
                costs: costs(&[(EventKind::Ir, 28), (EventKind::Dr, 18), (EventKind::Dw, 101)]),
            },
        ]
    );
    assert_eq!(table.total_costs(), Ok(table.total.unwrap()));
}

#[test]
fn table_holds_measured_kinds_only() {
    let table = parse_table(&lines(LOG)).unwrap();
    for record in &table.records {
        assert!(!record.costs.is_summarized());
        for kind in [
            EventKind::L1hits,
            EventKind::LLhits,
            EventKind::RamHits,
            EventKind::TotalRW,
            EventKind::EstimatedCycles,
        ] {
            assert!(!record.costs.has(kind));
        }
    }
}

#[test]
fn sentinel_bounds_the_attribution() {
    let table = parse_table(&lines(LOG)).unwrap();
    assert_eq!(
        table.costs_of(&Sentinel::new("bench::fib.10")),
        Ok(costs(&[(EventKind::Ir, 1050), (EventKind::Dr, 210), (EventKind::Dw, 5)]))
    );
    // no record of the sentinel: every event of the table is zero
    assert_eq!(
        table.costs_of(&Sentinel::new("nowhere")),
        Ok(costs(&[(EventKind::Ir, 0), (EventKind::Dr, 0), (EventKind::Dw, 0)]))
    );
    assert!(Sentinel::new("fib.10").matches("(2) bench::fib.10"));
    assert!(!Sentinel::new("fib.1").matches("(2) bench::fib.10"));
}

#[test]
fn missing_counters_mean_zero() {
    let table = parse_table(&lines(
        "# callgrind format\nevents: Ir Dr Dw\nfn=main\n1 7\n2\n3 1 1 1 99\n",
    ))
    .unwrap();
    assert_eq!(
        table.records[0].costs,
        costs(&[(EventKind::Ir, 8), (EventKind::Dr, 1), (EventKind::Dw, 1)])
    );
    assert_eq!(table.total, None);
    assert_eq!(table.total_costs(), Err(ParseError::MissingTotals));
}

#[test]
fn positions_say_how_many_columns_stand_before_the_counts() {
    let table = parse_table(&lines(
        "# callgrind format\npositions: instr line\nevents: Ir\nfn=main\n0x10 4 100\n5 200\n6\n",
    ))
    .unwrap();
    assert_eq!(table.records[0].costs, costs(&[(EventKind::Ir, 100)]));
    assert_eq!(table.records.len(), 1);
}

#[test]
fn the_first_line_of_totals_counts() {
    let table = parse_table(&lines(
        "format\nevents: Ir\ntotals: 5\nsummary: 7\nfn=a\n1 1\n\nsummary: 9\n",
    ))
    .unwrap();
    assert_eq!(table.total, Some(costs(&[(EventKind::Ir, 5)])));
}

#[test]
fn records_end_at_empty_lines() {
    let table = parse_table(&lines(
        "format\nevents: Ir\n1 1000\nfn=a\n1 1\nfn=b\n1 2\n   \n1 4\nfn=a\n  1 8\n",
    ))
    .unwrap();
    let contexts: Vec<&str> = table.records.iter().map(|r| r.context.as_str()).collect();
    assert_eq!(contexts, vec!["a", "a"]);
    assert_eq!(table.records[0].costs, costs(&[(EventKind::Ir, 3)]));
    assert_eq!(table.records[1].costs, costs(&[(EventKind::Ir, 8)]));
    assert_eq!(table.costs_of(&Sentinel::new("a")), Ok(costs(&[(EventKind::Ir, 11)])));
}

#[test]
fn malformed_files_are_refused() {
    assert_eq!(parse_table(&Vec::new()), Err(ParseError::EmptyFile));
    assert_eq!(parse_table(&lines("\n   \n\t\n")), Err(ParseError::EmptyFile));
    assert_eq!(
        parse_table(&lines("# callgrind format\nversion: 2\nevents: Ir\n")),
        Err(ParseError::VersionMismatch)
    );
    assert_eq!(
        parse_table(&lines("# callgrind format\nversion: 1\npositions: line\n")),
        Err(ParseError::MissingEvents)
    );
    assert_eq!(
        parse_table(&lines("# callgrind format\nevents: Ir Cycles\n")),
        Err(ParseError::UnknownEvent)
    );
    // a derived kind is no event of the profiler
    assert_eq!(
        parse_table(&lines("# callgrind format\nevents: Ir EstimatedCycles\n")),
        Err(ParseError::UnknownEvent)
    );
    assert_eq!(
        parse_table(&lines("# callgrind format\nevents: Ir\nfn=a\n1 12x\n")),
        Err(ParseError::InvalidCostLine)
    );
    assert_eq!(
        parse_table(&lines("# callgrind format\nevents: Ir\nfn=a\n1 18446744073709551616\n")),
        Err(ParseError::InvalidCostLine)
    );
    assert_eq!(
        parse_table(&lines(
            "# callgrind format\nevents: Ir\nfn=a\n1 18446744073709551615\n1 1\n"
        )),
        Err(ParseError::Overflow)
    );
    assert_eq!(
        parse_table(&lines("# callgrind format\nevents: Ir\nsummary: -1\n")),
        Err(ParseError::InvalidCostLine)
    );
}

#[test]
fn comments_and_other_keys_of_the_header_say_nothing() {
    let table = parse_table(&lines(
        "\n\n# callgrind format\n# version: 3\n\ncmd: a: b\n  version :  1 \nevents:Ir\nversion: 9\nfn=x\n",
    ))
    .unwrap();
    assert_eq!(table.events, vec![EventKind::Ir]);
    assert_eq!(table.records.len(), 1);
}

#[test]
fn files_of_one_run_are_merged() {
    let first = lines("format\nevents: Ir Dr\nsummary: 10 1\nfn=main\n1 10 1\n");
    let second = lines("format\nevents: Ir Dr\nfn=thread\n1 5 2\n\ntotals: 5 2\n");
    let table = parse(&vec![first.clone(), second]).unwrap();
    assert_eq!(table.total, Some(costs(&[(EventKind::Ir, 15), (EventKind::Dr, 3)])));
    let contexts: Vec<&str> = table.records.iter().map(|r| r.context.as_str()).collect();
    assert_eq!(contexts, vec!["main", "thread"]);

    assert_eq!(parse(&vec![first.clone()]), parse_table(&first));
    assert_eq!(parse(&Vec::new()), Err(ParseError::EmptyFile));
    assert_eq!(
        parse(&vec![first.clone(), lines("format\nversion: 7\n")]),
        Err(ParseError::VersionMismatch)
    );
    let huge = lines("format\nevents: Ir Dr\nsummary: 18446744073709551615 0\n");
    assert_eq!(parse(&vec![first, huge]), Err(ParseError::Overflow));
}

#[test]
fn parsers_of_the_counts_of_a_benchmark() {
    let files = vec![lines(LOG)];
    assert_eq!(
        SentinelParser { sentinel: Sentinel::new("bench::fib.10") }.parse(&files),
        Ok(costs(&[(EventKind::Ir, 1050), (EventKind::Dr, 210), (EventKind::Dw, 5)]))
    );
    assert_eq!(
        SummaryParser.parse(&files),
        Ok(costs(&[(EventKind::Ir, 1588), (EventKind::Dr, 330), (EventKind::Dw, 207)]))
    );
    let without = vec![lines("format\nevents: Ir\nfn=a\n1 1\n")];
    assert_eq!(SummaryParser.parse(&without), Err(ParseError::MissingTotals));
    assert_eq!(SummaryParser.parse(&Vec::new()), Err(ParseError::EmptyFile));
    assert_eq!(
        SentinelParser { sentinel: Sentinel::new("a") }.parse(&vec![lines("format\n")]),
        Err(ParseError::MissingEvents)
    );
}

#[test]
fn written_counts_are_read_back() {
    let events = [EventKind::Ir, EventKind::Dw, EventKind::Bc, EventKind::SysCount];
    let records: Vec<(&str, Vec<u64>)> = vec![
        ("main", vec![1, 2, 3, 4]),
        ("with space 'caller", vec![0, u64::MAX, 10, 18_000_000_000]),
        ("", vec![7]),
        ("fn=summary: 1", vec![]),
    ];
    let mut written = vec!["# callgrind format".to_owned()];
    written.push(format!(
        "events: {}",
        events.iter().map(EventKind::name).collect::<Vec<_>>().join(" ")
    ));
    for (context, counts) in &records {
        written.push(format!("fn={context}"));
        let mut line = "0".to_owned();
        for count in counts {
            line.push(' ');
            line.push_str(&count.to_string());
        }
        written.push(line);
        written.push(String::new());
    }
    let table = parse_table(&written).unwrap();
    assert_eq!(table.events, events);
    assert_eq!(table.total, None);
    assert_eq!(table.records.len(), records.len());
    for (record, (context, counts)) in table.records.iter().zip(&records) {
        assert_eq!(record.context, *context);
        for (place, kind) in events.iter().enumerate() {
            assert_eq!(
                record.costs.try_cost_by_kind(*kind),
                Ok(counts.get(place).copied().unwrap_or(0))
            );
        }
        assert!(!record.costs.has(EventKind::Dr));
    }
}

#[test]
fn errors_of_the_parser_say_what_is_wrong() {
    let errors = [
        (ParseError::EmptyFile, "Empty file"),
        (ParseError::VersionMismatch, "Version mismatch: Requires callgrind format version '1'"),
        (ParseError::UnknownEvent, "Unknown event type in the header"),
        (ParseError::MissingEvents, "Header should contain `events'"),
        (ParseError::InvalidCostLine, "Invalid count in a line of costs"),
        (ParseError::Overflow, "The counts of a call context do not fit into 64 bits"),
        (ParseError::MissingTotals, "No summary or totals line found"),
    ];
    for (error, message) in errors {
        assert_eq!(error.message(), message);
    }
}
