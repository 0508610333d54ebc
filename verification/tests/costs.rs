use iai_callgrind_runner::costs::{Costs, CostsError, EventKind, EVENT_KINDS};

fn cache_costs(values: [u64; 9]) -> Costs {
    let kinds = [
        EventKind::Ir,
        EventKind::Dr,
        EventKind::Dw,
        EventKind::I1mr,
        EventKind::D1mr,
        EventKind::D1mw,
        EventKind::ILmr,
        EventKind::DLmr,
        EventKind::DLmw,
    ];
    let mut costs = Costs::new();
    for (kind, value) in kinds.iter().zip(values) {
        costs.insert(*kind, value);
    }
    costs
}

#[test]
fn event_kinds_have_names_and_places() {
    for index in 0..EVENT_KINDS {
        let kind = EventKind::from_index(index);
        assert_eq!(kind.index(), index);
        assert_eq!(EventKind::from_name(&kind.name()), Some(kind));
        assert_eq!(kind.to_string(), kind.name());
    }
    assert_eq!(EventKind::Ir.name(), "Ir");
    assert_eq!(EventKind::EstimatedCycles.name(), "EstimatedCycles");
    assert_eq!(EventKind::SysCount.name(), "sysCount");
    assert_eq!(EventKind::from_name("Instructions"), None);
    assert_eq!(EventKind::from_name("ir"), None);
    let derived: Vec<EventKind> = (0..EVENT_KINDS)
        .map(EventKind::from_index)
        .filter(EventKind::is_derived)
        .collect();
    assert_eq!(
        derived,
        vec![
            EventKind::L1hits,
            EventKind::LLhits,
            EventKind::RamHits,
            EventKind::TotalRW,
            EventKind::EstimatedCycles
        ]
    );
}

#[test]
fn derived_kinds_are_absent_until_derived() {
    let costs = cache_costs([1000, 300, 200, 10, 20, 5, 1, 2, 3]);
    assert!(!costs.is_summarized());
    assert!(!costs.has(EventKind::EstimatedCycles));
    assert_eq!(
        costs.try_cost_by_kind(EventKind::L1hits),
        Err(CostsError::MissingEvent(EventKind::L1hits))
    );
    assert_eq!(costs.try_cost_by_kind(EventKind::Ir), Ok(1000));
    assert_eq!(costs.cost_by_kind(EventKind::Dw), 200);
}

#[test]
fn derivation_follows_the_formulas() {
    let mut costs = cache_costs([1000, 300, 200, 10, 20, 5, 1, 2, 3]);
    assert_eq!(costs.make_summary(), Ok(()));
    assert!(costs.is_summarized());
    assert_eq!(costs.cost_by_kind(EventKind::RamHits), 6);
    assert_eq!(costs.cost_by_kind(EventKind::LLhits), 29);
    assert_eq!(costs.cost_by_kind(EventKind::TotalRW), 1500);
    assert_eq!(costs.cost_by_kind(EventKind::L1hits), 1465);
    assert_eq!(costs.cost_by_kind(EventKind::EstimatedCycles), 1820);
    assert_eq!(costs.cost_by_kind(EventKind::Ir), 1000);
}

#[test]
fn deriving_twice_changes_nothing() {
    let mut once = cache_costs([1000, 300, 200, 10, 20, 5, 1, 2, 3]);
    once.make_summary().unwrap();
    let mut twice = once;
    twice.make_summary().unwrap();
    assert_eq!(once, twice);
}

#[test]
fn derivation_needs_all_nine_cache_events() {
    let mut costs = Costs::with_event_kinds(&vec![EventKind::Ir, EventKind::Dr]);
    let before = costs;
    assert_eq!(costs.make_summary(), Err(CostsError::MissingEvent(EventKind::Dw)));
    assert_eq!(costs, before);
    let mut empty = Costs::new();
    assert!(empty.is_empty());
    assert_eq!(empty.make_summary(), Err(CostsError::MissingEvent(EventKind::Ir)));
}

#[test]
fn derivation_refuses_values_out_of_range() {
    // more misses of the last level than of the first: the last-level hits would be negative
    let mut costs = cache_costs([1000, 300, 200, 1, 1, 1, 5, 5, 5]);
    let before = costs;
    assert_eq!(costs.make_summary(), Err(CostsError::OutOfRange));
    assert_eq!(costs, before);
    let mut huge = cache_costs([u64::MAX, u64::MAX, 0, 0, 0, 0, 0, 0, 0]);
    assert_eq!(huge.make_summary(), Err(CostsError::OutOfRange));
}

#[test]
fn adding_tables_adds_kind_by_kind() {
    let mut a = Costs::with_event_kinds(&vec![EventKind::Ir, EventKind::Dr]);
    a.insert(EventKind::Ir, 10);
    let mut b = Costs::new();
    b.insert(EventKind::Ir, 5);
    b.insert(EventKind::Dw, 7);
    assert_eq!(a.add(&b), Ok(()));
    assert_eq!(a.try_cost_by_kind(EventKind::Ir), Ok(15));
    assert_eq!(a.try_cost_by_kind(EventKind::Dr), Ok(0));
    assert_eq!(a.try_cost_by_kind(EventKind::Dw), Ok(7));
    assert!(!a.has(EventKind::Ge));

    let mut big = Costs::new();
    big.insert(EventKind::Ir, u64::MAX);
    let before = big;
    assert_eq!(big.add(&b), Err(CostsError::OutOfRange));
    assert_eq!(big, before);
}

#[test]
fn errors_of_counts_name_the_event() {
    assert_eq!(
        CostsError::MissingEvent(EventKind::EstimatedCycles).message(),
        "Missing event type: EstimatedCycles"
    );
    assert_eq!(CostsError::OutOfRange.message(), "A count is out of range");
}

#[test]
fn tables_with_zero_counts() {
    let costs = Costs::with_event_kinds(&vec![EventKind::Ir, EventKind::Ir, EventKind::Bim]);
    assert!(!costs.is_empty());
    assert_eq!(costs.try_cost_by_kind(EventKind::Ir), Ok(0));
    assert_eq!(costs.try_cost_by_kind(EventKind::Bim), Ok(0));
    assert!(!costs.has(EventKind::Dr));
    assert!(Costs::with_event_kinds(&Vec::new()).is_empty());
    assert_eq!(EventKind::from_index(1000), EventKind::Bim);
}
