//! Cost events and the counts that a run gives them.

use vstd::prelude::*;
use vstd::string::*;

use crate::text::str_eq;

verus! {

/// A cost metric. Most are measured by the profiler; five are derived from measured ones.
#[derive(Debug, Clone, Copy, PartialEq, Eq, Hash, Structural)]
pub enum EventKind {
    /// Instructions executed.
    Ir,
    /// Data cache reads.
    Dr,
    /// Data cache writes.
    Dw,
    /// First-level instruction cache read misses.
    I1mr,
    /// First-level data cache read misses.
    D1mr,
    /// First-level data cache write misses.
    D1mw,
    /// Last-level instruction cache read misses.
    ILmr,
    /// Last-level data cache read misses.
    DLmr,
    /// Last-level data cache write misses.
    DLmw,
    /// Derived: accesses served by the first-level cache.
    L1hits,
    /// Derived: accesses served by the last-level cache.
    LLhits,
    /// Derived: accesses served by memory.
    RamHits,
    /// Derived: all reads and writes.
    TotalRW,
    /// Derived: an estimate of the cycles spent.
    EstimatedCycles,
    /// System calls made.
    SysCount,
    /// Time spent in system calls.
    SysTime,
    /// Processor time spent in system calls.
    SysCpuTime,
    /// Global bus events.
    Ge,
    /// Conditional branches executed.
    Bc,
    /// Conditional branches mispredicted.
    Bcm,
    /// Indirect branches executed.
    Bi,
    /// Indirect branches mispredicted.
    Bim,
}

/// The number of event kinds.
pub const EVENT_KINDS: usize = 22;

impl EventKind {
    /// The name of the event, as the profiler writes it.
    pub open spec fn spec_name(self) -> Seq<char> {
        match self {
            EventKind::Ir => seq!['I', 'r'],
            EventKind::Dr => seq!['D', 'r'],
            EventKind::Dw => seq!['D', 'w'],
            EventKind::I1mr => seq!['I', '1', 'm', 'r'],
            EventKind::D1mr => seq!['D', '1', 'm', 'r'],
            EventKind::D1mw => seq!['D', '1', 'm', 'w'],
            EventKind::ILmr => seq!['I', 'L', 'm', 'r'],
            EventKind::DLmr => seq!['D', 'L', 'm', 'r'],
            EventKind::DLmw => seq!['D', 'L', 'm', 'w'],
            EventKind::L1hits => seq!['L', '1', 'h', 'i', 't', 's'],
            EventKind::LLhits => seq!['L', 'L', 'h', 'i', 't', 's'],
            EventKind::RamHits => seq!['R', 'a', 'm', 'H', 'i', 't', 's'],
            EventKind::TotalRW => seq!['T', 'o', 't', 'a', 'l', 'R', 'W'],
            EventKind::EstimatedCycles => seq![
                'E', 's', 't', 'i', 'm', 'a', 't', 'e', 'd', 'C', 'y', 'c', 'l', 'e', 's',
            ],
            EventKind::SysCount => seq!['s', 'y', 's', 'C', 'o', 'u', 'n', 't'],
            EventKind::SysTime => seq!['s', 'y', 's', 'T', 'i', 'm', 'e'],
            EventKind::SysCpuTime => seq!['s', 'y', 's', 'C', 'p', 'u', 'T', 'i', 'm', 'e'],
            EventKind::Ge => seq!['G', 'e'],
            EventKind::Bc => seq!['B', 'c'],
            EventKind::Bcm => seq!['B', 'c', 'm'],
            EventKind::Bi => seq!['B', 'i'],
            EventKind::Bim => seq!['B', 'i', 'm'],
        }
    }

    /// The place of the event in the order of the kinds.
    pub open spec fn spec_index(self) -> int {
        match self {
            EventKind::Ir => 0,
            EventKind::Dr => 1,
            EventKind::Dw => 2,
            EventKind::I1mr => 3,
            EventKind::D1mr => 4,
            EventKind::D1mw => 5,
            EventKind::ILmr => 6,
            EventKind::DLmr => 7,
            EventKind::DLmw => 8,
            EventKind::L1hits => 9,
            EventKind::LLhits => 10,
            EventKind::RamHits => 11,
            EventKind::TotalRW => 12,
            EventKind::EstimatedCycles => 13,
            EventKind::SysCount => 14,
            EventKind::SysTime => 15,
            EventKind::SysCpuTime => 16,
            EventKind::Ge => 17,
            EventKind::Bc => 18,
            EventKind::Bcm => 19,
            EventKind::Bi => 20,
            EventKind::Bim => 21,
        }
    }

    /// Whether the event is computed from measured ones.
    pub open spec fn spec_is_derived(self) -> bool {
        self is L1hits || self is LLhits || self is RamHits || self is TotalRW
            || self is EstimatedCycles
    }

    /// The kind at the given place in the order of the kinds; the last kind for a place
    /// beyond the last.
    pub open spec fn spec_from_index(index: int) -> EventKind {
        if index == 0 {
            EventKind::Ir
        }         else if index == 1 {
            EventKind::Dr
        }         else if index == 2 {
            EventKind::Dw
        }         else if index == 3 {
            EventKind::I1mr
        }         else if index == 4 {
            EventKind::D1mr
        }         else if index == 5 {
            EventKind::D1mw
        }         else if index == 6 {
            EventKind::ILmr
        }         else if index == 7 {
            EventKind::DLmr
        }         else if index == 8 {
            EventKind::DLmw
        }         else if index == 9 {
            EventKind::L1hits
        }         else if index == 10 {
            EventKind::LLhits
        }         else if index == 11 {
            EventKind::RamHits
        }         else if index == 12 {
            EventKind::TotalRW
        }         else if index == 13 {
            EventKind::EstimatedCycles
        }         else if index == 14 {
            EventKind::SysCount
        }         else if index == 15 {
            EventKind::SysTime
        }         else if index == 16 {
            EventKind::SysCpuTime
        }         else if index == 17 {
            EventKind::Ge
        }         else if index == 18 {
            EventKind::Bc
        }         else if index == 19 {
            EventKind::Bcm
        }         else if index == 20 {
            EventKind::Bi
        } else {
            EventKind::Bim
        }
    }

    fn name_str(&self) -> (r: &'static str)
        ensures
            r@ == self.spec_name(),
    {
        proof {
            reveal_strlit("Ir");
            reveal_strlit("Dr");
            reveal_strlit("Dw");
            reveal_strlit("I1mr");
            reveal_strlit("D1mr");
            reveal_strlit("D1mw");
            reveal_strlit("ILmr");
            reveal_strlit("DLmr");
            reveal_strlit("DLmw");
            reveal_strlit("L1hits");
            reveal_strlit("LLhits");
            reveal_strlit("RamHits");
            reveal_strlit("TotalRW");
            reveal_strlit("EstimatedCycles");
            reveal_strlit("sysCount");
            reveal_strlit("sysTime");
            reveal_strlit("sysCpuTime");
            reveal_strlit("Ge");
            reveal_strlit("Bc");
            reveal_strlit("Bcm");
            reveal_strlit("Bi");
            reveal_strlit("Bim");
        }
        let r = match self {
            EventKind::Ir => "Ir",
            EventKind::Dr => "Dr",
            EventKind::Dw => "Dw",
            EventKind::I1mr => "I1mr",
            EventKind::D1mr => "D1mr",
            EventKind::D1mw => "D1mw",
            EventKind::ILmr => "ILmr",
            EventKind::DLmr => "DLmr",
            EventKind::DLmw => "DLmw",
            EventKind::L1hits => "L1hits",
            EventKind::LLhits => "LLhits",
            EventKind::RamHits => "RamHits",
            EventKind::TotalRW => "TotalRW",
            EventKind::EstimatedCycles => "EstimatedCycles",
            EventKind::SysCount => "sysCount",
            EventKind::SysTime => "sysTime",
            EventKind::SysCpuTime => "sysCpuTime",
            EventKind::Ge => "Ge",
            EventKind::Bc => "Bc",
            EventKind::Bcm => "Bcm",
            EventKind::Bi => "Bi",
            EventKind::Bim => "Bim",
        };
        assert(r@ =~= self.spec_name());
        r
    }

    /// The name of the event, as the profiler writes it.
    pub fn name(&self) -> (r: String)
        ensures
            r@ == self.spec_name(),
    {
        String::from_str(self.name_str())
    }

    /// The name of the event, as `name` gives it.
    pub fn to_string(&self) -> (r: String)
        ensures
            r@ == self.spec_name(),
    {
        self.name()
    }

    /// The place of the event in the order of the kinds.
    pub fn index(&self) -> (r: usize)
        ensures
            r == self.spec_index(),
            r < EVENT_KINDS,
    {
        match self {
            EventKind::Ir => 0,
            EventKind::Dr => 1,
            EventKind::Dw => 2,
            EventKind::I1mr => 3,
            EventKind::D1mr => 4,
            EventKind::D1mw => 5,
            EventKind::ILmr => 6,
            EventKind::DLmr => 7,
            EventKind::DLmw => 8,
            EventKind::L1hits => 9,
            EventKind::LLhits => 10,
            EventKind::RamHits => 11,
            EventKind::TotalRW => 12,
            EventKind::EstimatedCycles => 13,
            EventKind::SysCount => 14,
            EventKind::SysTime => 15,
            EventKind::SysCpuTime => 16,
            EventKind::Ge => 17,
            EventKind::Bc => 18,
            EventKind::Bcm => 19,
            EventKind::Bi => 20,
            EventKind::Bim => 21,
        }
    }

    /// The kind at the given place in the order of the kinds; the last kind for a place
    /// beyond the last.
    pub fn from_index(index: usize) -> (r: EventKind)
        ensures
            r == EventKind::spec_from_index(index as int),
            index < EVENT_KINDS ==> r.spec_index() == index,
    {
        if index == 0 {
            EventKind::Ir
        }         else if index == 1 {
            EventKind::Dr
        }         else if index == 2 {
            EventKind::Dw
        }         else if index == 3 {
            EventKind::I1mr
        }         else if index == 4 {
            EventKind::D1mr
        }         else if index == 5 {
            EventKind::D1mw
        }         else if index == 6 {
            EventKind::ILmr
        }         else if index == 7 {
            EventKind::DLmr
        }         else if index == 8 {
            EventKind::DLmw
        }         else if index == 9 {
            EventKind::L1hits
        }         else if index == 10 {
            EventKind::LLhits
        }         else if index == 11 {
            EventKind::RamHits
        }         else if index == 12 {
            EventKind::TotalRW
        }         else if index == 13 {
            EventKind::EstimatedCycles
        }         else if index == 14 {
            EventKind::SysCount
        }         else if index == 15 {
            EventKind::SysTime
        }         else if index == 16 {
            EventKind::SysCpuTime
        }         else if index == 17 {
            EventKind::Ge
        }         else if index == 18 {
            EventKind::Bc
        }         else if index == 19 {
            EventKind::Bcm
        }         else if index == 20 {
            EventKind::Bi
        } else {
            EventKind::Bim
        }
    }

    /// Whether the event is computed from measured ones.
    pub fn is_derived(&self) -> (r: bool)
        ensures
            r == self.spec_is_derived(),
    {
        matches!(
            self,
            EventKind::L1hits | EventKind::LLhits | EventKind::RamHits | EventKind::TotalRW
                | EventKind::EstimatedCycles
        )
    }

    /// The kind with the given name, if there is one.
    pub fn from_name(name: &str) -> (r: Option<EventKind>)
        ensures
            match r {
                Some(kind) => kind.spec_name() == name@,
                None => forall|kind: EventKind| kind.spec_name() != name@,
            },
    {
        let mut index: usize = 0;
        while index < EVENT_KINDS
            invariant
                index <= EVENT_KINDS,
                forall|kind: EventKind| kind.spec_index() < index ==> kind.spec_name() != name@,
            decreases EVENT_KINDS - index,
        {
            let kind = EventKind::from_index(index);
            if str_eq(name, kind.name_str()) {
                return Some(kind);
            }
            proof {
                lemma_index_injective();
            }
            index += 1;
        }
        None
    }
}

/// The kinds and the places `0` to `EVENT_KINDS - 1` correspond one to one.
pub proof fn lemma_index_injective()
    ensures
        forall|kind: EventKind|
            0 <= #[trigger] kind.spec_index() < EVENT_KINDS && EventKind::spec_from_index(
                kind.spec_index(),
            ) == kind,
        forall|index: int|
            0 <= index < EVENT_KINDS ==> (#[trigger] EventKind::spec_from_index(
                index,
            )).spec_index() == index,
{
}

/// Two kinds with the same name are the same kind.
pub proof fn lemma_name_injective(a: EventKind, b: EventKind)
    requires
        a.spec_name() == b.spec_name(),
    ensures
        a == b,
{
    if a != b {
        let x = a.spec_name();
        let y = b.spec_name();
        assert(x.len() != y.len() || x[0] != y[0] || x[1] != y[1] || x[2] != y[2] || x[3] != y[3]);
    }
}

/// What went wrong with a table of counts.
#[derive(Debug, Clone, Copy, PartialEq, Eq, Structural)]
pub enum CostsError {
    /// The table holds no count for this kind.
    MissingEvent(EventKind),
    /// A count does not fit into 64 bits, or a derived count would be negative.
    OutOfRange,
}

impl CostsError {
    /// What the error says, in words: for a missing event its name.
    pub open spec fn spec_message(self) -> Seq<char> {
        match self {
            CostsError::MissingEvent(kind) => "Missing event type: "@ + kind.spec_name(),
            CostsError::OutOfRange => "A count is out of range"@,
        }
    }

    /// What the error says, in words.
    pub fn message(&self) -> (r: String)
        ensures
            r@ == self.spec_message(),
    {
        match self {
            CostsError::MissingEvent(kind) => {
                let mut r = String::from_str("Missing event type: ");
                r.append(kind.name().as_str());
                r
            },
            CostsError::OutOfRange => String::from_str("A count is out of range"),
        }
    }
}

/// The counts of one call context: for each event kind a count, or none.
///
/// A table that comes from a log holds measured kinds only. The derived kinds come in with
/// `make_summary`.
#[derive(Debug, Clone, Copy, PartialEq, Eq)]
pub struct Costs {
    pub values: [Option<u64>; EVENT_KINDS],
}

impl View for Costs {
    type V = Map<EventKind, u64>;

    open spec fn view(&self) -> Map<EventKind, u64> {
        Map::new(|kind: EventKind| self.cost(kind) is Some, |kind: EventKind| self.cost(kind)->0)
    }
}

/// The count of `kind` in the mathematical sense, where the table holds one.
pub open spec fn count_of(costs: Costs, kind: EventKind) -> int
    recommends
        costs.cost(kind) is Some,
{
    costs.cost(kind)->0 as int
}

/// Accesses served by memory: the misses of the last-level cache.
pub open spec fn ram_hits(c: Costs) -> int {
    count_of(c, EventKind::ILmr) + count_of(c, EventKind::DLmr) + count_of(c, EventKind::DLmw)
}

/// The misses of the first-level cache.
pub open spec fn l1_misses(c: Costs) -> int {
    count_of(c, EventKind::I1mr) + count_of(c, EventKind::D1mr) + count_of(c, EventKind::D1mw)
}

/// Accesses served by the last-level cache.
pub open spec fn ll_hits(c: Costs) -> int {
    l1_misses(c) - ram_hits(c)
}

/// All reads and writes.
pub open spec fn total_rw(c: Costs) -> int {
    count_of(c, EventKind::Ir) + count_of(c, EventKind::Dr) + count_of(c, EventKind::Dw)
}

/// Accesses served by the first-level cache.
pub open spec fn l1_hits(c: Costs) -> int {
    total_rw(c) - ram_hits(c) - ll_hits(c)
}

/// The estimate of the cycles: one for a hit of the first level, five for one of the last
/// level, thirty-five for an access to memory.
pub open spec fn estimated_cycles(c: Costs) -> int {
    l1_hits(c) + 5 * ll_hits(c) + 35 * ram_hits(c)
}

/// The value that the derivation gives the derived kind `kind`.
pub open spec fn derived_value(c: Costs, kind: EventKind) -> int {
    match kind {
        EventKind::L1hits => l1_hits(c),
        EventKind::LLhits => ll_hits(c),
        EventKind::RamHits => ram_hits(c),
        EventKind::TotalRW => total_rw(c),
        _ => estimated_cycles(c),
    }
}

/// Whether `kind` is one of the nine measured kinds that the derivation reads.
pub open spec fn is_cache_event(kind: EventKind) -> bool {
    kind is Ir || kind is Dr || kind is Dw || kind is I1mr || kind is D1mr || kind is D1mw
        || kind is ILmr || kind is DLmr || kind is DLmw
}

/// Whether the table holds a count for each kind that the derivation reads.
pub open spec fn has_cache_events(c: Costs) -> bool {
    forall|kind: EventKind| is_cache_event(kind) ==> (#[trigger] c.cost(kind)) is Some
}

/// The first kind that the derivation reads and the table lacks, in the order of the kinds.
pub open spec fn first_missing(c: Costs) -> EventKind {
    if c.cost(EventKind::Ir) is None {
        EventKind::Ir
    } else if c.cost(EventKind::Dr) is None {
        EventKind::Dr
    } else if c.cost(EventKind::Dw) is None {
        EventKind::Dw
    } else if c.cost(EventKind::I1mr) is None {
        EventKind::I1mr
    } else if c.cost(EventKind::D1mr) is None {
        EventKind::D1mr
    } else if c.cost(EventKind::D1mw) is None {
        EventKind::D1mw
    } else if c.cost(EventKind::ILmr) is None {
        EventKind::ILmr
    } else if c.cost(EventKind::DLmr) is None {
        EventKind::DLmr
    } else {
        EventKind::DLmw
    }
}

/// Why the derived kinds of the table cannot be computed, where they cannot: the first kind
/// that is missing, or a derived value that is no count of 64 bits.
pub open spec fn summary_obstacle(c: Costs) -> Option<CostsError> {
    if !has_cache_events(c) {
        Some(CostsError::MissingEvent(first_missing(c)))
    } else if !derivation_fits(c) {
        Some(CostsError::OutOfRange)
    } else {
        None
    }
}

/// Whether each derived value of the table is a count of 64 bits.
pub open spec fn derivation_fits(c: Costs) -> bool {
    forall|kind: EventKind|
        kind.spec_is_derived() ==> 0 <= #[trigger] derived_value(c, kind) <= u64::MAX
}

/// Whether `after` is `before` with the derived kinds set to their derived values.
pub open spec fn is_summary_of(after: Costs, before: Costs) -> bool {
    forall|kind: EventKind|
        #[trigger] after.cost(kind) == if kind.spec_is_derived() {
            Some(derived_value(before, kind) as u64)
        } else {
            before.cost(kind)
        }
}

impl Costs {
    /// The count of `kind`, or none.
    pub open spec fn cost(&self, kind: EventKind) -> Option<u64> {
        self.values@[kind.spec_index()]
    }

    /// A table without counts.
    pub fn new() -> (r: Self)
        ensures
            forall|kind: EventKind| (#[trigger] r.cost(kind)) is None,
    {
        let r = Costs { values: [None;EVENT_KINDS] };
        proof {
            lemma_index_injective();
        }
        r
    }

    /// A table with the count zero for each of `kinds`.
    pub fn with_event_kinds(kinds: &Vec<EventKind>) -> (r: Self)
        ensures
            forall|kind: EventKind|
                #[trigger] r.cost(kind) == if kinds@.contains(kind) {
                    Some(0u64)
                } else {
                    None
                },
    {
        let mut r = Costs::new();
        let mut i: usize = 0;
        while i < kinds.len()
            invariant
                i <= kinds.len(),
                forall|kind: EventKind|
                    #[trigger] r.cost(kind) == if kinds@.take(i as int).contains(kind) {
                        Some(0u64)
                    } else {
                        None
                    },
            decreases kinds.len() - i,
        {
            let ghost before = r;
            r.insert(kinds[i], 0);
            proof {
                let next = kinds@.take(i + 1);
                let prev = kinds@.take(i as int);
                assert(next == prev.push(kinds@[i as int]));
                assert forall|kind: EventKind|
                    #[trigger] r.cost(kind) == if next.contains(kind) {
                        Some(0u64)
                    } else {
                        None
                    } by {
                    if kind == kinds@[i as int] {
                        assert(next[i as int] == kind);
                    } else {
                        assert(r.cost(kind) == before.cost(kind));
                        if prev.contains(kind) {
                            let j = choose|j: int| 0 <= j < prev.len() && prev[j] == kind;
                            assert(next[j] == kind);
                        }
                        if next.contains(kind) {
                            let j = choose|j: int| 0 <= j < next.len() && next[j] == kind;
                            assert(prev[j] == kind);
                        }
                    }
                }
            }
            i += 1;
        }
        assert(kinds@.take(kinds@.len() as int) == kinds@);
        r
    }

    /// Sets the count of `kind` to `value`.
    pub fn insert(&mut self, kind: EventKind, value: u64)
        ensures
            final(self).cost(kind) == Some(value),
            forall|other: EventKind| other != kind ==> final(self).cost(other) == old(self).cost(other),
    {
        proof {
            lemma_index_injective();
        }
        let index = kind.index();
        self.values[index] = Some(value);
    }

    /// The count of `kind`, or none.
    pub fn try_cost_by_kind(&self, kind: EventKind) -> (r: Result<u64, CostsError>)
        ensures
            match self.cost(kind) {
                Some(value) => r == Ok::<u64, CostsError>(value),
                None => r == Err::<u64, CostsError>(CostsError::MissingEvent(kind)),
            },
    {
        match self.values[kind.index()] {
            Some(value) => Ok(value),
            None => Err(CostsError::MissingEvent(kind)),
        }
    }

    /// The count of `kind`, which the table has to hold: to ask for a derived kind before the
    /// derivation is a fault of the caller.
    pub fn cost_by_kind(&self, kind: EventKind) -> (r: u64)
        requires
            self.cost(kind) is Some,
        ensures
            Some(r) == self.cost(kind),
    {
        match self.values[kind.index()] {
            Some(value) => value,
            None => 0,
        }
    }

    /// Whether the table holds a count for `kind`.
    pub fn has(&self, kind: EventKind) -> (r: bool)
        ensures
            r == self.cost(kind) is Some,
    {
        self.values[kind.index()].is_some()
    }

    /// Whether the table holds no count at all.
    pub fn is_empty(&self) -> (r: bool)
        ensures
            r == forall|kind: EventKind| (#[trigger] self.cost(kind)) is None,
    {
        let mut i: usize = 0;
        while i < EVENT_KINDS
            invariant
                i <= EVENT_KINDS,
                forall|kind: EventKind|
                    kind.spec_index() < i ==> (#[trigger] self.cost(kind)) is None,
            decreases EVENT_KINDS - i,
        {
            if self.values[i].is_some() {
                proof {
                    lemma_index_injective();
                    assert(self.cost(EventKind::spec_from_index(i as int)) is Some);
                }
                return false;
            }
            proof {
                lemma_index_injective();
            }
            i += 1;
        }
        proof {
            lemma_index_injective();
        }
        true
    }
}

/// The two counts of one kind taken together: their sum, or the one that is there.
pub open spec fn merged_count(a: Option<u64>, b: Option<u64>) -> Option<int> {
    match (a, b) {
        (Some(x), Some(y)) => Some(x + y),
        (Some(x), None) => Some(x as int),
        (None, Some(y)) => Some(y as int),
        (None, None) => None,
    }
}

/// Whether the sum of the two tables fits: no count of it goes beyond 64 bits.
pub open spec fn sum_fits(a: Costs, b: Costs) -> bool {
    forall|kind: EventKind|
        (#[trigger] merged_count(a.cost(kind), b.cost(kind))) matches Some(sum) ==> sum
            <= u64::MAX
}

/// Whether `sum` holds, for each kind, the two counts of `a` and `b` taken together.
pub open spec fn is_sum_of(sum: Costs, a: Costs, b: Costs) -> bool {
    forall|kind: EventKind|
        match #[trigger] merged_count(a.cost(kind), b.cost(kind)) {
            Some(value) => sum.cost(kind) == Some(value as u64),
            None => sum.cost(kind) is None,
        }
}

impl Costs {
    /// Adds the counts of `other` to this table, kind by kind. A kind that only one of the two
    /// holds keeps its count.
    ///
    /// Fails, and leaves the table as it was, where a sum does not fit into 64 bits.
    pub fn add(&mut self, other: &Costs) -> (r: Result<(), CostsError>)
        ensures
            r is Ok <==> sum_fits(*old(self), *other),
            r is Ok ==> is_sum_of(*final(self), *old(self), *other),
            r is Err ==> r == Err::<(), CostsError>(CostsError::OutOfRange) && *final(self) == *old(
                self,
            ),
    {
        let mut sum = *self;
        let mut i: usize = 0;
        while i < EVENT_KINDS
            invariant
                i <= EVENT_KINDS,
                forall|kind: EventKind|
                    kind.spec_index() < i ==> match #[trigger] merged_count(
                        self.cost(kind),
                        other.cost(kind),
                    ) {
                        Some(value) => value <= u64::MAX && sum.cost(kind) == Some(value as u64),
                        None => sum.cost(kind) is None,
                    },
                forall|kind: EventKind|
                    kind.spec_index() >= i ==> #[trigger] sum.cost(kind) == self.cost(kind),
            decreases EVENT_KINDS - i,
        {
            proof {
                lemma_index_injective();
            }
            let ghost kind = EventKind::spec_from_index(i as int);
            let merged = match (self.values[i], other.values[i]) {
                (Some(x), Some(y)) => match x.checked_add(y) {
                    Some(value) => Some(value),
                    None => {
                        assert(merged_count(self.cost(kind), other.cost(kind)) == Some(x + y));
                        return Err(CostsError::OutOfRange);
                    },
                },
                (Some(x), None) => Some(x),
                (None, Some(y)) => Some(y),
                (None, None) => None,
            };
            let ghost before = sum;
            sum.values[i] = merged;
            proof {
                assert forall|k: EventKind| k.spec_index() != i implies #[trigger] sum.cost(k)
                    == before.cost(k) by {
                    assert(0 <= k.spec_index() < EVENT_KINDS);
                }
            }
            i += 1;
        }
        proof {
            lemma_index_injective();
        }
        *self = sum;
        Ok(())
    }

    /// Whether the table holds all five derived kinds.
    pub fn is_summarized(&self) -> (r: bool)
        ensures
            r == forall|kind: EventKind|
                kind.spec_is_derived() ==> (#[trigger] self.cost(kind)) is Some,
    {
        let r = self.has(EventKind::L1hits) && self.has(EventKind::LLhits) && self.has(
            EventKind::RamHits,
        ) && self.has(EventKind::TotalRW) && self.has(EventKind::EstimatedCycles);
        r
    }

    /// The derivation: computes the five derived kinds from the nine measured kinds of the
    /// cache simulation and stores them.
    ///
    /// Fails, and leaves the table as it was, where one of the nine is missing or a derived
    /// value is negative or beyond 64 bits.
    pub fn make_summary(&mut self) -> (r: Result<(), CostsError>)
        ensures
            r is Ok <==> has_cache_events(*old(self)) && derivation_fits(*old(self)),
            r is Ok ==> is_summary_of(*final(self), *old(self)),
            r is Err ==> *final(self) == *old(self),
            match summary_obstacle(*old(self)) {
                Some(error) => r == Err::<(), CostsError>(error),
                None => r is Ok,
            },
    {
        let ir = self.try_cost_by_kind(EventKind::Ir)?;
        let dr = self.try_cost_by_kind(EventKind::Dr)?;
        let dw = self.try_cost_by_kind(EventKind::Dw)?;
        let i1mr = self.try_cost_by_kind(EventKind::I1mr)?;
        let d1mr = self.try_cost_by_kind(EventKind::D1mr)?;
        let d1mw = self.try_cost_by_kind(EventKind::D1mw)?;
        let ilmr = self.try_cost_by_kind(EventKind::ILmr)?;
        let dlmr = self.try_cost_by_kind(EventKind::DLmr)?;
        let dlmw = self.try_cost_by_kind(EventKind::DLmw)?;
        assert(has_cache_events(*self));

        let ram: i128 = ilmr as i128 + dlmr as i128 + dlmw as i128;
        let misses: i128 = i1mr as i128 + d1mr as i128 + d1mw as i128;
        let ll: i128 = misses - ram;
        let total: i128 = ir as i128 + dr as i128 + dw as i128;
        let l1: i128 = total - ram - ll;
        let cycles: i128 = l1 + 5 * ll + 35 * ram;
        assert(ram == ram_hits(*self) && ll == ll_hits(*self) && total == total_rw(*self) && l1
            == l1_hits(*self) && cycles == estimated_cycles(*self));

        let limit: i128 = u64::MAX as i128;
        if ll < 0 || ll > limit || l1 < 0 || l1 > limit || cycles < 0 || cycles > limit || ram
            > limit || total > limit {
            proof {
                if ll < 0 || ll > limit {
                    assert(!(0 <= derived_value(*self, EventKind::LLhits) <= u64::MAX));
                } else if l1 < 0 || l1 > limit {
                    assert(!(0 <= derived_value(*self, EventKind::L1hits) <= u64::MAX));
                } else if cycles < 0 || cycles > limit {
                    assert(!(0 <= derived_value(*self, EventKind::EstimatedCycles) <= u64::MAX));
                } else if ram > limit {
                    assert(!(0 <= derived_value(*self, EventKind::RamHits) <= u64::MAX));
                } else {
                    assert(!(0 <= derived_value(*self, EventKind::TotalRW) <= u64::MAX));
                }
            }
            return Err(CostsError::OutOfRange);
        }
        let ghost before = *self;
        self.insert(EventKind::L1hits, l1 as u64);
        self.insert(EventKind::LLhits, ll as u64);
        self.insert(EventKind::RamHits, ram as u64);
        self.insert(EventKind::TotalRW, total as u64);
        self.insert(EventKind::EstimatedCycles, cycles as u64);
        assert(is_summary_of(*self, before));
        Ok(())
    }
}

/// The derivation reads measured kinds only, so a table and its summary derive the same
/// values.
pub proof fn lemma_summary_keeps_derived_values(before: Costs, after: Costs, kind: EventKind)
    requires
        is_summary_of(after, before),
    ensures
        derived_value(after, kind) == derived_value(before, kind),
        has_cache_events(after) == has_cache_events(before),
{
    assert(after.cost(EventKind::Ir) == before.cost(EventKind::Ir));
    assert(after.cost(EventKind::Dr) == before.cost(EventKind::Dr));
    assert(after.cost(EventKind::Dw) == before.cost(EventKind::Dw));
    assert(after.cost(EventKind::I1mr) == before.cost(EventKind::I1mr));
    assert(after.cost(EventKind::D1mr) == before.cost(EventKind::D1mr));
    assert(after.cost(EventKind::D1mw) == before.cost(EventKind::D1mw));
    assert(after.cost(EventKind::ILmr) == before.cost(EventKind::ILmr));
    assert(after.cost(EventKind::DLmr) == before.cost(EventKind::DLmr));
    assert(after.cost(EventKind::DLmw) == before.cost(EventKind::DLmw));
    if has_cache_events(before) {
        assert forall|k: EventKind| is_cache_event(k) implies (#[trigger] after.cost(k)) is Some by {
            assert(before.cost(k) is Some);
        }
    }
    if has_cache_events(after) {
        assert forall|k: EventKind| is_cache_event(k) implies (#[trigger] before.cost(k)) is Some by {
            assert(after.cost(k) is Some);
        }
    }
}

/// To derive twice is to derive once: the summary of a summary is that summary.
pub proof fn lemma_derivation_is_idempotent(before: Costs, once: Costs, twice: Costs)
    requires
        is_summary_of(once, before),
        is_summary_of(twice, once),
    ensures
        twice == once,
{
    assert forall|kind: EventKind| #[trigger] twice.cost(kind) == once.cost(kind) by {
        lemma_summary_keeps_derived_values(before, once, kind);
    }
    lemma_costs_equal(twice, once);
}

/// Two tables with the same count for each kind are the same table.
pub proof fn lemma_costs_equal(a: Costs, b: Costs)
    requires
        forall|kind: EventKind| #[trigger] a.cost(kind) == b.cost(kind),
    ensures
        a == b,
{
    lemma_index_injective();
    assert forall|i: int| 0 <= i < EVENT_KINDS implies a.values@[i] == b.values@[i] by {
        let kind = EventKind::spec_from_index(i);
        assert(a.cost(kind) == b.cost(kind));
    }
    assert(a.values@ =~= b.values@);
    vstd::array::axiom_array_ext_equal(a.values, b.values);
    assert(a.values == b.values);
}

/// The counts of two tables by place, taken together place by place.
pub open spec fn merged_counts(a: Seq<Option<u64>>, b: Seq<Option<u64>>) -> Seq<Option<u64>> {
    Seq::new(
        EVENT_KINDS as nat,
        |i: int|
            match merged_count(a[i], b[i]) {
                Some(value) => Some(value as u64),
                None => None,
            },
    )
}

/// Whether the counts of two tables by place can be taken together within 64 bits.
pub open spec fn counts_fit(a: Seq<Option<u64>>, b: Seq<Option<u64>>) -> bool {
    forall|i: int|
        0 <= i < EVENT_KINDS ==> ((#[trigger] merged_count(a[i], b[i])) matches Some(sum) ==> sum
            <= u64::MAX)
}

/// The sum of two tables, kind by kind, is their sum place by place.
pub proof fn lemma_sum_by_place(a: Costs, b: Costs)
    ensures
        sum_fits(a, b) == counts_fit(a.values@, b.values@),
        forall|sum: Costs|
            #[trigger] is_sum_of(sum, a, b) ==> sum.values@ == merged_counts(a.values@, b.values@),
{
    lemma_index_injective();
    if sum_fits(a, b) {
        assert forall|i: int| 0 <= i < EVENT_KINDS implies ((#[trigger] merged_count(
            a.values@[i],
            b.values@[i],
        )) matches Some(sum) ==> sum <= u64::MAX) by {
            let kind = EventKind::spec_from_index(i);
            assert(merged_count(a.cost(kind), b.cost(kind)) == merged_count(
                a.values@[i],
                b.values@[i],
            ));
        }
    }
    if counts_fit(a.values@, b.values@) {
        assert forall|kind: EventKind|
            (#[trigger] merged_count(a.cost(kind), b.cost(kind))) is Some implies merged_count(
            a.cost(kind),
            b.cost(kind),
        )->0 <= u64::MAX by {
            let i = kind.spec_index();
            assert(merged_count(a.values@[i], b.values@[i]) == merged_count(
                a.cost(kind),
                b.cost(kind),
            ));
        }
    }
    assert forall|sum: Costs| #[trigger] is_sum_of(sum, a, b) implies sum.values@ == merged_counts(
        a.values@,
        b.values@,
    ) by {
        assert forall|i: int| 0 <= i < EVENT_KINDS implies sum.values@[i] == merged_counts(
            a.values@,
            b.values@,
        )[i] by {
            let kind = EventKind::spec_from_index(i);
            assert(sum.cost(kind) == sum.values@[i]);
            assert(merged_count(a.cost(kind), b.cost(kind)) == merged_count(
                a.values@[i],
                b.values@[i],
            ));
        }
        assert(sum.values@ =~= merged_counts(a.values@, b.values@));
    }
}

} // verus!
