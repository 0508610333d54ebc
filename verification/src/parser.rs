//! The grammar of the profiler's output: a header that names the events, then the counts of
//! each call context.
//!
//! A file starts, after blank lines, with a line that names the format. The header follows:
//! lines of a key, a colon and a value, among which empty lines and lines that start with `#`
//! say nothing. The key `version` has to have the value `1`; `positions` lists the columns
//! that stand before the counts (one, where the key is missing); `events` lists the kinds
//! that every line of counts gives, in their order, and ends the header. The body follows.
//! A line that starts with `fn=` opens the record of a call context, an empty line closes
//! it, and every line of a record that starts with a digit adds its counts to the record. A
//! line that starts with `summary:` or `totals:` gives the counts of the whole run; the
//! first such line counts.

use vstd::prelude::*;
use vstd::string::*;

use crate::costs::{
    Costs, EventKind, EVENT_KINDS, counts_fit, is_sum_of, lemma_index_injective,
    lemma_name_injective, lemma_sum_by_place, merged_counts,
};
use crate::text::{
    chars_match_at, chars_of, count_leading_blanks, decimal_value, ends_with, find_char,
    first_index, is_digit, is_number, is_prefix, is_suffix, parse_u64, str_eq, tokenize, tokens,
    trim_start, views,
};

verus! {

/// Why a file could not be read as the profiler's output.
#[derive(Debug, Clone, Copy, PartialEq, Eq, Structural)]
pub enum ParseError {
    /// The file holds blank lines only.
    EmptyFile,
    /// The header gives a version other than `1`.
    VersionMismatch,
    /// The header lists an event that is no measured kind.
    UnknownEvent,
    /// The header lists no events.
    MissingEvents,
    /// A count is no decimal number of 64 bits.
    InvalidCostLine,
    /// The counts of a call context add up to more than 64 bits.
    Overflow,
    /// The run's total was asked for, and the file has neither a `summary:` nor a `totals:`
    /// line.
    MissingTotals,
}

impl ParseError {
    /// What the error says, in words.
    pub open spec fn spec_message(self) -> Seq<char> {
        match self {
            ParseError::EmptyFile => "Empty file"@,
            ParseError::VersionMismatch => "Version mismatch: Requires callgrind format version '1'"@,
            ParseError::UnknownEvent => "Unknown event type in the header"@,
            ParseError::MissingEvents => "Header should contain `events'"@,
            ParseError::InvalidCostLine => "Invalid count in a line of costs"@,
            ParseError::Overflow => "The counts of a call context do not fit into 64 bits"@,
            ParseError::MissingTotals => "No summary or totals line found"@,
        }
    }

    /// What the error says, in words.
    pub fn message(&self) -> (r: String)
        ensures
            r@ == self.spec_message(),
    {
        let text = match self {
            ParseError::EmptyFile => "Empty file",
            ParseError::VersionMismatch => "Version mismatch: Requires callgrind format version '1'",
            ParseError::UnknownEvent => "Unknown event type in the header",
            ParseError::MissingEvents => "Header should contain `events'",
            ParseError::InvalidCostLine => "Invalid count in a line of costs",
            ParseError::Overflow => "The counts of a call context do not fit into 64 bits",
            ParseError::MissingTotals => "No summary or totals line found",
        };
        String::from_str(text)
    }
}

/// The counts of the event kinds, by the place of each kind.
pub type Counts = Seq<Option<u64>>;

/// The record of one call context.
#[derive(Debug, Clone, PartialEq, Eq)]
pub struct CostRecord {
    pub context: String,
    pub costs: Costs,
}

/// What the header says of the lines of counts.
#[derive(Debug, Clone, PartialEq, Eq)]
pub struct Header {
    /// The kinds of the counts of a line, in their order.
    pub events: Vec<EventKind>,
    /// The number of columns that stand before the counts.
    pub positions: usize,
}

/// The counts that a run's output gives: those of the whole run, where the output states them,
/// and those of each call context, in the order of the records.
#[derive(Debug, Clone, PartialEq, Eq)]
pub struct CostTable {
    pub events: Vec<EventKind>,
    pub total: Option<Costs>,
    pub records: Vec<CostRecord>,
}

/// A `CostTable` over character sequences and counts by place.
pub struct CostTableView {
    pub events: Seq<EventKind>,
    pub total: Option<Counts>,
    pub records: Seq<(Seq<char>, Counts)>,
}

/// The views of the records of `v`.
pub open spec fn record_views(v: Seq<CostRecord>) -> Seq<(Seq<char>, Counts)> {
    v.map_values(|r: CostRecord| (r.context@, r.costs.values@))
}

impl View for CostTable {
    type V = CostTableView;

    open spec fn view(&self) -> CostTableView {
        CostTableView {
            events: self.events@,
            total: match self.total {
                Some(costs) => Some(costs.values@),
                None => None,
            },
            records: record_views(self.records@),
        }
    }
}

/// `version`
pub open spec fn lit_version() -> Seq<char> {
    seq!['v', 'e', 'r', 's', 'i', 'o', 'n']
}

/// `positions`
pub open spec fn lit_positions() -> Seq<char> {
    seq!['p', 'o', 's', 'i', 't', 'i', 'o', 'n', 's']
}

/// `events`
pub open spec fn lit_events() -> Seq<char> {
    seq!['e', 'v', 'e', 'n', 't', 's']
}

/// `fn=`
pub open spec fn lit_fn() -> Seq<char> {
    seq!['f', 'n', '=']
}

/// `summary:`
pub open spec fn lit_summary() -> Seq<char> {
    seq!['s', 'u', 'm', 'm', 'a', 'r', 'y', ':']
}

/// `totals:`
pub open spec fn lit_totals() -> Seq<char> {
    seq!['t', 'o', 't', 'a', 'l', 's', ':']
}

/// The measured kind with this name, if there is one.
pub open spec fn measured_kind(name: Seq<char>) -> Option<EventKind> {
    let kind = choose|kind: EventKind| kind.spec_name() == name;
    if kind.spec_name() == name && !kind.spec_is_derived() {
        Some(kind)
    } else {
        None
    }
}

/// The measured kinds with these names, if every name is one of a measured kind.
pub open spec fn measured_kinds(names: Seq<Seq<char>>) -> Option<Seq<EventKind>>
    decreases names.len(),
{
    if names.len() == 0 {
        Some(Seq::empty())
    } else {
        match (measured_kinds(names.drop_last()), measured_kind(names.last())) {
            (Some(kinds), Some(kind)) => Some(kinds.push(kind)),
            _ => None,
        }
    }
}

/// What has been read of a header.
pub struct HeaderState {
    pub events: Option<Seq<EventKind>>,
    pub positions: nat,
}

/// The header after one more of its lines.
pub open spec fn header_step(state: HeaderState, line: Seq<char>) -> Result<
    HeaderState,
    ParseError,
> {
    let colon = first_index(line, ':');
    if !(0 <= colon < line.len()) || line[0] == '#' {
        Ok(state)
    } else {
        let key = tokens(line.take(colon));
        let value = tokens(line.skip(colon + 1));
        if key == seq![lit_version()] {
            if value == seq![seq!['1']] {
                Ok(state)
            } else {
                Err(ParseError::VersionMismatch)
            }
        } else if key == seq![lit_positions()] {
            Ok(HeaderState { positions: value.len(), ..state })
        } else if key == seq![lit_events()] {
            match measured_kinds(value) {
                Some(kinds) => Ok(HeaderState { events: Some(kinds), ..state }),
                None => Err(ParseError::UnknownEvent),
            }
        } else {
            Ok(state)
        }
    }
}

/// The header after its lines, in their order.
pub open spec fn header_fold(lines: Seq<Seq<char>>) -> Result<HeaderState, ParseError>
    decreases lines.len(),
{
    if lines.len() == 0 {
        Ok(HeaderState { events: None, positions: 1 })
    } else {
        match header_fold(lines.drop_last()) {
            Ok(state) => header_step(state, lines.last()),
            Err(e) => Err(e),
        }
    }
}

/// The number of leading lines that hold white space only.
pub open spec fn leading_blank_lines(lines: Seq<Seq<char>>) -> nat
    decreases lines.len(),
{
    if lines.len() == 0 || tokens(lines[0]).len() != 0 {
        0
    } else {
        1 + leading_blank_lines(lines.skip(1))
    }
}

/// Whether the line is the line of the header that lists the events.
pub open spec fn is_events_line(line: Seq<char>) -> bool {
    0 <= first_index(line, ':') < line.len() && line[0] != '#' && tokens(
        line.take(first_index(line, ':')),
    ) == seq![lit_events()]
}

/// The number of leading lines that do not list the events.
pub open spec fn leading_plain_lines(lines: Seq<Seq<char>>) -> nat
    decreases lines.len(),
{
    if lines.len() == 0 || is_events_line(lines[0]) {
        0
    } else {
        1 + leading_plain_lines(lines.skip(1))
    }
}

/// The counts with zero for each of `events` and none for the other kinds.
pub open spec fn zero_counts(events: Seq<EventKind>) -> Counts {
    Seq::new(
        EVENT_KINDS as nat,
        |i: int|
            if events.contains(EventKind::spec_from_index(i)) {
                Some(0u64)
            } else {
                None
            },
    )
}

/// The count at the place of `kind`, or zero where there is none.
pub open spec fn count_at(counts: Counts, kind: EventKind) -> int {
    match counts[kind.spec_index()] {
        Some(value) => value as int,
        None => 0,
    }
}

/// `counts` after the first `n` numbers of `numbers` have been added, each to the count of the
/// kind of `events` at its place. Numbers beyond the events are left aside.
pub open spec fn counts_added(
    counts: Counts,
    events: Seq<EventKind>,
    numbers: Seq<Seq<char>>,
    n: nat,
) -> Result<Counts, ParseError>
    decreases n,
{
    if n == 0 {
        Ok(counts)
    } else {
        let j = (n - 1) as int;
        match counts_added(counts, events, numbers, (n - 1) as nat) {
            Err(e) => Err(e),
            Ok(before) => if !is_number(numbers[j]) || decimal_value(numbers[j]) > u64::MAX {
                Err(ParseError::InvalidCostLine)
            } else if count_at(before, events[j]) + decimal_value(numbers[j]) > u64::MAX {
                Err(ParseError::Overflow)
            } else {
                Ok(
                    before.update(
                        events[j].spec_index(),
                        Some((count_at(before, events[j]) + decimal_value(numbers[j])) as u64),
                    ),
                )
            },
        }
    }
}

/// The number of columns that a line of `numbers` fills: a line may give fewer counts than
/// there are events, and the rest is zero.
pub open spec fn columns(events: Seq<EventKind>, numbers: Seq<Seq<char>>) -> nat {
    if numbers.len() < events.len() {
        numbers.len()
    } else {
        events.len()
    }
}

/// The words of a line of counts behind its position columns.
pub open spec fn numbers_of(line: Seq<char>, positions: nat) -> Seq<Seq<char>> {
    if positions <= tokens(line).len() {
        tokens(line).skip(positions as int)
    } else {
        Seq::empty()
    }
}

/// What has been read of a body.
pub struct BodyState {
    pub total: Option<Counts>,
    pub records: Seq<(Seq<char>, Counts)>,
    pub recording: bool,
}

/// Whether the line gives the counts of the whole run.
pub open spec fn is_total_line(line: Seq<char>) -> bool {
    is_prefix(lit_summary(), line) || is_prefix(lit_totals(), line)
}

/// The words behind the colon of a line of totals.
pub open spec fn total_numbers(line: Seq<char>) -> Seq<Seq<char>> {
    if is_prefix(lit_summary(), line) {
        tokens(line.skip(8))
    } else {
        tokens(line.skip(7))
    }
}

/// The body after one more of its lines.
pub open spec fn body_step(
    events: Seq<EventKind>,
    positions: nat,
    state: BodyState,
    raw: Seq<char>,
) -> Result<BodyState, ParseError> {
    let line = trim_start(raw);
    if line.len() == 0 {
        Ok(BodyState { recording: false, ..state })
    } else if is_total_line(line) {
        if state.total is Some {
            Ok(state)
        } else {
            let numbers = total_numbers(line);
            match counts_added(zero_counts(events), events, numbers, columns(events, numbers)) {
                Ok(counts) => Ok(BodyState { total: Some(counts), ..state }),
                Err(e) => Err(e),
            }
        }
    } else if !state.recording {
        if is_prefix(lit_fn(), line) {
            Ok(
                BodyState {
                    records: state.records.push((line.skip(3), zero_counts(events))),
                    recording: true,
                    ..state
                },
            )
        } else {
            Ok(state)
        }
    } else if is_digit(line[0]) && state.records.len() > 0 {
        let numbers = numbers_of(line, positions);
        let last = state.records.last();
        match counts_added(last.1, events, numbers, columns(events, numbers)) {
            Ok(counts) => Ok(
                BodyState { records: state.records.drop_last().push((last.0, counts)), ..state },
            ),
            Err(e) => Err(e),
        }
    } else {
        Ok(state)
    }
}

/// The body after its lines, in their order.
pub open spec fn body_fold(events: Seq<EventKind>, positions: nat, lines: Seq<Seq<char>>) -> Result<
    BodyState,
    ParseError,
>
    decreases lines.len(),
{
    if lines.len() == 0 {
        Ok(BodyState { total: None, records: Seq::empty(), recording: false })
    } else {
        match body_fold(events, positions, lines.drop_last()) {
            Ok(state) => body_step(events, positions, state, lines.last()),
            Err(e) => Err(e),
        }
    }
}

/// The lines of the header: those behind the line that names the format, up to the line that
/// lists the events.
pub open spec fn header_lines(lines: Seq<Seq<char>>) -> Seq<Seq<char>> {
    let rest = lines.skip((leading_blank_lines(lines) + 1) as int);
    if leading_plain_lines(rest) < rest.len() {
        rest.take((leading_plain_lines(rest) + 1) as int)
    } else {
        rest
    }
}

/// The lines of the body: those behind the line that lists the events.
pub open spec fn body_lines(lines: Seq<Seq<char>>) -> Seq<Seq<char>> {
    let rest = lines.skip((leading_blank_lines(lines) + 1) as int);
    if leading_plain_lines(rest) < rest.len() {
        rest.skip((leading_plain_lines(rest) + 1) as int)
    } else {
        Seq::empty()
    }
}

/// What the lines of one file give: the table of its counts, or the reason why it is none.
pub open spec fn parsed(lines: Seq<Seq<char>>) -> Result<CostTableView, ParseError> {
    if leading_blank_lines(lines) >= lines.len() {
        Err(ParseError::EmptyFile)
    } else {
        match header_fold(header_lines(lines)) {
            Err(e) => Err(e),
            Ok(header) => match header.events {
                None => Err(ParseError::MissingEvents),
                Some(events) => match body_fold(events, header.positions, body_lines(lines)) {
                    Err(e) => Err(e),
                    Ok(body) => Ok(
                        CostTableView { events, total: body.total, records: body.records },
                    ),
                },
            },
        }
    }
}

/// Once a number has failed, the rest of the line does not mend it.
pub proof fn lemma_counts_added_error(
    counts: Counts,
    events: Seq<EventKind>,
    numbers: Seq<Seq<char>>,
    n: nat,
    m: nat,
)
    requires
        n <= m,
        counts_added(counts, events, numbers, n) is Err,
    ensures
        counts_added(counts, events, numbers, m) == counts_added(counts, events, numbers, n),
    decreases m - n,
{
    if n < m {
        lemma_counts_added_error(counts, events, numbers, n, (m - 1) as nat);
    }
}

/// Once a line of the header has failed, the rest of the header does not mend it.
pub proof fn lemma_header_fold_error(lines: Seq<Seq<char>>, k: int)
    requires
        0 <= k <= lines.len(),
        header_fold(lines.take(k)) is Err,
    ensures
        header_fold(lines) == header_fold(lines.take(k)),
    decreases lines.len() - k,
{
    if k < lines.len() {
        assert(lines.take(k + 1).drop_last() == lines.take(k));
        lemma_header_fold_error(lines, k + 1);
    } else {
        assert(lines.take(k) == lines);
    }
}

/// Once a line of the body has failed, the rest of the body does not mend it.
pub proof fn lemma_body_fold_error(
    events: Seq<EventKind>,
    positions: nat,
    lines: Seq<Seq<char>>,
    k: int,
)
    requires
        0 <= k <= lines.len(),
        body_fold(events, positions, lines.take(k)) is Err,
    ensures
        body_fold(events, positions, lines) == body_fold(events, positions, lines.take(k)),
    decreases lines.len() - k,
{
    if k < lines.len() {
        assert(lines.take(k + 1).drop_last() == lines.take(k));
        lemma_body_fold_error(events, positions, lines, k + 1);
    } else {
        assert(lines.take(k) == lines);
    }
}

/// The leading blank lines end before the first line that holds a word.
pub proof fn lemma_leading_blank_lines(lines: Seq<Seq<char>>, n: int)
    requires
        0 <= n <= lines.len(),
        forall|j: int| 0 <= j < n ==> tokens(lines[j]).len() == 0,
        n < lines.len() ==> tokens(lines[n]).len() != 0,
    ensures
        leading_blank_lines(lines) == n,
    decreases n,
{
    if n > 0 {
        let t = lines.skip(1);
        assert forall|j: int| 0 <= j < n - 1 implies tokens(t[j]).len() == 0 by {
            assert(t[j] == lines[j + 1]);
        }
        lemma_leading_blank_lines(t, n - 1);
    }
}

/// The leading lines that do not list the events end before the first line that does.
pub proof fn lemma_leading_plain_lines(lines: Seq<Seq<char>>, n: int)
    requires
        0 <= n <= lines.len(),
        forall|j: int| 0 <= j < n ==> !is_events_line(lines[j]),
        n < lines.len() ==> is_events_line(lines[n]),
    ensures
        leading_plain_lines(lines) == n,
    decreases n,
{
    if n > 0 {
        let t = lines.skip(1);
        assert forall|j: int| 0 <= j < n - 1 implies !is_events_line(t[j]) by {
            assert(t[j] == lines[j + 1]);
        }
        lemma_leading_plain_lines(t, n - 1);
    }
}

fn measured_kind_of(name: &str) -> (r: Option<EventKind>)
    ensures
        r == measured_kind(name@),
{
    match EventKind::from_name(name) {
        Some(kind) => {
            proof {
                let chosen = choose|k: EventKind| k.spec_name() == name@;
                lemma_name_injective(chosen, kind);
            }
            if kind.is_derived() {
                None
            } else {
                Some(kind)
            }
        },
        None => None,
    }
}

fn measured_kinds_of(names: &Vec<String>) -> (r: Option<Vec<EventKind>>)
    ensures
        match measured_kinds(views(names@)) {
            Some(kinds) => r is Some && r->0@ == kinds,
            None => r is None,
        },
{
    let mut kinds: Vec<EventKind> = Vec::new();
    let mut i: usize = 0;
    assert(views(names@).take(0) =~= Seq::<Seq<char>>::empty());
    while i < names.len()
        invariant
            i <= names.len(),
            measured_kinds(views(names@).take(i as int)) == Some(kinds@),
        decreases names.len() - i,
    {
        proof {
            let next = views(names@).take(i + 1);
            assert(next.drop_last() == views(names@).take(i as int));
            assert(next.last() == names@[i as int]@);
        }
        match measured_kind_of(names[i].as_str()) {
            Some(kind) => {
                kinds.push(kind);
            },
            None => {
                proof {
                    lemma_measured_kinds_none(views(names@), i + 1);
                }
                return None;
            },
        }
        i += 1;
    }
    assert(views(names@).take(names@.len() as int) == views(names@));
    Some(kinds)
}

/// Once a name is no measured kind, the rest of the names does not mend it.
pub proof fn lemma_measured_kinds_none(names: Seq<Seq<char>>, k: int)
    requires
        0 <= k <= names.len(),
        measured_kinds(names.take(k)) is None,
    ensures
        measured_kinds(names) is None,
    decreases names.len() - k,
{
    if k < names.len() {
        assert(names.take(k + 1).drop_last() == names.take(k));
        lemma_measured_kinds_none(names, k + 1);
    } else {
        assert(names.take(k) == names);
    }
}

fn is_single_word(words: &Vec<String>, word: &str) -> (r: bool)
    ensures
        r == (views(words@) == seq![word@]),
{
    if words.len() != 1 {
        assert(views(words@).len() != seq![word@].len());
        return false;
    }
    let r = str_eq(words[0].as_str(), word);
    if r {
        assert(views(words@) =~= seq![word@]);
    } else {
        assert(views(words@)[0] != seq![word@][0]);
    }
    r
}

fn step_header(events: Option<Vec<EventKind>>, positions: usize, line: &str) -> (r: (
    Result<(Option<Vec<EventKind>>, usize), ParseError>,
    bool,
))
    ensures
        r.1 == is_events_line(line@),
        match header_step(
            HeaderState {
                events: match events {
                    Some(e) => Some(e@),
                    None => None,
                },
                positions: positions as nat,
            },
            line@,
        ) {
            Ok(state) => r.0 is Ok && r.0->Ok_0.1 == state.positions && match state.events {
                Some(e) => r.0->Ok_0.0 is Some && r.0->Ok_0.0->0@ == e,
                None => r.0->Ok_0.0 is None,
            },
            Err(e) => r.0 == Err::<(Option<Vec<EventKind>>, usize), ParseError>(e),
        },
{
    proof {
        reveal_strlit("version");
        reveal_strlit("positions");
        reveal_strlit("events");
        reveal_strlit("1");
        assert("version"@ =~= lit_version());
        assert("positions"@ =~= lit_positions());
        assert("events"@ =~= lit_events());
        assert("1"@ =~= seq!['1']);
    }
    let chars = chars_of(line);
    match find_char(&chars, ':') {
        None => (Ok((events, positions)), false),
        Some(colon) => {
            if chars[0] == '#' {
                return (Ok((events, positions)), false);
            }
            let key_part = line.substring_char(0, colon);
            let value_part = line.substring_char(colon + 1, chars.len());
            assert(key_part@ =~= line@.take(colon as int));
            assert(value_part@ =~= line@.skip(colon + 1));
            let key = tokenize(key_part);
            let value = tokenize(value_part);
            proof {
                assert(seq![lit_version()][0] != seq![lit_events()][0]) by {
                    assert(lit_version().len() != lit_events().len());
                }
                assert(seq![lit_positions()][0] != seq![lit_events()][0]) by {
                    assert(lit_positions().len() != lit_events().len());
                }
            }
            if is_single_word(&key, "version") {
                if is_single_word(&value, "1") {
                    (Ok((events, positions)), false)
                } else {
                    (Err(ParseError::VersionMismatch), false)
                }
            } else if is_single_word(&key, "positions") {
                (Ok((events, value.len())), false)
            } else if is_single_word(&key, "events") {
                match measured_kinds_of(&value) {
                    Some(kinds) => (Ok((Some(kinds), positions)), true),
                    None => (Err(ParseError::UnknownEvent), true),
                }
            } else {
                (Ok((events, positions)), false)
            }
        },
    }
}

fn zero_costs(events: &Vec<EventKind>) -> (r: Costs)
    ensures
        r.values@ == zero_counts(events@),
{
    let r = Costs::with_event_kinds(events);
    proof {
        lemma_index_injective();
        assert forall|i: int| 0 <= i < EVENT_KINDS implies r.values@[i] == zero_counts(events@)[i] by {
            let kind = EventKind::spec_from_index(i);
            assert(r.cost(kind) == r.values@[i]);
        }
        assert(r.values@ =~= zero_counts(events@));
    }
    r
}

fn add_counts(costs: Costs, events: &Vec<EventKind>, numbers: &Vec<String>, from: usize) -> (r:
    Result<Costs, ParseError>)
    requires
        from <= numbers@.len(),
    ensures
        ({
            let rest = views(numbers@).skip(from as int);
            match counts_added(costs.values@, events@, rest, columns(events@, rest)) {
                Ok(counts) => r is Ok && r->Ok_0.values@ == counts,
                Err(e) => r == Err::<Costs, ParseError>(e),
            }
        }),
{
    let ghost rest = views(numbers@).skip(from as int);
    let available = numbers.len() - from;
    let cols = if available < events.len() {
        available
    } else {
        events.len()
    };
    let mut current = costs;
    let mut j: usize = 0;
    while j < cols
        invariant
            j <= cols,
            cols == columns(events@, rest),
            cols <= events@.len(),
            from + cols <= numbers@.len() <= usize::MAX,
            rest == views(numbers@).skip(from as int),
            counts_added(costs.values@, events@, rest, j as nat) == Ok::<Counts, ParseError>(
                current.values@,
            ),
        decreases cols - j,
    {
        let word = chars_of(numbers[from + j].as_str());
        assert(word@ == rest[j as int]);
        let kind = events[j];
        let index = kind.index();
        let ghost before = current.values@;
        match parse_u64(&word) {
            None => {
                proof {
                    assert(counts_added(costs.values@, events@, rest, (j + 1) as nat) == Err::<
                        Counts,
                        ParseError,
                    >(ParseError::InvalidCostLine));
                    lemma_counts_added_error(
                        costs.values@,
                        events@,
                        rest,
                        (j + 1) as nat,
                        cols as nat,
                    );
                }
                return Err(ParseError::InvalidCostLine);
            },
            Some(value) => {
                let old_value = match current.values[index] {
                    Some(v) => v,
                    None => 0,
                };
                assert(old_value == count_at(before, kind));
                match old_value.checked_add(value) {
                    None => {
                        proof {
                            assert(counts_added(costs.values@, events@, rest, (j + 1) as nat)
                                == Err::<Counts, ParseError>(ParseError::Overflow));
                            lemma_counts_added_error(
                                costs.values@,
                                events@,
                                rest,
                                (j + 1) as nat,
                                cols as nat,
                            );
                        }
                        return Err(ParseError::Overflow);
                    },
                    Some(sum) => {
                        current.values[index] = Some(sum);
                        assert(current.values@ =~= before.update(index as int, Some(sum)));
                    },
                }
            },
        }
        j += 1;
    }
    Ok(current)
}

/// The table of the counts that the lines of one file give.
///
/// Fails where the lines do not follow the grammar: see `ParseError`. A line that gives fewer
/// counts than there are events is no failure: the missing counts are zero. The table holds
/// measured kinds only.
pub fn parse_table(lines: &Vec<String>) -> (r: Result<CostTable, ParseError>)
    ensures
        match parsed(views(lines@)) {
            Ok(table) => r is Ok && r->Ok_0@ == table,
            Err(e) => r == Err::<CostTable, ParseError>(e),
        },
{
    proof {
        reveal_strlit("fn=");
        reveal_strlit("summary:");
        reveal_strlit("totals:");
        assert("fn="@ =~= lit_fn());
        assert("summary:"@ =~= lit_summary());
        assert("totals:"@ =~= lit_totals());
    }
    let ghost all = views(lines@);
    let n = lines.len();
    let mut first: usize = 0;
    while first < n && tokenize(lines[first].as_str()).len() == 0
        invariant
            first <= n == lines@.len(),
            all == views(lines@),
            forall|j: int| 0 <= j < first ==> tokens(all[j]).len() == 0,
        decreases n - first,
    {
        first += 1;
    }
    proof {
        lemma_leading_blank_lines(all, first as int);
    }
    if first >= n {
        return Err(ParseError::EmptyFile);
    }
    let ghost rest = all.skip(first + 1);
    let mut events: Option<Vec<EventKind>> = None;
    let mut positions: usize = 1;
    let mut i: usize = first + 1;
    let mut found = false;
    assert(rest.take(0) =~= Seq::<Seq<char>>::empty());
    while i < n && !found
        invariant
            first < i <= n == lines@.len(),
            all == views(lines@),
            rest == all.skip(first + 1),
            leading_blank_lines(all) == first,
            found ==> i - first - 1 >= 1 && is_events_line(rest[i - first - 2]),
            forall|j: int|
                0 <= j < i - first - 1 - (if found {
                    1int
                } else {
                    0int
                }) ==> !is_events_line(rest[j]),
            header_fold(rest.take(i - first - 1)) == Ok::<HeaderState, ParseError>(
                HeaderState {
                    events: match events {
                        Some(e) => Some(e@),
                        None => None,
                    },
                    positions: positions as nat,
                },
            ),
        decreases n - i,
    {
        let ghost k = i - first - 1;
        proof {
            assert(rest[k] == lines@[i as int]@);
            assert(rest.take(k + 1).drop_last() == rest.take(k));
            assert(rest.take(k + 1).last() == rest[k]);
        }
        let (step, was_events) = step_header(events, positions, lines[i].as_str());
        match step {
            Ok(next) => {
                events = next.0;
                positions = next.1;
            },
            Err(e) => {
                proof {
                    assert(header_fold(rest.take(k + 1)) == Err::<HeaderState, ParseError>(e));
                    lemma_plain_lines_reach(rest, k);
                    let header = header_lines(all);
                    assert(header.take(k + 1) == rest.take(k + 1));
                    lemma_header_fold_error(header, k + 1);
                }
                return Err(e);
            },
        }
        found = was_events;
        i += 1;
    }
    let ghost taken = i - first - 1;
    proof {
        if found {
            lemma_leading_plain_lines(rest, taken - 1);
        } else {
            lemma_leading_plain_lines(rest, taken);
            assert(rest.take(taken) == rest);
        }
        assert(header_lines(all) == rest.take(taken));
    }
    let events = match events {
        Some(e) => e,
        None => {
            return Err(ParseError::MissingEvents);
        },
    };
    let start: usize = i;
    let ghost body = body_lines(all);
    proof {
        assert(body =~= all.skip(start as int));
    }
    let mut total: Option<Costs> = None;
    let mut records: Vec<CostRecord> = Vec::new();
    let mut recording = false;
    let mut k: usize = start;
    assert(body.take(0) =~= Seq::<Seq<char>>::empty());
    assert(record_views(records@) =~= Seq::<(Seq<char>, Counts)>::empty());
    while k < n
        invariant
            start <= k <= n == lines@.len(),
            all == views(lines@),
            body == all.skip(start as int),
            body == body_lines(all),
            leading_blank_lines(all) < all.len(),
            header_fold(header_lines(all)) == Ok::<HeaderState, ParseError>(
                HeaderState { events: Some(events@), positions: positions as nat },
            ),
            "fn="@ == lit_fn(),
            "summary:"@ == lit_summary(),
            "totals:"@ == lit_totals(),
            body_fold(events@, positions as nat, body.take(k - start)) == Ok::<
                BodyState,
                ParseError,
            >(
                BodyState {
                    total: match total {
                        Some(costs) => Some(costs.values@),
                        None => None,
                    },
                    records: record_views(records@),
                    recording,
                },
            ),
        decreases n - k,
    {
        let ghost at = k - start;
        let ghost state = BodyState {
            total: match total {
                Some(costs) => Some(costs.values@),
                None => None,
            },
            records: record_views(records@),
            recording,
        };
        proof {
            assert(body[at] == lines@[k as int]@);
            assert(body.take(at + 1).drop_last() == body.take(at));
            assert(body.take(at + 1).last() == body[at]);
        }
        let raw = lines[k].as_str();
        let raw_chars = chars_of(raw);
        let blanks = count_leading_blanks(&raw_chars);
        let line = raw.substring_char(blanks, raw_chars.len());
        assert(line@ =~= trim_start(raw@));
        let chars = chars_of(line);
        let step: Result<(), ParseError> = if chars.len() == 0 {
            recording = false;
            Ok(())
        } else {
            let summary_chars = chars_of("summary:");
            let totals_chars = chars_of("totals:");
            let is_summary = chars_match_at(&chars, 0, &summary_chars);
            let is_totals = chars_match_at(&chars, 0, &totals_chars);
            if is_summary || is_totals {
                if total.is_some() {
                    Ok(())
                } else {
                    let cut: usize = if is_summary {
                        8
                    } else {
                        7
                    };
                    let tail = line.substring_char(cut, chars.len());
                    assert(tail@ =~= line@.skip(cut as int));
                    let numbers = tokenize(tail);
                    assert(views(numbers@).skip(0) =~= views(numbers@));
                    match add_counts(zero_costs(&events), &events, &numbers, 0) {
                        Ok(costs) => {
                            total = Some(costs);
                            Ok(())
                        },
                        Err(e) => Err(e),
                    }
                }
            } else if !recording {
                let fn_chars = chars_of("fn=");
                if chars_match_at(&chars, 0, &fn_chars) {
                    let context = String::from_str(line.substring_char(3, chars.len()));
                    assert(context@ =~= line@.skip(3));
                    let record = CostRecord { context, costs: zero_costs(&events) };
                    let ghost before = records@;
                    records.push(record);
                    assert(record_views(records@) =~= record_views(before).push(
                        (record.context@, record.costs.values@),
                    ));
                    recording = true;
                }
                Ok(())
            } else if chars[0] >= '0' && chars[0] <= '9' && records.len() > 0 {
                let words = tokenize(line);
                let from = if positions <= words.len() {
                    positions
                } else {
                    words.len()
                };
                proof {
                    if positions > words@.len() {
                        assert(views(words@).skip(from as int) =~= Seq::<Seq<char>>::empty());
                    }
                }
                let ghost before = records@;
                let last_index = records.len() - 1;
                match add_counts(records[last_index].costs, &events, &words, from) {
                    Ok(costs) => {
                        let record = records.pop().unwrap();
                        let updated = CostRecord { context: record.context, costs };
                        records.push(updated);
                        assert(record_views(records@) =~= record_views(before).drop_last().push(
                            (record_views(before).last().0, costs.values@),
                        ));
                        Ok(())
                    },
                    Err(e) => Err(e),
                }
            } else {
                Ok(())
            }
        };
        match step {
            Ok(()) => {},
            Err(e) => {
                proof {
                    assert(body_fold(events@, positions as nat, body.take(at + 1)) == Err::<
                        BodyState,
                        ParseError,
                    >(e));
                    lemma_body_fold_error(events@, positions as nat, body, at + 1);
                }
                return Err(e);
            },
        }
        k += 1;
    }
    assert(body.take(n - start) == body);
    Ok(CostTable { events, total, records })
}

/// Where the first `k` lines do not list the events, at least `k` lines lead.
pub proof fn lemma_plain_lines_reach(lines: Seq<Seq<char>>, k: int)
    requires
        0 <= k <= lines.len(),
        forall|j: int| 0 <= j < k ==> !is_events_line(lines[j]),
    ensures
        k <= leading_plain_lines(lines) <= lines.len(),
    decreases lines.len(),
{
    if lines.len() > 0 && !is_events_line(lines[0]) {
        let t = lines.skip(1);
        if k > 0 {
            assert forall|j: int| 0 <= j < k - 1 implies !is_events_line(t[j]) by {
                assert(t[j] == lines[j + 1]);
            }
            lemma_plain_lines_reach(t, k - 1);
        } else {
            lemma_plain_lines_reach(t, 0);
        }
    }
}

/// The call context that bounds what is attributed to the benchmark: the records whose context
/// ends with it count, the rest is the profiler's own cost before the benchmark begins.
#[derive(Debug, PartialEq, Eq)]
pub struct Sentinel(pub String);

impl View for Sentinel {
    type V = Seq<char>;

    open spec fn view(&self) -> Seq<char> {
        self.0@
    }
}

impl Clone for Sentinel {
    fn clone(&self) -> (r: Self)
        ensures
            r@ == self@,
    {
        Sentinel(self.0.clone())
    }
}

impl Sentinel {
    /// The sentinel for the call context that ends with `context`.
    pub fn new(context: &str) -> (r: Self)
        ensures
            r@ == context@,
    {
        Sentinel(String::from_str(context))
    }

    /// Whether the call context `context` ends with this sentinel.
    pub fn matches(&self, context: &str) -> (r: bool)
        ensures
            r == is_suffix(self@, context@),
    {
        ends_with(context, self.0.as_str())
    }
}

/// The sum of the counts of the records whose context ends with `sentinel`, on top of zero
/// for each of `events`.
pub open spec fn sentinel_counts(
    events: Seq<EventKind>,
    records: Seq<(Seq<char>, Counts)>,
    sentinel: Seq<char>,
) -> Result<Counts, ParseError>
    decreases records.len(),
{
    if records.len() == 0 {
        Ok(zero_counts(events))
    } else {
        match sentinel_counts(events, records.drop_last(), sentinel) {
            Err(e) => Err(e),
            Ok(sum) => if !is_suffix(sentinel, records.last().0) {
                Ok(sum)
            } else if counts_fit(sum, records.last().1) {
                Ok(merged_counts(sum, records.last().1))
            } else {
                Err(ParseError::Overflow)
            },
        }
    }
}

/// Once a sum has gone beyond 64 bits, the rest of the records does not mend it.
pub proof fn lemma_sentinel_counts_error(
    events: Seq<EventKind>,
    records: Seq<(Seq<char>, Counts)>,
    sentinel: Seq<char>,
    k: int,
)
    requires
        0 <= k <= records.len(),
        sentinel_counts(events, records.take(k), sentinel) is Err,
    ensures
        sentinel_counts(events, records, sentinel) == sentinel_counts(
            events,
            records.take(k),
            sentinel,
        ),
    decreases records.len() - k,
{
    if k < records.len() {
        assert(records.take(k + 1).drop_last() == records.take(k));
        lemma_sentinel_counts_error(events, records, sentinel, k + 1);
    } else {
        assert(records.take(k) == records);
    }
}

/// The two tables as one: the events and the records of the first and then of the second, and
/// the sum of the totals that are there.
pub open spec fn merged_tables(a: CostTableView, b: CostTableView) -> Result<
    CostTableView,
    ParseError,
> {
    match (a.total, b.total) {
        (Some(x), Some(y)) => if counts_fit(x, y) {
            Ok(
                CostTableView {
                    events: a.events + b.events,
                    total: Some(merged_counts(x, y)),
                    records: a.records + b.records,
                },
            )
        } else {
            Err(ParseError::Overflow)
        },
        (Some(x), None) => Ok(
            CostTableView {
                events: a.events + b.events,
                total: Some(x),
                records: a.records + b.records,
            },
        ),
        (None, total) => Ok(
            CostTableView { events: a.events + b.events, total, records: a.records + b.records },
        ),
    }
}

/// The tables of the files as one, merged in the order of the files.
pub open spec fn parsed_files(files: Seq<Seq<Seq<char>>>) -> Result<CostTableView, ParseError>
    decreases files.len(),
{
    if files.len() == 0 {
        Err(ParseError::EmptyFile)
    } else if files.len() == 1 {
        parsed(files[0])
    } else {
        match (parsed_files(files.drop_last()), parsed(files.last())) {
            (Err(e), _) => Err(e),
            (Ok(_), Err(e)) => Err(e),
            (Ok(a), Ok(b)) => merged_tables(a, b),
        }
    }
}

/// Once a file has failed, the rest of the files does not mend it.
pub proof fn lemma_parsed_files_error(files: Seq<Seq<Seq<char>>>, k: int)
    requires
        1 <= k <= files.len(),
        parsed_files(files.take(k)) is Err,
    ensures
        parsed_files(files) == parsed_files(files.take(k)),
    decreases files.len() - k,
{
    if k < files.len() {
        assert(files.take(k + 1).drop_last() == files.take(k));
        lemma_parsed_files_error(files, k + 1);
    } else {
        assert(files.take(k) == files);
    }
}

/// The views of the lines of each file.
pub open spec fn file_views(files: Seq<Vec<String>>) -> Seq<Seq<Seq<char>>> {
    files.map_values(|f: Vec<String>| views(f@))
}

impl CostTable {
    /// The counts of the whole run, as the output states them.
    pub fn total_costs(&self) -> (r: Result<Costs, ParseError>)
        ensures
            match self.total {
                Some(costs) => r == Ok::<Costs, ParseError>(costs),
                None => r == Err::<Costs, ParseError>(ParseError::MissingTotals),
            },
    {
        match self.total {
            Some(costs) => Ok(costs),
            None => Err(ParseError::MissingTotals),
        }
    }

    /// The counts that are attributed to the benchmark: the sum of the records whose call
    /// context ends with `sentinel`. Without such a record every event of the table has the
    /// count zero.
    pub fn costs_of(&self, sentinel: &Sentinel) -> (r: Result<Costs, ParseError>)
        ensures
            match sentinel_counts(self@.events, self@.records, sentinel@) {
                Ok(counts) => r is Ok && r->Ok_0.values@ == counts,
                Err(e) => r == Err::<Costs, ParseError>(e),
            },
    {
        let mut sum = zero_costs(&self.events);
        let mut i: usize = 0;
        let ghost records = record_views(self.records@);
        assert(records.take(0) =~= Seq::<(Seq<char>, Counts)>::empty());
        while i < self.records.len()
            invariant
                i <= self.records.len(),
                records == record_views(self.records@),
                sentinel_counts(self.events@, records.take(i as int), sentinel@) == Ok::<
                    Counts,
                    ParseError,
                >(sum.values@),
            decreases self.records.len() - i,
        {
            proof {
                assert(records.take(i + 1).drop_last() == records.take(i as int));
                assert(records.take(i + 1).last() == (
                    self.records@[i as int].context@,
                    self.records@[i as int].costs.values@,
                ));
            }
            if sentinel.matches(self.records[i].context.as_str()) {
                let ghost before = sum;
                proof {
                    lemma_sum_by_place(before, self.records@[i as int].costs);
                }
                match sum.add(&self.records[i].costs) {
                    Ok(()) => {
                        assert(is_sum_of(sum, before, self.records@[i as int].costs));
                    },
                    Err(_) => {
                        proof {
                            lemma_sentinel_counts_error(self.events@, records, sentinel@, i + 1);
                        }
                        return Err(ParseError::Overflow);
                    },
                }
            }
            i += 1;
        }
        assert(records.take(records.len() as int) == records);
        Ok(sum)
    }

    /// Adds the records, the events and the total of `other` to this table.
    ///
    /// Fails where the two totals add up to more than 64 bits.
    pub fn merge(self, other: CostTable) -> (r: Result<CostTable, ParseError>)
        ensures
            match merged_tables(self@, other@) {
                Ok(table) => r is Ok && r->Ok_0@ == table,
                Err(e) => r == Err::<CostTable, ParseError>(e),
            },
    {
        let total = match (self.total, other.total) {
            (Some(x), Some(y)) => {
                let mut sum = x;
                proof {
                    lemma_sum_by_place(x, y);
                }
                match sum.add(&y) {
                    Ok(()) => {
                        assert(is_sum_of(sum, x, y));
                        Some(sum)
                    },
                    Err(_) => {
                        return Err(ParseError::Overflow);
                    },
                }
            },
            (Some(x), None) => Some(x),
            (None, total) => total,
        };
        let mut events = self.events;
        let mut other_events = other.events;
        let mut records = self.records;
        let mut other_records = other.records;
        let ghost first = records@;
        let ghost second = other_records@;
        events.append(&mut other_events);
        records.append(&mut other_records);
        assert(record_views(records@) =~= record_views(first) + record_views(second));
        Ok(CostTable { events, total, records })
    }
}

/// The table of the counts of a run whose output is split across `files`, each given by its
/// lines: the tables of the files, merged in their order.
///
/// Fails where there is no file, where a file does not follow the grammar, and where the
/// totals add up to more than 64 bits.
pub fn parse(files: &Vec<Vec<String>>) -> (r: Result<CostTable, ParseError>)
    ensures
        match parsed_files(file_views(files@)) {
            Ok(table) => r is Ok && r->Ok_0@ == table,
            Err(e) => r == Err::<CostTable, ParseError>(e),
        },
{
    let ghost all = file_views(files@);
    if files.len() == 0 {
        return Err(ParseError::EmptyFile);
    }
    assert(all.take(1) =~= seq![all[0]]);
    let mut table = match parse_table(&files[0]) {
        Ok(table) => table,
        Err(e) => {
            proof {
                lemma_parsed_files_error(all, 1);
            }
            return Err(e);
        },
    };
    let mut i: usize = 1;
    while i < files.len()
        invariant
            1 <= i <= files.len(),
            all == file_views(files@),
            parsed_files(all.take(i as int)) == Ok::<CostTableView, ParseError>(table@),
        decreases files.len() - i,
    {
        proof {
            assert(all.take(i + 1).drop_last() == all.take(i as int));
            assert(all.take(i + 1).last() == views(files@[i as int]@));
        }
        let next = parse_table(&files[i]);
        let merged = match next {
            Ok(other) => table.merge(other),
            Err(e) => Err(e),
        };
        match merged {
            Ok(both) => {
                table = both;
            },
            Err(e) => {
                proof {
                    lemma_parsed_files_error(all, i + 1);
                }
                return Err(e);
            },
        }
        i += 1;
    }
    assert(all.take(all.len() as int) == all);
    Ok(table)
}

/// Whether every kind of `events` is measured.
pub open spec fn all_measured(events: Seq<EventKind>) -> bool {
    forall|i: int| 0 <= i < events.len() ==> !(#[trigger] events[i]).spec_is_derived()
}

/// Whether the counts hold a count for kinds of `events` only.
pub open spec fn counts_within(counts: Counts, events: Seq<EventKind>) -> bool {
    &&& counts.len() == EVENT_KINDS
    &&& forall|i: int|
        0 <= i < EVENT_KINDS && (#[trigger] counts[i]) is Some ==> events.contains(
            EventKind::spec_from_index(i),
        )
}

/// Whether the counts of the body hold a count for kinds of `events` only.
pub open spec fn body_within(state: BodyState, events: Seq<EventKind>) -> bool {
    &&& state.total matches Some(total) ==> counts_within(total, events)
    &&& forall|i: int|
        0 <= i < state.records.len() ==> counts_within((#[trigger] state.records[i]).1, events)
}

/// The kinds that a header lists are measured.
pub proof fn lemma_measured_kinds(names: Seq<Seq<char>>)
    ensures
        measured_kinds(names) matches Some(kinds) ==> all_measured(kinds),
    decreases names.len(),
{
    if names.len() > 0 {
        lemma_measured_kinds(names.drop_last());
    }
}

/// The events of a header are measured.
pub proof fn lemma_header_events_measured(lines: Seq<Seq<char>>)
    ensures
        header_fold(lines) matches Ok(state) ==> (state.events matches Some(events)
            ==> all_measured(events)),
    decreases lines.len(),
{
    if lines.len() > 0 {
        lemma_header_events_measured(lines.drop_last());
        match header_fold(lines.drop_last()) {
            Ok(state) => {
                let line = lines.last();
                let colon = first_index(line, ':');
                if 0 <= colon < line.len() {
                    lemma_measured_kinds(tokens(line.skip(colon + 1)));
                }
            },
            Err(_) => {},
        }
    }
}

/// Adding the numbers of a line keeps the counts within the events.
pub proof fn lemma_counts_added_within(
    counts: Counts,
    events: Seq<EventKind>,
    numbers: Seq<Seq<char>>,
    n: nat,
)
    requires
        counts_within(counts, events),
        n <= events.len(),
    ensures
        counts_added(counts, events, numbers, n) matches Ok(after) ==> counts_within(after, events),
    decreases n,
{
    if n > 0 {
        lemma_counts_added_within(counts, events, numbers, (n - 1) as nat);
        lemma_index_injective();
        match counts_added(counts, events, numbers, (n - 1) as nat) {
            Ok(before) => {
                let kind = events[n - 1];
                match counts_added(counts, events, numbers, n) {
                    Ok(after) => {
                        assert forall|i: int|
                            0 <= i < EVENT_KINDS && (#[trigger] after[i]) is Some implies events.contains(
                            EventKind::spec_from_index(i),
                        ) by {
                            if i == kind.spec_index() {
                                assert(EventKind::spec_from_index(i) == kind);
                            } else {
                                assert(after[i] == before[i]);
                            }
                        }
                    },
                    Err(_) => {},
                }
            },
            Err(_) => {},
        }
    }
}

/// The counts of a body stay within the events.
pub proof fn lemma_body_within(events: Seq<EventKind>, positions: nat, lines: Seq<Seq<char>>)
    ensures
        body_fold(events, positions, lines) matches Ok(state) ==> body_within(state, events),
    decreases lines.len(),
{
    if lines.len() > 0 {
        lemma_body_within(events, positions, lines.drop_last());
        match body_fold(events, positions, lines.drop_last()) {
            Ok(before) => {
                let line = trim_start(lines.last());
                let zero = zero_counts(events);
                assert(counts_within(zero, events));
                let totals = total_numbers(line);
                lemma_counts_added_within(zero, events, totals, columns(events, totals));
                let numbers = numbers_of(line, positions);
                if before.records.len() > 0 {
                    lemma_counts_added_within(
                        before.records.last().1,
                        events,
                        numbers,
                        columns(events, numbers),
                    );
                }
                match body_step(events, positions, before, lines.last()) {
                    Ok(after) => {
                        assert forall|i: int| 0 <= i < after.records.len() implies counts_within(
                            (#[trigger] after.records[i]).1,
                            events,
                        ) by {
                            if i < before.records.len() - 1 {
                                assert(after.records[i] == before.records[i]);
                            } else if i < before.records.len() && after.records.len()
                                > before.records.len() {
                                assert(after.records[i] == before.records[i]);
                            }
                        }
                    },
                    Err(_) => {},
                }
            },
            Err(_) => {},
        }
    }
}

/// A table that was read from a file holds measured kinds only: no count of it, neither the
/// total nor that of a call context, is one of a derived kind.
pub proof fn lemma_parsed_is_measured_only(lines: Seq<Seq<char>>, kind: EventKind)
    requires
        parsed(lines) is Ok,
        kind.spec_is_derived(),
    ensures
        ({
            let table = parsed(lines)->Ok_0;
            &&& table.total matches Some(total) ==> total[kind.spec_index()] is None
            &&& forall|i: int|
                0 <= i < table.records.len() ==> (#[trigger] table.records[i]).1[kind.spec_index()] is None
        }),
{
    let header = header_fold(header_lines(lines))->Ok_0;
    let events = header.events->0;
    lemma_header_events_measured(header_lines(lines));
    lemma_body_within(events, header.positions, body_lines(lines));
    lemma_index_injective();
    let table = parsed(lines)->Ok_0;
    let place = kind.spec_index();
    assert(!events.contains(kind)) by {
        if events.contains(kind) {
            let i = choose|i: int| 0 <= i < events.len() && events[i] == kind;
            assert(!events[i].spec_is_derived());
        }
    }
    assert(EventKind::spec_from_index(place) == kind);
    if table.total is Some {
        assert(counts_within(table.total->0, events));
    }
    assert forall|i: int| 0 <= i < table.records.len() implies (
    #[trigger] table.records[i]).1[place] is None by {
        assert(counts_within(table.records[i].1, events));
    }
}

/// A way to read what a run wrote, from the lines of its files.
pub trait Parser {
    /// What the parser gives.
    type Output;

    /// What the files say, or why they say nothing.
    fn parse(&self, files: &Vec<Vec<String>>) -> (r: Result<Self::Output, ParseError>);
}

/// Reads the counts that are attributed to the benchmark: those of the records whose call
/// context ends with the sentinel.
#[derive(Debug, PartialEq, Eq)]
pub struct SentinelParser {
    pub sentinel: Sentinel,
}

/// Reads the counts of the whole run, as the files state them.
#[derive(Debug, PartialEq, Eq)]
pub struct SummaryParser;

/// The counts of the sentinel in the tables of the files.
pub open spec fn parsed_sentinel(files: Seq<Seq<Seq<char>>>, sentinel: Seq<char>) -> Result<
    Counts,
    ParseError,
> {
    match parsed_files(files) {
        Ok(table) => sentinel_counts(table.events, table.records, sentinel),
        Err(e) => Err(e),
    }
}

/// The counts of the whole run in the tables of the files.
pub open spec fn parsed_total(files: Seq<Seq<Seq<char>>>) -> Result<Counts, ParseError> {
    match parsed_files(files) {
        Ok(table) => match table.total {
            Some(total) => Ok(total),
            None => Err(ParseError::MissingTotals),
        },
        Err(e) => Err(e),
    }
}

impl Parser for SentinelParser {
    type Output = Costs;

    fn parse(&self, files: &Vec<Vec<String>>) -> (r: Result<Costs, ParseError>)
        ensures
            match parsed_sentinel(file_views(files@), self.sentinel@) {
                Ok(counts) => r is Ok && r->Ok_0.values@ == counts,
                Err(e) => r == Err::<Costs, ParseError>(e),
            },
    {
        match parse(files) {
            Ok(table) => table.costs_of(&self.sentinel),
            Err(e) => Err(e),
        }
    }
}

impl Parser for SummaryParser {
    type Output = Costs;

    fn parse(&self, files: &Vec<Vec<String>>) -> (r: Result<Costs, ParseError>)
        ensures
            match parsed_total(file_views(files@)) {
                Ok(counts) => r is Ok && r->Ok_0.values@ == counts,
                Err(e) => r == Err::<Costs, ParseError>(e),
            },
    {
        match parse(files) {
            Ok(table) => table.total_costs(),
            Err(e) => Err(e),
        }
    }
}

} // verus!
