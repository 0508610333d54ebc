//! From tables of counts to the folded stacks of flame graphs, regular and differential.

use vstd::prelude::*;
use vstd::string::*;

use crate::api;
use crate::common::{FileAction, FileActionView, action_views};
use crate::costs::{
    Costs, CostsError, EventKind, derivation_fits, has_cache_events, is_summary_of,
    summary_obstacle,
};
use crate::flamegraph_path::{OutputPath, OutputPathView, matching_diffs, removals_of};
use crate::parser::{
    CostRecord, CostTable, Counts, ParseError, Parser, Sentinel, file_views, parse, parsed_files,
    record_views,
};
use crate::text::{
    chars_of, clone_option, concat3, decimal, decimal_string, find_char, first_index, is_digit,
    is_suffix, join, joined, lemma_decimal_round_trip, lemma_first_index, lemma_lines_of_appended,
    lemma_lines_of_line, lines_of, option_view, reverse_chain, reversed_chain, split_lines,
    trimmed_end, views,
};
use crate::tool_path::{BaselineKind, BaselineName, ToolOutputPath};

verus! {

/// The way the stacks of a rendered flame graph grow.
#[derive(Debug, Clone, Copy, PartialEq, Eq, Structural)]
pub enum Direction {
    /// From the bottom up.
    Straight,
    /// From the top down.
    Inverted,
}

impl Direction {
    /// The direction that the description asks for.
    pub open spec fn spec_from_api(value: api::Direction) -> Direction {
        match value {
            api::Direction::TopToBottom => Direction::Inverted,
            api::Direction::BottomToTop => Direction::Straight,
        }
    }

    /// The direction that the description asks for.
    pub fn from_api(value: api::Direction) -> (r: Direction)
        ensures
            r == Direction::spec_from_api(value),
    {
        match value {
            api::Direction::TopToBottom => Direction::Inverted,
            api::Direction::BottomToTop => Direction::Straight,
        }
    }
}

/// The settled wishes for the flame graphs of a benchmark.
#[derive(Debug, PartialEq, Eq)]
pub struct Config {
    pub kind: api::FlamegraphKind,
    pub negate_differential: bool,
    pub normalize_differential: bool,
    pub event_kinds: Vec<EventKind>,
    pub direction: Direction,
    pub title: Option<String>,
    pub subtitle: Option<String>,
    /// The least width of a frame that is shown, in thousandths of a percent of the width
    /// of the graph.
    pub min_width: u32,
}

/// The least width of a frame where the description names none: a tenth of a percent.
pub const DEFAULT_MIN_WIDTH: u32 = 100;

fn clone_kinds(v: &Vec<EventKind>) -> (r: Vec<EventKind>)
    ensures
        r@ == v@,
{
    let mut r: Vec<EventKind> = Vec::new();
    let mut i: usize = 0;
    while i < v.len()
        invariant
            i <= v.len(),
            r@ == v@.take(i as int),
        decreases v.len() - i,
    {
        r.push(v[i]);
        assert(v@.take(i + 1) == v@.take(i as int).push(v@[i as int]));
        i += 1;
    }
    assert(v@.take(v@.len() as int) == v@);
    r
}

impl Clone for Config {
    fn clone(&self) -> (r: Self)
        ensures
            r.same_as(*self),
    {
        Config {
            kind: self.kind,
            negate_differential: self.negate_differential,
            normalize_differential: self.normalize_differential,
            event_kinds: clone_kinds(&self.event_kinds),
            direction: self.direction,
            title: clone_option(&self.title),
            subtitle: clone_option(&self.subtitle),
            min_width: self.min_width,
        }
    }
}

impl Config {
    /// Whether the two configurations say the same.
    pub open spec fn same_as(self, other: Config) -> bool {
        &&& self.kind == other.kind
        &&& self.negate_differential == other.negate_differential
        &&& self.normalize_differential == other.normalize_differential
        &&& self.event_kinds@ == other.event_kinds@
        &&& self.direction == other.direction
        &&& option_view(self.title) == option_view(other.title)
        &&& option_view(self.subtitle) == option_view(other.subtitle)
        &&& self.min_width == other.min_width
    }

    /// The settled wishes for a description: all graphs, of the estimated cycles, from the
    /// top down, neither negated nor normalized, with frames from a tenth of a percent on,
    /// unless the description says otherwise.
    pub fn from_api(value: api::FlamegraphConfig) -> (r: Self)
        ensures
            r.kind == match value.kind {
                Some(kind) => kind,
                None => api::FlamegraphKind::All,
            },
            r.negate_differential == (value.negate_differential == Some(true)),
            r.normalize_differential == (value.normalize_differential == Some(true)),
            r.event_kinds@ == match value.event_kinds {
                Some(kinds) => kinds@,
                None => seq![EventKind::EstimatedCycles],
            },
            r.direction == match value.direction {
                Some(direction) => Direction::spec_from_api(direction),
                None => Direction::Inverted,
            },
            option_view(r.title) == option_view(value.title),
            option_view(r.subtitle) == option_view(value.subtitle),
            r.min_width == match value.min_width {
                Some(width) => width,
                None => DEFAULT_MIN_WIDTH,
            },
    {
        Config {
            kind: match value.kind {
                Some(kind) => kind,
                None => api::FlamegraphKind::All,
            },
            negate_differential: match value.negate_differential {
                Some(b) => b,
                None => false,
            },
            normalize_differential: match value.normalize_differential {
                Some(b) => b,
                None => false,
            },
            event_kinds: match value.event_kinds {
                Some(kinds) => kinds,
                None => {
                    let mut kinds: Vec<EventKind> = Vec::new();
                    kinds.push(EventKind::EstimatedCycles);
                    assert(kinds@ =~= seq![EventKind::EstimatedCycles]);
                    kinds
                },
            },
            direction: match value.direction {
                Some(direction) => Direction::from_api(direction),
                None => Direction::Inverted,
            },
            title: value.title,
            subtitle: value.subtitle,
            min_width: match value.min_width {
                Some(width) => width,
                None => DEFAULT_MIN_WIDTH,
            },
        }
    }
}

/// The flame graphs of one benchmark, with their title settled.
#[derive(Debug, PartialEq, Eq)]
pub struct Flamegraph {
    pub config: Config,
}

/// The title of the graphs of a benchmark with the given heading.
pub open spec fn title_of(
    heading: Seq<char>,
    title: Option<Seq<char>>,
    subtitle: Option<Seq<char>>,
) -> Seq<char> {
    match (title, subtitle) {
        (None, None) => if 0 <= first_index(heading, ' ') < heading.len() {
            heading.take(first_index(heading, ' '))
        } else {
            heading
        },
        (None, Some(_)) => heading,
        (Some(t), _) => t,
    }
}

/// The subtitle of the graphs of a benchmark with the given heading.
pub open spec fn subtitle_of(
    heading: Seq<char>,
    title: Option<Seq<char>>,
    subtitle: Option<Seq<char>>,
) -> Option<Seq<char>> {
    match (title, subtitle) {
        (None, None) => if 0 <= first_index(heading, ' ') < heading.len() {
            Some(heading.skip(first_index(heading, ' ') + 1))
        } else {
            None
        },
        (Some(_), None) => Some(heading),
        (_, Some(s)) => Some(s),
    }
}

/// What the renderer is told.
#[derive(Debug, PartialEq, Eq)]
pub struct FlamegraphOptions {
    pub negate_differentials: bool,
    pub direction: Direction,
    pub title: String,
    pub subtitle: Option<String>,
    /// The least width of a frame that is shown, in thousandths of a percent of the width
    /// of the graph.
    pub min_width: u32,
}

/// What the computation of a differential corpus is told.
#[derive(Debug, Clone, Copy, PartialEq, Eq, Structural)]
pub struct DifferentialOptions {
    pub normalize: bool,
}

impl Flamegraph {
    /// Whether a differential graph is wanted.
    pub open spec fn spec_is_differential(self) -> bool {
        self.config.kind is Differential || self.config.kind is All
    }

    /// Whether a regular graph is wanted.
    pub open spec fn spec_is_regular(self) -> bool {
        self.config.kind is Regular || self.config.kind is All
    }

    /// The graphs of the benchmark with the given heading.
    ///
    /// Where the configuration has no title, the heading gives it: its first word where there
    /// is no subtitle either, and the rest of the heading is the subtitle then. Where there
    /// is a title and no subtitle, the heading is the subtitle.
    pub fn new(heading: String, config: Config) -> (r: Self)
        ensures
            option_view(r.config.title) == Some(
                title_of(heading@, option_view(config.title), option_view(config.subtitle)),
            ),
            option_view(r.config.subtitle) == subtitle_of(
                heading@,
                option_view(config.title),
                option_view(config.subtitle),
            ),
            r.config.kind == config.kind,
            r.config.negate_differential == config.negate_differential,
            r.config.normalize_differential == config.normalize_differential,
            r.config.event_kinds@ == config.event_kinds@,
            r.config.direction == config.direction,
            r.config.min_width == config.min_width,
    {
        let mut config = config;
        let mut old_title: Option<String> = None;
        let mut old_subtitle: Option<String> = None;
        std::mem::swap(&mut config.title, &mut old_title);
        std::mem::swap(&mut config.subtitle, &mut old_subtitle);
        let (title, subtitle) = match (old_title, old_subtitle) {
            (None, None) => {
                let chars = chars_of(heading.as_str());
                let len = chars.len();
                match find_char(&chars, ' ') {
                    Some(space) => {
                        let first = String::from_str(heading.as_str().substring_char(0, space));
                        let rest = String::from_str(
                            heading.as_str().substring_char(space + 1, len),
                        );
                        assert(first@ =~= heading@.take(space as int));
                        assert(rest@ =~= heading@.skip(space + 1));
                        (first, Some(rest))
                    },
                    None => (heading, None),
                }
            },
            (None, Some(s)) => (heading, Some(s)),
            (Some(t), None) => (t, Some(heading)),
            (Some(t), Some(s)) => (t, Some(s)),
        };
        config.title = Some(title);
        config.subtitle = subtitle;
        Flamegraph { config }
    }

    /// Whether a differential graph is wanted.
    pub fn is_differential(&self) -> (r: bool)
        ensures
            r == self.spec_is_differential(),
    {
        matches!(self.config.kind, api::FlamegraphKind::Differential | api::FlamegraphKind::All)
    }

    /// Whether a regular graph is wanted.
    pub fn is_regular(&self) -> (r: bool)
        ensures
            r == self.spec_is_regular(),
    {
        matches!(self.config.kind, api::FlamegraphKind::Regular | api::FlamegraphKind::All)
    }

    /// What the renderer is told. There is nothing to tell where the title is not settled,
    /// as `new` settles it.
    pub fn options(&self) -> (r: Option<FlamegraphOptions>)
        ensures
            r is Some <==> self.config.title is Some,
            r is Some ==> r->0.negate_differentials == self.config.negate_differential
                && r->0.direction == self.config.direction && Some(r->0.title@) == option_view(
                self.config.title,
            ) && option_view(r->0.subtitle) == option_view(self.config.subtitle)
                && r->0.min_width == self.config.min_width,
    {
        match &self.config.title {
            Some(title) => Some(
                FlamegraphOptions {
                    negate_differentials: self.config.negate_differential,
                    direction: self.config.direction,
                    title: title.clone(),
                    subtitle: clone_option(&self.config.subtitle),
                    min_width: self.config.min_width,
                },
            ),
            None => None,
        }
    }

    /// What the computation of the differential corpus is told, where a differential graph
    /// is wanted.
    pub fn differential_options(&self) -> (r: Option<DifferentialOptions>)
        ensures
            r == if self.spec_is_differential() {
                Some(DifferentialOptions { normalize: self.config.normalize_differential })
            } else {
                None
            },
    {
        if self.is_differential() {
            Some(DifferentialOptions { normalize: self.config.normalize_differential })
        } else {
            None
        }
    }

    /// Whether the table of the baseline has to be read as well: where a differential graph
    /// is wanted and allowed, and the baseline's file is there.
    pub fn needs_base(&self, no_differential: bool, base_exists: bool) -> (r: bool)
        ensures
            r == (!no_differential && self.spec_is_differential() && base_exists),
    {
        !no_differential && self.is_differential() && base_exists
    }

    /// Whether the derived kinds have to be computed: where one of the wanted kinds is
    /// derived.
    pub fn needs_summary(&self) -> (r: bool)
        ensures
            r == exists|i: int|
                0 <= i < self.config.event_kinds@.len()
                    && (#[trigger] self.config.event_kinds@[i]).spec_is_derived(),
    {
        let mut i: usize = 0;
        while i < self.config.event_kinds.len()
            invariant
                i <= self.config.event_kinds.len(),
                forall|j: int| 0 <= j < i ==> !(#[trigger] self.config.event_kinds@[j]).spec_is_derived(),
            decreases self.config.event_kinds.len() - i,
        {
            if self.config.event_kinds[i].is_derived() {
                return true;
            }
            i += 1;
        }
        false
    }
}

/// What went wrong on the way to a flame graph.
#[derive(Debug, Clone, Copy, PartialEq, Eq, Structural)]
pub enum FlamegraphError {
    /// A corpus of stacks is empty: there is nothing to draw.
    NoStacks,
    /// A table lacks counts that are needed.
    Costs(CostsError),
    /// The counts of a corpus add up to more than the machine can count.
    TooManySamples,
    /// A differential graph was asked for, and there is no table of the baseline.
    MissingBase,
    /// The name of a stack holds a line feed, so that it cannot stand on one line.
    InvalidStack,
    /// The differential corpus could not be computed.
    Differential,
}

impl FlamegraphError {
    /// What the error says, in words.
    pub open spec fn spec_message(self) -> Seq<char> {
        match self {
            FlamegraphError::NoStacks => "Unable to create a flamegraph: No stacks found"@,
            FlamegraphError::Costs(_) => "Unable to create a flamegraph: Missing event counts"@,
            FlamegraphError::TooManySamples => "Unable to create a flamegraph: Too many samples"@,
            FlamegraphError::MissingBase => "Unable to create a flamegraph: No baseline found"@,
            FlamegraphError::InvalidStack => "Unable to create a flamegraph: Invalid stack name"@,
            FlamegraphError::Differential => "Failed creating a differential flamegraph"@,
        }
    }

    /// What the error says, in words.
    pub fn message(&self) -> (r: String)
        ensures
            r@ == self.spec_message(),
    {
        let text = match self {
            FlamegraphError::NoStacks => "Unable to create a flamegraph: No stacks found",
            FlamegraphError::Costs(_) => "Unable to create a flamegraph: Missing event counts",
            FlamegraphError::TooManySamples => "Unable to create a flamegraph: Too many samples",
            FlamegraphError::MissingBase => "Unable to create a flamegraph: No baseline found",
            FlamegraphError::InvalidStack => "Unable to create a flamegraph: Invalid stack name",
            FlamegraphError::Differential => "Failed creating a differential flamegraph",
        };
        String::from_str(text)
    }
}

/// Every error on the way to a flame graph says something.
pub proof fn lemma_flamegraph_error_is_descriptive(error: FlamegraphError)
    ensures
        error.spec_message().len() > 0,
{
    reveal_strlit("Unable to create a flamegraph: No stacks found");
    reveal_strlit("Unable to create a flamegraph: Missing event counts");
    reveal_strlit("Unable to create a flamegraph: Too many samples");
    reveal_strlit("Unable to create a flamegraph: No baseline found");
    reveal_strlit("Unable to create a flamegraph: Invalid stack name");
    reveal_strlit("Failed creating a differential flamegraph");
}

/// The mark between a function and its caller in the name of a call context.
pub open spec fn caller_mark() -> char {
    '\''
}

/// The folded stack of a call context: the functions of the context from the outermost caller
/// to the innermost function, with a semicolon between each two.
pub open spec fn folded(context: Seq<char>) -> Seq<char> {
    reversed_chain(context, caller_mark(), seq![';'])
}

/// The records whose context ends with the sentinel, where one is given, each with its
/// context folded.
pub open spec fn folded_records(records: Seq<(Seq<char>, Counts)>, sentinel: Option<Seq<char>>) -> Seq<
    (Seq<char>, Counts),
>
    decreases records.len(),
{
    if records.len() == 0 {
        Seq::empty()
    } else {
        let rest = folded_records(records.drop_last(), sentinel);
        let last = records.last();
        if sentinel is None || is_suffix(sentinel->0, last.0) {
            rest.push((folded(last.0), last.1))
        } else {
            rest
        }
    }
}

/// The line of a folded stack with its count.
pub open spec fn stack_line(stack: Seq<char>, count: u64) -> Seq<char> {
    stack + seq![' '] + decimal(count as nat)
}

/// Whether each of the stacks has a count of `kind`.
pub open spec fn all_have(stacks: Seq<(Seq<char>, Counts)>, kind: EventKind) -> bool {
    forall|i: int| 0 <= i < stacks.len() ==> (#[trigger] stacks[i]).1[kind.spec_index()] is Some
}

/// The stacks with their counts of `kind`.
pub open spec fn stack_counts(stacks: Seq<(Seq<char>, Counts)>, kind: EventKind) -> Seq<
    (Seq<char>, u64),
> {
    stacks.map_values(|s: (Seq<char>, Counts)| (s.0, s.1[kind.spec_index()]->0))
}

/// The corpus of folded stacks with their counts of `kind`, one line for each stack.
pub open spec fn stack_lines(stacks: Seq<(Seq<char>, Counts)>, kind: EventKind) -> Seq<Seq<char>> {
    stacks.map_values(|s: (Seq<char>, Counts)| stack_line(s.0, s.1[kind.spec_index()]->0))
}

/// The views of stacks with counts.
pub open spec fn count_views(v: Seq<(String, u64)>) -> Seq<(Seq<char>, u64)> {
    v.map_values(|s: (String, u64)| (s.0@, s.1))
}

/// The sum of the counts of a corpus.
pub open spec fn total_count(counts: Seq<(Seq<char>, u64)>) -> nat
    decreases counts.len(),
{
    if counts.len() == 0 {
        0
    } else {
        total_count(counts.drop_last()) + counts.last().1 as nat
    }
}

/// Whether no stack of the corpus holds a line feed.
pub open spec fn on_single_lines(counts: Seq<(Seq<char>, u64)>) -> bool {
    forall|i: int| 0 <= i < counts.len() ==> !(#[trigger] counts[i]).0.contains('\n')
}

/// The lines of a corpus: for each stack the stack, a space and its count.
pub open spec fn corpus_lines(counts: Seq<(Seq<char>, u64)>) -> Seq<Seq<char>> {
    counts.map_values(|c: (Seq<char>, u64)| stack_line(c.0, c.1))
}

/// The text of a corpus: its lines with a line feed between each two.
pub open spec fn corpus_text(counts: Seq<(Seq<char>, u64)>) -> Seq<char> {
    joined(corpus_lines(counts), seq!['\n'])
}

/// Whether `text` is the text of a corpus whose stacks stand on one line each and whose
/// counts add up within the machine's word.
pub open spec fn is_bounded_corpus(text: Seq<char>) -> bool {
    exists|counts: Seq<(Seq<char>, u64)>|
        #[trigger] corpus_text(counts) == text && on_single_lines(counts) && total_count(counts)
            <= usize::MAX
}

/// Whether the derived kinds can be computed for every stack.
pub open spec fn can_summarize(stacks: Seq<CostRecord>) -> bool {
    forall|i: int|
        0 <= i < stacks.len() ==> has_cache_events((#[trigger] stacks[i]).costs) && derivation_fits(
            stacks[i].costs,
        )
}

/// Whether `error` is why the derived kinds cannot be computed for the first of the stacks
/// for which they cannot.
pub open spec fn is_first_summary_error(stacks: Seq<CostRecord>, error: CostsError) -> bool {
    exists|i: int|
        0 <= i < stacks.len() && can_summarize(stacks.take(i)) && #[trigger] summary_obstacle(
            stacks[i].costs,
        ) == Some(error)
}

/// Whether `after` holds the stacks of `before`, each with its derived kinds computed.
pub open spec fn is_summarized(after: Seq<CostRecord>, before: Seq<CostRecord>) -> bool {
    &&& after.len() == before.len()
    &&& forall|i: int|
        0 <= i < after.len() ==> (#[trigger] after[i]).context@ == before[i].context@ && is_summary_of(
            after[i].costs,
            before[i].costs,
        )
}

/// The folded stacks of a run, each with its counts.
#[derive(Debug, PartialEq, Eq)]
pub struct FlamegraphMap {
    pub stacks: Vec<CostRecord>,
}

impl View for FlamegraphMap {
    type V = Seq<(Seq<char>, Counts)>;

    open spec fn view(&self) -> Seq<(Seq<char>, Counts)> {
        record_views(self.stacks@)
    }
}

impl FlamegraphMap {
    /// The folded stacks of a table: one for each record, or for each record whose context
    /// ends with the sentinel, where one is given.
    pub fn from_table(table: &CostTable, sentinel: Option<&Sentinel>) -> (r: Self)
        ensures
            r@ == folded_records(
                table@.records,
                match sentinel {
                    Some(s) => Some(s@),
                    None => None,
                },
            ),
    {
        proof {
            reveal_strlit(";");
            assert(";"@ =~= seq![';']);
        }
        let ghost wanted = match sentinel {
            Some(s) => Some(s@),
            None => None,
        };
        let ghost records = record_views(table.records@);
        let mut stacks: Vec<CostRecord> = Vec::new();
        let mut i: usize = 0;
        assert(records.take(0) =~= Seq::<(Seq<char>, Counts)>::empty());
        assert(record_views(stacks@) =~= Seq::<(Seq<char>, Counts)>::empty());
        while i < table.records.len()
            invariant
                i <= table.records.len(),
                records == record_views(table.records@),
                ";"@ == seq![';'],
                wanted == match sentinel {
                    Some(s) => Some(s@),
                    None => None,
                },
                record_views(stacks@) == folded_records(records.take(i as int), wanted),
            decreases table.records.len() - i,
        {
            proof {
                assert(records.take(i + 1).drop_last() == records.take(i as int));
                assert(records.take(i + 1).last() == (
                    table.records@[i as int].context@,
                    table.records@[i as int].costs.values@,
                ));
            }
            let record = &table.records[i];
            let keep = match sentinel {
                Some(s) => s.matches(record.context.as_str()),
                None => true,
            };
            if keep {
                let stack = CostRecord {
                    context: reverse_chain(record.context.as_str(), '\'', ";"),
                    costs: record.costs,
                };
                let ghost before = stacks@;
                stacks.push(stack);
                assert(record_views(stacks@) =~= record_views(before).push(
                    (stack.context@, stack.costs.values@),
                ));
            }
            i += 1;
        }
        assert(records.take(records.len() as int) == records);
        FlamegraphMap { stacks }
    }

    /// Whether there is no stack.
    pub fn is_empty(&self) -> (r: bool)
        ensures
            r == (self@.len() == 0),
    {
        self.stacks.len() == 0
    }

    /// Nothing, where there is a stack; the error `NoStacks` otherwise. The stacks of the run
    /// are looked at before those of the baseline are read.
    pub fn check_stacks(&self) -> (r: Result<(), FlamegraphError>)
        ensures
            self@.len() > 0 ==> r is Ok,
            self@.len() == 0 ==> r == Err::<(), FlamegraphError>(FlamegraphError::NoStacks),
    {
        if self.stacks.len() == 0 {
            Err(FlamegraphError::NoStacks)
        } else {
            Ok(())
        }
    }

    /// Computes the derived kinds of every stack.
    ///
    /// Fails, and leaves the stacks as they were, where the derivation fails for one of them:
    /// with the error of the first for which it fails.
    pub fn make_summary(&mut self) -> (r: Result<(), CostsError>)
        ensures
            r is Ok <==> can_summarize(old(self).stacks@),
            r is Ok ==> is_summarized(final(self).stacks@, old(self).stacks@),
            r is Err ==> *final(self) == *old(self) && is_first_summary_error(
                old(self).stacks@,
                r->Err_0,
            ),
    {
        let mut summarized: Vec<CostRecord> = Vec::new();
        let mut i: usize = 0;
        while i < self.stacks.len()
            invariant
                i <= self.stacks.len(),
                is_summarized(summarized@, self.stacks@.take(i as int)),
                can_summarize(self.stacks@.take(i as int)),
            decreases self.stacks.len() - i,
        {
            let mut costs = self.stacks[i].costs;
            match costs.make_summary() {
                Ok(()) => {},
                Err(e) => {
                    assert(summary_obstacle(self.stacks@[i as int].costs) == Some(e));
                    return Err(e);
                },
            }
            let ghost before = summarized@;
            summarized.push(CostRecord { context: self.stacks[i].context.clone(), costs });
            proof {
                let next = self.stacks@.take(i + 1);
                assert forall|j: int| 0 <= j < summarized@.len() implies (
                #[trigger] summarized@[j]).context@ == next[j].context@ && is_summary_of(
                    summarized@[j].costs,
                    next[j].costs,
                ) by {
                    if j < i {
                        assert(summarized@[j] == before[j]);
                        assert(next[j] == self.stacks@.take(i as int)[j]);
                    }
                }
                assert forall|j: int| 0 <= j < next.len() implies has_cache_events(
                    (#[trigger] next[j]).costs,
                ) && derivation_fits(next[j].costs) by {
                    if j < i {
                        assert(next[j] == self.stacks@.take(i as int)[j]);
                    }
                }
            }
            i += 1;
        }
        assert(self.stacks@.take(self.stacks@.len() as int) == self.stacks@);
        self.stacks = summarized;
        Ok(())
    }

    /// The stacks with their counts of `kind`.
    ///
    /// Fails where a stack has no count of `kind`.
    pub fn to_stack_counts(&self, kind: &EventKind) -> (r: Result<Vec<(String, u64)>, CostsError>)
        ensures
            all_have(self@, *kind) ==> r is Ok && count_views(r->Ok_0@) == stack_counts(
                self@,
                *kind,
            ),
            !all_have(self@, *kind) ==> r == Err::<Vec<(String, u64)>, CostsError>(
                CostsError::MissingEvent(*kind),
            ),
    {
        let mut counts: Vec<(String, u64)> = Vec::new();
        let mut i: usize = 0;
        while i < self.stacks.len()
            invariant
                i <= self.stacks.len(),
                counts@.len() == i,
                forall|j: int| 0 <= j < i ==> (#[trigger] self@[j]).1[kind.spec_index()] is Some,
                forall|j: int|
                    0 <= j < i ==> (#[trigger] counts@[j]).0@ == self@[j].0 && counts@[j].1
                        == self@[j].1[kind.spec_index()]->0,
            decreases self.stacks.len() - i,
        {
            assert(self@[i as int] == (
                self.stacks@[i as int].context@,
                self.stacks@[i as int].costs.values@,
            ));
            match self.stacks[i].costs.try_cost_by_kind(*kind) {
                Ok(count) => {
                    counts.push((self.stacks[i].context.clone(), count));
                },
                Err(e) => {
                    return Err(e);
                },
            }
            i += 1;
        }
        assert(count_views(counts@) =~= stack_counts(self@, *kind));
        Ok(counts)
    }

    /// The corpus of `kind`: for each stack one line of the stack, a space and its count.
    ///
    /// Fails where a stack has no count of `kind`.
    pub fn to_stack_format(&self, kind: &EventKind) -> (r: Result<Vec<String>, CostsError>)
        ensures
            all_have(self@, *kind) ==> r is Ok && views(r->Ok_0@) == stack_lines(self@, *kind),
            !all_have(self@, *kind) ==> r == Err::<Vec<String>, CostsError>(
                CostsError::MissingEvent(*kind),
            ),
    {
        let counts = match self.to_stack_counts(kind) {
            Ok(counts) => counts,
            Err(e) => {
                return Err(e);
            },
        };
        let lines = lines_of_counts(&counts);
        proof {
            assert(all_have(self@, *kind));
            assert(count_views(counts@).len() == counts@.len());
            assert(stack_counts(self@, *kind).len() == self@.len());
            assert forall|i: int| 0 <= i < lines@.len() implies views(lines@)[i] == stack_lines(
                self@,
                *kind,
            )[i] by {
                assert(count_views(counts@)[i] == (counts@[i].0@, counts@[i].1));
                assert(stack_counts(self@, *kind)[i] == (
                    self@[i].0,
                    self@[i].1[kind.spec_index()]->0,
                ));
                assert(views(lines@)[i] == lines@[i]@);
            }
            assert(views(lines@) =~= stack_lines(self@, *kind));
        }
        Ok(lines)
    }
}

fn lines_of_counts(counts: &Vec<(String, u64)>) -> (r: Vec<String>)
    ensures
        r@.len() == counts@.len(),
        forall|i: int| 0 <= i < r@.len() ==> (#[trigger] r@[i])@ == stack_line(counts@[i].0@, counts@[i].1),
{
    proof {
        reveal_strlit(" ");
        assert(" "@ =~= seq![' ']);
    }
    let mut lines: Vec<String> = Vec::new();
    let mut i: usize = 0;
    while i < counts.len()
        invariant
            i <= counts.len(),
            lines@.len() == i,
            " "@ == seq![' '],
            forall|j: int|
                0 <= j < i ==> (#[trigger] lines@[j])@ == stack_line(counts@[j].0@, counts@[j].1),
        decreases counts.len() - i,
    {
        let line = concat3(counts[i].0.as_str(), " ", decimal_string(counts[i].1).as_str());
        lines.push(line);
        i += 1;
    }
    lines
}

/// The sum of the counts of a corpus, where the machine can count that far.
fn checked_total(counts: &Vec<(String, u64)>) -> (r: Option<usize>)
    ensures
        match r {
            Some(total) => total == total_count(count_views(counts@)),
            None => total_count(count_views(counts@)) > usize::MAX,
        },
{
    let ghost all = count_views(counts@);
    let mut total: usize = 0;
    let mut i: usize = 0;
    assert(all.take(0) =~= Seq::<(Seq<char>, u64)>::empty());
    while i < counts.len()
        invariant
            i <= counts.len(),
            all == count_views(counts@),
            total == total_count(all.take(i as int)),
        decreases counts.len() - i,
    {
        proof {
            assert(all.take(i + 1).drop_last() == all.take(i as int));
            assert(all.take(i + 1).last().1 == counts@[i as int].1);
            lemma_total_count_monotone(all, i + 1);
        }
        let count = counts[i].1;
        if count > usize::MAX as u64 {
            return None;
        }
        total = match total.checked_add(count as usize) {
            Some(sum) => sum,
            None => {
                return None;
            },
        };
        i += 1;
    }
    assert(all.take(all.len() as int) == all);
    Some(total)
}

/// The counts of a part of a corpus add up to no more than those of the whole.
pub proof fn lemma_total_count_monotone(counts: Seq<(Seq<char>, u64)>, k: int)
    requires
        0 <= k <= counts.len(),
    ensures
        total_count(counts.take(k)) <= total_count(counts),
    decreases counts.len() - k,
{
    if k < counts.len() {
        assert(counts.take(k + 1).drop_last() == counts.take(k));
        lemma_total_count_monotone(counts, k + 1);
    } else {
        assert(counts.take(k) == counts);
    }
}

fn check_single_lines(counts: &Vec<(String, u64)>) -> (r: bool)
    ensures
        r == on_single_lines(count_views(counts@)),
{
    let ghost all = count_views(counts@);
    let mut i: usize = 0;
    while i < counts.len()
        invariant
            i <= counts.len(),
            all == count_views(counts@),
            forall|j: int| 0 <= j < i ==> !(#[trigger] all[j]).0.contains('\n'),
        decreases counts.len() - i,
    {
        let chars = chars_of(counts[i].0.as_str());
        assert(all[i as int].0 == chars@);
        proof {
            lemma_first_index(chars@, '\n');
        }
        match find_char(&chars, '\n') {
            Some(at) => {
                assert(all[i as int].0[at as int] == '\n');
                return false;
            },
            None => {},
        }
        i += 1;
    }
    true
}

/// The text of a corpus: for each entry one line of the stack, a space and its count.
fn text_of_counts(counts: &Vec<(String, u64)>) -> (r: String)
    ensures
        r@ == corpus_text(count_views(counts@)),
{
    proof {
        reveal_strlit("\n");
        assert("\n"@ =~= seq!['\n']);
    }
    let lines = lines_of_counts(counts);
    proof {
        let all = count_views(counts@);
        assert(all.len() == counts@.len());
        assert forall|i: int| 0 <= i < lines@.len() implies views(lines@)[i] == corpus_lines(all)[i] by {
            assert(all[i] == (counts@[i].0@, counts@[i].1));
            assert(views(lines@)[i] == lines@[i]@);
        }
        assert(views(lines@) =~= corpus_lines(all));
    }
    join(&lines, "\n")
}

/// The line of a folded stack with its count in the baseline and its count in the run.
pub open spec fn differential_line(stack: Seq<char>, first: nat, second: nat) -> Seq<char> {
    stack + seq![' '] + decimal(first) + seq![' '] + decimal(second)
}

/// Whether the corpus holds `stack`, white space at the end of a stack left aside.
pub open spec fn has_stack(counts: Seq<(Seq<char>, u64)>, stack: Seq<char>) -> bool {
    exists|i: int| 0 <= i < counts.len() && trimmed_end((#[trigger] counts[i]).0) == stack
}

/// The sum of the counts that the corpus holds for `stack`, white space at the end of a
/// stack left aside.
pub open spec fn count_of(counts: Seq<(Seq<char>, u64)>, stack: Seq<char>) -> nat
    decreases counts.len(),
{
    if counts.len() == 0 {
        0
    } else {
        count_of(counts.drop_last(), stack) + if trimmed_end(counts.last().0) == stack {
            counts.last().1 as nat
        } else {
            0
        }
    }
}

/// Whether the counts of the baseline stand in the differential corpus as they are: they do
/// unless they are to be normalized and the counts of the two corpora add up differently.
pub open spec fn keeps_counts(
    normalize: bool,
    base: Seq<(Seq<char>, u64)>,
    stacks: Seq<(Seq<char>, u64)>,
) -> bool {
    !normalize || total_count(base) == total_count(stacks)
}

/// Whether `entries` are the stacks of the two corpora, each once and without the white
/// space at its end, each with the count that stands for the baseline: that is the sum of
/// its counts in the baseline where those counts are kept.
pub open spec fn are_differential_entries(
    entries: Seq<(Seq<char>, nat)>,
    normalize: bool,
    base: Seq<(Seq<char>, u64)>,
    stacks: Seq<(Seq<char>, u64)>,
) -> bool {
    &&& forall|i: int|
        0 <= i < entries.len() ==> has_stack(base, (#[trigger] entries[i]).0) || has_stack(
            stacks,
            entries[i].0,
        )
    &&& forall|i: int, j: int|
        0 <= i < j < entries.len() ==> (#[trigger] entries[i]).0 != (#[trigger] entries[j]).0
    &&& forall|stack: Seq<char>|
        has_stack(base, stack) || has_stack(stacks, stack) ==> exists|i: int|
            0 <= i < entries.len() && (#[trigger] entries[i]).0 == stack
    &&& keeps_counts(normalize, base, stacks) ==> forall|i: int|
        0 <= i < entries.len() ==> (#[trigger] entries[i]).1 == count_of(base, entries[i].0)
}

/// The lines of the entries: each stack with the count that stands for the baseline and the
/// sum of its counts in the run.
pub open spec fn entry_lines(entries: Seq<(Seq<char>, nat)>, stacks: Seq<(Seq<char>, u64)>) -> Seq<
    Seq<char>,
> {
    entries.map_values(
        |e: (Seq<char>, nat)| differential_line(e.0, e.1, count_of(stacks, e.0)),
    )
}

/// Whether `lines` are the differential corpus of the two corpora, in some order: one line
/// for each stack of the two, with its count in the baseline and its count in the run. The
/// count in the baseline is left open where the counts are normalized.
pub open spec fn is_differential_corpus(
    lines: Seq<Seq<char>>,
    normalize: bool,
    base: Seq<(Seq<char>, u64)>,
    stacks: Seq<(Seq<char>, u64)>,
) -> bool {
    exists|entries: Seq<(Seq<char>, nat)>| #[trigger]
        are_differential_entries(entries, normalize, base, stacks) && lines == entry_lines(
            entries,
            stacks,
        )
}

/// Whether `line` is the line of `stack` with some count for the baseline and the count
/// `second` for the run.
pub open spec fn is_line_of(line: Seq<char>, stack: Seq<char>, second: nat) -> bool {
    exists|first: nat| line == #[trigger] differential_line(stack, first, second)
}

/// The differential corpus holds a line for each stack of the run, with the sum of its
/// counts in the run.
pub proof fn lemma_differential_corpus_has_every_stack(
    lines: Seq<Seq<char>>,
    normalize: bool,
    base: Seq<(Seq<char>, u64)>,
    stacks: Seq<(Seq<char>, u64)>,
    i: int,
)
    requires
        is_differential_corpus(lines, normalize, base, stacks),
        0 <= i < stacks.len(),
    ensures
        exists|j: int|
            0 <= j < lines.len() && is_line_of(
                #[trigger] lines[j],
                trimmed_end(stacks[i].0),
                count_of(stacks, trimmed_end(stacks[i].0)),
            ),
{
    let entries = choose|entries: Seq<(Seq<char>, nat)>| #[trigger]
        are_differential_entries(entries, normalize, base, stacks) && lines == entry_lines(
            entries,
            stacks,
        );
    let stack = trimmed_end(stacks[i].0);
    assert(has_stack(stacks, stack));
    let j = choose|j: int| 0 <= j < entries.len() && (#[trigger] entries[j]).0 == stack;
    assert(lines[j] == differential_line(stack, entries[j].1, count_of(stacks, stack)));
    assert(is_line_of(lines[j], stack, count_of(stacks, stack)));
}

/// Whether the lines of `text` are the differential corpus of the corpora whose texts `base`
/// and `current` are.
pub open spec fn is_differential_text(
    text: Seq<char>,
    normalize: bool,
    base: Seq<char>,
    current: Seq<char>,
) -> bool {
    forall|first: Seq<(Seq<char>, u64)>, second: Seq<(Seq<char>, u64)>|
        #![trigger corpus_text(first), corpus_text(second)]
        corpus_text(first) == base && on_single_lines(first) && corpus_text(second) == current
            && on_single_lines(second) ==> is_differential_corpus(
            lines_of(text),
            normalize,
            first,
            second,
        )
}

/// Calls `inferno::differential::from_readers` on the texts of two corpora and hands back
/// what it writes. The crate reads each text line by line and takes what follows the last
/// space of a line for the count and what stands before it, without the white space at its
/// end, for the stack. It adds the counts of each stack and of each text up in the machine's
/// word, which the `requires` keeps within range. It fails only where reading or writing
/// fails, which reading from a text and writing to memory never do: so there is always a
/// result. For each stack it writes one line: the stack, a space, the sum of its counts in
/// the first text, a space and the sum of its counts in the second. Where `normalize` is set
/// and the counts of the two texts add up differently, it scales the first count in floating
/// point: of that count nothing is claimed then. Nothing is claimed of the order of the
/// lines either: the crate walks a hash map to write them.
#[verifier::external_body]
fn differential_text(normalize: bool, base: &str, current: &str) -> (r: Option<String>)
    requires
        is_bounded_corpus(base@),
        is_bounded_corpus(current@),
    ensures
        r is Some,
        is_differential_text(r->0@, normalize, base@, current@),
{
    let options = inferno::differential::Options { normalize, strip_hex: false };
    let mut result = std::io::Cursor::new(Vec::new());
    inferno::differential::from_readers(options, base.as_bytes(), current.as_bytes(), &mut result)
        .ok()?;
    Some(String::from_utf8_lossy(result.get_ref()).into_owned())
}

/// The lines of the differential corpus, as the computation hands them back.
pub fn differential_lines(text: Option<String>) -> (r: Result<Vec<String>, FlamegraphError>)
    ensures
        match text {
            Some(text) => r is Ok && views(r->Ok_0@) == lines_of(text@),
            None => r == Err::<Vec<String>, FlamegraphError>(FlamegraphError::Differential),
        },
{
    match text {
        Some(text) => Ok(split_lines(text.as_str())),
        None => Err(FlamegraphError::Differential),
    }
}

/// What stands in the way of the differential corpus of `kind` before it is computed: a stack
/// of the baseline without a count of `kind`, an empty corpus, a stack whose name holds a
/// line feed, or counts that add up beyond the machine's word, in this order.
pub open spec fn differential_obstacle(
    base: Seq<(Seq<char>, Counts)>,
    kind: EventKind,
    stacks: Seq<(Seq<char>, u64)>,
) -> Option<FlamegraphError> {
    if !all_have(base, kind) {
        Some(FlamegraphError::Costs(CostsError::MissingEvent(kind)))
    } else if base.len() == 0 || stacks.len() == 0 {
        Some(FlamegraphError::NoStacks)
    } else if !on_single_lines(stack_counts(base, kind)) || !on_single_lines(stacks) {
        Some(FlamegraphError::InvalidStack)
    } else if total_count(stack_counts(base, kind)) > usize::MAX || total_count(stacks)
        > usize::MAX {
        Some(FlamegraphError::TooManySamples)
    } else {
        None
    }
}

/// The line of a stack that holds no line feed is not empty, holds no line feed and ends
/// with a digit.
proof fn lemma_stack_line(stack: Seq<char>, count: u64)
    requires
        !stack.contains('\n'),
    ensures
        stack_line(stack, count).len() > 0,
        !stack_line(stack, count).contains('\n'),
        stack_line(stack, count).last() != '\n',
{
    let line = stack_line(stack, count);
    let number = decimal(count as nat);
    lemma_decimal_round_trip(count as nat);
    assert forall|i: int| 0 <= i < line.len() implies line[i] != '\n' by {
        if i < stack.len() {
            assert(stack.contains(line[i]));
        } else if i > stack.len() {
            assert(line[i] == number[i - stack.len() - 1]);
            assert(is_digit(number[i - stack.len() - 1]));
        }
    }
    assert(line.last() == line[line.len() - 1]);
}

/// The text of a corpus that holds a stack is not empty, and ends as its last line does.
proof fn lemma_corpus_text_ends(counts: Seq<(Seq<char>, u64)>)
    requires
        counts.len() > 0,
    ensures
        corpus_text(counts).len() > 0,
        corpus_text(counts).last() == corpus_lines(counts).last().last(),
{
    let lines = corpus_lines(counts);
    assert(lines.last() == stack_line(counts.last().0, counts.last().1));
    assert(lines.last().len() > 0);
    if lines.len() > 1 {
        assert(joined(lines, seq!['\n']) == joined(lines.drop_last(), seq!['\n']) + seq!['\n']
            + lines.last());
    }
}

/// The lines of the text of a corpus are the lines of the corpus: what is read line by line
/// from the text is the corpus, stack by stack.
pub proof fn lemma_lines_of_corpus_text(counts: Seq<(Seq<char>, u64)>)
    requires
        on_single_lines(counts),
    ensures
        lines_of(corpus_text(counts)) == corpus_lines(counts),
    decreases counts.len(),
{
    let lines = corpus_lines(counts);
    if counts.len() == 0 {
        assert(lines_of(corpus_text(counts)) =~= lines);
    } else {
        assert(lines.last() == stack_line(counts.last().0, counts.last().1));
        lemma_stack_line(counts.last().0, counts.last().1);
        if counts.len() == 1 {
            lemma_lines_of_line(lines[0]);
            assert(seq![lines[0]] =~= lines);
        } else {
            let init = counts.drop_last();
            assert(on_single_lines(init)) by {
                assert forall|i: int| 0 <= i < init.len() implies !(#[trigger] init[i]).0.contains(
                    '\n',
                ) by {
                    assert(init[i] == counts[i]);
                }
            }
            assert(corpus_lines(init) =~= lines.drop_last());
            lemma_lines_of_corpus_text(init);
            lemma_corpus_text_ends(init);
            assert(corpus_lines(init).last() == stack_line(init.last().0, init.last().1));
            lemma_stack_line(init.last().0, init.last().1);
            lemma_lines_of_appended(corpus_text(init), lines.last());
            assert(corpus_text(counts) == corpus_text(init) + seq!['\n'] + lines.last());
            assert(lines.drop_last().push(lines.last()) =~= lines);
        }
    }
}

/// The differential corpus of `kind` between the stacks of the baseline and those of the run.
///
/// Fails with `Costs` where a stack of the baseline has no count of `kind`, with `NoStacks`
/// where one of the two corpora is empty, with `InvalidStack` where the name of a stack holds
/// a line feed, and with `TooManySamples` where the counts of a corpus add up beyond the
/// machine's word. Otherwise there is the corpus: one line for each stack, in some order.
pub fn create_differential(
    base_map: &FlamegraphMap,
    options: DifferentialOptions,
    kind: EventKind,
    stacks: &Vec<(String, u64)>,
) -> (r: Result<Vec<String>, FlamegraphError>)
    ensures
        match differential_obstacle(base_map@, kind, count_views(stacks@)) {
            Some(error) => r == Err::<Vec<String>, FlamegraphError>(error),
            None => r is Ok && is_differential_corpus(
                views(r->Ok_0@),
                options.normalize,
                stack_counts(base_map@, kind),
                count_views(stacks@),
            ),
        },
{
    let base = match base_map.to_stack_counts(&kind) {
        Ok(base) => base,
        Err(e) => {
            return Err(FlamegraphError::Costs(e));
        },
    };
    assert(count_views(base@).len() == base@.len());
    assert(count_views(stacks@).len() == stacks@.len());
    if base.len() == 0 || stacks.len() == 0 {
        return Err(FlamegraphError::NoStacks);
    }
    if !check_single_lines(&base) || !check_single_lines(stacks) {
        return Err(FlamegraphError::InvalidStack);
    }
    if checked_total(&base).is_none() || checked_total(stacks).is_none() {
        return Err(FlamegraphError::TooManySamples);
    }
    let base_text = text_of_counts(&base);
    let text = text_of_counts(stacks);
    let result = differential_text(options.normalize, base_text.as_str(), text.as_str());
    assert(corpus_text(count_views(base@)) == base_text@ && corpus_text(count_views(stacks@))
        == text@);
    differential_lines(result)
}

/// Where the graphs of one event kind are.
#[derive(Debug, PartialEq, Eq)]
pub struct FlamegraphSummary {
    pub event_kind: EventKind,
    /// The path of the graph of the run.
    pub regular_path: Option<String>,
    /// The path that the graph of the baseline has, where a differential graph was rendered;
    /// no file needs to be there.
    pub base_path: Option<String>,
    /// The path of the differential graph.
    pub diff_path: Option<String>,
}

/// A `FlamegraphSummary` over character sequences.
pub struct FlamegraphSummaryView {
    pub event_kind: EventKind,
    pub regular_path: Option<Seq<char>>,
    pub base_path: Option<Seq<char>>,
    pub diff_path: Option<Seq<char>>,
}

impl View for FlamegraphSummary {
    type V = FlamegraphSummaryView;

    open spec fn view(&self) -> FlamegraphSummaryView {
        FlamegraphSummaryView {
            event_kind: self.event_kind,
            regular_path: option_view(self.regular_path),
            base_path: option_view(self.base_path),
            diff_path: option_view(self.diff_path),
        }
    }
}

impl FlamegraphSummary {
    /// The summary of `event_kind` without any graph.
    pub fn new(event_kind: EventKind) -> (r: Self)
        ensures
            r@ == (FlamegraphSummaryView {
                event_kind,
                regular_path: None,
                base_path: None,
                diff_path: None,
            }),
    {
        FlamegraphSummary { event_kind, regular_path: None, base_path: None, diff_path: None }
    }
}

/// The graphs of one event kind that are to be rendered: where they go, what the counts are
/// called, and the corpus of each.
#[derive(Debug, PartialEq, Eq)]
pub struct FlamegraphOutput {
    pub summary: FlamegraphSummary,
    pub count_name: String,
    /// The corpus of the regular graph, to be rendered to `summary.regular_path`.
    pub regular: Option<Vec<String>>,
    /// The corpus of the differential graph, to be rendered to `summary.diff_path`.
    pub differential: Option<Vec<String>>,
}

/// What the graphs of a benchmark ask for: first the actions on the files that are there,
/// then the rendering of each output.
#[derive(Debug, PartialEq, Eq)]
pub struct FlamegraphPlan {
    pub actions: Vec<FileAction>,
    pub outputs: Vec<FlamegraphOutput>,
}

/// The summary of the graphs at `path`.
pub open spec fn summary_of(
    path: OutputPathView,
    regular: bool,
    differential: bool,
) -> FlamegraphSummaryView {
    FlamegraphSummaryView {
        event_kind: path.event_kind,
        regular_path: if regular {
            Some(path.to_path())
        } else {
            None
        },
        base_path: if differential {
            Some(path.to_base_path().to_path())
        } else {
            None
        },
        diff_path: if differential {
            Some(path.to_diff_path().to_path())
        } else {
            None
        },
    }
}

/// The stacks of a baseline, where they are given.
pub open spec fn base_stacks(base_map: Option<&FlamegraphMap>) -> Option<Seq<(Seq<char>, Counts)>> {
    match base_map {
        Some(base) => Some(base@),
        None => None,
    }
}

/// What stands in the way of the graphs of `kind`: a stack of the run without a count of
/// `kind` or, where the stacks of a baseline are given, what stands in the way of the
/// differential corpus.
pub open spec fn event_obstacle(
    stacks: Seq<(Seq<char>, Counts)>,
    base: Option<Seq<(Seq<char>, Counts)>>,
    kind: EventKind,
) -> Option<FlamegraphError> {
    if !all_have(stacks, kind) {
        Some(FlamegraphError::Costs(CostsError::MissingEvent(kind)))
    } else {
        match base {
            Some(base) => differential_obstacle(base, kind, stack_counts(stacks, kind)),
            None => None,
        }
    }
}

/// What stands in the way of the graphs of the first of `kinds` that has an obstacle.
pub open spec fn first_obstacle(
    stacks: Seq<(Seq<char>, Counts)>,
    base: Option<Seq<(Seq<char>, Counts)>>,
    kinds: Seq<EventKind>,
) -> Option<FlamegraphError>
    decreases kinds.len(),
{
    if kinds.len() == 0 {
        None
    } else {
        match first_obstacle(stacks, base, kinds.drop_last()) {
            Some(error) => Some(error),
            None => event_obstacle(stacks, base, kinds.last()),
        }
    }
}

/// The obstacle of the first kind that has one is the first obstacle of all kinds.
proof fn lemma_first_obstacle(
    stacks: Seq<(Seq<char>, Counts)>,
    base: Option<Seq<(Seq<char>, Counts)>>,
    kinds: Seq<EventKind>,
    i: int,
)
    requires
        0 <= i < kinds.len(),
        first_obstacle(stacks, base, kinds.take(i)) is None,
        event_obstacle(stacks, base, kinds[i]) is Some,
    ensures
        first_obstacle(stacks, base, kinds) == event_obstacle(stacks, base, kinds[i]),
    decreases kinds.len(),
{
    if i == kinds.len() - 1 {
        assert(kinds.drop_last() == kinds.take(i));
    } else {
        assert(kinds.drop_last().take(i) == kinds.take(i));
        lemma_first_obstacle(stacks, base, kinds.drop_last(), i);
    }
}

/// Whether `output` is what the graphs of the event kind of `path` ask for: the regular
/// corpus where `regular` says so, and a differential corpus against the stacks of `base`
/// where they are given.
pub open spec fn is_output_of(
    output: FlamegraphOutput,
    path: OutputPathView,
    stacks: Seq<(Seq<char>, Counts)>,
    regular_path: bool,
    regular: bool,
    normalize: bool,
    base: Option<Seq<(Seq<char>, Counts)>>,
) -> bool {
    &&& output.summary@ == summary_of(path, regular_path, base is Some)
    &&& output.count_name@ == path.event_kind.spec_name()
    &&& match output.regular {
        Some(lines) => regular && views(lines@) == stack_lines(stacks, path.event_kind),
        None => !regular,
    }
    &&& match output.differential {
        Some(lines) => base is Some && is_differential_corpus(
            views(lines@),
            normalize,
            stack_counts(base->0, path.event_kind),
            stack_counts(stacks, path.event_kind),
        ),
        None => base is None,
    }
}

fn event_output(
    path: &OutputPath,
    map: &FlamegraphMap,
    base_map: Option<&FlamegraphMap>,
    regular_path: bool,
    regular: bool,
    options: DifferentialOptions,
) -> (r: Result<FlamegraphOutput, FlamegraphError>)
    ensures
        match event_obstacle(map@, base_stacks(base_map), path@.event_kind) {
            Some(error) => r == Err::<FlamegraphOutput, FlamegraphError>(error),
            None => r is Ok && is_output_of(
                r->Ok_0,
                path@,
                map@,
                regular_path,
                regular,
                options.normalize,
                base_stacks(base_map),
            ),
        },
{
    let kind = path.event_kind;
    let counts = match map.to_stack_counts(&kind) {
        Ok(counts) => counts,
        Err(e) => {
            return Err(FlamegraphError::Costs(e));
        },
    };
    assert(count_views(counts@) == stack_counts(map@, kind));
    let mut summary = FlamegraphSummary::new(kind);
    if regular_path {
        summary.regular_path = Some(path.to_path());
    }
    let regular_lines = if regular {
        let lines = lines_of_counts(&counts);
        proof {
            assert(count_views(counts@).len() == counts@.len());
            assert(stack_counts(map@, kind).len() == map@.len());
            assert forall|i: int| 0 <= i < lines@.len() implies views(lines@)[i] == stack_lines(
                map@,
                kind,
            )[i] by {
                assert(count_views(counts@)[i] == (counts@[i].0@, counts@[i].1));
                assert(stack_counts(map@, kind)[i] == (map@[i].0, map@[i].1[kind.spec_index()]->0));
                assert(views(lines@)[i] == lines@[i]@);
            }
            assert(views(lines@) =~= stack_lines(map@, kind));
        }
        Some(lines)
    } else {
        None
    };
    let differential = match base_map {
        Some(base) => {
            let lines = match create_differential(base, options, kind, &counts) {
                Ok(lines) => lines,
                Err(e) => {
                    return Err(e);
                },
            };
            summary.base_path = Some(path.to_base_path().to_path());
            summary.diff_path = Some(path.to_diff_path().to_path());
            Some(lines)
        },
        None => None,
    };
    Ok(FlamegraphOutput { summary, count_name: kind.to_string(), regular: regular_lines, differential })
}

/// Whether `outputs` holds, for each of `kinds` in their order, what the graphs of that kind
/// ask for.
pub open spec fn are_outputs_of(
    outputs: Seq<FlamegraphOutput>,
    kinds: Seq<EventKind>,
    path: OutputPathView,
    stacks: Seq<(Seq<char>, Counts)>,
    regular_path: bool,
    regular: bool,
    normalize: bool,
    base: Option<Seq<(Seq<char>, Counts)>>,
) -> bool {
    &&& outputs.len() == kinds.len()
    &&& forall|i: int|
        0 <= i < outputs.len() ==> is_output_of(
            #[trigger] outputs[i],
            OutputPathView { event_kind: kinds[i], ..path },
            stacks,
            regular_path,
            regular,
            normalize,
            base,
        )
}

fn event_outputs(
    path: &OutputPath,
    kinds: &Vec<EventKind>,
    map: &FlamegraphMap,
    base_map: Option<&FlamegraphMap>,
    regular_path: bool,
    regular: bool,
    options: DifferentialOptions,
) -> (r: Result<Vec<FlamegraphOutput>, FlamegraphError>)
    ensures
        match first_obstacle(map@, base_stacks(base_map), kinds@) {
            Some(error) => r == Err::<Vec<FlamegraphOutput>, FlamegraphError>(error),
            None => r is Ok && are_outputs_of(
                r->Ok_0@,
                kinds@,
                path@,
                map@,
                regular_path,
                regular,
                options.normalize,
                base_stacks(base_map),
            ),
        },
{
    let ghost base = base_stacks(base_map);
    let mut outputs: Vec<FlamegraphOutput> = Vec::new();
    let mut current = path.clone();
    let mut i: usize = 0;
    assert(kinds@.take(0).len() == 0);
    while i < kinds.len()
        invariant
            i <= kinds.len(),
            base == base_stacks(base_map),
            current@.kind == path@.kind,
            current@.baseline_kind == path@.baseline_kind,
            current@.dir == path@.dir,
            current@.name == path@.name,
            are_outputs_of(
                outputs@,
                kinds@.take(i as int),
                path@,
                map@,
                regular_path,
                regular,
                options.normalize,
                base,
            ),
            first_obstacle(map@, base, kinds@.take(i as int)) is None,
        decreases kinds.len() - i,
    {
        current.set_event_kind(kinds[i]);
        assert(current@ == (OutputPathView { event_kind: kinds@[i as int], ..path@ }));
        let output = match event_output(&current, map, base_map, regular_path, regular, options) {
            Ok(output) => output,
            Err(e) => {
                proof {
                    lemma_first_obstacle(map@, base, kinds@, i as int);
                }
                return Err(e);
            },
        };
        let ghost before = outputs@;
        outputs.push(output);
        proof {
            let next = kinds@.take(i + 1);
            assert(next.drop_last() == kinds@.take(i as int));
            assert(next.last() == kinds@[i as int]);
            assert forall|j: int| 0 <= j < outputs@.len() implies is_output_of(
                #[trigger] outputs@[j],
                OutputPathView { event_kind: next[j], ..path@ },
                map@,
                regular_path,
                regular,
                options.normalize,
                base,
            ) by {
                if j < i {
                    assert(outputs@[j] == before[j]);
                    assert(next[j] == kinds@.take(i as int)[j]);
                }
            }
        }
        i += 1;
    }
    assert(kinds@.take(kinds@.len() as int) == kinds@);
    Ok(outputs)
}

fn push_all(target: &mut Vec<FileAction>, more: Vec<FileAction>)
    ensures
        action_views(final(target)@) == action_views(old(target)@) + action_views(more@),
{
    let ghost first = target@;
    let ghost second = more@;
    let mut more = more;
    target.append(&mut more);
    assert(action_views(target@) =~= action_views(first) + action_views(second));
}

/// Renders the graphs of a run that is compared against the run before or a named baseline.
pub struct BaselineFlamegraphGenerator {
    pub baseline_kind: BaselineKind,
}

/// Renders the graphs of a run that is saved as a named baseline.
pub struct SaveBaselineFlamegraphGenerator {
    pub baseline: BaselineName,
}

/// Renders the differential graphs of one named baseline against another.
pub struct LoadBaselineFlamegraphGenerator {
    pub loaded_baseline: BaselineName,
    pub baseline: BaselineName,
}

/// Whether no graph is wanted at all.
pub open spec fn wants_nothing(flamegraph: Flamegraph) -> bool {
    flamegraph.config.kind is Disabled || flamegraph.config.event_kinds@.len() == 0
}

/// What stands in the way of the graphs of a benchmark: the missing stacks of a baseline
/// that is needed, or else the obstacle of the first wanted kind that has one. The stacks of
/// the baseline count only where differential graphs are rendered.
pub open spec fn plan_obstacle(
    needs_base: bool,
    differential: bool,
    kinds: Seq<EventKind>,
    stacks: Seq<(Seq<char>, Counts)>,
    base: Option<Seq<(Seq<char>, Counts)>>,
) -> Option<FlamegraphError> {
    if needs_base && base is None {
        Some(FlamegraphError::MissingBase)
    } else {
        first_obstacle(stacks, base_in_use(differential, base), kinds)
    }
}

/// The stacks of the baseline, where differential graphs are rendered.
pub open spec fn base_in_use(differential: bool, base: Option<Seq<(Seq<char>, Counts)>>) -> Option<
    Seq<(Seq<char>, Counts)>,
> {
    if differential {
        base
    } else {
        None
    }
}

/// What the three ways to render the graphs of a benchmark have in common: the actions that
/// put the files in order come first, whether anything is wanted or not; then, for each
/// wanted event kind, the corpus of each graph is handed out with the place where the graph
/// goes.
pub trait FlamegraphGenerator {
    /// The actions on the graphs that are there, in a directory that holds `entries`.
    spec fn actions(&self, path: OutputPathView, entries: Seq<Seq<char>>) -> Seq<FileActionView>;

    /// Whether graphs are rendered at all.
    spec fn renders(&self, flamegraph: Flamegraph) -> bool;

    /// Whether the summary names a regular graph.
    spec fn names_regular(&self, flamegraph: Flamegraph) -> bool;

    /// Whether a regular graph is rendered.
    spec fn draws_regular(&self, flamegraph: Flamegraph) -> bool;

    /// Whether a differential graph is rendered, given whether the stacks of the baseline
    /// are there.
    spec fn draws_differential(&self, has_base: bool) -> bool;

    /// Whether nothing can be rendered without the stacks of the baseline.
    spec fn needs_base(&self) -> bool;

    /// Whether graphs are rendered at all. Where none is, no stacks need to be read.
    fn is_rendering(&self, flamegraph: &Flamegraph) -> (r: bool)
        ensures
            r == self.renders(*flamegraph),
    ;

    /// The actions that put the graphs that are there in order, in a directory that holds
    /// `entries`. They do not depend on the stacks: they are to be carried out before the
    /// graphs are rendered, and also where rendering fails.
    fn file_actions(&self, tool_output_path: &ToolOutputPath, entries: &Vec<String>) -> (r: Vec<
        FileAction,
    >)
        ensures
            action_views(r@) == self.actions(
                OutputPathView::of_tool_path(tool_output_path@, EventKind::Ir),
                views(entries@),
            ),
    ;

    /// What the graphs of the benchmark ask for, in a directory that holds `entries`: the
    /// actions of `file_actions` and, where graphs are rendered, the corpora of each wanted
    /// event kind. It fails exactly where something stands in the way, with that obstacle.
    fn create(
        &self,
        flamegraph: &Flamegraph,
        tool_output_path: &ToolOutputPath,
        entries: &Vec<String>,
        map: &FlamegraphMap,
        base_map: Option<&FlamegraphMap>,
    ) -> (r: Result<FlamegraphPlan, FlamegraphError>)
        ensures
            r is Ok ==> action_views(r->Ok_0.actions@) == self.actions(
                OutputPathView::of_tool_path(tool_output_path@, EventKind::Ir),
                views(entries@),
            ),
            !self.renders(*flamegraph) ==> r is Ok && r->Ok_0.outputs@.len() == 0,
            self.renders(*flamegraph) ==> match plan_obstacle(
                self.needs_base(),
                self.draws_differential(base_map is Some),
                flamegraph.config.event_kinds@,
                map@,
                base_stacks(base_map),
            ) {
                Some(error) => r == Err::<FlamegraphPlan, FlamegraphError>(error),
                None => r is Ok && are_outputs_of(
                    r->Ok_0.outputs@,
                    flamegraph.config.event_kinds@,
                    OutputPathView::of_tool_path(tool_output_path@, EventKind::Ir),
                    map@,
                    self.names_regular(*flamegraph),
                    self.draws_regular(*flamegraph),
                    flamegraph.config.normalize_differential,
                    base_in_use(
                        self.draws_differential(base_map is Some),
                        base_stacks(base_map),
                    ),
                ),
            },
    ;
}

impl FlamegraphGenerator for BaselineFlamegraphGenerator {
    /// The directory is made, the differential graphs are removed, and the graphs of the run
    /// before take the old role (or, against a named baseline, are removed). All event kinds
    /// are treated alike, so that no graph of a kind that is no longer wanted stays behind.
    open spec fn actions(&self, path: OutputPathView, entries: Seq<Seq<char>>) -> Seq<
        FileActionView,
    > {
        seq![FileActionView::CreateDirAll(path.dir)] + removals_of(
            path.to_diff_path().matching(entries, true),
        ) + path.shift_plan(entries, true)
    }

    open spec fn renders(&self, flamegraph: Flamegraph) -> bool {
        !wants_nothing(flamegraph)
    }

    open spec fn names_regular(&self, flamegraph: Flamegraph) -> bool {
        flamegraph.spec_is_regular()
    }

    open spec fn draws_regular(&self, flamegraph: Flamegraph) -> bool {
        flamegraph.spec_is_regular()
    }

    open spec fn draws_differential(&self, has_base: bool) -> bool {
        has_base
    }

    open spec fn needs_base(&self) -> bool {
        false
    }

    fn file_actions(&self, tool_output_path: &ToolOutputPath, entries: &Vec<String>) -> (r: Vec<
        FileAction,
    >) {
        let output_path = OutputPath::new(tool_output_path, EventKind::Ir);
        let mut actions: Vec<FileAction> = Vec::new();
        actions.push(output_path.init());
        assert(action_views(actions@) =~= seq![FileActionView::CreateDirAll(output_path@.dir)]);
        push_all(&mut actions, output_path.to_diff_path().clear(entries, true));
        push_all(&mut actions, output_path.shift(entries, true));
        actions
    }

    fn is_rendering(&self, flamegraph: &Flamegraph) -> (r: bool) {
        !matches!(flamegraph.config.kind, api::FlamegraphKind::Disabled)
            && flamegraph.config.event_kinds.len() != 0
    }

    /// For each wanted event kind: the regular graph, where one is wanted, and the
    /// differential graph, where `base_map` gives the stacks of the baseline.
    ///
    /// Fails where a stack lacks a count of a wanted kind, and where something stands in
    /// the way of the differential corpus: so it is where one of the two corpora is empty.
    fn create(
        &self,
        flamegraph: &Flamegraph,
        tool_output_path: &ToolOutputPath,
        entries: &Vec<String>,
        map: &FlamegraphMap,
        base_map: Option<&FlamegraphMap>,
    ) -> (r: Result<FlamegraphPlan, FlamegraphError>) {
        let output_path = OutputPath::new(tool_output_path, EventKind::Ir);
        let actions = self.file_actions(tool_output_path, entries);
        if !self.is_rendering(flamegraph) {
            return Ok(FlamegraphPlan { actions, outputs: Vec::new() });
        }
        let options = DifferentialOptions { normalize: flamegraph.config.normalize_differential };
        let outputs = match event_outputs(
            &output_path,
            &flamegraph.config.event_kinds,
            map,
            base_map,
            flamegraph.is_regular(),
            flamegraph.is_regular(),
            options,
        ) {
            Ok(outputs) => outputs,
            Err(e) => {
                return Err(e);
            },
        };
        Ok(FlamegraphPlan { actions, outputs })
    }
}

impl FlamegraphGenerator for SaveBaselineFlamegraphGenerator {
    /// The directory is made, and the graphs of the baseline and the differential graphs to
    /// do with it are removed.
    open spec fn actions(&self, path: OutputPathView, entries: Seq<Seq<char>>) -> Seq<
        FileActionView,
    > {
        seq![FileActionView::CreateDirAll(path.dir)] + removals_of(path.matching(entries, true))
            + removals_of(matching_diffs(path, entries))
    }

    open spec fn renders(&self, flamegraph: Flamegraph) -> bool {
        !wants_nothing(flamegraph) && flamegraph.spec_is_regular()
    }

    open spec fn names_regular(&self, flamegraph: Flamegraph) -> bool {
        true
    }

    open spec fn draws_regular(&self, flamegraph: Flamegraph) -> bool {
        true
    }

    open spec fn draws_differential(&self, has_base: bool) -> bool {
        false
    }

    open spec fn needs_base(&self) -> bool {
        false
    }

    fn file_actions(&self, tool_output_path: &ToolOutputPath, entries: &Vec<String>) -> (r: Vec<
        FileAction,
    >) {
        let output_path = OutputPath::new(tool_output_path, EventKind::Ir);
        let mut actions: Vec<FileAction> = Vec::new();
        actions.push(output_path.init());
        assert(action_views(actions@) =~= seq![FileActionView::CreateDirAll(output_path@.dir)]);
        push_all(&mut actions, output_path.clear(entries, true));
        push_all(&mut actions, output_path.clear_diff(entries));
        actions
    }

    fn is_rendering(&self, flamegraph: &Flamegraph) -> (r: bool) {
        !matches!(flamegraph.config.kind, api::FlamegraphKind::Disabled)
            && flamegraph.config.event_kinds.len() != 0 && flamegraph.is_regular()
    }

    /// For each wanted event kind the regular graph, where regular graphs are wanted. The
    /// stacks of a baseline are of no use here.
    ///
    /// Fails where, and only where, graphs are rendered and a stack lacks a count of a wanted
    /// kind: the stacks of a baseline never stand in the way.
    fn create(
        &self,
        flamegraph: &Flamegraph,
        tool_output_path: &ToolOutputPath,
        entries: &Vec<String>,
        map: &FlamegraphMap,
        base_map: Option<&FlamegraphMap>,
    ) -> (r: Result<FlamegraphPlan, FlamegraphError>) {
        let output_path = OutputPath::new(tool_output_path, EventKind::Ir);
        let actions = self.file_actions(tool_output_path, entries);
        if !self.is_rendering(flamegraph) {
            return Ok(FlamegraphPlan { actions, outputs: Vec::new() });
        }
        let options = DifferentialOptions { normalize: flamegraph.config.normalize_differential };
        let outputs = match event_outputs(
            &output_path,
            &flamegraph.config.event_kinds,
            map,
            None,
            true,
            true,
            options,
        ) {
            Ok(outputs) => outputs,
            Err(e) => {
                return Err(e);
            },
        };
        Ok(FlamegraphPlan { actions, outputs })
    }
}

impl FlamegraphGenerator for LoadBaselineFlamegraphGenerator {
    /// The differential graphs of the two baselines are removed.
    open spec fn actions(&self, path: OutputPathView, entries: Seq<Seq<char>>) -> Seq<
        FileActionView,
    > {
        removals_of(path.to_diff_path().matching(entries, true))
    }

    open spec fn renders(&self, flamegraph: Flamegraph) -> bool {
        !wants_nothing(flamegraph) && flamegraph.spec_is_differential()
    }

    open spec fn names_regular(&self, flamegraph: Flamegraph) -> bool {
        true
    }

    open spec fn draws_regular(&self, flamegraph: Flamegraph) -> bool {
        false
    }

    open spec fn draws_differential(&self, has_base: bool) -> bool {
        true
    }

    open spec fn needs_base(&self) -> bool {
        true
    }

    fn file_actions(&self, tool_output_path: &ToolOutputPath, entries: &Vec<String>) -> (r: Vec<
        FileAction,
    >) {
        let output_path = OutputPath::new(tool_output_path, EventKind::Ir);
        output_path.to_diff_path().clear(entries, true)
    }

    fn is_rendering(&self, flamegraph: &Flamegraph) -> (r: bool) {
        !matches!(flamegraph.config.kind, api::FlamegraphKind::Disabled)
            && flamegraph.config.event_kinds.len() != 0 && flamegraph.is_differential()
    }

    /// For each wanted event kind the differential graph, where differential graphs are
    /// wanted. Nothing is run, so no regular graph is rendered; the summary names the graph
    /// of the loaded baseline that is there.
    ///
    /// Fails with `MissingBase` where graphs are rendered and the stacks of the baseline are
    /// not given, and where something stands in the way of the differential corpus.
    fn create(
        &self,
        flamegraph: &Flamegraph,
        tool_output_path: &ToolOutputPath,
        entries: &Vec<String>,
        map: &FlamegraphMap,
        base_map: Option<&FlamegraphMap>,
    ) -> (r: Result<FlamegraphPlan, FlamegraphError>) {
        let output_path = OutputPath::new(tool_output_path, EventKind::Ir);
        let actions = self.file_actions(tool_output_path, entries);
        if !self.is_rendering(flamegraph) {
            return Ok(FlamegraphPlan { actions, outputs: Vec::new() });
        }
        let base = match base_map {
            Some(base) => base,
            None => {
                return Err(FlamegraphError::MissingBase);
            },
        };
        let options = DifferentialOptions { normalize: flamegraph.config.normalize_differential };
        let outputs = match event_outputs(
            &output_path,
            &flamegraph.config.event_kinds,
            map,
            Some(base),
            true,
            false,
            options,
        ) {
            Ok(outputs) => outputs,
            Err(e) => {
                return Err(e);
            },
        };
        Ok(FlamegraphPlan { actions, outputs })
    }
}

impl Flamegraph {
    /// The stacks that the graphs are rendered from: those of the run and, where given,
    /// those of the baseline, with the derived kinds computed where a wanted kind is derived.
    ///
    /// Fails with `NoStacks` where the run has no stack, and with `Costs` where the
    /// derivation fails: with the error of the first stack of the run for which it fails,
    /// or else of the first stack of the baseline.
    pub fn prepare(&self, map: FlamegraphMap, base_map: Option<FlamegraphMap>) -> (r: Result<
        (FlamegraphMap, Option<FlamegraphMap>),
        FlamegraphError,
    >)
        ensures
            ({
                let derives = exists|i: int|
                    0 <= i < self.config.event_kinds@.len()
                        && (#[trigger] self.config.event_kinds@[i]).spec_is_derived();
                let base_is_ready = match base_map {
                    Some(base) => can_summarize(base.stacks@),
                    None => true,
                };
                &&& map@.len() == 0 ==> r == Err::<
                    (FlamegraphMap, Option<FlamegraphMap>),
                    FlamegraphError,
                >(FlamegraphError::NoStacks)
                &&& map@.len() > 0 && !derives ==> r == Ok::<
                    (FlamegraphMap, Option<FlamegraphMap>),
                    FlamegraphError,
                >((map, base_map))
                &&& map@.len() > 0 && derives ==> (r is Ok <==> can_summarize(map.stacks@)
                    && base_is_ready)
                &&& map@.len() > 0 && derives && r is Ok ==> is_summarized(
                    r->Ok_0.0.stacks@,
                    map.stacks@,
                ) && match (r->Ok_0.1, base_map) {
                    (Some(after), Some(before)) => is_summarized(after.stacks@, before.stacks@),
                    (None, None) => true,
                    _ => false,
                }
                &&& map@.len() > 0 && r is Err ==> (r->Err_0 matches FlamegraphError::Costs(error)
                    && is_first_summary_error(
                    if can_summarize(map.stacks@) {
                        base_map->0.stacks@
                    } else {
                        map.stacks@
                    },
                    error,
                ))
            }),
    {
        if map.is_empty() {
            return Err(FlamegraphError::NoStacks);
        }
        let mut map = map;
        let mut base_map = base_map;
        if self.needs_summary() {
            match map.make_summary() {
                Ok(()) => {},
                Err(e) => {
                    return Err(FlamegraphError::Costs(e));
                },
            }
            base_map = match base_map {
                Some(base) => {
                    let mut base = base;
                    match base.make_summary() {
                        Ok(()) => {},
                        Err(e) => {
                            return Err(FlamegraphError::Costs(e));
                        },
                    }
                    Some(base)
                },
                None => None,
            };
        }
        Ok((map, base_map))
    }
}

/// Reads the folded stacks of a run: those of the records whose call context ends with the
/// sentinel, where one is given, and those of all records otherwise.
#[derive(Debug, PartialEq, Eq)]
pub struct FlamegraphParser {
    pub sentinel: Option<Sentinel>,
}

impl Parser for FlamegraphParser {
    type Output = FlamegraphMap;

    fn parse(&self, files: &Vec<Vec<String>>) -> (r: Result<FlamegraphMap, ParseError>)
        ensures
            match parsed_files(file_views(files@)) {
                Ok(table) => r is Ok && r->Ok_0@ == folded_records(
                    table.records,
                    match self.sentinel {
                        Some(s) => Some(s@),
                        None => None,
                    },
                ),
                Err(e) => r == Err::<FlamegraphMap, ParseError>(e),
            },
    {
        match parse(files) {
            Ok(table) => Ok(FlamegraphMap::from_table(&table, self.sentinel.as_ref())),
            Err(e) => Err(e),
        }
    }
}

} // verus!
