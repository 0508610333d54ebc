//! Output written from known counts, and the proof that it is read back as the same counts.

use vstd::prelude::*;

use crate::costs::{EventKind, EVENT_KINDS, lemma_index_injective, lemma_name_injective};
use crate::parser::{
    BodyState, CostTableView, Counts, HeaderState, ParseError, all_measured, body_fold,
    body_lines, body_step, columns, count_at, counts_added, header_fold, header_lines,
    header_step, is_events_line, is_total_line, leading_blank_lines, leading_plain_lines,
    lit_events, lit_fn, lit_positions, lit_summary, lit_totals, lit_version, measured_kind,
    measured_kinds, numbers_of, parsed, zero_counts,
};
use crate::text::{
    decimal, is_blank, is_digit, is_prefix, joined, leading_blanks, lemma_decimal_round_trip,
    lemma_first_index_unique, lemma_word_len, tokens, trim_start, word_len,
};

verus! {

/// Whether `word` is a word: not empty, and without white space.
pub open spec fn is_word(word: Seq<char>) -> bool {
    word.len() > 0 && forall|i: int| 0 <= i < word.len() ==> !is_blank(#[trigger] word[i])
}

/// Whether every one of `words` is a word.
pub open spec fn are_words(words: Seq<Seq<char>>) -> bool {
    forall|i: int| 0 <= i < words.len() ==> is_word(#[trigger] words[i])
}

/// A space.
pub open spec fn space() -> Seq<char> {
    seq![' ']
}

/// The word that starts `s` lies within `s`, holds no white space, and ends at white space
/// or at the end of `s`.
pub proof fn lemma_word_len_bounds(s: Seq<char>)
    ensures
        word_len(s) <= s.len(),
        forall|j: int| 0 <= j < word_len(s) ==> !is_blank(#[trigger] s[j]),
        word_len(s) < s.len() ==> is_blank(s[word_len(s) as int]),
    decreases s.len(),
{
    if s.len() > 0 && !is_blank(s[0]) {
        let t = s.skip(1);
        lemma_word_len_bounds(t);
        assert forall|j: int| 0 <= j < word_len(s) implies !is_blank(#[trigger] s[j]) by {
            if j > 0 {
                assert(t[j - 1] == s[j]);
            }
        }
        if word_len(s) < s.len() {
            assert(t[word_len(t) as int] == s[word_len(s) as int]);
        }
    }
}

/// A word alone is its own and only word.
pub proof fn lemma_tokens_of_word(word: Seq<char>)
    requires
        is_word(word),
    ensures
        tokens(word) == seq![word],
{
    lemma_word_len(word, word.len() as int);
    assert(!is_blank(word[0]));
    assert(word.take(word.len() as int) == word);
    assert(tokens(word.skip(word.len() as int)) == Seq::<Seq<char>>::empty());
    assert(seq![word] + Seq::<Seq<char>>::empty() =~= seq![word]);
}

/// A word behind a space adds itself to the words before it.
pub proof fn lemma_tokens_append(text: Seq<char>, word: Seq<char>)
    requires
        is_word(word),
    ensures
        tokens(text + space() + word) == tokens(text).push(word),
    decreases text.len(),
{
    let whole = text + space() + word;
    if text.len() == 0 {
        assert(whole.skip(1) =~= word);
        lemma_tokens_of_word(word);
        assert(Seq::<Seq<char>>::empty().push(word) =~= seq![word]);
    } else if is_blank(text[0]) {
        assert(whole.skip(1) =~= text.skip(1) + space() + word);
        lemma_tokens_append(text.skip(1), word);
    } else {
        lemma_word_len_bounds(text);
        let n = word_len(text) as int;
        assert forall|j: int| 0 <= j < n implies !is_blank(whole[j]) by {
            assert(whole[j] == text[j]);
        }
        if n < text.len() {
            assert(whole[n] == text[n]);
        } else {
            assert(whole[n] == ' ');
        }
        lemma_word_len(whole, n);
        assert(whole.take(n) =~= text.take(n));
        assert(whole.skip(n) =~= text.skip(n) + space() + word);
        lemma_tokens_append(text.skip(n), word);
        assert(seq![text.take(n)] + tokens(text.skip(n)).push(word) =~= (seq![text.take(n)]
            + tokens(text.skip(n))).push(word));
    }
}

/// Words that are joined by single spaces are read as the same words.
pub proof fn lemma_tokens_of_joined(words: Seq<Seq<char>>)
    requires
        are_words(words),
    ensures
        tokens(joined(words, space())) == words,
    decreases words.len(),
{
    if words.len() == 0 {
        assert(words =~= Seq::<Seq<char>>::empty());
    } else if words.len() == 1 {
        lemma_tokens_of_word(words[0]);
        assert(words =~= seq![words[0]]);
    } else {
        let init = words.drop_last();
        assert forall|i: int| 0 <= i < init.len() implies is_word(#[trigger] init[i]) by {
            assert(init[i] == words[i]);
        }
        lemma_tokens_of_joined(init);
        lemma_tokens_append(joined(init, space()), words.last());
        assert(init.push(words.last()) =~= words);
    }
}

/// The decimal notation of a number is a word.
pub proof fn lemma_decimal_is_word(n: nat)
    ensures
        is_word(decimal(n)),
{
    lemma_decimal_round_trip(n);
    let s = decimal(n);
    assert forall|i: int| 0 <= i < s.len() implies !is_blank(#[trigger] s[i]) by {
        assert(is_digit(s[i]));
    }
}

/// The name of an event kind is a word.
pub proof fn lemma_event_name_is_word(kind: EventKind)
    ensures
        is_word(kind.spec_name()),
{
}

/// The names of the event kinds.
pub open spec fn names_of(events: Seq<EventKind>) -> Seq<Seq<char>> {
    events.map_values(|kind: EventKind| kind.spec_name())
}

/// The line of the header that lists the events: `events:` and the names, each behind a
/// space.
pub open spec fn events_line(events: Seq<EventKind>) -> Seq<char> {
    lit_events() + seq![':', ' '] + joined(names_of(events), space())
}

/// The decimal notations of the counts.
pub open spec fn decimals_of(counts: Seq<u64>) -> Seq<Seq<char>> {
    counts.map_values(|count: u64| decimal(count as nat))
}

/// A line of counts: the position `0` and the counts, with a space between each two.
pub open spec fn counts_line(counts: Seq<u64>) -> Seq<char> {
    joined(seq![seq!['0']] + decimals_of(counts), space())
}

/// The lines of the record of a call context: the line that opens it, the line of its counts
/// and the empty line that closes it.
pub open spec fn record_lines(context: Seq<char>, counts: Seq<u64>) -> Seq<Seq<char>> {
    seq![lit_fn() + context, counts_line(counts), Seq::empty()]
}

/// The lines of the first `n` records.
pub open spec fn records_lines(records: Seq<(Seq<char>, Seq<u64>)>, n: nat) -> Seq<Seq<char>>
    decreases n,
{
    if n == 0 {
        Seq::empty()
    } else {
        records_lines(records, (n - 1) as nat) + record_lines(records[n - 1].0, records[n - 1].1)
    }
}

/// The lines of a file with the given first line, events and records.
pub open spec fn written(
    first: Seq<char>,
    events: Seq<EventKind>,
    records: Seq<(Seq<char>, Seq<u64>)>,
) -> Seq<Seq<char>> {
    seq![first, events_line(events)] + records_lines(records, records.len())
}

/// The counts of `events` by place, where the first `n` kinds have the first `n` of `counts`
/// and the other kinds of `events` have zero.
pub open spec fn placed(events: Seq<EventKind>, counts: Seq<u64>, n: nat) -> Counts
    decreases n,
{
    if n == 0 {
        zero_counts(events)
    } else {
        placed(events, counts, (n - 1) as nat).update(
            events[n - 1].spec_index(),
            Some(counts[n - 1]),
        )
    }
}

/// The records as the table holds them: each context with its counts by place.
pub open spec fn placed_records(
    events: Seq<EventKind>,
    records: Seq<(Seq<char>, Seq<u64>)>,
    n: nat,
) -> Seq<(Seq<char>, Counts)> {
    Seq::new(
        n,
        |i: int|
            (
                records[i].0,
                placed(events, records[i].1, columns(events, decimals_of(records[i].1))),
            ),
    )
}

/// Counts by place hold, for each of the first `n` kinds, its count, and zero for the kinds
/// behind them, where no kind is listed twice.
pub proof fn lemma_placed(events: Seq<EventKind>, counts: Seq<u64>, n: nat)
    requires
        events.no_duplicates(),
        n <= events.len(),
        n <= counts.len(),
    ensures
        placed(events, counts, n).len() == EVENT_KINDS,
        forall|j: int| 0 <= j < n ==> placed(events, counts, n)[(#[trigger] events[j]).spec_index()] == Some(counts[j]),
        forall|j: int|
            n <= j < events.len() ==> placed(events, counts, n)[(#[trigger] events[j]).spec_index()]
                == Some(0u64),
        forall|kind: EventKind|
            !events.contains(kind) ==> placed(events, counts, n)[#[trigger] kind.spec_index()] is None,
    decreases n,
{
    lemma_index_injective();
    if n == 0 {
        assert forall|j: int| 0 <= j < events.len() implies zero_counts(events)[(
        #[trigger] events[j]).spec_index()] == Some(0u64) by {
            assert(EventKind::spec_from_index(events[j].spec_index()) == events[j]);
        }
        assert forall|kind: EventKind| !events.contains(kind) implies zero_counts(
            events,
        )[#[trigger] kind.spec_index()] is None by {
            assert(EventKind::spec_from_index(kind.spec_index()) == kind);
        }
    } else {
        lemma_placed(events, counts, (n - 1) as nat);
        let before = placed(events, counts, (n - 1) as nat);
        let last = events[n - 1];
        assert forall|j: int| 0 <= j < n implies placed(events, counts, n)[(
        #[trigger] events[j]).spec_index()] == Some(counts[j]) by {
            if j < n - 1 {
                assert(events[j] != last);
            }
        }
        assert forall|j: int| n <= j < events.len() implies placed(events, counts, n)[(
        #[trigger] events[j]).spec_index()] == Some(0u64) by {
            assert(events[j] != last);
        }
        assert forall|kind: EventKind| !events.contains(kind) implies placed(
            events,
            counts,
            n,
        )[#[trigger] kind.spec_index()] is None by {
            assert(kind != last);
        }
    }
}

/// The counts that are written in decimal notation are added to zero as they are.
pub proof fn lemma_counts_added_to_zero(events: Seq<EventKind>, counts: Seq<u64>, n: nat)
    requires
        events.no_duplicates(),
        n <= events.len(),
        n <= counts.len(),
    ensures
        counts_added(zero_counts(events), events, decimals_of(counts), n) == Ok::<
            Counts,
            ParseError,
        >(placed(events, counts, n)),
    decreases n,
{
    if n > 0 {
        lemma_counts_added_to_zero(events, counts, (n - 1) as nat);
        lemma_placed(events, counts, (n - 1) as nat);
        let j = (n - 1) as int;
        let number = decimals_of(counts)[j];
        assert(number == decimal(counts[j] as nat));
        lemma_decimal_round_trip(counts[j] as nat);
        let before = placed(events, counts, (n - 1) as nat);
        assert(before[events[j].spec_index()] == Some(0u64));
        assert(count_at(before, events[j]) == 0);
    }
}

/// The names of measured kinds are read as these kinds.
pub proof fn lemma_measured_names(events: Seq<EventKind>)
    requires
        all_measured(events),
    ensures
        measured_kinds(names_of(events)) == Some(events),
    decreases events.len(),
{
    let names = names_of(events);
    if events.len() == 0 {
        assert(events =~= Seq::<EventKind>::empty());
    } else {
        let init = events.drop_last();
        assert(names.drop_last() =~= names_of(init));
        assert forall|i: int| 0 <= i < init.len() implies !(#[trigger] init[i]).spec_is_derived() by {
            assert(init[i] == events[i]);
        }
        lemma_measured_names(init);
        let kind = events.last();
        assert(names.last() == kind.spec_name());
        let chosen = choose|k: EventKind| k.spec_name() == kind.spec_name();
        lemma_name_injective(chosen, kind);
        assert(!events[events.len() - 1].spec_is_derived());
        assert(measured_kind(names.last()) == Some(kind));
        assert(init.push(kind) =~= events);
    }
}

/// The line that lists the events is read as the header with these events, and ends the
/// header.
pub proof fn lemma_events_line(events: Seq<EventKind>)
    requires
        all_measured(events),
    ensures
        is_events_line(events_line(events)),
        header_fold(seq![events_line(events)]) == Ok::<HeaderState, ParseError>(
            HeaderState { events: Some(events), positions: 1 },
        ),
{
    let line = events_line(events);
    let names = names_of(events);
    let list = joined(names, space());
    assert forall|j: int| 0 <= j < 6 implies line[j] != ':' by {
        assert(line[j] == lit_events()[j]);
    }
    assert(line[6] == ':');
    lemma_first_index_unique(line, ':', 6);
    assert(line.take(6) =~= lit_events());
    assert(is_word(lit_events()));
    lemma_tokens_of_word(lit_events());
    assert(line.skip(7) =~= space() + list);
    assert(is_blank(line.skip(7)[0]));
    assert(line.skip(7).skip(1) =~= list);
    assert(tokens(line.skip(7)) == tokens(list));
    assert forall|i: int| 0 <= i < names.len() implies is_word(#[trigger] names[i]) by {
        lemma_event_name_is_word(events[i]);
    }
    lemma_tokens_of_joined(names);
    lemma_measured_names(events);
    assert(seq![lit_events()][0] != seq![lit_version()][0]) by {
        assert(lit_events().len() != lit_version().len());
    }
    assert(seq![lit_events()][0] != seq![lit_positions()][0]) by {
        assert(lit_events().len() != lit_positions().len());
    }
    let initial = HeaderState { events: None, positions: 1 };
    assert(header_step(initial, line) == Ok::<HeaderState, ParseError>(
        HeaderState { events: Some(events), positions: 1 },
    ));
    let lines = seq![line];
    assert(lines.drop_last() =~= Seq::<Seq<char>>::empty());
    assert(header_fold(lines.drop_last()) == Ok::<HeaderState, ParseError>(initial));
}

/// What is joined starts with the first of its parts.
pub proof fn lemma_joined_starts(parts: Seq<Seq<char>>, sep: Seq<char>)
    requires
        parts.len() > 0,
    ensures
        is_prefix(parts[0], joined(parts, sep)),
    decreases parts.len(),
{
    let first = parts[0];
    if parts.len() == 1 {
        assert(first.subrange(0, first.len() as int) =~= first);
    } else {
        let init = parts.drop_last();
        assert(init[0] == first);
        lemma_joined_starts(init, sep);
        let whole = joined(parts, sep);
        assert(whole.subrange(0, first.len() as int) =~= joined(init, sep).subrange(
            0,
            first.len() as int,
        ));
    }
}

/// A line of counts is read as its counts: it starts with a digit, stands as it is when
/// leading white space is taken away, is no line of totals, and its words behind the
/// position are the decimal notations of the counts.
pub proof fn lemma_counts_line(counts: Seq<u64>)
    ensures
        trim_start(counts_line(counts)) == counts_line(counts),
        counts_line(counts).len() > 0,
        is_digit(counts_line(counts)[0]),
        !is_total_line(counts_line(counts)),
        !is_prefix(lit_fn(), counts_line(counts)),
        numbers_of(counts_line(counts), 1) == decimals_of(counts),
{
    let words = seq![seq!['0']] + decimals_of(counts);
    let line = counts_line(counts);
    lemma_joined_starts(words, space());
    assert(words[0] == seq!['0']);
    assert(line.subrange(0, 1)[0] == '0');
    assert(line[0] == '0');
    assert(leading_blanks(line) == 0);
    assert(line.skip(0) =~= line);
    if is_prefix(lit_summary(), line) {
        assert(line.subrange(0, 8)[0] == lit_summary()[0]);
    }
    if is_prefix(lit_totals(), line) {
        assert(line.subrange(0, 7)[0] == lit_totals()[0]);
    }
    if is_prefix(lit_fn(), line) {
        assert(line.subrange(0, 3)[0] == lit_fn()[0]);
    }
    assert forall|i: int| 0 <= i < words.len() implies is_word(#[trigger] words[i]) by {
        if i > 0 {
            assert(words[i] == decimal(counts[i - 1] as nat));
            lemma_decimal_is_word(counts[i - 1] as nat);
        }
    }
    lemma_tokens_of_joined(words);
    assert(words.skip(1) =~= decimals_of(counts));
}

/// The lines of a body with one more line are read as the lines before and then the line.
pub proof fn lemma_body_fold_push(
    events: Seq<EventKind>,
    positions: nat,
    lines: Seq<Seq<char>>,
    line: Seq<char>,
)
    ensures
        body_fold(events, positions, lines.push(line)) == match body_fold(events, positions, lines) {
            Ok(state) => body_step(events, positions, state, line),
            Err(e) => Err(e),
        },
{
    assert(lines.push(line).drop_last() =~= lines);
}

/// The three lines of a record add the record to the records that were read before.
pub proof fn lemma_record_is_read(
    events: Seq<EventKind>,
    before: Seq<(Seq<char>, Counts)>,
    context: Seq<char>,
    counts: Seq<u64>,
    lines: Seq<Seq<char>>,
)
    requires
        events.no_duplicates(),
        body_fold(events, 1, lines) == Ok::<BodyState, ParseError>(
            BodyState { total: None, records: before, recording: false },
        ),
    ensures
        body_fold(events, 1, lines + record_lines(context, counts)) == Ok::<BodyState, ParseError>(
            BodyState {
                total: None,
                records: before.push(
                    (context, placed(events, counts, columns(events, decimals_of(counts)))),
                ),
                recording: false,
            },
        ),
{
    let opening = lit_fn() + context;
    let line = counts_line(counts);
    let empty = Seq::<char>::empty();
    let start = BodyState { total: None, records: before, recording: false };

    // the line that opens the record
    assert(opening[0] == 'f');
    assert(leading_blanks(opening) == 0);
    assert(opening.skip(0) =~= opening);
    if is_prefix(lit_summary(), opening) {
        assert(opening.subrange(0, 8)[0] == lit_summary()[0]);
    }
    if is_prefix(lit_totals(), opening) {
        assert(opening.subrange(0, 7)[0] == lit_totals()[0]);
    }
    assert(opening.subrange(0, 3) =~= lit_fn());
    assert(opening.skip(3) =~= context);
    let opened = BodyState {
        total: None,
        records: before.push((context, zero_counts(events))),
        recording: true,
    };
    assert(body_step(events, 1, start, opening) == Ok::<BodyState, ParseError>(opened));
    lemma_body_fold_push(events, 1, lines, opening);

    // the line of counts
    lemma_counts_line(counts);
    let numbers = decimals_of(counts);
    let n = columns(events, numbers);
    lemma_counts_added_to_zero(events, counts, n);
    let filled = BodyState {
        total: None,
        records: before.push((context, placed(events, counts, n))),
        recording: true,
    };
    assert(opened.records.last() == (context, zero_counts(events)));
    assert(opened.records.drop_last() =~= before);
    assert(body_step(events, 1, opened, line) == Ok::<BodyState, ParseError>(filled));
    lemma_body_fold_push(events, 1, lines.push(opening), line);

    // the empty line
    assert(leading_blanks(empty) == 0);
    assert(empty.skip(0) =~= empty);
    let closed = BodyState { recording: false, ..filled };
    assert(body_step(events, 1, filled, empty) == Ok::<BodyState, ParseError>(closed));
    lemma_body_fold_push(events, 1, lines.push(opening).push(line), empty);
    assert(lines + record_lines(context, counts) =~= lines.push(opening).push(line).push(empty));
}

/// The lines of records are read as these records.
pub proof fn lemma_records_are_read(
    events: Seq<EventKind>,
    records: Seq<(Seq<char>, Seq<u64>)>,
    n: nat,
)
    requires
        events.no_duplicates(),
        n <= records.len(),
    ensures
        body_fold(events, 1, records_lines(records, n)) == Ok::<BodyState, ParseError>(
            BodyState { total: None, records: placed_records(events, records, n), recording: false },
        ),
    decreases n,
{
    if n == 0 {
        assert(placed_records(events, records, 0) =~= Seq::<(Seq<char>, Counts)>::empty());
    } else {
        let m = (n - 1) as nat;
        lemma_records_are_read(events, records, m);
        lemma_record_is_read(
            events,
            placed_records(events, records, m),
            records[n - 1].0,
            records[n - 1].1,
            records_lines(records, m),
        );
        assert(placed_records(events, records, m).push(
            (
                records[n - 1].0,
                placed(events, records[n - 1].1, columns(events, decimals_of(records[n - 1].1))),
            ),
        ) =~= placed_records(events, records, n));
    }
}

/// A file that is written from known counts is read back as exactly these counts: the table
/// holds the events of the file, no total, and for each record its call context with the
/// counts of the record, each at the place of its kind.
///
/// The first line is any line that holds a word; the events are measured kinds, none of
/// them twice. A record with fewer counts than there are events has zero for the rest.
pub proof fn lemma_written_is_read_back(
    first: Seq<char>,
    events: Seq<EventKind>,
    records: Seq<(Seq<char>, Seq<u64>)>,
)
    requires
        tokens(first).len() > 0,
        all_measured(events),
        events.no_duplicates(),
    ensures
        parsed(written(first, events, records)) == Ok::<CostTableView, ParseError>(
            CostTableView {
                events,
                total: None,
                records: placed_records(events, records, records.len()),
            },
        ),
{
    let lines = written(first, events, records);
    let body = records_lines(records, records.len());
    assert(lines[0] == first);
    assert(leading_blank_lines(lines) == 0);
    let rest = lines.skip(1);
    assert(rest[0] == events_line(events));
    lemma_events_line(events);
    assert(leading_plain_lines(rest) == 0);
    assert(rest.take(1) =~= seq![events_line(events)]);
    assert(header_lines(lines) == seq![events_line(events)]);
    assert(rest.skip(1) =~= body);
    assert(body_lines(lines) == body);
    lemma_records_are_read(events, records, records.len());
}

/// The counts of a record that is read back: each kind of the events has the count that was
/// written for it, and no other kind has a count.
pub proof fn lemma_counts_are_read_back(events: Seq<EventKind>, counts: Seq<u64>)
    requires
        events.no_duplicates(),
        counts.len() == events.len(),
    ensures
        forall|j: int|
            0 <= j < events.len() ==> placed(events, counts, events.len())[(
            #[trigger] events[j]).spec_index()] == Some(counts[j]),
        forall|kind: EventKind|
            !events.contains(kind) ==> placed(events, counts, events.len())[#[trigger] kind.spec_index()] is None,
        columns(events, decimals_of(counts)) == events.len(),
{
    lemma_placed(events, counts, events.len());
}

} // verus!
