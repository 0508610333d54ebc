//! What the rotation of the flame graphs does to a directory, stated over the set of its file
//! names.

use vstd::prelude::*;

use crate::common::{FileActionView, apply_action, apply_actions};
use crate::flamegraph::{BaselineFlamegraphGenerator, FlamegraphGenerator};
use crate::flamegraph_path::{
    OutputPathKindView, OutputPathView, lit_base_at, lit_diff_base, lit_dot_diff_base,
    lit_dot_svg, lit_old_svg, lit_svg, moves_to_old, removals_of, to_old_svg,
};
use crate::rotation::lemma_apply_actions_in_turn;
use crate::text::{first_index, is_prefix, lemma_first_index, lemma_first_index_unique};
use crate::tool_path::{BaselineKindView, is_baseline_name, is_name_char};

verus! {

/// Whether `file` is what a graph of the identity `m` in `dir` is moved to: its name with
/// `old.svg` in place of `svg`.
pub open spec fn is_moved_graph(
    m: OutputPathView,
    dir: Set<Seq<char>>,
    file: Seq<char>,
    ignore_event_kind: bool,
) -> bool {
    exists|g: Seq<char>|
        dir.contains(g) && m.matches(g, ignore_event_kind) && file == #[trigger] to_old_svg(g)
}

/// The names of the files of a directory after `m.shift`, where `dir` holds them before.
///
/// Against the run before, the graphs of the old role and those of `m` itself leave, and each
/// of the latter comes back with `old.svg` in place of `svg`. Against a named baseline the
/// graphs of the named slot and those of `m` itself leave, and none comes back.
pub open spec fn shifted_graphs(
    m: OutputPathView,
    dir: Set<Seq<char>>,
    ignore_event_kind: bool,
) -> Set<Seq<char>> {
    match m.baseline_kind {
        BaselineKindView::Old => Set::new(
            |f: Seq<char>|
                (dir.contains(f) && !m.matches(f, ignore_event_kind) && !m.to_base_path().matches(
                    f,
                    ignore_event_kind,
                )) || is_moved_graph(m, dir, f, ignore_event_kind),
        ),
        BaselineKindView::Name(_) => Set::new(
            |f: Seq<char>|
                dir.contains(f) && !m.matches(f, ignore_event_kind) && !m.to_base_path().matches(
                    f,
                    ignore_event_kind,
                ),
        ),
    }
}

/// The names among `entries` that have an identity are the entries that have it.
pub proof fn lemma_matching_holds(
    m: OutputPathView,
    entries: Seq<Seq<char>>,
    ignore_event_kind: bool,
    file: Seq<char>,
)
    ensures
        m.matching(entries, ignore_event_kind).contains(file) <==> entries.contains(file)
            && m.matches(file, ignore_event_kind),
    decreases entries.len(),
{
    if entries.len() > 0 {
        let rest = entries.drop_last();
        let last = entries.last();
        lemma_matching_holds(m, rest, ignore_event_kind, file);
        if entries.contains(file) {
            let i = choose|i: int| 0 <= i < entries.len() && entries[i] == file;
            if i < entries.len() - 1 {
                assert(rest[i] == file);
            }
        }
        if rest.contains(file) {
            let i = choose|i: int| 0 <= i < rest.len() && rest[i] == file;
            assert(entries[i] == file);
        }
        assert(entries[entries.len() - 1] == last);
        let found = m.matching(rest, ignore_event_kind);
        if m.matches(last, ignore_event_kind) {
            let all = found.push(last);
            assert(all[all.len() - 1] == last);
            if all.contains(file) {
                let i = choose|i: int| 0 <= i < all.len() && all[i] == file;
                if i < found.len() {
                    assert(found[i] == file);
                }
            }
            if found.contains(file) {
                let i = choose|i: int| 0 <= i < found.len() && found[i] == file;
                assert(all[i] == file);
            }
        }
    }
}

/// What is left of `entries` when the graphs of an identity are taken away are the entries
/// that do not have the identity.
pub proof fn lemma_remaining_graphs(
    m: OutputPathView,
    entries: Seq<Seq<char>>,
    ignore_event_kind: bool,
    file: Seq<char>,
)
    ensures
        m.remaining(entries, ignore_event_kind).contains(file) <==> entries.contains(file)
            && !m.matches(file, ignore_event_kind),
    decreases entries.len(),
{
    if entries.len() > 0 {
        let rest = entries.drop_last();
        let last = entries.last();
        lemma_remaining_graphs(m, rest, ignore_event_kind, file);
        if entries.contains(file) {
            let i = choose|i: int| 0 <= i < entries.len() && entries[i] == file;
            if i < entries.len() - 1 {
                assert(rest[i] == file);
            }
        }
        if rest.contains(file) {
            let i = choose|i: int| 0 <= i < rest.len() && rest[i] == file;
            assert(entries[i] == file);
        }
        assert(entries[entries.len() - 1] == last);
        let left = m.remaining(rest, ignore_event_kind);
        if !m.matches(last, ignore_event_kind) {
            let all = left.push(last);
            assert(all[all.len() - 1] == last);
            if all.contains(file) {
                let i = choose|i: int| 0 <= i < all.len() && all[i] == file;
                if i < left.len() {
                    assert(left[i] == file);
                }
            }
            if left.contains(file) {
                let i = choose|i: int| 0 <= i < left.len() && left[i] == file;
                assert(all[i] == file);
            }
        }
    }
}

/// The removals of `names` take these files away and nothing else.
pub proof fn lemma_removals_of(dir: Set<Seq<char>>, names: Seq<Seq<char>>)
    ensures
        apply_actions(dir, removals_of(names)) == Set::new(
            |f: Seq<char>| dir.contains(f) && !names.contains(f),
        ),
    decreases names.len(),
{
    let wanted = Set::new(|f: Seq<char>| dir.contains(f) && !names.contains(f));
    if names.len() == 0 {
        assert(apply_actions(dir, removals_of(names)) =~= wanted);
    } else {
        let rest = names.drop_last();
        let last = names.last();
        lemma_removals_of(dir, rest);
        assert(removals_of(names).drop_last() =~= removals_of(rest));
        assert(removals_of(names).last() == FileActionView::Remove(last));
        assert(names[names.len() - 1] == last);
        assert forall|f: Seq<char>| names.contains(f) <==> (rest.contains(f) || f == last) by {
            if names.contains(f) {
                let i = choose|i: int| 0 <= i < names.len() && names[i] == f;
                if i < names.len() - 1 {
                    assert(rest[i] == f);
                }
            }
            if rest.contains(f) {
                let i = choose|i: int| 0 <= i < rest.len() && rest[i] == f;
                assert(names[i] == f);
            }
        }
        assert(apply_actions(dir, removals_of(names)) =~= wanted);
    }
}

/// The files of a directory after each of `names` that is there was moved to the name with
/// `old.svg` in place of `svg`.
pub open spec fn after_graph_moves(dir: Set<Seq<char>>, names: Seq<Seq<char>>) -> Set<Seq<char>> {
    Set::new(
        |f: Seq<char>|
            (dir.contains(f) && !names.contains(f)) || exists|i: int|
                0 <= i < names.len() && dir.contains(#[trigger] names[i]) && f == to_old_svg(
                    names[i],
                ),
    )
}

/// The moves of `names` to the old role take each of them that is there away and put it
/// back under its new name, where no new name is among the names that are moved.
pub proof fn lemma_moves_to_old(dir: Set<Seq<char>>, names: Seq<Seq<char>>)
    requires
        forall|i: int| 0 <= i < names.len() ==> !names.contains(to_old_svg(#[trigger] names[i])),
    ensures
        apply_actions(dir, moves_to_old(names)) == after_graph_moves(dir, names),
    decreases names.len(),
{
    if names.len() == 0 {
        assert(apply_actions(dir, moves_to_old(names)) =~= after_graph_moves(dir, names));
    } else {
        let rest = names.drop_last();
        let last = names.last();
        let n = names.len() - 1;
        assert(names[n] == last);
        assert forall|f: Seq<char>| names.contains(f) <==> (rest.contains(f) || f == last) by {
            if names.contains(f) {
                let i = choose|i: int| 0 <= i < names.len() && names[i] == f;
                if i < n {
                    assert(rest[i] == f);
                }
            }
            if rest.contains(f) {
                let i = choose|i: int| 0 <= i < rest.len() && rest[i] == f;
                assert(names[i] == f);
            }
        }
        assert forall|i: int| 0 <= i < rest.len() implies !rest.contains(
            to_old_svg(#[trigger] rest[i]),
        ) by {
            assert(rest[i] == names[i]);
        }
        lemma_moves_to_old(dir, rest);
        assert(moves_to_old(names).drop_last() =~= moves_to_old(rest));
        assert(moves_to_old(names).last() == FileActionView::Rename(last, to_old_svg(last)));
        let before = after_graph_moves(dir, rest);
        let after = apply_action(before, FileActionView::Rename(last, to_old_svg(last)));
        let wanted = after_graph_moves(dir, names);
        assert forall|f: Seq<char>| after.contains(f) <==> wanted.contains(f) by {
            // no file that was moved before has the name of `last`
            assert forall|i: int| 0 <= i < rest.len() implies to_old_svg(#[trigger] rest[i])
                != last by {
                assert(rest[i] == names[i]);
            }
            if wanted.contains(f) {
                if dir.contains(f) && !names.contains(f) {
                    assert(before.contains(f));
                } else {
                    let i = choose|i: int|
                        0 <= i < names.len() && dir.contains(#[trigger] names[i]) && f
                            == to_old_svg(names[i]);
                    assert(!names.contains(to_old_svg(names[i])));
                    if i < n {
                        assert(rest[i] == names[i]);
                        assert(before.contains(f));
                    } else {
                        if rest.contains(last) {
                            let k = choose|k: int| 0 <= k < rest.len() && rest[k] == last;
                            assert(rest[k] == names[k]);
                            assert(dir.contains(rest[k]) && f == to_old_svg(rest[k]));
                            assert(before.contains(f));
                        } else {
                            assert(before.contains(last));
                        }
                    }
                }
            }
            if after.contains(f) {
                if before.contains(f) && f != last {
                    if !(dir.contains(f) && !rest.contains(f)) {
                        let i = choose|i: int|
                            0 <= i < rest.len() && dir.contains(#[trigger] rest[i]) && f
                                == to_old_svg(rest[i]);
                        assert(rest[i] == names[i]);
                    }
                } else if before.contains(last) && f == to_old_svg(last) {
                    assert(dir.contains(names[n]));
                } else {
                    // `f` is `last`, which stayed: it was not there to be moved
                    assert(f == last && !before.contains(last));
                }
            }
        }
        assert(after =~= wanted);
    }
}

/// The graph of a run, moved to the old role, is a graph of the old role and no graph of the
/// run, and no graph of the old role is one of the run.
pub proof fn lemma_moved_graph_role(m: OutputPathView, file: Seq<char>, ignore_event_kind: bool)
    requires
        m.kind is Regular,
        m.baseline_kind is Old,
    ensures
        m.matches(file, ignore_event_kind) ==> m.to_base_path().matches(
            to_old_svg(file),
            ignore_event_kind,
        ),
        m.to_base_path().matches(file, ignore_event_kind) ==> !m.matches(file, ignore_event_kind),
{
    let base = m.to_base_path();
    let n = m.prefix().len() as int;
    assert(base.prefix() == m.prefix());
    assert(lit_svg() != lit_old_svg()) by {
        assert(lit_svg().len() != lit_old_svg().len());
    }
    if base.matches(file, ignore_event_kind) && m.matches(file, ignore_event_kind) {
        let suffix = file.skip(n);
        if !ignore_event_kind {
            let head = m.event_kind.spec_name() + seq!['.'];
            assert(suffix.skip(head.len() as int) =~= lit_svg());
            assert(suffix.skip(head.len() as int) =~= lit_old_svg());
        }
    }
    if m.matches(file, ignore_event_kind) {
        let suffix = file.skip(n);
        let moved = to_old_svg(file);
        let dot = if ignore_event_kind {
            first_index(suffix, '.')
        } else {
            m.event_kind.spec_name().len() as int
        };
        lemma_first_index(suffix, '.');
        assert(suffix.skip(dot + 1) =~= lit_svg());
        assert(suffix.len() == dot + 4);
        assert(file.len() == n + dot + 4);
        assert(moved.len() == file.len() + 4);
        assert(moved.subrange(0, n) =~= file.subrange(0, n));
        let moved_suffix = moved.skip(n);
        assert forall|j: int| 0 <= j <= dot implies moved_suffix[j] == suffix[j] by {
            assert(moved_suffix[j] == moved[n + j]);
            assert(suffix[j] == file[n + j]);
        }
        assert(moved_suffix.skip(dot + 1) =~= lit_old_svg());
        if ignore_event_kind {
            assert(moved_suffix[dot] == '.');
            assert forall|j: int| 0 <= j < dot implies moved_suffix[j] != '.' by {
                assert(moved_suffix[j] == suffix[j]);
            }
            lemma_first_index_unique(moved_suffix, '.', dot);
        } else {
            assert(moved_suffix =~= m.event_kind.spec_name() + seq!['.'] + lit_old_svg()) by {
                assert(suffix =~= m.event_kind.spec_name() + seq!['.'] + lit_svg());
            }
        }
    }
}

/// The plan of a shift of the graphs of a run does to a directory what `shifted_graphs` says:
/// where `entries` are the names of the files of the directory, the actions of `shift_plan`,
/// performed in their order, leave the files of `shifted_graphs`.
pub proof fn lemma_shift_plan_shifts_graphs(
    m: OutputPathView,
    entries: Seq<Seq<char>>,
    ignore_event_kind: bool,
)
    requires
        m.kind is Regular,
    ensures
        apply_actions(entries.to_set(), m.shift_plan(entries, ignore_event_kind))
            == shifted_graphs(m, entries.to_set(), ignore_event_kind),
{
    let dir = entries.to_set();
    let base = m.to_base_path();
    let gone = base.matching(entries, ignore_event_kind);
    let left = base.remaining(entries, ignore_event_kind);
    let own = m.matching(left, ignore_event_kind);
    lemma_removals_of(dir, gone);
    let cleared = apply_actions(dir, removals_of(gone));
    assert forall|f: Seq<char>|
        cleared.contains(f) <==> dir.contains(f) && !base.matches(f, ignore_event_kind) by {
        lemma_matching_holds(base, entries, ignore_event_kind, f);
    }
    assert forall|f: Seq<char>|
        own.contains(f) <==> dir.contains(f) && !base.matches(f, ignore_event_kind) && m.matches(
            f,
            ignore_event_kind,
        ) by {
        lemma_matching_holds(m, left, ignore_event_kind, f);
        lemma_remaining_graphs(base, entries, ignore_event_kind, f);
    }
    match m.baseline_kind {
        BaselineKindView::Old => {
            lemma_apply_actions_in_turn(dir, removals_of(gone), moves_to_old(own));
            assert forall|i: int| 0 <= i < own.len() implies !own.contains(
                to_old_svg(#[trigger] own[i]),
            ) by {
                assert(own.contains(own[i]));
                lemma_moved_graph_role(m, own[i], ignore_event_kind);
            }
            lemma_moves_to_old(cleared, own);
            let after = after_graph_moves(cleared, own);
            let wanted = shifted_graphs(m, dir, ignore_event_kind);
            assert forall|f: Seq<char>| after.contains(f) <==> wanted.contains(f) by {
                lemma_moved_graph_role(m, f, ignore_event_kind);
                if wanted.contains(f) && is_moved_graph(m, dir, f, ignore_event_kind) {
                    let g = choose|g: Seq<char>|
                        dir.contains(g) && m.matches(g, ignore_event_kind) && f
                            == #[trigger] to_old_svg(g);
                    lemma_moved_graph_role(m, g, ignore_event_kind);
                    assert(own.contains(g));
                    let i = choose|i: int| 0 <= i < own.len() && own[i] == g;
                    assert(cleared.contains(own[i]) && f == to_old_svg(own[i]));
                }
                if after.contains(f) && !(cleared.contains(f) && !own.contains(f)) {
                    let i = choose|i: int|
                        0 <= i < own.len() && cleared.contains(#[trigger] own[i]) && f
                            == to_old_svg(own[i]);
                    assert(own.contains(own[i]));
                    assert(is_moved_graph(m, dir, f, ignore_event_kind));
                }
            }
            assert(after =~= wanted);
        },
        BaselineKindView::Name(_) => {
            lemma_apply_actions_in_turn(dir, removals_of(gone), removals_of(own));
            lemma_removals_of(cleared, own);
            assert(apply_actions(cleared, removals_of(own)) =~= shifted_graphs(
                m,
                dir,
                ignore_event_kind,
            ));
        },
    }
}

/// The rotation of the graphs of a run against the run before: afterwards no graph has the
/// role of the run, and the graphs of the old role are those that had the role of the run
/// before, each under its new name; what was old before is gone. For each event kind this
/// leaves no graph of the run and at most one old graph, as a name is the graph of one kind
/// and one role only.
pub proof fn lemma_shift_moves_graphs_to_old(
    m: OutputPathView,
    dir: Set<Seq<char>>,
    ignore_event_kind: bool,
    file: Seq<char>,
)
    requires
        m.kind is Regular,
        m.baseline_kind is Old,
    ensures
        shifted_graphs(m, dir, ignore_event_kind).contains(file) ==> !m.matches(
            file,
            ignore_event_kind,
        ),
        shifted_graphs(m, dir, ignore_event_kind).contains(file) && m.to_base_path().matches(
            file,
            ignore_event_kind,
        ) <==> is_moved_graph(m, dir, file, ignore_event_kind),
        !m.matches(file, ignore_event_kind) && !m.to_base_path().matches(file, ignore_event_kind)
            && !is_moved_graph(m, dir, file, ignore_event_kind) ==> (shifted_graphs(
            m,
            dir,
            ignore_event_kind,
        ).contains(file) <==> dir.contains(file)),
{
    lemma_moved_graph_role(m, file, ignore_event_kind);
    if is_moved_graph(m, dir, file, ignore_event_kind) {
        let g = choose|g: Seq<char>|
            dir.contains(g) && m.matches(g, ignore_event_kind) && file == #[trigger] to_old_svg(g);
        lemma_moved_graph_role(m, g, ignore_event_kind);
    }
}

/// A shift of the graphs against a named baseline empties the named slot: afterwards no
/// graph has the identity that `m` is compared against, and none has the identity `m`
/// itself. No graph is moved or added, and every other file stays.
pub proof fn lemma_shift_clears_named_graphs(
    m: OutputPathView,
    dir: Set<Seq<char>>,
    ignore_event_kind: bool,
)
    requires
        m.baseline_kind is Name,
    ensures
        forall|f: Seq<char>|
            shifted_graphs(m, dir, ignore_event_kind).contains(f) ==> !m.matches(
                f,
                ignore_event_kind,
            ) && !m.to_base_path().matches(f, ignore_event_kind),
        shifted_graphs(m, dir, ignore_event_kind).subset_of(dir),
        forall|f: Seq<char>|
            !m.matches(f, ignore_event_kind) && !m.to_base_path().matches(f, ignore_event_kind)
                ==> (shifted_graphs(m, dir, ignore_event_kind).contains(f) <==> dir.contains(f)),
{
}

/// A name is the graph of one identity at most once: two files that are the graph of the
/// same event kind and role of a benchmark are one file.
pub proof fn lemma_one_graph_of_each_kind(m: OutputPathView, first: Seq<char>, second: Seq<char>)
    requires
        m.matches(first, false),
        m.matches(second, false),
    ensures
        first == second,
{
    let n = m.prefix().len() as int;
    assert(first =~= first.subrange(0, n) + first.skip(n));
    assert(second =~= second.subrange(0, n) + second.skip(n));
}

/// Before the graphs of a run are rendered, none of an earlier run is left in their place:
/// after the actions of a run against a baseline no file of the directory is a graph of the
/// run or a differential graph against the baseline, of whatever event kind. So no graph of
/// an event kind that is no longer wanted stays behind.
pub proof fn lemma_no_stale_graph_stays(
    generator: BaselineFlamegraphGenerator,
    m: OutputPathView,
    entries: Seq<Seq<char>>,
    file: Seq<char>,
)
    requires
        m.kind is Regular,
        apply_actions(entries.to_set(), generator.actions(m, entries)).contains(file),
    ensures
        entries.contains(file) || is_moved_graph(m, entries.to_set(), file, true),
        !m.matches(file, true),
        !m.to_diff_path().matches(file, true),
{
    let dir = entries.to_set();
    let base = m.to_base_path();
    let diff = m.to_diff_path();
    let diffs = diff.matching(entries, true);
    let gone = base.matching(entries, true);
    let left = base.remaining(entries, true);
    let own = m.matching(left, true);
    let first = seq![FileActionView::CreateDirAll(m.dir)];
    let plan = m.shift_plan(entries, true);
    assert(generator.actions(m, entries) == first + removals_of(diffs) + plan);
    lemma_apply_actions_in_turn(dir, first + removals_of(diffs), plan);
    lemma_apply_actions_in_turn(dir, first, removals_of(diffs));
    assert(apply_actions(dir, first) == dir) by {
        assert(first.drop_last() =~= Seq::<FileActionView>::empty());
        assert(apply_actions(dir, first.drop_last()) == dir);
    }
    lemma_removals_of(dir, diffs);
    let without_diffs = apply_actions(dir, removals_of(diffs));
    lemma_removals_of(without_diffs, gone);
    let cleared = apply_actions(without_diffs, removals_of(gone));
    lemma_matching_holds(diff, entries, true, file);
    lemma_matching_holds(base, entries, true, file);
    lemma_matching_holds(m, left, true, file);
    lemma_remaining_graphs(base, entries, true, file);
    assert(diff.prefix() == m.prefix() && base.prefix() == m.prefix());
    assert(diff.kind.tail() != base.kind.tail()) by {
        assert(diff.kind.tail()[0] == 'd');
        assert(base.kind.tail()[0] != 'd');
    }
    assert(diff.kind.tail() != m.kind.tail()) by {
        assert(diff.kind.tail()[0] == 'd');
        assert(m.kind.tail()[0] == 's');
    }
    match m.baseline_kind {
        BaselineKindView::Old => {
            lemma_apply_actions_in_turn(without_diffs, removals_of(gone), moves_to_old(own));
            assert forall|i: int| 0 <= i < own.len() implies !own.contains(
                to_old_svg(#[trigger] own[i]),
            ) by {
                assert(own.contains(own[i]));
                lemma_matching_holds(m, left, true, own[i]);
                lemma_matching_holds(m, left, true, to_old_svg(own[i]));
                lemma_moved_graph_role(m, own[i], true);
                lemma_moved_graph_role(m, to_old_svg(own[i]), true);
            }
            lemma_moves_to_old(cleared, own);
            assert(after_graph_moves(cleared, own).contains(file));
            lemma_moved_graph_role(m, file, true);
            if !(cleared.contains(file) && !own.contains(file)) {
                let i = choose|i: int|
                    0 <= i < own.len() && cleared.contains(#[trigger] own[i]) && file
                        == to_old_svg(own[i]);
                assert(own.contains(own[i]));
                lemma_matching_holds(m, left, true, own[i]);
                lemma_moved_graph_role(m, own[i], true);
                assert(is_moved_graph(m, dir, file, true));
            }
        },
        BaselineKindView::Name(_) => {
            lemma_apply_actions_in_turn(without_diffs, removals_of(gone), removals_of(own));
            lemma_removals_of(cleared, own);
        },
    }
}

/// Whether the names of baselines in the role are names of baselines.
pub open spec fn has_names_of_baselines(kind: OutputPathKindView) -> bool {
    match kind {
        OutputPathKindView::Base(name) | OutputPathKindView::DiffBase(name) => is_baseline_name(
            name,
        ),
        OutputPathKindView::DiffBases(name, base) => is_baseline_name(name) && is_baseline_name(
            base,
        ),
        _ => true,
    }
}

/// Where the first dot stands in a text that starts with `head`, goes on with the name of a
/// baseline and then with a dot.
proof fn lemma_first_dot_behind_name(text: Seq<char>, head: Seq<char>, name: Seq<char>)
    requires
        is_baseline_name(name),
        forall|i: int| 0 <= i < head.len() ==> head[i] != '.',
        is_prefix(head + name + seq!['.'], text),
    ensures
        first_index(text, '.') == head.len() + name.len(),
{
    let start = head + name + seq!['.'];
    let at = head.len() + name.len();
    assert forall|j: int| 0 <= j <= at implies text[j] == start[j] by {
        assert(text.subrange(0, start.len() as int)[j] == start[j]);
    }
    assert forall|j: int| 0 <= j < at implies text[j] != '.' by {
        if j >= head.len() {
            assert(start[j] == name[j - head.len()]);
            assert(is_name_char(name[j - head.len()]));
        } else {
            assert(start[j] == head[j]);
        }
    }
    lemma_first_index_unique(text, '.', at as int);
}

/// Different roles end the name of a graph differently, where the names of baselines are
/// names of baselines: the role of a graph can be told from its name.
pub proof fn lemma_roles_end_differently(a: OutputPathKindView, b: OutputPathKindView)
    requires
        has_names_of_baselines(a),
        has_names_of_baselines(b),
        a.tail() == b.tail(),
    ensures
        a == b,
{
    let t = a.tail();
    let base = lit_base_at();
    match a {
        OutputPathKindView::Base(n) => {
            assert(is_prefix(base + n + seq!['.'], t)) by {
                assert(t.subrange(0, 6 + n.len() as int) =~= base + n + seq!['.']);
            }
            lemma_first_dot_behind_name(t, base, n);
        },
        OutputPathKindView::DiffBases(x, y) => {
            assert(is_prefix(base + x + seq!['.'], t)) by {
                assert(t.subrange(0, 6 + x.len() as int) =~= base + x + seq!['.']);
            }
            lemma_first_dot_behind_name(t, base, x);
        },
        _ => {},
    }
    match b {
        OutputPathKindView::Base(n) => {
            assert(is_prefix(base + n + seq!['.'], t)) by {
                assert(t.subrange(0, 6 + n.len() as int) =~= base + n + seq!['.']);
            }
            lemma_first_dot_behind_name(t, base, n);
        },
        OutputPathKindView::DiffBases(x, y) => {
            assert(is_prefix(base + x + seq!['.'], t)) by {
                assert(t.subrange(0, 6 + x.len() as int) =~= base + x + seq!['.']);
            }
            lemma_first_dot_behind_name(t, base, x);
        },
        _ => {},
    }
    match (a, b) {
        (OutputPathKindView::Base(n), OutputPathKindView::Base(other)) => {
            assert(n.len() == other.len());
            assert forall|i: int| 0 <= i < n.len() implies n[i] == other[i] by {
                assert(a.tail()[5 + i] == n[i]);
                assert(b.tail()[5 + i] == other[i]);
            }
            assert(n =~= other);
        },
        (OutputPathKindView::DiffBase(n), OutputPathKindView::DiffBase(other)) => {
            assert(n.len() == other.len());
            assert forall|i: int| 0 <= i < n.len() implies n[i] == other[i] by {
                assert(a.tail()[10 + i] == n[i]);
                assert(b.tail()[10 + i] == other[i]);
            }
            assert(n =~= other);
        },
        (OutputPathKindView::DiffBases(x, y), OutputPathKindView::DiffBases(v, w)) => {
            assert(x.len() == v.len());
            assert(y.len() == w.len());
            assert forall|i: int| 0 <= i < x.len() implies x[i] == v[i] by {
                assert(a.tail()[5 + i] == x[i]);
                assert(b.tail()[5 + i] == v[i]);
            }
            assert(x =~= v);
            assert forall|i: int| 0 <= i < y.len() implies y[i] == w[i] by {
                assert(a.tail()[16 + x.len() + i] == y[i]);
                assert(b.tail()[16 + v.len() + i] == w[i]);
            }
            assert(y =~= w);
        },
        (OutputPathKindView::DiffOld, OutputPathKindView::DiffBase(n)) => {
            assert(a.tail()[5] == 'o' && b.tail()[5] == 'b');
        },
        (OutputPathKindView::DiffBase(n), OutputPathKindView::DiffOld) => {
            assert(a.tail()[5] == 'b' && b.tail()[5] == 'o');
        },
        _ => {
            assert(a.tail()[0] == b.tail()[0]);
        },
    }
}

} // verus!
