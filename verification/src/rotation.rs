//! What the rotation of a tool's files does to a directory, stated over the set of its file
//! names.

use vstd::prelude::*;

use crate::common::{FileActionView, apply_action, apply_actions};
use crate::text::{
    first_index, is_prefix, is_suffix, last_index, lemma_first_index_unique,
    lemma_last_index_unique,
};
use crate::tool::{lemma_id_has_no_dot, lemma_id_injective};
use crate::tool_path::{
    BaselineKindView, ToolOutputPathKindView, ToolOutputPathView, is_baseline_name, is_name_char,
    last_part_is_base, lit_base, lit_dot_base, lit_dot_old,
};

verus! {

/// `file` without its last four characters.
pub open spec fn without_old(file: Seq<char>) -> Seq<char> {
    file.take(file.len() - 4)
}

/// Whether `file` is what a file of the identity `m` in `dir` is moved to: its name with `.old`
/// behind it.
pub open spec fn is_moved(m: ToolOutputPathView, dir: Set<Seq<char>>, file: Seq<char>) -> bool {
    is_suffix(lit_dot_old(), file) && dir.contains(without_old(file)) && m.matches(
        without_old(file),
    )
}

/// The names of the files of a directory after `m.shift`, where `dir` holds them before.
///
/// Against the run before, the files of the old role and those of `m` itself leave, and each
/// of the latter comes back with `.old` behind its name. Against a named baseline the files
/// of the named slot and those of `m` itself leave, and none comes back.
pub open spec fn shifted(m: ToolOutputPathView, dir: Set<Seq<char>>) -> Set<Seq<char>> {
    match m.baseline_kind {
        BaselineKindView::Old => Set::new(
            |f: Seq<char>|
                (dir.contains(f) && !m.matches(f) && !m.to_base_path().matches(f)) || is_moved(
                    m,
                    dir,
                    f,
                ),
        ),
        BaselineKindView::Name(_) => Set::new(
            |f: Seq<char>| dir.contains(f) && !m.matches(f) && !m.to_base_path().matches(f),
        ),
    }
}

/// No two different files of `dir` have the identity `m`.
pub open spec fn at_most_one(m: ToolOutputPathView, dir: Set<Seq<char>>) -> bool {
    forall|f: Seq<char>, g: Seq<char>|
        dir.contains(f) && dir.contains(g) && #[trigger] m.matches(f) && #[trigger] m.matches(g)
            ==> f == g
}

/// No file of `dir` has the identity `m`.
pub open spec fn none_of(m: ToolOutputPathView, dir: Set<Seq<char>>) -> bool {
    forall|f: Seq<char>| dir.contains(f) ==> !#[trigger] m.matches(f)
}

/// A file of the current role, with `.old` behind its name, has the old role and no longer
/// the current one.
pub proof fn lemma_moved_file_has_old_role(m: ToolOutputPathView, file: Seq<char>)
    requires
        m.kind.is_current(),
        m.baseline_kind is Old,
        m.matches(file),
    ensures
        m.to_base_path().matches(file + lit_dot_old()),
        !m.matches(file + lit_dot_old()),
        without_old(file + lit_dot_old()) == file,
        is_suffix(lit_dot_old(), file + lit_dot_old()),
{
    let moved = file + lit_dot_old();
    let n = m.prefix().len() as int;
    assert(m.to_base_path().prefix() == m.prefix());
    assert(moved.subrange(0, n) =~= file.subrange(0, n));
    let suffix = file.skip(n);
    assert(moved.skip(n) =~= suffix + lit_dot_old());
    let stem = m.kind.stem();
    assert((suffix + lit_dot_old()).subrange(0, stem.len() as int) =~= suffix.subrange(
        0,
        stem.len() as int,
    ));
    let long = suffix + lit_dot_old();
    assert(long.subrange(long.len() - 4, long.len() as int) =~= lit_dot_old());
    assert(moved.subrange(moved.len() - 4, moved.len() as int) =~= lit_dot_old());
    assert(without_old(moved) =~= file);
}

/// A file of the old role is no file of the current role.
pub proof fn lemma_old_role_is_not_current(m: ToolOutputPathView, file: Seq<char>)
    requires
        m.kind.is_current(),
        m.baseline_kind is Old,
        m.to_base_path().matches(file),
    ensures
        !m.matches(file),
{
    assert(m.to_base_path().prefix() == m.prefix());
}

/// What ends in `.base@` and the name of a baseline has `base@` behind its last dot.
pub proof fn lemma_named_suffix(suffix: Seq<char>, name: Seq<char>)
    requires
        is_baseline_name(name),
        is_suffix(lit_dot_base() + name, suffix),
    ensures
        last_part_is_base(suffix),
        last_index(suffix, '.') == suffix.len() - name.len() - 6,
{
    let tail = lit_dot_base() + name;
    let dot = suffix.len() - name.len() - 6;
    assert forall|j: int| 0 <= j < tail.len() implies suffix[dot + j] == tail[j] by {
        assert(suffix.subrange(suffix.len() - tail.len(), suffix.len() as int)[j] == tail[j]);
    }
    assert(suffix[dot] == tail[0]);
    assert forall|j: int| dot < j < suffix.len() implies suffix[j] != '.' by {
        assert(suffix[j] == tail[j - dot]);
        if j - dot >= 6 {
            assert(tail[j - dot] == name[j - dot - 6]);
            assert(is_name_char(name[j - dot - 6]));
        }
    }
    lemma_last_index_unique(suffix, '.', dot);
    assert forall|j: int| 0 <= j < 5 implies suffix.skip(dot + 1)[j] == lit_base()[j] by {
        assert(suffix.skip(dot + 1)[j] == tail[j + 1]);
    }
    assert(suffix.skip(dot + 1).subrange(0, 5) =~= lit_base());
}

/// A file of a named baseline is no file of the current role.
pub proof fn lemma_named_role_is_not_current(
    m: ToolOutputPathView,
    name: Seq<char>,
    file: Seq<char>,
)
    requires
        m.kind.is_current(),
        m.baseline_kind == BaselineKindView::Name(name),
        is_baseline_name(name),
        m.to_base_path().matches(file),
    ensures
        !m.matches(file),
{
    assert(m.to_base_path().prefix() == m.prefix());
    lemma_named_suffix(file.skip(m.prefix().len() as int), name);
}

/// A file of one named baseline is no file of a baseline of another name.
pub proof fn lemma_names_do_not_share_files(
    m: ToolOutputPathView,
    first: Seq<char>,
    second: Seq<char>,
    file: Seq<char>,
)
    requires
        m.kind.is_current(),
        is_baseline_name(first),
        is_baseline_name(second),
        first != second,
        (ToolOutputPathView { baseline_kind: BaselineKindView::Name(first), ..m }).to_base_path().matches(
            file,
        ),
    ensures
        !(ToolOutputPathView {
            baseline_kind: BaselineKindView::Name(second),
            ..m
        }).to_base_path().matches(file),
{
    let a = ToolOutputPathView { baseline_kind: BaselineKindView::Name(first), ..m }.to_base_path();
    let b = ToolOutputPathView { baseline_kind: BaselineKindView::Name(second), ..m }.to_base_path();
    assert(a.prefix() == m.prefix());
    assert(b.prefix() == m.prefix());
    let suffix = file.skip(m.prefix().len() as int);
    if b.matches(file) {
        lemma_named_suffix(suffix, first);
        lemma_named_suffix(suffix, second);
        assert(first.len() == second.len());
        let start = suffix.len() - first.len();
        assert(suffix.subrange(start - 6, suffix.len() as int).skip(6) =~= first);
        assert(suffix.subrange(start - 6, suffix.len() as int).skip(6) =~= second);
    }
}

/// After a shift against the run before, no file has the current role.
pub proof fn lemma_shift_leaves_no_current(m: ToolOutputPathView, dir: Set<Seq<char>>)
    requires
        m.kind.is_current(),
        m.baseline_kind is Old,
    ensures
        none_of(m, shifted(m, dir)),
{
    assert forall|f: Seq<char>| shifted(m, dir).contains(f) implies !#[trigger] m.matches(f) by {
        if is_moved(m, dir, f) {
            let g = without_old(f);
            lemma_moved_file_has_old_role(m, g);
            assert(g + lit_dot_old() =~= f) by {
                assert(f.subrange(f.len() - 4, f.len() as int) == lit_dot_old());
            }
        }
    }
}

/// After a shift against the run before, the files of the old role are those that had the
/// current role before, each with `.old` behind its name: what was old before is gone.
pub proof fn lemma_shift_moves_current_to_old(
    m: ToolOutputPathView,
    dir: Set<Seq<char>>,
    file: Seq<char>,
)
    requires
        m.kind.is_current(),
        m.baseline_kind is Old,
    ensures
        (shifted(m, dir).contains(file) && m.to_base_path().matches(file)) <==> is_moved(
            m,
            dir,
            file,
        ),
        dir.contains(file) && m.matches(file) ==> shifted(m, dir).contains(file + lit_dot_old()),
{
    if is_moved(m, dir, file) {
        let g = without_old(file);
        lemma_moved_file_has_old_role(m, g);
        assert(g + lit_dot_old() =~= file) by {
            assert(file.subrange(file.len() - 4, file.len() as int) == lit_dot_old());
        }
    }
    if dir.contains(file) && m.matches(file) {
        lemma_moved_file_has_old_role(m, file);
    }
}

/// A shift against a named baseline empties the named slot: afterwards no file has the
/// identity that `m` is compared against, and none has the identity `m` itself. No file is
/// moved or added, and every other file stays.
pub proof fn lemma_shift_clears_named_slot(m: ToolOutputPathView, dir: Set<Seq<char>>)
    requires
        m.baseline_kind is Name,
    ensures
        none_of(m.to_base_path(), shifted(m, dir)),
        none_of(m, shifted(m, dir)),
        shifted(m, dir).subset_of(dir),
        forall|f: Seq<char>|
            !m.matches(f) && !m.to_base_path().matches(f) ==> (shifted(m, dir).contains(f)
                <==> dir.contains(f)),
{
}

/// Where at most one file had the current role, a shift against the run before leaves none
/// of the current role and at most one of the old role.
pub proof fn lemma_shift_keeps_at_most_one(m: ToolOutputPathView, dir: Set<Seq<char>>)
    requires
        m.kind.is_current(),
        m.baseline_kind is Old,
        at_most_one(m, dir),
    ensures
        none_of(m, shifted(m, dir)),
        at_most_one(m, shifted(m, dir)),
        at_most_one(m.to_base_path(), shifted(m, dir)),
{
    lemma_shift_leaves_no_current(m, dir);
    let base = m.to_base_path();
    let after = shifted(m, dir);
    assert forall|f: Seq<char>, g: Seq<char>|
        after.contains(f) && after.contains(g) && #[trigger] base.matches(f)
            && #[trigger] base.matches(g) implies f == g by {
        lemma_shift_moves_current_to_old(m, dir, f);
        lemma_shift_moves_current_to_old(m, dir, g);
        assert(m.matches(without_old(f)));
        assert(m.matches(without_old(g)));
        assert(without_old(f) == without_old(g));
        assert(f.subrange(f.len() - 4, f.len() as int) == lit_dot_old());
        assert(g.subrange(g.len() - 4, g.len() as int) == lit_dot_old());
        assert(f =~= without_old(f) + lit_dot_old());
        assert(g =~= without_old(g) + lit_dot_old());
    }
}

/// The files of a directory after one round: a shift and then, where `written` is given, a run
/// that writes one file of that name.
pub open spec fn after_round(
    m: ToolOutputPathView,
    dir: Set<Seq<char>>,
    written: Option<Seq<char>>,
) -> Set<Seq<char>> {
    match written {
        Some(file) => shifted(m, dir).insert(file),
        None => shifted(m, dir),
    }
}

/// The files of a directory after the rounds, in their order.
pub open spec fn after_rounds(
    m: ToolOutputPathView,
    dir: Set<Seq<char>>,
    rounds: Seq<Option<Seq<char>>>,
) -> Set<Seq<char>>
    decreases rounds.len(),
{
    if rounds.len() == 0 {
        dir
    } else {
        after_round(m, after_rounds(m, dir, rounds.drop_last()), rounds.last())
    }
}

/// Whether every file that the rounds write has the current role of `m`.
pub open spec fn writes_current(m: ToolOutputPathView, rounds: Seq<Option<Seq<char>>>) -> bool {
    forall|i: int|
        0 <= i < rounds.len() ==> (#[trigger] rounds[i] matches Some(file) ==> m.matches(file))
}

/// Rotation against the run before keeps one file of each role: whatever the number of rounds
/// of shift and run, a directory that started with at most one file of the current role and
/// at most one of the old role holds at most one of each afterwards.
pub proof fn lemma_rotation_keeps_one_of_each(
    m: ToolOutputPathView,
    dir: Set<Seq<char>>,
    rounds: Seq<Option<Seq<char>>>,
)
    requires
        m.kind.is_current(),
        m.baseline_kind is Old,
        at_most_one(m, dir),
        at_most_one(m.to_base_path(), dir),
        writes_current(m, rounds),
    ensures
        at_most_one(m, after_rounds(m, dir, rounds)),
        at_most_one(m.to_base_path(), after_rounds(m, dir, rounds)),
    decreases rounds.len(),
{
    if rounds.len() > 0 {
        let before = after_rounds(m, dir, rounds.drop_last());
        assert(writes_current(m, rounds.drop_last())) by {
            assert forall|i: int| 0 <= i < rounds.drop_last().len() implies (
            #[trigger] rounds.drop_last()[i] matches Some(file) ==> m.matches(file)) by {
                assert(rounds.drop_last()[i] == rounds[i]);
            }
        }
        lemma_rotation_keeps_one_of_each(m, dir, rounds.drop_last());
        lemma_shift_keeps_at_most_one(m, before);
        match rounds.last() {
            Some(file) => {
                assert(rounds[rounds.len() - 1] == Some(file));
                assert(m.matches(file));
                let base = m.to_base_path();
                assert(base.prefix() == m.prefix());
                assert(!base.matches(file));
            },
            None => {},
        }
    }
}

/// The first round in an empty directory leaves the file of the current run and none of the
/// old role; the second round leaves the file of the current run and the first one's file in
/// the old role.
pub proof fn lemma_first_and_second_round(m: ToolOutputPathView, first: Seq<char>, second: Seq<char>)
    requires
        m.kind.is_current(),
        m.baseline_kind is Old,
        m.matches(first),
        m.matches(second),
    ensures
        after_round(m, Set::empty(), Some(first)) == set![first],
        after_round(m, set![first], Some(second)) == set![first + lit_dot_old(), second],
{
    let one = after_round(m, Set::empty(), Some(first));
    assert(one =~= set![first]);
    let two = after_round(m, set![first], Some(second));
    lemma_moved_file_has_old_role(m, first);
    assert forall|f: Seq<char>| two.contains(f) <==> set![first + lit_dot_old(), second].contains(
        f,
    ) by {
        lemma_shift_moves_current_to_old(m, set![first], f);
        if is_moved(m, set![first], f) {
            assert(f.subrange(f.len() - 4, f.len() as int) == lit_dot_old());
            assert(f =~= without_old(f) + lit_dot_old());
        }
    }
    assert(two =~= set![first + lit_dot_old(), second]);
}

/// The id of the tool is what stands before the first dot of a matching file's name.
pub proof fn lemma_matching_file_starts_with_id(m: ToolOutputPathView, file: Seq<char>)
    requires
        m.matches(file),
    ensures
        first_index(file, '.') == m.tool.spec_id().len(),
        file.take(m.tool.spec_id().len() as int) == m.tool.spec_id(),
{
    let id = m.tool.spec_id();
    let prefix = m.prefix();
    lemma_id_has_no_dot(m.tool);
    assert(prefix.len() >= id.len() + 1);
    assert forall|j: int| 0 <= j <= id.len() implies file[j] == prefix[j] by {
        assert(file.subrange(0, prefix.len() as int)[j] == file[j]);
    }
    assert forall|j: int| 0 <= j < id.len() implies file[j] != '.' by {
        assert(prefix[j] == id[j]);
    }
    assert(prefix[id.len() as int] == '.');
    lemma_first_index_unique(file, '.', id.len() as int);
    assert(file.take(id.len() as int) =~= id);
}

/// Files of different tools never share a name: no file has an identity of one tool and an
/// identity of another, whatever the benchmark, role and modifiers of the two.
pub proof fn lemma_tools_do_not_share_files(
    a: ToolOutputPathView,
    b: ToolOutputPathView,
    file: Seq<char>,
)
    requires
        a.tool != b.tool,
    ensures
        !(a.matches(file) && b.matches(file)),
{
    if a.matches(file) && b.matches(file) {
        lemma_matching_file_starts_with_id(a, file);
        lemma_matching_file_starts_with_id(b, file);
        lemma_id_injective(a.tool, b.tool);
    }
}

/// Shifting or clearing the files of one tool keeps every file of every other tool, and adds
/// none.
pub proof fn lemma_shift_keeps_other_tools(
    a: ToolOutputPathView,
    b: ToolOutputPathView,
    dir: Set<Seq<char>>,
    file: Seq<char>,
)
    requires
        a.tool != b.tool,
        b.matches(file),
    ensures
        shifted(a, dir).contains(file) <==> dir.contains(file),
{
    lemma_tools_do_not_share_files(a, b, file);
    lemma_tools_do_not_share_files(a.to_base_path(), b, file);
    if is_suffix(lit_dot_old(), file) && a.matches(without_old(file)) {
        let g = without_old(file);
        let n = a.prefix().len() as int;
        assert(file.subrange(0, n) =~= g.subrange(0, n));
        assert(is_prefix(a.prefix(), file));
        let id = a.tool.spec_id();
        lemma_id_has_no_dot(a.tool);
        lemma_matching_file_starts_with_id(b, file);
        assert forall|j: int| 0 <= j <= id.len() implies file[j] == a.prefix()[j] by {
            assert(file.subrange(0, n)[j] == file[j]);
        }
        assert forall|j: int| 0 <= j < id.len() implies file[j] != '.' by {
            assert(a.prefix()[j] == id[j]);
        }
        assert(a.prefix()[id.len() as int] == '.');
        lemma_first_index_unique(file, '.', id.len() as int);
        assert(file.take(id.len() as int) =~= id);
        lemma_id_injective(a.tool, b.tool);
    }
}

/// The actions of two plans one after the other do what the first plan does and then what
/// the second plan does.
pub proof fn lemma_apply_actions_in_turn(
    dir: Set<Seq<char>>,
    first: Seq<FileActionView>,
    second: Seq<FileActionView>,
)
    ensures
        apply_actions(dir, first + second) == apply_actions(apply_actions(dir, first), second),
    decreases second.len(),
{
    if second.len() == 0 {
        assert(first + second =~= first);
    } else {
        lemma_apply_actions_in_turn(dir, first, second.drop_last());
        assert((first + second).drop_last() =~= first + second.drop_last());
        assert((first + second).last() == second.last());
    }
}

/// The removals of the files of an identity take these files away and nothing else.
pub proof fn lemma_removals_take_away(
    m: ToolOutputPathView,
    dir: Set<Seq<char>>,
    entries: Seq<Seq<char>>,
)
    ensures
        apply_actions(dir, m.removals(entries)) == Set::new(
            |f: Seq<char>| dir.contains(f) && !(entries.contains(f) && m.matches(f)),
        ),
    decreases entries.len(),
{
    let wanted = Set::new(|f: Seq<char>| dir.contains(f) && !(entries.contains(f) && m.matches(f)));
    if entries.len() == 0 {
        assert(apply_actions(dir, m.removals(entries)) =~= wanted);
    } else {
        let rest = entries.drop_last();
        let last = entries.last();
        lemma_removals_take_away(m, dir, rest);
        let before = apply_actions(dir, m.removals(rest));
        assert forall|f: Seq<char>| entries.contains(f) <==> (rest.contains(f) || f == last) by {
            if entries.contains(f) {
                let i = choose|i: int| 0 <= i < entries.len() && entries[i] == f;
                if i < entries.len() - 1 {
                    assert(rest[i] == f);
                }
            }
            if rest.contains(f) {
                let i = choose|i: int| 0 <= i < rest.len() && rest[i] == f;
                assert(entries[i] == f);
            }
            if f == last {
                assert(entries[entries.len() - 1] == f);
            }
        }
        if m.matches(last) {
            let plan = m.removals(rest).push(FileActionView::Remove(last));
            assert(plan.drop_last() =~= m.removals(rest));
            assert(apply_actions(dir, plan) == before.remove(last));
            assert(before.remove(last) =~= wanted);
        } else {
            assert(before =~= wanted);
        }
    }
}

/// What the moves of the files of a current role leave in a directory that held `dir`: the
/// files that were not moved, and each moved file under its name with `.old` behind it.
pub open spec fn after_moves(m: ToolOutputPathView, dir: Set<Seq<char>>, entries: Seq<Seq<char>>) -> Set<
    Seq<char>,
> {
    Set::new(
        |f: Seq<char>|
            (dir.contains(f) && !(entries.contains(f) && m.matches(f))) || (is_suffix(
                lit_dot_old(),
                f,
            ) && entries.contains(without_old(f)) && m.matches(without_old(f)) && dir.contains(
                without_old(f),
            )),
    )
}

/// The moves of the files of a current role put each of these files under its name with
/// `.old` behind it.
pub proof fn lemma_renames_move(m: ToolOutputPathView, dir: Set<Seq<char>>, entries: Seq<Seq<char>>)
    requires
        m.kind.is_current(),
        m.baseline_kind is Old,
    ensures
        apply_actions(dir, m.renames(entries)) == after_moves(m, dir, entries),
    decreases entries.len(),
{
    if entries.len() == 0 {
        assert(apply_actions(dir, m.renames(entries)) =~= after_moves(m, dir, entries));
    } else {
        let rest = entries.drop_last();
        let last = entries.last();
        lemma_renames_move(m, dir, rest);
        let before = apply_actions(dir, m.renames(rest));
        assert forall|f: Seq<char>| entries.contains(f) <==> (rest.contains(f) || f == last) by {
            if entries.contains(f) {
                let i = choose|i: int| 0 <= i < entries.len() && entries[i] == f;
                if i < entries.len() - 1 {
                    assert(rest[i] == f);
                }
            }
            if rest.contains(f) {
                let i = choose|i: int| 0 <= i < rest.len() && rest[i] == f;
                assert(entries[i] == f);
            }
            if f == last {
                assert(entries[entries.len() - 1] == f);
            }
        }
        if m.matches(last) {
            let moved = last + lit_dot_old();
            lemma_moved_file_has_old_role(m, last);
            let plan = m.renames(rest).push(FileActionView::Rename(last, moved));
            assert(plan.drop_last() =~= m.renames(rest));
            let after = apply_actions(dir, plan);
            assert(after == apply_action(before, FileActionView::Rename(last, moved)));
            assert(!is_suffix(lit_dot_old(), last)) by {
                lemma_current_file_is_not_old(m, last);
            }
            assert forall|f: Seq<char>| after.contains(f) <==> after_moves(m, dir, entries).contains(
                f,
            ) by {
                if is_suffix(lit_dot_old(), f) && without_old(f) == last {
                    assert(f.subrange(f.len() - 4, f.len() as int) == lit_dot_old());
                    assert(f =~= without_old(f) + lit_dot_old());
                }
            }
            assert(after =~= after_moves(m, dir, entries));
        } else {
            assert(before =~= after_moves(m, dir, entries));
        }
    }
}

/// A file of a current role does not end with `.old`.
pub proof fn lemma_current_file_is_not_old(m: ToolOutputPathView, file: Seq<char>)
    requires
        m.kind.is_current(),
        m.matches(file),
    ensures
        !is_suffix(lit_dot_old(), file),
{
    let n = m.prefix().len() as int;
    let suffix = file.skip(n);
    if is_suffix(lit_dot_old(), file) {
        let end = file.subrange(file.len() - 4, file.len() as int);
        assert(suffix.subrange(0, 3) == m.kind.stem());
        if suffix.len() == 3 {
            // The file ends with the last dot of its prefix and `out` or `log`.
            assert(end[2] == suffix[1]);
            assert(suffix[1] == suffix.subrange(0, 3)[1]);
        } else {
            assert(suffix.subrange(suffix.len() - 4, suffix.len() as int) =~= end);
        }
    }
}

/// The files of the old role are no files of the current role, so that their removal leaves
/// the moves as they are.
pub proof fn lemma_renames_skip_old_files(m: ToolOutputPathView, entries: Seq<Seq<char>>)
    requires
        m.kind.is_current(),
        m.baseline_kind is Old,
    ensures
        m.renames(m.to_base_path().remaining(entries)) == m.renames(entries),
    decreases entries.len(),
{
    if entries.len() > 0 {
        let base = m.to_base_path();
        let rest = entries.drop_last();
        let last = entries.last();
        lemma_renames_skip_old_files(m, rest);
        if base.matches(last) {
            lemma_old_role_is_not_current(m, last);
        } else {
            let left = base.remaining(rest).push(last);
            assert(left.drop_last() =~= base.remaining(rest));
        }
    }
}

/// What is left of `entries` when the files of an identity are taken away are the entries
/// that do not have the identity.
pub proof fn lemma_remaining_holds(m: ToolOutputPathView, entries: Seq<Seq<char>>, file: Seq<char>)
    ensures
        m.remaining(entries).contains(file) <==> entries.contains(file) && !m.matches(file),
    decreases entries.len(),
{
    if entries.len() > 0 {
        let rest = entries.drop_last();
        let last = entries.last();
        lemma_remaining_holds(m, rest, file);
        if entries.contains(file) {
            let i = choose|i: int| 0 <= i < entries.len() && entries[i] == file;
            if i < entries.len() - 1 {
                assert(rest[i] == file);
            }
        }
        if rest.contains(file) {
            let i = choose|i: int| 0 <= i < rest.len() && rest[i] == file;
            assert(entries[i] == file);
        }
        assert(entries[entries.len() - 1] == last);
        let left = m.remaining(rest);
        if !m.matches(last) {
            let all = left.push(last);
            assert(all[all.len() - 1] == last);
            if all.contains(file) {
                let i = choose|i: int| 0 <= i < all.len() && all[i] == file;
                if i < left.len() {
                    assert(left[i] == file);
                }
            }
            if left.contains(file) {
                let i = choose|i: int| 0 <= i < left.len() && left[i] == file;
                assert(all[i] == file);
            }
        }
    }
}

/// The plan of a shift does to a directory what `shifted` says: where `entries` are the names
/// of the files of the directory, the actions of `shift_plan`, performed in their order,
/// leave the files of `shifted`.
pub proof fn lemma_shift_plan_shifts(m: ToolOutputPathView, entries: Seq<Seq<char>>)
    requires
        m.kind.is_current(),
    ensures
        apply_actions(entries.to_set(), m.shift_plan(entries)) == shifted(m, entries.to_set()),
{
    let dir = entries.to_set();
    match m.baseline_kind {
        BaselineKindView::Old => {
            let base = m.to_base_path();
            lemma_renames_skip_old_files(m, entries);
            lemma_apply_actions_in_turn(dir, base.removals(entries), m.renames(entries));
            lemma_removals_take_away(base, dir, entries);
            let cleared = apply_actions(dir, base.removals(entries));
            lemma_renames_move(m, cleared, entries);
            assert forall|f: Seq<char>|
                after_moves(m, cleared, entries).contains(f) <==> shifted(m, dir).contains(f) by {
                if m.matches(f) {
                    if base.matches(f) {
                        lemma_old_role_is_not_current(m, f);
                    }
                }
                let g = without_old(f);
                if m.matches(g) {
                    if base.matches(g) {
                        lemma_old_role_is_not_current(m, g);
                    }
                }
            }
            assert(after_moves(m, cleared, entries) =~= shifted(m, dir));
        },
        BaselineKindView::Name(_) => {
            let base = m.to_base_path();
            let left = base.remaining(entries);
            lemma_apply_actions_in_turn(dir, base.removals(entries), m.removals(left));
            lemma_removals_take_away(base, dir, entries);
            let cleared = apply_actions(dir, base.removals(entries));
            lemma_removals_take_away(m, cleared, left);
            assert forall|f: Seq<char>|
                apply_actions(cleared, m.removals(left)).contains(f) <==> shifted(m, dir).contains(
                    f,
                ) by {
                lemma_remaining_holds(base, entries, f);
            }
            assert(apply_actions(cleared, m.removals(left)) =~= shifted(m, dir));
        },
    }
}

/// Clearing the files of one tool, by the plan that `clear` gives, keeps every file of every
/// other tool: no action of the plan names such a file.
pub proof fn lemma_clear_keeps_other_tools(
    a: ToolOutputPathView,
    b: ToolOutputPathView,
    entries: Seq<Seq<char>>,
    file: Seq<char>,
)
    requires
        a.tool != b.tool,
        b.matches(file),
    ensures
        apply_actions(entries.to_set(), a.removals(entries)).contains(file) <==> entries.contains(
            file,
        ),
        !a.removals(entries).contains(FileActionView::Remove(file)),
{
    lemma_removals_take_away(a, entries.to_set(), entries);
    lemma_tools_do_not_share_files(a, b, file);
    lemma_removals_name_matching_files(a, entries, file);
}

/// The removals of an identity name files of this identity only.
pub proof fn lemma_removals_name_matching_files(
    m: ToolOutputPathView,
    entries: Seq<Seq<char>>,
    file: Seq<char>,
)
    ensures
        m.removals(entries).contains(FileActionView::Remove(file)) ==> m.matches(file)
            && entries.contains(file),
    decreases entries.len(),
{
    if entries.len() > 0 {
        let rest = entries.drop_last();
        lemma_removals_name_matching_files(m, rest, file);
        let plan = m.removals(entries);
        if plan.contains(FileActionView::Remove(file)) {
            let i = choose|i: int| 0 <= i < plan.len() && plan[i] == FileActionView::Remove(file);
            if m.matches(entries.last()) && i == plan.len() - 1 {
                assert(entries[entries.len() - 1] == file);
            } else {
                assert(m.removals(rest)[i] == FileActionView::Remove(file));
                let j = choose|j: int| 0 <= j < rest.len() && rest[j] == file;
                assert(entries[j] == file);
            }
        }
    }
}

/// The file that an identity without modifiers names has this identity: what the tool writes
/// under `to_path` is what `real_paths` finds.
pub proof fn lemma_own_file_matches(m: ToolOutputPathView)
    requires
        m.modifiers.len() == 0,
    ensures
        m.matches(m.file_name()),
{
    let file = m.file_name();
    let n = m.prefix().len() as int;
    let extension = m.extension();
    assert(file.subrange(0, n) =~= m.prefix());
    assert(file.skip(n) =~= extension);
    let stem = m.kind.stem();
    let tail = m.kind.tail();
    assert(extension =~= stem + tail);
    assert(extension.subrange(0, stem.len() as int) =~= stem);
    assert(extension.subrange(extension.len() - tail.len(), extension.len() as int) =~= tail);
    if m.kind.is_current() {
        assert(extension =~= stem);
        lemma_last_index_unique(extension, '.', -1);
    }
}

/// A named slot holds the most recent save only: when the files of an identity have been
/// cleared and one file of the identity has been written, this file is the only file of the
/// identity, and every other file of the directory is as it was.
pub proof fn lemma_cleared_slot_holds_one(
    m: ToolOutputPathView,
    entries: Seq<Seq<char>>,
    written: Seq<char>,
    file: Seq<char>,
)
    requires
        m.matches(written),
    ensures
        ({
            let after = apply_actions(entries.to_set(), m.removals(entries)).insert(written);
            &&& after.contains(written)
            &&& after.contains(file) && m.matches(file) ==> file == written
            &&& !m.matches(file) ==> (after.contains(file) <==> entries.contains(file))
        }),
{
    lemma_removals_take_away(m, entries.to_set(), entries);
}

} // verus!
