//! Deterministic names for the rendered flame graphs of a benchmark, one per event kind.

use vstd::prelude::*;
use vstd::string::*;

use crate::common::{FileAction, FileActionView, action_views};
use crate::costs::{EventKind, lemma_name_injective};
use crate::text::{
    chars_eq, chars_match_at, chars_of, concat3, find_char, first_index, is_prefix, is_suffix,
    lemma_first_index_unique, views,
};
use crate::tool_path::{
    BaselineKind, BaselineKindView, ToolOutputPath, ToolOutputPathKind, ToolOutputPathKindView,
    ToolOutputPathView, lit_dot, lit_slash,
};

verus! {

/// The role of a rendered flame graph.
#[derive(Debug, PartialEq, Eq)]
pub enum OutputPathKind {
    /// The graph of the current run.
    Regular,
    /// The graph of the run before.
    Old,
    /// The graph of the baseline with this name.
    Base(String),
    /// The differential graph against the run before.
    DiffOld,
    /// The differential graph against the baseline with this name.
    DiffBase(String),
    /// The differential graph of the first baseline against the second.
    DiffBases(String, String),
}

/// An `OutputPathKind` over character sequences.
pub enum OutputPathKindView {
    Regular,
    Old,
    Base(Seq<char>),
    DiffOld,
    DiffBase(Seq<char>),
    DiffBases(Seq<char>, Seq<char>),
}

impl View for OutputPathKind {
    type V = OutputPathKindView;

    open spec fn view(&self) -> OutputPathKindView {
        match self {
            OutputPathKind::Regular => OutputPathKindView::Regular,
            OutputPathKind::Old => OutputPathKindView::Old,
            OutputPathKind::Base(name) => OutputPathKindView::Base(name@),
            OutputPathKind::DiffOld => OutputPathKindView::DiffOld,
            OutputPathKind::DiffBase(name) => OutputPathKindView::DiffBase(name@),
            OutputPathKind::DiffBases(name, base) => OutputPathKindView::DiffBases(name@, base@),
        }
    }
}

impl Clone for OutputPathKind {
    fn clone(&self) -> (r: Self)
        ensures
            r@ == self@,
    {
        match self {
            OutputPathKind::Regular => OutputPathKind::Regular,
            OutputPathKind::Old => OutputPathKind::Old,
            OutputPathKind::Base(name) => OutputPathKind::Base(name.clone()),
            OutputPathKind::DiffOld => OutputPathKind::DiffOld,
            OutputPathKind::DiffBase(name) => OutputPathKind::DiffBase(name.clone()),
            OutputPathKind::DiffBases(name, base) => OutputPathKind::DiffBases(
                name.clone(),
                base.clone(),
            ),
        }
    }
}

/// `svg`
pub open spec fn lit_svg() -> Seq<char> {
    seq!['s', 'v', 'g']
}

/// `old.svg`
pub open spec fn lit_old_svg() -> Seq<char> {
    seq!['o', 'l', 'd', '.', 's', 'v', 'g']
}

/// `.svg`
pub open spec fn lit_dot_svg() -> Seq<char> {
    seq!['.', 's', 'v', 'g']
}

/// `base@`
pub open spec fn lit_base_at() -> Seq<char> {
    seq!['b', 'a', 's', 'e', '@']
}

/// `diff.old.svg`
pub open spec fn lit_diff_old_svg() -> Seq<char> {
    seq!['d', 'i', 'f', 'f', '.', 'o', 'l', 'd', '.', 's', 'v', 'g']
}

/// `diff.base@`
pub open spec fn lit_diff_base() -> Seq<char> {
    seq!['d', 'i', 'f', 'f', '.', 'b', 'a', 's', 'e', '@']
}

/// `.diff.`
pub open spec fn lit_dot_diff_dot() -> Seq<char> {
    seq!['.', 'd', 'i', 'f', 'f', '.']
}

/// `.diff.base@`
pub open spec fn lit_dot_diff_base() -> Seq<char> {
    seq!['.', 'd', 'i', 'f', 'f', '.', 'b', 'a', 's', 'e', '@']
}

/// `flamegraph.`
pub open spec fn lit_flamegraph_dot() -> Seq<char> {
    seq!['f', 'l', 'a', 'm', 'e', 'g', 'r', 'a', 'p', 'h', '.']
}

/// `callgrind.`
pub open spec fn lit_callgrind_dot() -> Seq<char> {
    seq!['c', 'a', 'l', 'l', 'g', 'r', 'i', 'n', 'd', '.']
}

/// `.flamegraph.`
pub open spec fn lit_dot_flamegraph_dot() -> Seq<char> {
    seq!['.', 'f', 'l', 'a', 'm', 'e', 'g', 'r', 'a', 'p', 'h', '.']
}

impl OutputPathKindView {
    /// What stands behind the event kind in the extension.
    pub open spec fn tail(self) -> Seq<char> {
        match self {
            OutputPathKindView::Regular => lit_svg(),
            OutputPathKindView::Old => lit_old_svg(),
            OutputPathKindView::Base(name) => lit_base_at() + name + lit_dot_svg(),
            OutputPathKindView::DiffOld => lit_diff_old_svg(),
            OutputPathKindView::DiffBase(name) => lit_diff_base() + name + lit_dot_svg(),
            OutputPathKindView::DiffBases(name, base) => lit_base_at() + name + lit_dot_diff_base()
                + base + lit_dot_svg(),
        }
    }
}

/// The identity of a rendered flame graph: role, event kind, baseline, directory and benchmark
/// name.
#[derive(Debug, PartialEq, Eq)]
pub struct OutputPath {
    pub kind: OutputPathKind,
    pub event_kind: EventKind,
    pub baseline_kind: BaselineKind,
    pub dir: String,
    pub name: String,
}

/// An `OutputPath` over character sequences.
pub struct OutputPathView {
    pub kind: OutputPathKindView,
    pub event_kind: EventKind,
    pub baseline_kind: BaselineKindView,
    pub dir: Seq<char>,
    pub name: Seq<char>,
}

impl View for OutputPath {
    type V = OutputPathView;

    open spec fn view(&self) -> OutputPathView {
        OutputPathView {
            kind: self.kind@,
            event_kind: self.event_kind,
            baseline_kind: self.baseline_kind@,
            dir: self.dir@,
            name: self.name@,
        }
    }
}

impl Clone for OutputPath {
    fn clone(&self) -> (r: Self)
        ensures
            r@ == self@,
    {
        OutputPath {
            kind: self.kind.clone(),
            event_kind: self.event_kind,
            baseline_kind: self.baseline_kind.clone(),
            dir: self.dir.clone(),
            name: self.name.clone(),
        }
    }
}

/// The role of the flame graph that belongs to a file of the primary tool.
pub open spec fn kind_of_tool_path(kind: ToolOutputPathKindView) -> OutputPathKindView {
    match kind {
        ToolOutputPathKindView::Out | ToolOutputPathKindView::Log => OutputPathKindView::Regular,
        ToolOutputPathKindView::OldOut | ToolOutputPathKindView::OldLog => OutputPathKindView::Old,
        ToolOutputPathKindView::BaseLog(name) | ToolOutputPathKindView::Base(
            name,
        ) => OutputPathKindView::Base(name),
    }
}

impl OutputPathView {
    /// The identity of the flame graph of `event_kind` that belongs to a file of the primary
    /// tool.
    pub open spec fn of_tool_path(path: ToolOutputPathView, event_kind: EventKind) -> OutputPathView {
        OutputPathView {
            kind: kind_of_tool_path(path.kind),
            event_kind,
            baseline_kind: path.baseline_kind,
            dir: path.dir,
            name: path.name,
        }
    }

    /// What every flame graph of this benchmark starts with.
    pub open spec fn prefix(self) -> Seq<char> {
        lit_callgrind_dot() + self.name + lit_dot_flamegraph_dot()
    }

    /// The extension: `flamegraph.`, the event kind, a dot and what the role adds.
    pub open spec fn extension(self) -> Seq<char> {
        lit_flamegraph_dot() + self.event_kind.spec_name() + lit_dot() + self.kind.tail()
    }

    /// The name of the file inside its directory.
    pub open spec fn file_name(self) -> Seq<char> {
        lit_callgrind_dot() + self.name + lit_dot() + self.extension()
    }

    /// The path of the file.
    pub open spec fn to_path(self) -> Seq<char> {
        self.dir + lit_slash() + self.file_name()
    }

    /// Whether a file of this name has this identity; with `ignore_event_kind`, whether it
    /// has this identity for some event kind.
    pub open spec fn matches(self, file_name: Seq<char>, ignore_event_kind: bool) -> bool {
        let suffix = file_name.skip(self.prefix().len() as int);
        is_prefix(self.prefix(), file_name) && if ignore_event_kind {
            first_index(suffix, '.') < suffix.len() && suffix.skip(first_index(suffix, '.') + 1)
                == self.kind.tail()
        } else {
            suffix == self.event_kind.spec_name() + lit_dot() + self.kind.tail()
        }
    }

    /// The identity of the differential graph of this graph against its baseline.
    pub open spec fn to_diff_path(self) -> OutputPathView {
        OutputPathView {
            kind: match (self.kind, self.baseline_kind) {
                (OutputPathKindView::Regular, BaselineKindView::Old) => OutputPathKindView::DiffOld,
                (OutputPathKindView::Old, BaselineKindView::Old) => OutputPathKindView::DiffOld,
                (OutputPathKindView::Base(_), BaselineKindView::Old) => OutputPathKindView::DiffOld,
                (OutputPathKindView::Regular, BaselineKindView::Name(name)) => OutputPathKindView::DiffBase(
                    name,
                ),
                (OutputPathKindView::Old, BaselineKindView::Name(name)) => OutputPathKindView::DiffBase(
                    name,
                ),
                (
                    OutputPathKindView::Base(name),
                    BaselineKindView::Name(other),
                ) => OutputPathKindView::DiffBases(name, other),
                (kind, _) => kind,
            },
            ..self
        }
    }

    /// The identity of the graph that this one is compared against.
    pub open spec fn to_base_path(self) -> OutputPathView {
        OutputPathView {
            kind: match self.baseline_kind {
                BaselineKindView::Old => OutputPathKindView::Old,
                BaselineKindView::Name(name) => OutputPathKindView::Base(name),
            },
            ..self
        }
    }

    /// The names among `entries` that have this identity, in their order.
    pub open spec fn matching(self, entries: Seq<Seq<char>>, ignore_event_kind: bool) -> Seq<
        Seq<char>,
    >
        decreases entries.len(),
    {
        if entries.len() == 0 {
            Seq::empty()
        } else {
            let rest = self.matching(entries.drop_last(), ignore_event_kind);
            if self.matches(entries.last(), ignore_event_kind) {
                rest.push(entries.last())
            } else {
                rest
            }
        }
    }

    /// The paths of the files among `entries` that have this identity, in their order.
    pub open spec fn real_paths(self, entries: Seq<Seq<char>>, ignore_event_kind: bool) -> Seq<
        Seq<char>,
    > {
        self.matching(entries, ignore_event_kind).map_values(
            |name: Seq<char>| self.dir + lit_slash() + name,
        )
    }

    /// The differential graphs against the baseline of this identity end like this.
    pub open spec fn diff_tail(self) -> Seq<char> {
        match self.baseline_kind {
            BaselineKindView::Old => lit_diff_old_svg(),
            BaselineKindView::Name(name) => lit_diff_base() + name + lit_dot_svg(),
        }
    }

    /// Whether a file of this name is a differential graph of this benchmark that has to do
    /// with the baseline of this identity: one against it, or one of the named baseline
    /// against another.
    pub open spec fn is_diff(self, file_name: Seq<char>) -> bool {
        let suffix = file_name.skip(self.prefix().len() as int);
        is_prefix(self.prefix(), file_name) && (is_suffix(self.diff_tail(), suffix)
            || match self.baseline_kind {
            BaselineKindView::Name(name) => first_index(suffix, '.') < suffix.len() && is_prefix(
                lit_base_at() + name + lit_dot_diff_dot(),
                suffix.skip(first_index(suffix, '.') + 1),
            ),
            BaselineKindView::Old => false,
        })
    }
}

/// One removal for each of `names`, in their order.
pub open spec fn removals_of(names: Seq<Seq<char>>) -> Seq<FileActionView> {
    names.map_values(|n: Seq<char>| FileActionView::Remove(n))
}

/// `file` with `old.svg` in place of its last three characters (of all of them, where it has
/// fewer).
pub open spec fn to_old_svg(file: Seq<char>) -> Seq<char> {
    file.take(
        if file.len() >= 3 {
            file.len() - 3
        } else {
            0
        },
    ) + lit_old_svg()
}

/// For each of `names`, in their order, the move to the name with `old.svg` in place of `svg`.
pub open spec fn moves_to_old(names: Seq<Seq<char>>) -> Seq<FileActionView> {
    names.map_values(|n: Seq<char>| FileActionView::Rename(n, to_old_svg(n)))
}

/// The names among `entries` that are differential graphs to do with the baseline of `m`.
pub open spec fn matching_diffs(m: OutputPathView, entries: Seq<Seq<char>>) -> Seq<Seq<char>>
    decreases entries.len(),
{
    if entries.len() == 0 {
        Seq::empty()
    } else {
        let rest = matching_diffs(m, entries.drop_last());
        if m.is_diff(entries.last()) {
            rest.push(entries.last())
        } else {
            rest
        }
    }
}

impl OutputPathView {
    /// The names among `entries` that do not have this identity, in their order: what is
    /// left when the graphs of this identity are removed.
    pub open spec fn remaining(self, entries: Seq<Seq<char>>, ignore_event_kind: bool) -> Seq<
        Seq<char>,
    >
        decreases entries.len(),
    {
        if entries.len() == 0 {
            Seq::empty()
        } else {
            let rest = self.remaining(entries.drop_last(), ignore_event_kind);
            if self.matches(entries.last(), ignore_event_kind) {
                rest
            } else {
                rest.push(entries.last())
            }
        }
    }

    /// What `shift` asks for in a directory that holds `entries`.
    ///
    /// Against the run before: the removal of the graphs of the old role, then the move of
    /// each graph of this identity that is left. Against a named baseline: the removal of
    /// the graphs of the named slot, then the removal of each graph of this identity that
    /// is left; nothing is moved there.
    pub open spec fn shift_plan(self, entries: Seq<Seq<char>>, ignore_event_kind: bool) -> Seq<
        FileActionView,
    > {
        match self.baseline_kind {
            BaselineKindView::Old => removals_of(
                self.to_base_path().matching(entries, ignore_event_kind),
            ) + moves_to_old(
                self.matching(
                    self.to_base_path().remaining(entries, ignore_event_kind),
                    ignore_event_kind,
                ),
            ),
            BaselineKindView::Name(_) => removals_of(
                self.to_base_path().matching(entries, ignore_event_kind),
            ) + removals_of(
                self.matching(
                    self.to_base_path().remaining(entries, ignore_event_kind),
                    ignore_event_kind,
                ),
            ),
        }
    }
}

fn kind_tail(kind: &OutputPathKind) -> (r: String)
    ensures
        r@ == kind@.tail(),
{
    proof {
        reveal_strlit("svg");
        reveal_strlit("old.svg");
        reveal_strlit(".svg");
        reveal_strlit("base@");
        reveal_strlit("diff.old.svg");
        reveal_strlit("diff.base@");
        reveal_strlit(".diff.base@");
        assert("svg"@ =~= lit_svg());
        assert("old.svg"@ =~= lit_old_svg());
        assert(".svg"@ =~= lit_dot_svg());
        assert("base@"@ =~= lit_base_at());
        assert("diff.old.svg"@ =~= lit_diff_old_svg());
        assert("diff.base@"@ =~= lit_diff_base());
        assert(".diff.base@"@ =~= lit_dot_diff_base());
    }
    match kind {
        OutputPathKind::Regular => String::from_str("svg"),
        OutputPathKind::Old => String::from_str("old.svg"),
        OutputPathKind::Base(name) => concat3("base@", name.as_str(), ".svg"),
        OutputPathKind::DiffOld => String::from_str("diff.old.svg"),
        OutputPathKind::DiffBase(name) => concat3("diff.base@", name.as_str(), ".svg"),
        OutputPathKind::DiffBases(name, base) => {
            let mut r = concat3("base@", name.as_str(), ".diff.base@");
            r.append(base.as_str());
            r.append(".svg");
            r
        },
    }
}

impl OutputPath {
    /// The identity of the flame graph of `event_kind` that belongs to a file of the primary
    /// tool.
    pub fn new(tool_output_path: &ToolOutputPath, event_kind: EventKind) -> (r: Self)
        ensures
            r@ == OutputPathView::of_tool_path(tool_output_path@, event_kind),
    {
        OutputPath {
            kind: match &tool_output_path.kind {
                ToolOutputPathKind::Out | ToolOutputPathKind::Log => OutputPathKind::Regular,
                ToolOutputPathKind::OldOut | ToolOutputPathKind::OldLog => OutputPathKind::Old,
                ToolOutputPathKind::BaseLog(name) | ToolOutputPathKind::Base(name) => {
                    OutputPathKind::Base(name.clone())
                },
            },
            event_kind,
            baseline_kind: tool_output_path.baseline_kind.clone(),
            dir: tool_output_path.dir.clone(),
            name: tool_output_path.name.clone(),
        }
    }

    /// The action that creates the directory of this file with all its parents.
    pub fn init(&self) -> (r: FileAction)
        ensures
            r@ == FileActionView::CreateDirAll(self@.dir),
    {
        FileAction::CreateDirAll(self.dir.clone())
    }

    /// The identity of the differential graph of this graph against its baseline.
    pub fn to_diff_path(&self) -> (r: Self)
        ensures
            r@ == self@.to_diff_path(),
    {
        let kind = match (&self.kind, &self.baseline_kind) {
            (
                OutputPathKind::Regular | OutputPathKind::Old | OutputPathKind::Base(_),
                BaselineKind::Old,
            ) => OutputPathKind::DiffOld,
            (OutputPathKind::Regular | OutputPathKind::Old, BaselineKind::Name(name)) => {
                OutputPathKind::DiffBase(name.to_string())
            },
            (OutputPathKind::Base(name), BaselineKind::Name(other)) => {
                OutputPathKind::DiffBases(name.clone(), other.to_string())
            },
            (value, _) => value.clone(),
        };
        OutputPath {
            kind,
            event_kind: self.event_kind,
            baseline_kind: self.baseline_kind.clone(),
            dir: self.dir.clone(),
            name: self.name.clone(),
        }
    }

    /// The identity of the graph that this one is compared against.
    pub fn to_base_path(&self) -> (r: Self)
        ensures
            r@ == self@.to_base_path(),
    {
        OutputPath {
            kind: match &self.baseline_kind {
                BaselineKind::Old => OutputPathKind::Old,
                BaselineKind::Name(name) => OutputPathKind::Base(name.to_string()),
            },
            event_kind: self.event_kind,
            baseline_kind: self.baseline_kind.clone(),
            dir: self.dir.clone(),
            name: self.name.clone(),
        }
    }

    /// The extension: `flamegraph.`, the event kind, a dot and what the role adds.
    pub fn extension(&self) -> (r: String)
        ensures
            r@ == self@.extension(),
    {
        proof {
            reveal_strlit("flamegraph.");
            reveal_strlit(".");
            assert("flamegraph."@ =~= lit_flamegraph_dot());
            assert("."@ =~= lit_dot());
        }
        let mut r = concat3("flamegraph.", self.event_kind.name().as_str(), ".");
        r.append(kind_tail(&self.kind).as_str());
        r
    }

    /// Sets the event kind.
    pub fn set_event_kind(&mut self, event_kind: EventKind)
        ensures
            final(self)@ == (OutputPathView { event_kind, ..old(self)@ }),
    {
        self.event_kind = event_kind;
    }

    /// What every flame graph of this benchmark starts with.
    pub fn prefix(&self) -> (r: String)
        ensures
            r@ == self@.prefix(),
    {
        proof {
            reveal_strlit("callgrind.");
            reveal_strlit(".flamegraph.");
            assert("callgrind."@ =~= lit_callgrind_dot());
            assert(".flamegraph."@ =~= lit_dot_flamegraph_dot());
        }
        concat3("callgrind.", self.name.as_str(), ".flamegraph.")
    }

    /// The name of the file inside its directory.
    pub fn file_name(&self) -> (r: String)
        ensures
            r@ == self@.file_name(),
    {
        proof {
            reveal_strlit("callgrind.");
            reveal_strlit(".");
            assert("callgrind."@ =~= lit_callgrind_dot());
            assert("."@ =~= lit_dot());
        }
        let mut r = concat3("callgrind.", self.name.as_str(), ".");
        r.append(self.extension().as_str());
        r
    }

    /// The path of the file.
    pub fn to_path(&self) -> (r: String)
        ensures
            r@ == self@.to_path(),
    {
        proof {
            reveal_strlit("/");
            assert("/"@ =~= lit_slash());
        }
        concat3(self.dir.as_str(), "/", self.file_name().as_str())
    }

    /// Whether a file of this name has this identity; with `ignore_event_kind`, whether it
    /// has this identity for some event kind.
    pub fn matches(&self, file_name: &str, ignore_event_kind: bool) -> (r: bool)
        ensures
            r == self@.matches(file_name@, ignore_event_kind),
    {
        proof {
            reveal_strlit(".");
            assert("."@ =~= lit_dot());
        }
        let prefix = self.prefix();
        let fc = chars_of(file_name);
        let pc = chars_of(prefix.as_str());
        if !chars_match_at(&fc, 0, &pc) {
            return false;
        }
        let suffix = file_name.substring_char(pc.len(), fc.len());
        assert(suffix@ =~= file_name@.skip(self@.prefix().len() as int));
        let sc = chars_of(suffix);
        let tail = kind_tail(&self.kind);
        if ignore_event_kind {
            match find_char(&sc, '.') {
                Some(dot) => {
                    let rest = suffix.substring_char(dot + 1, sc.len());
                    assert(rest@ =~= suffix@.skip(dot + 1));
                    let rc = chars_of(rest);
                    let tc = chars_of(tail.as_str());
                    chars_eq(&rc, &tc)
                },
                None => false,
            }
        } else {
            let wanted = concat3(self.event_kind.name().as_str(), ".", tail.as_str());
            let wc = chars_of(wanted.as_str());
            chars_eq(&sc, &wc)
        }
    }

    /// The paths of the files that have this identity, among `entries`, the names of the
    /// files in the directory.
    pub fn real_paths(&self, entries: &Vec<String>, ignore_event_kind: bool) -> (r: Vec<String>)
        ensures
            views(r@) == self@.real_paths(views(entries@), ignore_event_kind),
    {
        proof {
            reveal_strlit("/");
            assert("/"@ =~= lit_slash());
        }
        let names = self.matching(entries, ignore_event_kind);
        let mut r: Vec<String> = Vec::new();
        let mut i: usize = 0;
        while i < names.len()
            invariant
                i <= names.len(),
                "/"@ == lit_slash(),
                r@.len() == i,
                forall|j: int|
                    0 <= j < i ==> (#[trigger] r@[j])@ == self@.dir + lit_slash() + names@[j]@,
            decreases names.len() - i,
        {
            r.push(concat3(self.dir.as_str(), "/", names[i].as_str()));
            i += 1;
        }
        assert(views(r@) =~= self@.real_paths(views(entries@), ignore_event_kind));
        r
    }

    /// The names among `entries`, the names of the files in the directory, that have this
    /// identity.
    pub fn matching(&self, entries: &Vec<String>, ignore_event_kind: bool) -> (r: Vec<String>)
        ensures
            views(r@) == self@.matching(views(entries@), ignore_event_kind),
    {
        let mut r: Vec<String> = Vec::new();
        let mut i: usize = 0;
        assert(views(r@) =~= Seq::<Seq<char>>::empty());
        assert(views(entries@).take(0) =~= Seq::<Seq<char>>::empty());
        while i < entries.len()
            invariant
                i <= entries.len(),
                views(r@) == self@.matching(views(entries@).take(i as int), ignore_event_kind),
            decreases entries.len() - i,
        {
            proof {
                let next = views(entries@).take(i + 1);
                assert(next.drop_last() == views(entries@).take(i as int));
                assert(next.last() == entries@[i as int]@);
            }
            if self.matches(entries[i].as_str(), ignore_event_kind) {
                let ghost before = r@;
                let name = entries[i].clone();
                r.push(name);
                assert(views(r@) =~= views(before).push(name@));
            }
            i += 1;
        }
        assert(views(entries@).take(entries@.len() as int) == views(entries@));
        r
    }

    fn remaining(&self, entries: &Vec<String>, ignore_event_kind: bool) -> (r: Vec<String>)
        ensures
            views(r@) == self@.remaining(views(entries@), ignore_event_kind),
    {
        let mut r: Vec<String> = Vec::new();
        let mut i: usize = 0;
        assert(views(r@) =~= Seq::<Seq<char>>::empty());
        assert(views(entries@).take(0) =~= Seq::<Seq<char>>::empty());
        while i < entries.len()
            invariant
                i <= entries.len(),
                views(r@) == self@.remaining(views(entries@).take(i as int), ignore_event_kind),
            decreases entries.len() - i,
        {
            proof {
                let next = views(entries@).take(i + 1);
                assert(next.drop_last() == views(entries@).take(i as int));
                assert(next.last() == entries@[i as int]@);
            }
            if !self.matches(entries[i].as_str(), ignore_event_kind) {
                let ghost before = r@;
                let name = entries[i].clone();
                r.push(name);
                assert(views(r@) =~= views(before).push(name@));
            }
            i += 1;
        }
        assert(views(entries@).take(entries@.len() as int) == views(entries@));
        r
    }

    /// The removal of every file among `entries` that has this identity.
    pub fn clear(&self, entries: &Vec<String>, ignore_event_kind: bool) -> (r: Vec<FileAction>)
        ensures
            action_views(r@) == removals_of(self@.matching(views(entries@), ignore_event_kind)),
    {
        remove_all(self.matching(entries, ignore_event_kind))
    }

    /// Whether a file of this name is a differential graph of this benchmark that has to do
    /// with the baseline of this identity.
    pub fn is_diff(&self, file_name: &str) -> (r: bool)
        ensures
            r == self@.is_diff(file_name@),
    {
        proof {
            reveal_strlit("diff.old.svg");
            reveal_strlit("diff.base@");
            reveal_strlit(".svg");
            reveal_strlit("base@");
            reveal_strlit(".diff.");
            assert("diff.old.svg"@ =~= lit_diff_old_svg());
            assert("diff.base@"@ =~= lit_diff_base());
            assert(".svg"@ =~= lit_dot_svg());
            assert("base@"@ =~= lit_base_at());
            assert(".diff."@ =~= lit_dot_diff_dot());
        }
        let prefix = self.prefix();
        let fc = chars_of(file_name);
        let pc = chars_of(prefix.as_str());
        if !chars_match_at(&fc, 0, &pc) {
            return false;
        }
        let suffix = file_name.substring_char(pc.len(), fc.len());
        assert(suffix@ =~= file_name@.skip(self@.prefix().len() as int));
        let sc = chars_of(suffix);
        let tail = match &self.baseline_kind {
            BaselineKind::Old => String::from_str("diff.old.svg"),
            BaselineKind::Name(name) => concat3("diff.base@", name.as_str(), ".svg"),
        };
        let tc = chars_of(tail.as_str());
        if sc.len() >= tc.len() && chars_match_at(&sc, sc.len() - tc.len(), &tc) {
            return true;
        }
        match &self.baseline_kind {
            BaselineKind::Name(name) => match find_char(&sc, '.') {
                Some(dot) => {
                    let start = concat3("base@", name.as_str(), ".diff.");
                    let bc = chars_of(start.as_str());
                    let r = chars_match_at(&sc, dot + 1, &bc);
                    proof {
                        let rest = suffix@.skip(dot + 1);
                        if dot + 1 + bc@.len() <= suffix@.len() {
                            assert(rest.subrange(0, bc@.len() as int) =~= suffix@.subrange(
                                dot + 1,
                                dot + 1 + bc@.len(),
                            ));
                        }
                    }
                    r
                },
                None => false,
            },
            BaselineKind::Old => false,
        }
    }

    /// The removal of every differential graph among `entries` that has to do with the
    /// baseline of this identity.
    pub fn clear_diff(&self, entries: &Vec<String>) -> (r: Vec<FileAction>)
        ensures
            action_views(r@) == removals_of(matching_diffs(self@, views(entries@))),
    {
        let mut names: Vec<String> = Vec::new();
        let mut i: usize = 0;
        assert(views(names@) =~= Seq::<Seq<char>>::empty());
        assert(views(entries@).take(0) =~= Seq::<Seq<char>>::empty());
        while i < entries.len()
            invariant
                i <= entries.len(),
                views(names@) == matching_diffs(self@, views(entries@).take(i as int)),
            decreases entries.len() - i,
        {
            proof {
                let next = views(entries@).take(i + 1);
                assert(next.drop_last() == views(entries@).take(i as int));
                assert(next.last() == entries@[i as int]@);
            }
            if self.is_diff(entries[i].as_str()) {
                let ghost before = names@;
                let name = entries[i].clone();
                names.push(name);
                assert(views(names@) =~= views(before).push(name@));
            }
            i += 1;
        }
        assert(views(entries@).take(entries@.len() as int) == views(entries@));
        remove_all(names)
    }

    /// What has to happen before the graphs of a fresh run are rendered, in a directory that
    /// holds `entries`.
    ///
    /// Against the run before: the graphs of the old role are removed, then every graph of
    /// this identity is moved to the old role. Against a named baseline: the graphs of the
    /// named slot are removed, and the graphs of this identity with them; nothing is moved.
    pub fn shift(&self, entries: &Vec<String>, ignore_event_kind: bool) -> (r: Vec<FileAction>)
        ensures
            action_views(r@) == self@.shift_plan(views(entries@), ignore_event_kind),
    {
        let base = self.to_base_path();
        let mut r = base.clear(entries, ignore_event_kind);
        let left = base.remaining(entries, ignore_event_kind);
        let mut more = match &self.baseline_kind {
            BaselineKind::Old => move_all_to_old(self.matching(&left, ignore_event_kind)),
            BaselineKind::Name(_) => self.clear(&left, ignore_event_kind),
        };
        let ghost first = r@;
        let ghost second = more@;
        r.append(&mut more);
        assert(action_views(r@) =~= action_views(first) + action_views(second));
        r
    }
}

fn remove_all(names: Vec<String>) -> (r: Vec<FileAction>)
    ensures
        action_views(r@) == removals_of(views(names@)),
{
    let mut r: Vec<FileAction> = Vec::new();
    let mut i: usize = 0;
    while i < names.len()
        invariant
            i <= names.len(),
            r@.len() == i,
            forall|j: int| 0 <= j < i ==> (#[trigger] r@[j])@ == FileActionView::Remove(names@[j]@),
        decreases names.len() - i,
    {
        r.push(FileAction::Remove(names[i].clone()));
        i += 1;
    }
    assert(action_views(r@) =~= removals_of(views(names@)));
    r
}

fn move_all_to_old(names: Vec<String>) -> (r: Vec<FileAction>)
    ensures
        action_views(r@) == moves_to_old(views(names@)),
{
    proof {
        reveal_strlit("old.svg");
        assert("old.svg"@ =~= lit_old_svg());
    }
    let mut r: Vec<FileAction> = Vec::new();
    let mut i: usize = 0;
    while i < names.len()
        invariant
            i <= names.len(),
            r@.len() == i,
            "old.svg"@ == lit_old_svg(),
            forall|j: int|
                0 <= j < i ==> (#[trigger] r@[j])@ == FileActionView::Rename(
                    names@[j]@,
                    to_old_svg(names@[j]@),
                ),
        decreases names.len() - i,
    {
        let name = &names[i];
        let len = name.as_str().unicode_len();
        let keep = if len >= 3 {
            len - 3
        } else {
            0
        };
        let mut target = String::from_str(name.as_str().substring_char(0, keep));
        target.append("old.svg");
        assert(target@ =~= to_old_svg(name@));
        r.push(FileAction::Rename(name.clone(), target));
        i += 1;
    }
    assert(action_views(r@) =~= moves_to_old(views(names@)));
    r
}

/// No name of an event kind holds a dot, so the kind is what stands before the first dot
/// behind the prefix of a graph's name.
pub proof fn lemma_event_name_has_no_dot(kind: EventKind)
    ensures
        forall|i: int| 0 <= i < kind.spec_name().len() ==> kind.spec_name()[i] != '.',
{
}

/// Graphs of different event kinds never share a file: no file has the identity of a graph of
/// one kind and that of a graph of another kind, whatever the roles of the two.
pub proof fn lemma_events_do_not_share_files(a: OutputPathView, b: OutputPathView, file: Seq<char>)
    requires
        a.name == b.name,
        a.event_kind != b.event_kind,
    ensures
        !(a.matches(file, false) && b.matches(file, false)),
{
    if a.matches(file, false) && b.matches(file, false) {
        let suffix = file.skip(a.prefix().len() as int);
        let x = a.event_kind.spec_name();
        let y = b.event_kind.spec_name();
        lemma_event_name_has_no_dot(a.event_kind);
        lemma_event_name_has_no_dot(b.event_kind);
        assert(suffix == x + lit_dot() + a.kind.tail());
        assert(suffix == y + lit_dot() + b.kind.tail());
        assert forall|j: int| 0 <= j < x.len() implies suffix[j] != '.' by {
            assert(suffix[j] == x[j]);
        }
        assert(suffix[x.len() as int] == '.');
        lemma_first_index_unique(suffix, '.', x.len() as int);
        assert forall|j: int| 0 <= j < y.len() implies suffix[j] != '.' by {
            assert(suffix[j] == y[j]);
        }
        assert(suffix[y.len() as int] == '.');
        lemma_first_index_unique(suffix, '.', y.len() as int);
        assert(x =~= suffix.take(x.len() as int));
        assert(y =~= suffix.take(y.len() as int));
        lemma_name_injective(a.event_kind, b.event_kind);
    }
}

} // verus!
