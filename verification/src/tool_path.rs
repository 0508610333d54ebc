//! Deterministic names for the files of a tool, and the rotation of baselines.

use vstd::prelude::*;
use vstd::string::*;

use crate::common::{FileAction, FileActionView, ModulePath, action_views};
use crate::text::{
    chars_match_at, chars_of, clone_strings, colons_to_slashes, concat3, is_prefix, is_suffix,
    join, joined, last_index, rfind_char, truncate_utf8, truncated, views,
};
use crate::tool::ValgrindTool;

verus! {

/// The name of a stored baseline: letters of the ASCII alphabet, digits and `_` only, so
/// that it cannot be taken for a part of the extension of a file. `BaselineName::parse`
/// makes one.
#[derive(Debug, PartialEq, Eq)]
pub struct BaselineName(String);

/// Whether `c` can stand in the name of a baseline: a letter of the ASCII alphabet, a digit
/// or `_`.
pub open spec fn is_name_char(c: char) -> bool {
    ('a' <= c && c <= 'z') || ('A' <= c && c <= 'Z') || ('0' <= c && c <= '9') || c == '_'
}

/// Whether `name` can be the name of a baseline.
pub open spec fn is_baseline_name(name: Seq<char>) -> bool {
    forall|i: int| 0 <= i < name.len() ==> is_name_char(#[trigger] name[i])
}

/// Whether `name` can be the name of a baseline.
pub fn check_baseline_name(name: &str) -> (r: bool)
    ensures
        r == is_baseline_name(name@),
{
    let chars = chars_of(name);
    let mut i: usize = 0;
    while i < chars.len()
        invariant
            chars@ == name@,
            i <= chars.len(),
            forall|j: int| 0 <= j < i ==> is_name_char(#[trigger] name@[j]),
        decreases chars.len() - i,
    {
        let c = chars[i];
        if !(('a' <= c && c <= 'z') || ('A' <= c && c <= 'Z') || ('0' <= c && c <= '9') || c == '_') {
            assert(!is_name_char(name@[i as int]));
            return false;
        }
        i += 1;
    }
    true
}

impl View for BaselineName {
    type V = Seq<char>;

    closed spec fn view(&self) -> Seq<char> {
        self.0@
    }
}

impl Clone for BaselineName {
    fn clone(&self) -> (r: Self)
        ensures
            r@ == self@,
    {
        proof {
            use_type_invariant(self);
        }
        BaselineName(self.0.clone())
    }
}

impl BaselineName {
    #[verifier::type_invariant]
    spec fn well_formed(self) -> bool {
        is_baseline_name(self.0@)
    }

    /// The baseline of this name, where it can be the name of a baseline.
    pub fn parse(name: &str) -> (r: Option<BaselineName>)
        ensures
            match r {
                Some(parsed) => is_baseline_name(name@) && parsed@ == name@,
                None => !is_baseline_name(name@),
            },
    {
        if check_baseline_name(name) {
            Some(BaselineName(String::from_str(name)))
        } else {
            None
        }
    }

    /// The name.
    pub fn as_str(&self) -> (r: &str)
        ensures
            r@ == self@,
            is_baseline_name(r@),
    {
        proof {
            use_type_invariant(self);
        }
        self.0.as_str()
    }

    /// The name as a string: letters of the ASCII alphabet, digits and `_` only.
    pub fn to_string(&self) -> (r: String)
        ensures
            r@ == self@,
            is_baseline_name(r@),
    {
        proof {
            use_type_invariant(self);
        }
        self.0.clone()
    }
}

/// The historical slot that a run is compared against and stored into.
#[derive(Debug, PartialEq, Eq)]
pub enum BaselineKind {
    /// The run before this one.
    Old,
    /// A baseline saved under a name.
    Name(BaselineName),
}

/// A `BaselineKind` over character sequences.
pub enum BaselineKindView {
    Old,
    Name(Seq<char>),
}

impl View for BaselineKind {
    type V = BaselineKindView;

    open spec fn view(&self) -> BaselineKindView {
        match self {
            BaselineKind::Old => BaselineKindView::Old,
            BaselineKind::Name(name) => BaselineKindView::Name(name@),
        }
    }
}

impl Clone for BaselineKind {
    fn clone(&self) -> (r: Self)
        ensures
            r@ == self@,
    {
        match self {
            BaselineKind::Old => BaselineKind::Old,
            BaselineKind::Name(name) => BaselineKind::Name(name.clone()),
        }
    }
}

/// The role of a file of a tool.
#[derive(Debug, PartialEq, Eq)]
pub enum ToolOutputPathKind {
    /// The output of the current run.
    Out,
    /// The output of the run before.
    OldOut,
    /// The log of the current run.
    Log,
    /// The log of the run before.
    OldLog,
    /// The log of the baseline with this name.
    BaseLog(String),
    /// The output of the baseline with this name.
    Base(String),
}

/// A `ToolOutputPathKind` over character sequences.
pub enum ToolOutputPathKindView {
    Out,
    OldOut,
    Log,
    OldLog,
    BaseLog(Seq<char>),
    Base(Seq<char>),
}

impl View for ToolOutputPathKind {
    type V = ToolOutputPathKindView;

    open spec fn view(&self) -> ToolOutputPathKindView {
        match self {
            ToolOutputPathKind::Out => ToolOutputPathKindView::Out,
            ToolOutputPathKind::OldOut => ToolOutputPathKindView::OldOut,
            ToolOutputPathKind::Log => ToolOutputPathKindView::Log,
            ToolOutputPathKind::OldLog => ToolOutputPathKindView::OldLog,
            ToolOutputPathKind::BaseLog(name) => ToolOutputPathKindView::BaseLog(name@),
            ToolOutputPathKind::Base(name) => ToolOutputPathKindView::Base(name@),
        }
    }
}

impl Clone for ToolOutputPathKind {
    fn clone(&self) -> (r: Self)
        ensures
            r@ == self@,
    {
        match self {
            ToolOutputPathKind::Out => ToolOutputPathKind::Out,
            ToolOutputPathKind::OldOut => ToolOutputPathKind::OldOut,
            ToolOutputPathKind::Log => ToolOutputPathKind::Log,
            ToolOutputPathKind::OldLog => ToolOutputPathKind::OldLog,
            ToolOutputPathKind::BaseLog(name) => ToolOutputPathKind::BaseLog(name.clone()),
            ToolOutputPathKind::Base(name) => ToolOutputPathKind::Base(name.clone()),
        }
    }
}

/// `out`
pub open spec fn lit_out() -> Seq<char> {
    seq!['o', 'u', 't']
}

/// `log`
pub open spec fn lit_log() -> Seq<char> {
    seq!['l', 'o', 'g']
}

/// `.old`
pub open spec fn lit_dot_old() -> Seq<char> {
    seq!['.', 'o', 'l', 'd']
}

/// `base@`
pub open spec fn lit_base() -> Seq<char> {
    seq!['b', 'a', 's', 'e', '@']
}

/// `.base@`
pub open spec fn lit_dot_base() -> Seq<char> {
    seq!['.', 'b', 'a', 's', 'e', '@']
}

/// `.`
pub open spec fn lit_dot() -> Seq<char> {
    seq!['.']
}

/// `/`
pub open spec fn lit_slash() -> Seq<char> {
    seq!['/']
}

/// Whether what follows the last dot of `suffix` starts with `base@`.
pub open spec fn last_part_is_base(suffix: Seq<char>) -> bool {
    last_index(suffix, '.') >= 0 && is_prefix(lit_base(), suffix.skip(last_index(suffix, '.') + 1))
}

impl ToolOutputPathKindView {
    /// `out` for the outputs, `log` for the logs.
    pub open spec fn stem(self) -> Seq<char> {
        match self {
            ToolOutputPathKindView::Out | ToolOutputPathKindView::OldOut
            | ToolOutputPathKindView::Base(_) => lit_out(),
            _ => lit_log(),
        }
    }

    /// What ends the extension: nothing, `.old`, or `.base@` and the baseline's name.
    pub open spec fn tail(self) -> Seq<char> {
        match self {
            ToolOutputPathKindView::Out | ToolOutputPathKindView::Log => Seq::empty(),
            ToolOutputPathKindView::OldOut | ToolOutputPathKindView::OldLog => lit_dot_old(),
            ToolOutputPathKindView::BaseLog(name) | ToolOutputPathKindView::Base(name) => lit_dot_base()
                + name,
        }
    }

    /// Whether a file whose name ends in `suffix`, behind the tool's id and the benchmark's
    /// name, has this role.
    pub open spec fn matches_suffix(self, suffix: Seq<char>) -> bool {
        &&& is_prefix(self.stem(), suffix)
        &&& match self {
            ToolOutputPathKindView::Out | ToolOutputPathKindView::Log => !is_suffix(
                lit_dot_old(),
                suffix,
            ) && !last_part_is_base(suffix),
            _ => is_suffix(self.tail(), suffix),
        }
    }

    /// Whether this is the role of a file of the current run.
    pub open spec fn is_current(self) -> bool {
        self is Out || self is Log
    }
}

/// The identity of a file of a tool: role, tool, baseline, directory, benchmark name and
/// modifiers.
#[derive(Debug, PartialEq, Eq)]
pub struct ToolOutputPath {
    pub kind: ToolOutputPathKind,
    pub tool: ValgrindTool,
    pub baseline_kind: BaselineKind,
    pub dir: String,
    pub name: String,
    pub modifiers: Vec<String>,
}

/// A `ToolOutputPath` over character sequences.
pub struct ToolOutputPathView {
    pub kind: ToolOutputPathKindView,
    pub tool: ValgrindTool,
    pub baseline_kind: BaselineKindView,
    pub dir: Seq<char>,
    pub name: Seq<char>,
    pub modifiers: Seq<Seq<char>>,
}

impl View for ToolOutputPath {
    type V = ToolOutputPathView;

    open spec fn view(&self) -> ToolOutputPathView {
        ToolOutputPathView {
            kind: self.kind@,
            tool: self.tool,
            baseline_kind: self.baseline_kind@,
            dir: self.dir@,
            name: self.name@,
            modifiers: views(self.modifiers@),
        }
    }
}

impl ToolOutputPathView {
    /// The extension: `out` or `log`, the modifiers, and what the role adds.
    pub open spec fn extension(self) -> Seq<char> {
        self.kind.stem() + (if self.modifiers.len() == 0 {
            Seq::empty()
        } else {
            lit_dot() + joined(self.modifiers, lit_dot())
        }) + self.kind.tail()
    }

    /// What every file name of this tool and benchmark starts with.
    pub open spec fn prefix(self) -> Seq<char> {
        self.tool.spec_id() + lit_dot() + self.name + lit_dot()
    }

    /// The name of the file inside its directory.
    pub open spec fn file_name(self) -> Seq<char> {
        self.prefix() + self.extension()
    }

    /// The path of the file.
    pub open spec fn to_path(self) -> Seq<char> {
        self.dir + lit_slash() + self.file_name()
    }

    /// Whether a file of this name has this identity, whatever its modifiers.
    pub open spec fn matches(self, file_name: Seq<char>) -> bool {
        is_prefix(self.prefix(), file_name) && self.kind.matches_suffix(
            file_name.skip(self.prefix().len() as int),
        )
    }

    /// The identity of the file that this one is compared against.
    pub open spec fn to_base_path(self) -> ToolOutputPathView {
        ToolOutputPathView {
            kind: match (self.kind, self.baseline_kind) {
                (ToolOutputPathKindView::Out, BaselineKindView::Old) => ToolOutputPathKindView::OldOut,
                (ToolOutputPathKindView::Out, BaselineKindView::Name(name)) => ToolOutputPathKindView::Base(
                    name,
                ),
                (ToolOutputPathKindView::Base(_), BaselineKindView::Name(name)) => ToolOutputPathKindView::Base(
                    name,
                ),
                (ToolOutputPathKindView::Log, BaselineKindView::Old) => ToolOutputPathKindView::OldLog,
                (ToolOutputPathKindView::Log, BaselineKindView::Name(name)) => ToolOutputPathKindView::BaseLog(
                    name,
                ),
                (
                    ToolOutputPathKindView::BaseLog(_),
                    BaselineKindView::Name(name),
                ) => ToolOutputPathKindView::BaseLog(name),
                (kind, _) => kind,
            },
            ..self
        }
    }

    /// The identity of the log that belongs to this file.
    pub open spec fn to_log_output(self) -> ToolOutputPathView {
        ToolOutputPathView {
            kind: match self.kind {
                ToolOutputPathKindView::Out | ToolOutputPathKindView::OldOut => ToolOutputPathKindView::Log,
                ToolOutputPathKindView::Base(name) => ToolOutputPathKindView::BaseLog(name),
                kind => kind,
            },
            ..self
        }
    }

    /// The same identity for another tool.
    pub open spec fn to_tool_output(self, tool: ValgrindTool) -> ToolOutputPathView {
        ToolOutputPathView { tool, ..self }
    }

    /// The names among `entries` that have this identity, in their order.
    pub open spec fn matching(self, entries: Seq<Seq<char>>) -> Seq<Seq<char>>
        decreases entries.len(),
    {
        if entries.len() == 0 {
            Seq::empty()
        } else {
            let rest = self.matching(entries.drop_last());
            if self.matches(entries.last()) {
                rest.push(entries.last())
            } else {
                rest
            }
        }
    }

    /// The paths of the files among `entries` that have this identity, in their order.
    pub open spec fn real_paths(self, entries: Seq<Seq<char>>) -> Seq<Seq<char>>
        decreases entries.len(),
    {
        if entries.len() == 0 {
            Seq::empty()
        } else {
            let rest = self.real_paths(entries.drop_last());
            if self.matches(entries.last()) {
                rest.push(self.dir + lit_slash() + entries.last())
            } else {
                rest
            }
        }
    }

    /// One removal for each of the `entries` that has this identity, in their order.
    pub open spec fn removals(self, entries: Seq<Seq<char>>) -> Seq<FileActionView>
        decreases entries.len(),
    {
        if entries.len() == 0 {
            Seq::empty()
        } else {
            let rest = self.removals(entries.drop_last());
            if self.matches(entries.last()) {
                rest.push(FileActionView::Remove(entries.last()))
            } else {
                rest
            }
        }
    }

    /// For each of the `entries` that has this identity, in their order, the move to the same
    /// name with `.old` behind it.
    pub open spec fn renames(self, entries: Seq<Seq<char>>) -> Seq<FileActionView>
        decreases entries.len(),
    {
        if entries.len() == 0 {
            Seq::empty()
        } else {
            let rest = self.renames(entries.drop_last());
            if self.matches(entries.last()) {
                rest.push(FileActionView::Rename(entries.last(), entries.last() + lit_dot_old()))
            } else {
                rest
            }
        }
    }

    /// The names among `entries` that do not have this identity, in their order: what is
    /// left when the files of this identity are removed.
    pub open spec fn remaining(self, entries: Seq<Seq<char>>) -> Seq<Seq<char>>
        decreases entries.len(),
    {
        if entries.len() == 0 {
            Seq::empty()
        } else {
            let rest = self.remaining(entries.drop_last());
            if self.matches(entries.last()) {
                rest
            } else {
                rest.push(entries.last())
            }
        }
    }

    /// What `shift` asks for in a directory that holds `entries`.
    ///
    /// Against the run before: the removal of the files of the old role, then the move of
    /// each file of this identity that is left. Against a named baseline: the removal of
    /// the files of the named slot, which is the identity that this one is compared against,
    /// then the removal of each file of this identity that is left. Nothing is moved there:
    /// a named baseline is never kept beside an old and a new copy.
    pub open spec fn shift_plan(self, entries: Seq<Seq<char>>) -> Seq<FileActionView> {
        match self.baseline_kind {
            BaselineKindView::Old => self.to_base_path().removals(entries) + self.renames(
                self.to_base_path().remaining(entries),
            ),
            BaselineKindView::Name(_) => self.to_base_path().removals(entries) + self.removals(
                self.to_base_path().remaining(entries),
            ),
        }
    }
}

/// Whether the library that cleans file names replaces `c`: one of `/ ? < > \ : * | "`.
pub open spec fn is_illegal(c: char) -> bool {
    c == '/' || c == '?' || c == '<' || c == '>' || c == '\\' || c == ':' || c == '*' || c == '|'
        || c == '"'
}

/// Whether `c` is a control character: U+0000 to U+001F or U+0080 to U+009F.
pub open spec fn is_control(c: char) -> bool {
    (c as u32) <= 0x1f || (0x80 <= (c as u32) && (c as u32) <= 0x9f)
}

/// `name` with each illegal and each control character replaced by `_`.
pub open spec fn replaced(name: Seq<char>) -> Seq<char> {
    name.map_values(
        |c: char|
            if is_illegal(c) || is_control(c) {
                '_'
            } else {
                c
            },
    )
}

/// Whether `name` is made of dots only, and of at least one.
pub open spec fn is_reserved(name: Seq<char>) -> bool {
    name.len() > 0 && forall|i: int| 0 <= i < name.len() ==> name[i] == '.'
}

/// The file name that `name` is cleaned to: illegal and control characters become `_`, and a
/// name of dots only becomes `_` as a whole.
pub open spec fn sanitized(name: Seq<char>) -> Seq<char> {
    if is_reserved(replaced(name)) {
        seq!['_']
    } else {
        replaced(name)
    }
}

/// The number of bytes to which a benchmark's name is cut.
pub const NAME_LIMIT: usize = 200;

/// Calls `sanitize_filename::sanitize_with_options` with the options `windows: false`,
/// `truncate: false` and the replacement `_`. With these options the crate applies three
/// replacements in turn: every character of `/ ? < > \ : * | "` becomes `_`, every control
/// character (U+0000 to U+001F, U+0080 to U+009F) becomes `_`, and a name that then consists
/// of dots only becomes `_`. The contract says so; it is not proved.
#[verifier::external_body]
fn sanitize(name: &str) -> (r: String)
    ensures
        r@ == sanitized(name@),
{
    sanitize_filename::sanitize_with_options(
        name,
        sanitize_filename::Options { windows: false, truncate: false, replacement: "_" },
    )
}

impl Clone for ToolOutputPath {
    fn clone(&self) -> (r: Self)
        ensures
            r@ == self@,
    {
        ToolOutputPath {
            kind: self.kind.clone(),
            tool: self.tool,
            baseline_kind: self.baseline_kind.clone(),
            dir: self.dir.clone(),
            name: self.name.clone(),
            modifiers: clone_strings(&self.modifiers),
        }
    }
}

fn kind_matches(kind: &ToolOutputPathKind, suffix: &str) -> (r: bool)
    ensures
        r == kind@.matches_suffix(suffix@),
{
    proof {
        reveal_strlit("out");
        reveal_strlit("log");
        reveal_strlit(".old");
        reveal_strlit("base@");
        reveal_strlit(".base@");
        assert("out"@ =~= lit_out());
        assert("log"@ =~= lit_log());
        assert(".old"@ =~= lit_dot_old());
        assert("base@"@ =~= lit_base());
        assert(".base@"@ =~= lit_dot_base());
    }
    let sc = chars_of(suffix);
    let stem = match kind {
        ToolOutputPathKind::Out | ToolOutputPathKind::OldOut | ToolOutputPathKind::Base(_) => "out",
        _ => "log",
    };
    let stem_chars = chars_of(stem);
    if !chars_match_at(&sc, 0, &stem_chars) {
        return false;
    }
    let old_chars = chars_of(".old");
    let ends_old = sc.len() >= old_chars.len() && chars_match_at(
        &sc,
        sc.len() - old_chars.len(),
        &old_chars,
    );
    assert(ends_old == is_suffix(lit_dot_old(), suffix@));
    match kind {
        ToolOutputPathKind::Out | ToolOutputPathKind::Log => {
            if ends_old {
                return false;
            }
            let base_chars = chars_of("base@");
            match rfind_char(&sc, '.') {
                Some(l) => {
                    let is_base = chars_match_at(&sc, l + 1, &base_chars);
                    proof {
                        let rest = suffix@.skip(l + 1);
                        if l + 1 + 5 <= suffix@.len() {
                            assert(rest.subrange(0, 5) =~= suffix@.subrange(l + 1, l + 1 + 5));
                        }
                        assert(is_base == last_part_is_base(suffix@));
                    }
                    !is_base
                },
                None => true,
            }
        },
        ToolOutputPathKind::OldOut | ToolOutputPathKind::OldLog => ends_old,
        ToolOutputPathKind::BaseLog(name) | ToolOutputPathKind::Base(name) => {
            let mut tail = String::from_str(".base@");
            tail.append(name.as_str());
            let tail_chars = chars_of(tail.as_str());
            sc.len() >= tail_chars.len() && chars_match_at(
                &sc,
                sc.len() - tail_chars.len(),
                &tail_chars,
            )
        },
    }
}

impl ToolOutputPath {
    /// The identity of a file of `tool` for the benchmark `name` of `module`, below `base_dir`.
    ///
    /// The directory is `base_dir`, the directories that `module` names, and the benchmark's
    /// name; that name is cleaned for use in a file name and cut to 200 bytes.
    pub fn new(
        kind: ToolOutputPathKind,
        tool: ValgrindTool,
        baseline_kind: &BaselineKind,
        base_dir: &str,
        module: &ModulePath,
        name: &str,
    ) -> (r: Self)
        ensures
            r@.kind == kind@,
            r@.tool == tool,
            r@.baseline_kind == baseline_kind@,
            r@.name == truncated(sanitized(name@), NAME_LIMIT as nat),
            r@.dir == base_dir@ + lit_slash() + colons_to_slashes(module@) + lit_slash() + r@.name,
            r@.modifiers == Seq::<Seq<char>>::empty(),
    {
        proof {
            reveal_strlit("/");
            assert("/"@ =~= lit_slash());
        }
        let clean = sanitize(name);
        let short = truncate_utf8(clean.as_str(), NAME_LIMIT);
        let module_dir = module.to_dir();
        let mut dir = concat3(base_dir, "/", module_dir.as_str());
        dir.append("/");
        dir.append(short.as_str());
        let r = ToolOutputPath {
            kind,
            tool,
            baseline_kind: baseline_kind.clone(),
            dir,
            name: short,
            modifiers: Vec::new(),
        };
        assert(r@.modifiers =~= Seq::<Seq<char>>::empty());
        r
    }

    /// The identity as `new` gives it, and the action that creates its directory.
    pub fn with_init(
        kind: ToolOutputPathKind,
        tool: ValgrindTool,
        baseline_kind: &BaselineKind,
        base_dir: &str,
        module: &str,
        name: &str,
    ) -> (r: (Self, FileAction))
        ensures
            r.0@.kind == kind@,
            r.0@.tool == tool,
            r.0@.baseline_kind == baseline_kind@,
            r.0@.name == truncated(sanitized(name@), NAME_LIMIT as nat),
            r.0@.dir == base_dir@ + lit_slash() + colons_to_slashes(module@) + lit_slash()
                + r.0@.name,
            r.0@.modifiers == Seq::<Seq<char>>::empty(),
            r.1@ == FileActionView::CreateDirAll(r.0@.dir),
    {
        let output = Self::new(kind, tool, baseline_kind, base_dir, &ModulePath::new(module), name);
        let action = output.init();
        (output, action)
    }

    /// The action that creates the directory of this file with all its parents.
    pub fn init(&self) -> (r: FileAction)
        ensures
            r@ == FileActionView::CreateDirAll(self@.dir),
    {
        FileAction::CreateDirAll(self.dir.clone())
    }

    /// What every file name of this tool and benchmark starts with.
    pub fn prefix(&self) -> (r: String)
        ensures
            r@ == self@.prefix(),
    {
        proof {
            reveal_strlit(".");
            assert("."@ =~= lit_dot());
        }
        let mut r = concat3(self.tool.id().as_str(), ".", self.name.as_str());
        r.append(".");
        r
    }

    /// Whether a file of this name has this identity, whatever its modifiers.
    pub fn matches(&self, file_name: &str) -> (r: bool)
        ensures
            r == self@.matches(file_name@),
    {
        let prefix = self.prefix();
        let fc = chars_of(file_name);
        let pc = chars_of(prefix.as_str());
        if !chars_match_at(&fc, 0, &pc) {
            return false;
        }
        let suffix = file_name.substring_char(pc.len(), fc.len());
        assert(suffix@ =~= file_name@.skip(self@.prefix().len() as int));
        kind_matches(&self.kind, suffix)
    }

    /// The paths of the files among `entries`, the names of the files in the directory, that
    /// have this identity.
    pub fn real_paths(&self, entries: &Vec<String>) -> (r: Vec<String>)
        ensures
            views(r@) == self@.real_paths(views(entries@)),
    {
        proof {
            reveal_strlit("/");
            assert("/"@ =~= lit_slash());
        }
        let mut r: Vec<String> = Vec::new();
        let mut i: usize = 0;
        assert(views(r@) =~= Seq::<Seq<char>>::empty());
        assert(views(entries@).take(0) =~= Seq::<Seq<char>>::empty());
        while i < entries.len()
            invariant
                i <= entries.len(),
                "/"@ == lit_slash(),
                views(r@) == self@.real_paths(views(entries@).take(i as int)),
            decreases entries.len() - i,
        {
            proof {
                let next = views(entries@).take(i + 1);
                assert(next.drop_last() == views(entries@).take(i as int));
                assert(next.last() == entries@[i as int]@);
            }
            if self.matches(entries[i].as_str()) {
                let path = concat3(self.dir.as_str(), "/", entries[i].as_str());
                let ghost before = r@;
                r.push(path);
                assert(views(r@) =~= views(before).push(path@));
            }
            i += 1;
        }
        assert(views(entries@).take(entries@.len() as int) == views(entries@));
        r
    }

    /// Whether a file of this identity is among `entries`.
    pub fn is_present(&self, entries: &Vec<String>) -> (r: bool)
        ensures
            r == (self@.real_paths(views(entries@)).len() > 0),
    {
        self.real_paths(entries).len() > 0
    }

    /// Whether more than one file of this identity is among `entries`.
    pub fn is_multiple(&self, entries: &Vec<String>) -> (r: bool)
        ensures
            r == (self@.real_paths(views(entries@)).len() > 1),
    {
        self.real_paths(entries).len() > 1
    }

    /// The removal of every file among `entries` that has this identity.
    pub fn clear(&self, entries: &Vec<String>) -> (r: Vec<FileAction>)
        ensures
            action_views(r@) == self@.removals(views(entries@)),
    {
        let mut r: Vec<FileAction> = Vec::new();
        let mut i: usize = 0;
        assert(action_views(r@) =~= Seq::<FileActionView>::empty());
        assert(views(entries@).take(0) =~= Seq::<Seq<char>>::empty());
        while i < entries.len()
            invariant
                i <= entries.len(),
                action_views(r@) == self@.removals(views(entries@).take(i as int)),
            decreases entries.len() - i,
        {
            proof {
                let next = views(entries@).take(i + 1);
                assert(next.drop_last() == views(entries@).take(i as int));
                assert(next.last() == entries@[i as int]@);
            }
            if self.matches(entries[i].as_str()) {
                let action = FileAction::Remove(entries[i].clone());
                let ghost before = r@;
                r.push(action);
                assert(action_views(r@) =~= action_views(before).push(action@));
            }
            i += 1;
        }
        assert(views(entries@).take(entries@.len() as int) == views(entries@));
        r
    }

    fn remaining(&self, entries: &Vec<String>) -> (r: Vec<String>)
        ensures
            views(r@) == self@.remaining(views(entries@)),
    {
        let mut r: Vec<String> = Vec::new();
        let mut i: usize = 0;
        assert(views(r@) =~= Seq::<Seq<char>>::empty());
        assert(views(entries@).take(0) =~= Seq::<Seq<char>>::empty());
        while i < entries.len()
            invariant
                i <= entries.len(),
                views(r@) == self@.remaining(views(entries@).take(i as int)),
            decreases entries.len() - i,
        {
            proof {
                let next = views(entries@).take(i + 1);
                assert(next.drop_last() == views(entries@).take(i as int));
                assert(next.last() == entries@[i as int]@);
            }
            if !self.matches(entries[i].as_str()) {
                let ghost before = r@;
                let name = entries[i].clone();
                r.push(name);
                assert(views(r@) =~= views(before).push(name@));
            }
            i += 1;
        }
        assert(views(entries@).take(entries@.len() as int) == views(entries@));
        r
    }

    fn rename_all(&self, entries: &Vec<String>) -> (r: Vec<FileAction>)
        ensures
            action_views(r@) == self@.renames(views(entries@)),
    {
        proof {
            reveal_strlit(".old");
            assert(".old"@ =~= lit_dot_old());
        }
        let mut r: Vec<FileAction> = Vec::new();
        let mut i: usize = 0;
        assert(action_views(r@) =~= Seq::<FileActionView>::empty());
        assert(views(entries@).take(0) =~= Seq::<Seq<char>>::empty());
        while i < entries.len()
            invariant
                i <= entries.len(),
                ".old"@ == lit_dot_old(),
                action_views(r@) == self@.renames(views(entries@).take(i as int)),
            decreases entries.len() - i,
        {
            proof {
                let next = views(entries@).take(i + 1);
                assert(next.drop_last() == views(entries@).take(i as int));
                assert(next.last() == entries@[i as int]@);
            }
            if self.matches(entries[i].as_str()) {
                let mut target = entries[i].clone();
                target.append(".old");
                let action = FileAction::Rename(entries[i].clone(), target);
                let ghost before = r@;
                r.push(action);
                assert(action_views(r@) =~= action_views(before).push(action@));
            }
            i += 1;
        }
        assert(views(entries@).take(entries@.len() as int) == views(entries@));
        r
    }

    /// What has to happen before a fresh run, in a directory that holds `entries`.
    ///
    /// Against the run before: the files of the old role are removed, then every file of this
    /// identity is moved to the old role. Against a named baseline: the files of the named
    /// slot are removed, and the files of this identity with them; nothing is moved.
    pub fn shift(&self, entries: &Vec<String>) -> (r: Vec<FileAction>)
        ensures
            action_views(r@) == self@.shift_plan(views(entries@)),
    {
        let base = self.to_base_path();
        let mut r = base.clear(entries);
        let left = base.remaining(entries);
        let mut more = match &self.baseline_kind {
            BaselineKind::Old => self.rename_all(&left),
            BaselineKind::Name(_) => self.clear(&left),
        };
        let ghost first = r@;
        let ghost second = more@;
        r.append(&mut more);
        assert(action_views(r@) =~= action_views(first) + action_views(second));
        r
    }

    /// The identity of the file that this one is compared against.
    pub fn to_base_path(&self) -> (r: Self)
        ensures
            r@ == self@.to_base_path(),
    {
        let kind = match (&self.kind, &self.baseline_kind) {
            (ToolOutputPathKind::Out, BaselineKind::Old) => ToolOutputPathKind::OldOut,
            (
                ToolOutputPathKind::Out | ToolOutputPathKind::Base(_),
                BaselineKind::Name(name),
            ) => ToolOutputPathKind::Base(name.to_string()),
            (ToolOutputPathKind::Log, BaselineKind::Old) => ToolOutputPathKind::OldLog,
            (
                ToolOutputPathKind::Log | ToolOutputPathKind::BaseLog(_),
                BaselineKind::Name(name),
            ) => ToolOutputPathKind::BaseLog(name.to_string()),
            (kind, _) => kind.clone(),
        };
        ToolOutputPath {
            kind,
            tool: self.tool,
            baseline_kind: self.baseline_kind.clone(),
            dir: self.dir.clone(),
            name: self.name.clone(),
            modifiers: clone_strings(&self.modifiers),
        }
    }

    /// The same identity for another tool.
    pub fn to_tool_output(&self, tool: ValgrindTool) -> (r: Self)
        ensures
            r@ == self@.to_tool_output(tool),
    {
        ToolOutputPath {
            kind: self.kind.clone(),
            tool,
            baseline_kind: self.baseline_kind.clone(),
            dir: self.dir.clone(),
            name: self.name.clone(),
            modifiers: clone_strings(&self.modifiers),
        }
    }

    /// The identity of the log that belongs to this file.
    pub fn to_log_output(&self) -> (r: Self)
        ensures
            r@ == self@.to_log_output(),
    {
        let kind = match &self.kind {
            ToolOutputPathKind::Out | ToolOutputPathKind::OldOut => ToolOutputPathKind::Log,
            ToolOutputPathKind::Base(name) => ToolOutputPathKind::BaseLog(name.clone()),
            kind => kind.clone(),
        };
        ToolOutputPath {
            kind,
            tool: self.tool,
            baseline_kind: self.baseline_kind.clone(),
            dir: self.dir.clone(),
            name: self.name.clone(),
            modifiers: clone_strings(&self.modifiers),
        }
    }

    /// The extension: `out` or `log`, the modifiers, and what the role adds.
    pub fn extension(&self) -> (r: String)
        ensures
            r@ == self@.extension(),
    {
        proof {
            reveal_strlit("out");
            reveal_strlit("log");
            reveal_strlit(".old");
            reveal_strlit(".base@");
            reveal_strlit(".");
            assert("out"@ =~= lit_out());
            assert("log"@ =~= lit_log());
            assert(".old"@ =~= lit_dot_old());
            assert(".base@"@ =~= lit_dot_base());
            assert("."@ =~= lit_dot());
        }
        let stem = match &self.kind {
            ToolOutputPathKind::Out | ToolOutputPathKind::OldOut | ToolOutputPathKind::Base(_) => "out",
            _ => "log",
        };
        let mut r = String::from_str(stem);
        if self.modifiers.len() > 0 {
            r.append(".");
            r.append(join(&self.modifiers, ".").as_str());
            assert(r@ =~= self@.kind.stem() + (lit_dot() + joined(self@.modifiers, lit_dot())));
        } else {
            assert(r@ =~= self@.kind.stem() + Seq::<char>::empty());
        }
        match &self.kind {
            ToolOutputPathKind::Out | ToolOutputPathKind::Log => {
                assert(r@ =~= self@.extension());
            },
            ToolOutputPathKind::OldOut | ToolOutputPathKind::OldLog => {
                r.append(".old");
            },
            ToolOutputPathKind::BaseLog(name) | ToolOutputPathKind::Base(name) => {
                r.append(".base@");
                r.append(name.as_str());
                assert(r@ =~= self@.extension());
            },
        }
        r
    }

    /// This identity with the given modifiers in place of its own.
    pub fn with_modifiers(&self, modifiers: Vec<String>) -> (r: Self)
        ensures
            r@ == (ToolOutputPathView { modifiers: views(modifiers@), ..self@ }),
    {
        ToolOutputPath {
            kind: self.kind.clone(),
            tool: self.tool,
            baseline_kind: self.baseline_kind.clone(),
            dir: self.dir.clone(),
            name: self.name.clone(),
            modifiers,
        }
    }

    /// The name of the file inside its directory.
    pub fn file_name(&self) -> (r: String)
        ensures
            r@ == self@.file_name(),
    {
        let mut r = self.prefix();
        r.append(self.extension().as_str());
        r
    }

    /// The path of the file.
    pub fn to_path(&self) -> (r: String)
        ensures
            r@ == self@.to_path(),
    {
        proof {
            reveal_strlit("/");
            assert("/"@ =~= lit_slash());
        }
        concat3(self.dir.as_str(), "/", self.file_name().as_str())
    }

    /// The path of the file, as `to_path` gives it.
    pub fn to_string(&self) -> (r: String)
        ensures
            r@ == self@.to_path(),
    {
        self.to_path()
    }
}

} // verus!
