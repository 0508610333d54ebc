//! Names shared by the whole engine: module paths and file actions.

use vstd::prelude::*;
use vstd::string::*;

use crate::text::{colons_to_slashes, concat3, module_to_dir};

verus! {

/// The `::`-separated path of a module, a group or a benchmark function.
#[derive(Debug, PartialEq, Eq)]
pub struct ModulePath(pub String);

impl View for ModulePath {
    type V = Seq<char>;

    open spec fn view(&self) -> Seq<char> {
        self.0@
    }
}

impl Clone for ModulePath {
    fn clone(&self) -> (r: Self)
        ensures
            r@ == self@,
    {
        ModulePath(self.0.clone())
    }
}

/// The separator of a module path.
pub open spec fn path_separator() -> Seq<char> {
    seq![':', ':']
}

impl ModulePath {
    /// The module path that `path` spells.
    pub fn new(path: &str) -> (r: Self)
        ensures
            r@ == path@,
    {
        ModulePath(String::from_str(path))
    }

    /// This path with `segment` added behind a `::`.
    pub fn join(&self, segment: &str) -> (r: Self)
        ensures
            r@ == self@ + path_separator() + segment@,
    {
        proof {
            reveal_strlit("::");
            assert("::"@ =~= path_separator());
        }
        ModulePath(concat3(self.0.as_str(), "::", segment))
    }

    /// The path as a string.
    pub fn to_string(&self) -> (r: String)
        ensures
            r@ == self@,
    {
        self.0.clone()
    }

    /// The directories that the path names, one below the other.
    pub fn to_dir(&self) -> (r: String)
        ensures
            r@ == colons_to_slashes(self@),
    {
        module_to_dir(self.0.as_str())
    }
}

/// What is to be done to a file of one benchmark directory. Files are given by their names
/// inside that directory.
#[derive(Debug, PartialEq, Eq)]
pub enum FileAction {
    /// Create the directory with all its parents.
    CreateDirAll(String),
    /// Remove the file.
    Remove(String),
    /// Move the first file to the second name.
    Rename(String, String),
}

/// A `FileAction` over character sequences.
pub enum FileActionView {
    CreateDirAll(Seq<char>),
    Remove(Seq<char>),
    Rename(Seq<char>, Seq<char>),
}

impl View for FileAction {
    type V = FileActionView;

    open spec fn view(&self) -> FileActionView {
        match self {
            FileAction::CreateDirAll(d) => FileActionView::CreateDirAll(d@),
            FileAction::Remove(n) => FileActionView::Remove(n@),
            FileAction::Rename(a, b) => FileActionView::Rename(a@, b@),
        }
    }
}

/// The views of the actions of `v`.
pub open spec fn action_views(v: Seq<FileAction>) -> Seq<FileActionView> {
    v.map_values(|a: FileAction| a@)
}

/// The files of a directory after `action`, where `dir` holds the names of its files before.
pub open spec fn apply_action(dir: Set<Seq<char>>, action: FileActionView) -> Set<Seq<char>> {
    match action {
        FileActionView::CreateDirAll(_) => dir,
        FileActionView::Remove(n) => dir.remove(n),
        FileActionView::Rename(a, b) => if dir.contains(a) {
            dir.remove(a).insert(b)
        } else {
            dir
        },
    }
}

/// The files of a directory after the `actions`, in their order.
pub open spec fn apply_actions(dir: Set<Seq<char>>, actions: Seq<FileActionView>) -> Set<
    Seq<char>,
>
    decreases actions.len(),
{
    if actions.len() == 0 {
        dir
    } else {
        apply_action(apply_actions(dir, actions.drop_last()), actions.last())
    }
}

} // verus!
