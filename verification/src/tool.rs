//! The closed set of supported profilers.

use vstd::prelude::*;
use vstd::string::*;

use crate::text::str_eq;

verus! {

/// A supported Valgrind tool.
///
/// Callgrind is the primary, cost-producing tool; the others are secondary diagnostic tools.
#[derive(Debug, Clone, Copy, PartialEq, Eq, Structural)]
pub enum ValgrindTool {
    Callgrind,
    Memcheck,
    Helgrind,
    DRD,
    Massif,
    DHAT,
    BBV,
}

impl ValgrindTool {
    /// The id of the tool, as `valgrind --tool` takes it and as every file name starts with it.
    pub open spec fn spec_id(self) -> Seq<char> {
        match self {
            ValgrindTool::DHAT => seq!['d', 'h', 'a', 't'],
            ValgrindTool::Callgrind => seq!['c', 'a', 'l', 'l', 'g', 'r', 'i', 'n', 'd'],
            ValgrindTool::Memcheck => seq!['m', 'e', 'm', 'c', 'h', 'e', 'c', 'k'],
            ValgrindTool::Helgrind => seq!['h', 'e', 'l', 'g', 'r', 'i', 'n', 'd'],
            ValgrindTool::DRD => seq!['d', 'r', 'd'],
            ValgrindTool::Massif => seq!['m', 'a', 's', 's', 'i', 'f'],
            ValgrindTool::BBV => seq!['e', 'x', 'p', '-', 'b', 'b', 'v'],
        }
    }

    /// Whether the tool writes an "out" artifact in addition to its log.
    pub open spec fn spec_has_output_file(self) -> bool {
        self is Callgrind || self is DHAT || self is BBV || self is Massif
    }

    /// Whether this is the primary, cost-producing tool.
    pub open spec fn spec_is_primary(self) -> bool {
        self is Callgrind
    }

    fn id_str(&self) -> (r: &'static str)
        ensures
            r@ == self.spec_id(),
    {
        proof {
            reveal_strlit("dhat");
            reveal_strlit("callgrind");
            reveal_strlit("memcheck");
            reveal_strlit("helgrind");
            reveal_strlit("drd");
            reveal_strlit("massif");
            reveal_strlit("exp-bbv");
        }
        let r = match self {
            ValgrindTool::DHAT => "dhat",
            ValgrindTool::Callgrind => "callgrind",
            ValgrindTool::Memcheck => "memcheck",
            ValgrindTool::Helgrind => "helgrind",
            ValgrindTool::DRD => "drd",
            ValgrindTool::Massif => "massif",
            ValgrindTool::BBV => "exp-bbv",
        };
        assert(r@ =~= self.spec_id());
        r
    }

    /// The id used by the `valgrind --tool` option.
    pub fn id(&self) -> (r: String)
        ensures
            r@ == self.spec_id(),
    {
        String::from_str(self.id_str())
    }

    /// Whether the tool writes an "out" artifact in addition to its log.
    pub fn has_output_file(&self) -> (r: bool)
        ensures
            r == self.spec_has_output_file(),
    {
        matches!(
            self,
            ValgrindTool::Callgrind | ValgrindTool::DHAT | ValgrindTool::BBV | ValgrindTool::Massif
        )
    }

    /// Whether this is the primary, cost-producing tool.
    pub fn is_primary(&self) -> (r: bool)
        ensures
            r == self.spec_is_primary(),
    {
        matches!(self, ValgrindTool::Callgrind)
    }

    /// The tool with the given id, if there is one.
    pub fn from_id(value: &str) -> (r: Option<ValgrindTool>)
        ensures
            match r {
                Some(tool) => tool.spec_id() == value@,
                None => forall|tool: ValgrindTool| tool.spec_id() != value@,
            },
    {
        if str_eq(value, ValgrindTool::DHAT.id_str()) {
            Some(ValgrindTool::DHAT)
        } else if str_eq(value, ValgrindTool::Callgrind.id_str()) {
            Some(ValgrindTool::Callgrind)
        } else if str_eq(value, ValgrindTool::Memcheck.id_str()) {
            Some(ValgrindTool::Memcheck)
        } else if str_eq(value, ValgrindTool::Helgrind.id_str()) {
            Some(ValgrindTool::Helgrind)
        } else if str_eq(value, ValgrindTool::DRD.id_str()) {
            Some(ValgrindTool::DRD)
        } else if str_eq(value, ValgrindTool::Massif.id_str()) {
            Some(ValgrindTool::Massif)
        } else if str_eq(value, ValgrindTool::BBV.id_str()) {
            Some(ValgrindTool::BBV)
        } else {
            None
        }
    }
}

/// No tool id holds a dot, so the id is the part of a file name before its first dot.
pub proof fn lemma_id_has_no_dot(tool: ValgrindTool)
    ensures
        forall|i: int| 0 <= i < tool.spec_id().len() ==> tool.spec_id()[i] != '.',
{
}

/// Two tools with the same id are the same tool.
pub proof fn lemma_id_injective(a: ValgrindTool, b: ValgrindTool)
    requires
        a.spec_id() == b.spec_id(),
    ensures
        a == b,
{
    if a != b {
        assert(a.spec_id().len() != b.spec_id().len() || a.spec_id()[0] != b.spec_id()[0]);
    }
}

} // verus!
