//! The arguments that a tool is started with.

use vstd::prelude::*;
use vstd::string::*;

use crate::text::{
    chars_match_at, chars_of, clone_strings, find_char, first_index, is_prefix, str_eq, views,
};
use crate::tool::ValgrindTool;
use crate::tool_path::{ToolOutputPath, ToolOutputPathView};

verus! {

/// The arguments of a tool: those that the engine manages itself, and the others as they were
/// given.
#[derive(Debug, PartialEq, Eq)]
pub struct ToolArgs {
    pub tool: ValgrindTool,
    /// The arguments that name the output files.
    pub output_paths: Vec<String>,
    /// The argument that names the log file.
    pub log_path: Option<String>,
    /// The exit code that the tool is to end with where it finds errors.
    pub error_exitcode: String,
    pub verbose: bool,
    pub other: Vec<String>,
}

/// `ToolArgs` over character sequences.
pub struct ToolArgsView {
    pub tool: ValgrindTool,
    pub output_paths: Seq<Seq<char>>,
    pub log_path: Option<Seq<char>>,
    pub error_exitcode: Seq<char>,
    pub verbose: bool,
    pub other: Seq<Seq<char>>,
}

impl View for ToolArgs {
    type V = ToolArgsView;

    open spec fn view(&self) -> ToolArgsView {
        ToolArgsView {
            tool: self.tool,
            output_paths: views(self.output_paths@),
            log_path: match self.log_path {
                Some(p) => Some(p@),
                None => None,
            },
            error_exitcode: self.error_exitcode@,
            verbose: self.verbose,
            other: views(self.other@),
        }
    }
}

/// What stands between the two leading dashes and the first equals sign of an argument, if it
/// has both.
pub open spec fn arg_key(arg: Seq<char>) -> Option<Seq<char>> {
    if is_prefix(seq!['-', '-'], arg) && 0 <= first_index(arg.skip(2), '=') < arg.len() - 2 {
        Some(arg.skip(2).take(first_index(arg.skip(2), '=')))
    } else {
        None
    }
}

/// What stands behind the first equals sign of an argument with a key.
pub open spec fn arg_value(arg: Seq<char>) -> Seq<char> {
    arg.skip(2).skip(first_index(arg.skip(2), '=') + 1)
}

/// `tool`
pub open spec fn key_tool() -> Seq<char> {
    seq!['t', 'o', 'o', 'l']
}

/// `error-exitcode`
pub open spec fn key_error_exitcode() -> Seq<char> {
    seq!['e', 'r', 'r', 'o', 'r', '-', 'e', 'x', 'i', 't', 'c', 'o', 'd', 'e']
}

/// Whether the key is one of those that name a file which the engine names itself:
/// `dhat-out-file`, `massif-out-file`, `bb-out-file`, `pc-out-file`, `log-file`, `xml-file`,
/// `callgrind-out-file`.
pub open spec fn is_file_key(key: Seq<char>) -> bool {
    key == "dhat-out-file"@ || key == "massif-out-file"@ || key == "bb-out-file"@ || key
        == "pc-out-file"@ || key == "log-file"@ || key == "xml-file"@ || key
        == "callgrind-out-file"@
}

/// Whether the argument asks for more output: `-v` or `--verbose`.
pub open spec fn is_verbose_arg(arg: Seq<char>) -> bool {
    arg == seq!['-', 'v'] || arg == seq!['-', '-', 'v', 'e', 'r', 'b', 'o', 's', 'e']
}

/// The exit code on errors that a tool has where none is given: `201` for the tools that look
/// for errors, `0` for the others.
pub open spec fn default_exitcode(tool: ValgrindTool) -> Seq<char> {
    if tool is Memcheck || tool is Helgrind || tool is DRD {
        seq!['2', '0', '1']
    } else {
        seq!['0']
    }
}

/// The arguments after one more raw argument.
pub open spec fn with_raw_arg(args: ToolArgsView, arg: Seq<char>) -> ToolArgsView {
    match arg_key(arg) {
        Some(key) => if key == key_tool() || is_file_key(key) {
            args
        } else if key == key_error_exitcode() {
            ToolArgsView { error_exitcode: arg_value(arg), ..args }
        } else {
            ToolArgsView { other: args.other.push(arg), ..args }
        },
        None => if is_verbose_arg(arg) {
            ToolArgsView { verbose: true, ..args }
        } else {
            ToolArgsView { other: args.other.push(arg), ..args }
        },
    }
}

/// The arguments after the raw arguments, in their order.
pub open spec fn with_raw_args(tool: ValgrindTool, raw: Seq<Seq<char>>) -> ToolArgsView
    decreases raw.len(),
{
    if raw.len() == 0 {
        ToolArgsView {
            tool,
            output_paths: Seq::empty(),
            log_path: None,
            error_exitcode: default_exitcode(tool),
            verbose: false,
            other: Seq::empty(),
        }
    } else {
        with_raw_arg(with_raw_args(tool, raw.drop_last()), raw.last())
    }
}

/// `--tool=`
pub open spec fn lit_tool_arg() -> Seq<char> {
    seq!['-', '-', 't', 'o', 'o', 'l', '=']
}

/// `--error-exitcode=`
pub open spec fn lit_exitcode_arg() -> Seq<char> {
    seq!['-', '-', 'e', 'r', 'r', 'o', 'r', '-', 'e', 'x', 'i', 't', 'c', 'o', 'd', 'e', '=']
}

/// `--verbose`
pub open spec fn lit_verbose_arg() -> Seq<char> {
    seq!['-', '-', 'v', 'e', 'r', 'b', 'o', 's', 'e']
}

/// `--toggle-collect=`
pub open spec fn lit_toggle_arg() -> Seq<char> {
    "--toggle-collect="@
}

/// `--log-file=`
pub open spec fn lit_log_arg() -> Seq<char> {
    seq!['-', '-', 'l', 'o', 'g', '-', 'f', 'i', 'l', 'e', '=']
}

/// The start of the argument that names the output file of a tool that writes one.
pub open spec fn output_arg(tool: ValgrindTool) -> Seq<char> {
    match tool {
        ValgrindTool::Callgrind => "--callgrind-out-file="@,
        ValgrindTool::DHAT => "--dhat-out-file="@,
        ValgrindTool::Massif => "--massif-out-file="@,
        _ => "--bb-out-file="@,
    }
}

/// The modifiers of a file's name: the given one, or none.
pub open spec fn modifiers_of(modifier: Option<Seq<char>>) -> Seq<Seq<char>> {
    match modifier {
        Some(m) => seq![m],
        None => Seq::empty(),
    }
}

impl ToolArgsView {
    /// All arguments in the order in which the tool gets them: the tool, the exit code on
    /// errors, `--verbose` where it is wanted, the other arguments, the output files and the
    /// log file.
    pub open spec fn to_vec(self) -> Seq<Seq<char>> {
        seq![lit_tool_arg() + self.tool.spec_id(), lit_exitcode_arg() + self.error_exitcode] + (
        if self.verbose {
            seq![lit_verbose_arg()]
        } else {
            Seq::empty()
        }) + self.other + self.output_paths + (match self.log_path {
            Some(p) => seq![p],
            None => Seq::empty(),
        })
    }

    /// The arguments with the argument that has the counts collected from `entry` on, in
    /// front of the other arguments.
    pub open spec fn with_toggle_collect(self, entry: Seq<char>) -> ToolArgsView {
        ToolArgsView { other: seq![lit_toggle_arg() + entry] + self.other, ..self }
    }

    /// The arguments with the output file set to the file of `path` with the modifier, where
    /// the tool writes an output file.
    pub open spec fn with_output_arg(
        self,
        path: ToolOutputPathView,
        modifier: Option<Seq<char>>,
    ) -> ToolArgsView {
        if self.tool.spec_has_output_file() {
            ToolArgsView {
                output_paths: seq![
                    output_arg(self.tool) + (ToolOutputPathView {
                        modifiers: modifiers_of(modifier),
                        ..path
                    }).to_path(),
                ],
                ..self
            }
        } else {
            self
        }
    }

    /// The arguments with the log file set to the log of `path` with the modifier.
    pub open spec fn with_log_arg(
        self,
        path: ToolOutputPathView,
        modifier: Option<Seq<char>>,
    ) -> ToolArgsView {
        ToolArgsView {
            log_path: Some(
                lit_log_arg() + (ToolOutputPathView {
                    modifiers: modifiers_of(modifier),
                    ..path.to_log_output()
                }).to_path(),
            ),
            ..self
        }
    }
}

impl Clone for ToolArgs {
    fn clone(&self) -> (r: Self)
        ensures
            r@ == self@,
    {
        ToolArgs {
            tool: self.tool,
            output_paths: clone_strings(&self.output_paths),
            log_path: match &self.log_path {
                Some(p) => Some(p.clone()),
                None => None,
            },
            error_exitcode: self.error_exitcode.clone(),
            verbose: self.verbose,
            other: clone_strings(&self.other),
        }
    }
}

fn is_managed_file_key(key: &str) -> (r: bool)
    ensures
        r == is_file_key(key@),
{
    str_eq(key, "dhat-out-file") || str_eq(key, "massif-out-file") || str_eq(key, "bb-out-file")
        || str_eq(key, "pc-out-file") || str_eq(key, "log-file") || str_eq(key, "xml-file")
        || str_eq(key, "callgrind-out-file")
}

fn output_arg_str(tool: ValgrindTool) -> (r: &'static str)
    ensures
        r@ == output_arg(tool),
{
    proof {
        reveal_strlit("--callgrind-out-file=");
        reveal_strlit("--dhat-out-file=");
        reveal_strlit("--massif-out-file=");
        reveal_strlit("--bb-out-file=");
    }
    let r = match tool {
        ValgrindTool::Callgrind => "--callgrind-out-file=",
        ValgrindTool::DHAT => "--dhat-out-file=",
        ValgrindTool::Massif => "--massif-out-file=",
        _ => "--bb-out-file=",
    };
    assert(r@ =~= output_arg(tool));
    r
}

fn modifiers_from(modifier: Option<&String>) -> (r: Vec<String>)
    ensures
        views(r@) == modifiers_of(
            match modifier {
                Some(m) => Some(m@),
                None => None,
            },
        ),
{
    let mut r: Vec<String> = Vec::new();
    match modifier {
        Some(m) => {
            r.push(m.clone());
            assert(views(r@) =~= seq![m@]);
        },
        None => {
            assert(views(r@) =~= Seq::<Seq<char>>::empty());
        },
    }
    r
}

impl ToolArgs {
    /// The arguments of `tool` from the raw arguments of a description.
    ///
    /// Arguments that name the tool or a file that the engine names itself are dropped;
    /// `--error-exitcode=` sets the exit code on errors; `-v` and `--verbose` ask for more
    /// output; every other argument is kept as it is.
    pub fn from_raw_args(tool: ValgrindTool, raw_args: Vec<String>) -> (r: Self)
        ensures
            r@ == with_raw_args(tool, views(raw_args@)),
    {
        proof {
            reveal_strlit("201");
            reveal_strlit("0");
            reveal_strlit("--");
            reveal_strlit("tool");
            reveal_strlit("error-exitcode");
            reveal_strlit("-v");
            reveal_strlit("--verbose");
            assert("201"@ =~= seq!['2', '0', '1']);
            assert("0"@ =~= seq!['0']);
            assert("--"@ =~= seq!['-', '-']);
            assert("tool"@ =~= key_tool());
            assert("error-exitcode"@ =~= key_error_exitcode());
            assert("-v"@ =~= seq!['-', 'v']);
            assert("--verbose"@ =~= lit_verbose_arg());
        }
        let mut args = ToolArgs {
            tool,
            output_paths: Vec::new(),
            log_path: None,
            error_exitcode: match tool {
                ValgrindTool::Memcheck | ValgrindTool::Helgrind | ValgrindTool::DRD => String::from_str(
                    "201",
                ),
                _ => String::from_str("0"),
            },
            verbose: false,
            other: Vec::new(),
        };
        let ghost raw = views(raw_args@);
        assert(raw.take(0) =~= Seq::<Seq<char>>::empty());
        assert(args@.output_paths =~= Seq::<Seq<char>>::empty());
        assert(args@.other =~= Seq::<Seq<char>>::empty());
        let mut i: usize = 0;
        while i < raw_args.len()
            invariant
                i <= raw_args.len(),
                raw == views(raw_args@),
                "--"@ == seq!['-', '-'],
                "tool"@ == key_tool(),
                "error-exitcode"@ == key_error_exitcode(),
                "-v"@ == seq!['-', 'v'],
                "--verbose"@ == lit_verbose_arg(),
                args@ == with_raw_args(tool, raw.take(i as int)),
            decreases raw_args.len() - i,
        {
            proof {
                assert(raw.take(i + 1).drop_last() == raw.take(i as int));
                assert(raw.take(i + 1).last() == raw_args@[i as int]@);
            }
            let arg = raw_args[i].as_str();
            let chars = chars_of(arg);
            let len = chars.len();
            let dashes = chars_of("--");
            let mut key: Option<(usize, usize)> = None;
            if chars_match_at(&chars, 0, &dashes) {
                let rest = arg.substring_char(2, len);
                assert(rest@ =~= arg@.skip(2));
                let rest_chars = chars_of(rest);
                match find_char(&rest_chars, '=') {
                    Some(at) => {
                        key = Some((at, rest_chars.len()));
                    },
                    None => {},
                }
            }
            let ghost before = args@;
            match key {
                Some((at, rest_len)) => {
                    let rest = arg.substring_char(2, len);
                    assert(rest@ =~= arg@.skip(2));
                    let name = rest.substring_char(0, at);
                    assert(name@ =~= arg@.skip(2).take(at as int));
                    assert(arg_key(arg@) == Some(name@));
                    if str_eq(name, "tool") || is_managed_file_key(name) {
                    } else if str_eq(name, "error-exitcode") {
                        let value = rest.substring_char(at + 1, rest_len);
                        assert(value@ =~= arg_value(arg@));
                        args.error_exitcode = String::from_str(value);
                    } else {
                        args.other.push(raw_args[i].clone());
                        assert(args@.other =~= before.other.push(arg@));
                    }
                },
                None => {
                    assert(arg_key(arg@) is None);
                    if str_eq(arg, "-v") || str_eq(arg, "--verbose") {
                        args.verbose = true;
                    } else {
                        args.other.push(raw_args[i].clone());
                        assert(args@.other =~= before.other.push(arg@));
                    }
                },
            }
            assert(args@ == with_raw_arg(before, arg@));
            i += 1;
        }
        assert(raw.take(raw.len() as int) == raw);
        args
    }

    /// Sets the argument of the output file to the file of `output_path` with the modifier,
    /// where the tool writes an output file.
    pub fn set_output_arg(&mut self, output_path: &ToolOutputPath, modifier: Option<&String>)
        ensures
            final(self)@ == old(self)@.with_output_arg(
                output_path@,
                match modifier {
                    Some(m) => Some(m@),
                    None => None,
                },
            ),
    {
        if !self.tool.has_output_file() {
            return ;
        }
        let path = output_path.with_modifiers(modifiers_from(modifier)).to_path();
        let mut arg = String::from_str(output_arg_str(self.tool));
        arg.append(path.as_str());
        let mut paths: Vec<String> = Vec::new();
        paths.push(arg);
        assert(views(paths@) =~= seq![arg@]);
        self.output_paths = paths;
    }

    /// Sets the argument of the log file to the log of `output_path` with the modifier.
    pub fn set_log_arg(&mut self, output_path: &ToolOutputPath, modifier: Option<&String>)
        ensures
            final(self)@ == old(self)@.with_log_arg(
                output_path@,
                match modifier {
                    Some(m) => Some(m@),
                    None => None,
                },
            ),
    {
        proof {
            reveal_strlit("--log-file=");
            assert("--log-file="@ =~= lit_log_arg());
        }
        let path = output_path.to_log_output().with_modifiers(modifiers_from(modifier)).to_path();
        let mut arg = String::from_str("--log-file=");
        arg.append(path.as_str());
        self.log_path = Some(arg);
    }

    /// Puts the argument that has the counts collected from `entry` on in front of the other
    /// arguments.
    pub fn insert_toggle_collect(&mut self, entry: &str)
        ensures
            final(self)@ == old(self)@.with_toggle_collect(entry@),
    {
        let mut arg = String::from_str("--toggle-collect=");
        arg.append(entry);
        self.other.insert(0, arg);
        assert(views(self.other@) =~= seq![arg@] + views(old(self).other@));
    }

    /// All arguments in the order in which the tool gets them.
    pub fn to_vec(&self) -> (r: Vec<String>)
        ensures
            views(r@) == self@.to_vec(),
    {
        proof {
            reveal_strlit("--tool=");
            reveal_strlit("--error-exitcode=");
            reveal_strlit("--verbose");
            assert("--tool="@ =~= lit_tool_arg());
            assert("--error-exitcode="@ =~= lit_exitcode_arg());
            assert("--verbose"@ =~= lit_verbose_arg());
        }
        let mut r: Vec<String> = Vec::new();
        let mut tool_arg = String::from_str("--tool=");
        tool_arg.append(self.tool.id().as_str());
        let mut code_arg = String::from_str("--error-exitcode=");
        code_arg.append(self.error_exitcode.as_str());
        r.push(tool_arg);
        r.push(code_arg);
        if self.verbose {
            r.push(String::from_str("--verbose"));
        }
        let mut other = clone_strings(&self.other);
        let mut outputs = clone_strings(&self.output_paths);
        r.append(&mut other);
        r.append(&mut outputs);
        match &self.log_path {
            Some(p) => {
                r.push(p.clone());
            },
            None => {},
        }
        assert(views(r@) =~= self@.to_vec());
        r
    }
}

} // verus!
