//! Recovery of preprocessing-relevant flags from a compilation
//! database: find the record for the exact target file, take its
//! argument list (splitting the command string if none is given), and
//! keep only the options the preprocessor needs, each with the separate
//! value token that may follow it.
use vstd::prelude::*;

use crate::errors::{Error, ErrorSpec};
use crate::text::{is_prefix, path_views, str_eq, str_has_prefix};

verus! {

/// One record of a compilation database: how one file is compiled.
#[derive(Clone, Debug)]
pub struct CompileCommand {
    pub directory: String,
    pub command: Option<String>,
    pub arguments: Option<Vec<String>>,
    pub file: String,
    pub output: String,
}

/// The mathematical image of a record.
pub ghost struct CommandSpec {
    pub directory: Seq<char>,
    pub command: Option<Seq<char>>,
    pub arguments: Option<Seq<Seq<char>>>,
    pub file: Seq<char>,
    pub output: Seq<char>,
}

impl View for CompileCommand {
    type V = CommandSpec;

    open spec fn view(&self) -> CommandSpec {
        CommandSpec {
            directory: self.directory@,
            command: match self.command {
                None => None,
                Some(c) => Some(c@),
            },
            arguments: match self.arguments {
                None => None,
                Some(a) => Some(path_views(a@)),
            },
            file: self.file@,
            output: self.output@,
        }
    }
}

/// The view of a record list.
pub open spec fn command_views(cmds: Seq<CompileCommand>) -> Seq<CommandSpec> {
    cmds.map(|i: int, c: CompileCommand| c@)
}

/// The option prefixes that matter to preprocessing.
pub open spec fn preprocessing_arg_keys() -> Seq<Seq<char>> {
    seq!["-I"@, "-D"@, "-U"@, "-iquote"@, "-isystem"@, "-std="@]
}

/// Whether some kept option stands at the front of `arg`.
pub open spec fn has_key_prefix(arg: Seq<char>) -> bool {
    exists|k: int|
        0 <= k < preprocessing_arg_keys().len() && is_prefix(preprocessing_arg_keys()[k], arg)
}

/// Whether `arg` is exactly a kept option, so that its value is the
/// following separate token.
pub open spec fn is_exact_key(arg: Seq<char>) -> bool {
    preprocessing_arg_keys().contains(arg)
}

/// The arguments that survive: every one a kept option stands in front
/// of, and the token following an argument that is exactly a kept
/// option.
pub open spec fn filter_args(args: Seq<Seq<char>>, take_next: bool) -> Seq<Seq<char>>
    decreases args.len(),
{
    if args.len() == 0 {
        Seq::empty()
    } else {
        let a = args[0];
        let rest = args.drop_first();
        if take_next {
            seq![a] + filter_args(rest, false)
        } else if !has_key_prefix(a) {
            filter_args(rest, false)
        } else {
            seq![a] + filter_args(rest, is_exact_key(a))
        }
    }
}

/// The first record whose file is exactly `file`.
pub open spec fn find_command(cmds: Seq<CommandSpec>, file: Seq<char>) -> Option<CommandSpec>
    decreases cmds.len(),
{
    if cmds.len() == 0 {
        None
    } else if cmds[0].file == file {
        Some(cmds[0])
    } else {
        find_command(cmds.drop_first(), file)
    }
}

/// What shlex's word splitting returns for a command string. The
/// result depends on the characters alone.
pub uninterp spec fn shell_split_of(s: Seq<char>) -> Option<Seq<Seq<char>>>;

/// Relies on `shlex::split`: splits a shell command string into words,
/// `None` when the input is erroneous (an unclosed quote).
#[verifier::external_body]
fn shell_split(s: &str) -> (r: Option<Vec<String>>)
    ensures
        match r {
            None => shell_split_of(s@) is None,
            Some(v) => shell_split_of(s@) == Some(path_views(v@)),
        },
{
    shlex::split(s)
}

/// The flags recovered for `file`: none when no record matches; the
/// record's filtered arguments otherwise. A matching record lacking
/// both a command string and an argument list, or one whose command
/// string cannot be split, is fatal.
pub open spec fn cmake_options_spec(cmds: Seq<CommandSpec>, file: Seq<char>) -> Result<
    Seq<Seq<char>>,
    ErrorSpec,
> {
    match find_command(cmds, file) {
        None => Ok(Seq::empty()),
        Some(cmd) => match cmd.arguments {
            Some(args) => Ok(filter_args(args, false)),
            None => match cmd.command {
                None => Err(ErrorSpec::MissingCommandEntry),
                Some(c) => match shell_split_of(c) {
                    None => Err(ErrorSpec::CommandParseFailed { command: c }),
                    Some(args) => Ok(filter_args(args, false)),
                },
            },
        },
    }
}

/// Classifies `arg` against the kept options: whether one stands in
/// front of it, and whether it is exactly one.
fn key_prefix_info(arg: &str) -> (r: (bool, bool))
    ensures
        r.0 == has_key_prefix(arg@),
        r.1 == is_exact_key(arg@),
{
    let p0 = str_has_prefix(arg, "-I");
    let p1 = str_has_prefix(arg, "-D");
    let p2 = str_has_prefix(arg, "-U");
    let p3 = str_has_prefix(arg, "-iquote");
    let p4 = str_has_prefix(arg, "-isystem");
    let p5 = str_has_prefix(arg, "-std=");
    let has = p0 || p1 || p2 || p3 || p4 || p5;
    let e0 = str_eq(arg, "-I");
    let e1 = str_eq(arg, "-D");
    let e2 = str_eq(arg, "-U");
    let e3 = str_eq(arg, "-iquote");
    let e4 = str_eq(arg, "-isystem");
    let e5 = str_eq(arg, "-std=");
    let exact = e0 || e1 || e2 || e3 || e4 || e5;
    proof {
        let keys = preprocessing_arg_keys();
        assert(keys.len() == 6);
        assert(keys[0] == "-I"@);
        assert(keys[1] == "-D"@);
        assert(keys[2] == "-U"@);
        assert(keys[3] == "-iquote"@);
        assert(keys[4] == "-isystem"@);
        assert(keys[5] == "-std="@);
        if has {
            assert(has_key_prefix(arg@)) by {
                if p0 {
                    assert(is_prefix(keys[0], arg@));
                } else if p1 {
                    assert(is_prefix(keys[1], arg@));
                } else if p2 {
                    assert(is_prefix(keys[2], arg@));
                } else if p3 {
                    assert(is_prefix(keys[3], arg@));
                } else if p4 {
                    assert(is_prefix(keys[4], arg@));
                } else {
                    assert(is_prefix(keys[5], arg@));
                }
            }
        }
        if has_key_prefix(arg@) {
            let k = choose|k: int| 0 <= k < keys.len() && is_prefix(keys[k], arg@);
            assert(has);
        }
        if exact {
            assert(is_exact_key(arg@)) by {
                if e0 {
                    assert(keys[0] == arg@);
                } else if e1 {
                    assert(keys[1] == arg@);
                } else if e2 {
                    assert(keys[2] == arg@);
                } else if e3 {
                    assert(keys[3] == arg@);
                } else if e4 {
                    assert(keys[4] == arg@);
                } else {
                    assert(keys[5] == arg@);
                }
            }
        }
        if is_exact_key(arg@) {
            let k = choose|k: int| 0 <= k < keys.len() && keys[k] == arg@;
            assert(exact);
        }
    }
    (has, exact)
}

/// Keeps the preprocessing-relevant arguments, matching
/// [`filter_args`].
fn filter_preprocessing_args(args: &Vec<String>) -> (r: Vec<String>)
    ensures
        path_views(r@) == filter_args(path_views(args@), false),
{
    let ghost avs = path_views(args@);
    let mut out: Vec<String> = Vec::new();
    let mut take_next = false;
    let mut i: usize = 0;
    let n = args.len();
    proof {
        assert(avs.subrange(0, n as int) =~= avs);
        assert(path_views(out@) + filter_args(avs, false) =~= filter_args(avs, false));
    }
    while i < n
        invariant
            i <= n,
            n == args@.len(),
            avs == path_views(args@),
            filter_args(avs, false) == path_views(out@) + filter_args(
                avs.subrange(i as int, n as int),
                take_next,
            ),
        decreases n - i,
    {
        let arg = &args[i];
        let ghost tail = avs.subrange(i as int, n as int);
        let ghost out_before = path_views(out@);
        proof {
            assert(tail[0] == avs[i as int]);
            assert(avs[i as int] == arg@);
            assert(tail.drop_first() =~= avs.subrange(i as int + 1, n as int));
        }
        if take_next {
            out.push(arg.clone());
            take_next = false;
            proof {
                assert(path_views(out@) =~= out_before + seq![arg@]);
                assert((out_before + seq![arg@]) + filter_args(tail.drop_first(), false)
                    =~= out_before + (seq![arg@] + filter_args(tail.drop_first(), false)));
            }
        } else {
            let info = key_prefix_info(arg.as_str());
            if info.0 {
                out.push(arg.clone());
                take_next = info.1;
                proof {
                    assert(path_views(out@) =~= out_before + seq![arg@]);
                    assert((out_before + seq![arg@]) + filter_args(tail.drop_first(), take_next)
                        =~= out_before + (seq![arg@] + filter_args(tail.drop_first(), take_next)));
                }
            }
        }
        i = i + 1;
    }
    proof {
        assert(filter_args(avs.subrange(n as int, n as int), take_next) =~= Seq::<
            Seq<char>,
        >::empty());
        assert(path_views(out@) + Seq::<Seq<char>>::empty() =~= path_views(out@));
    }
    out
}

/// Position of the first record for exactly `file`.
fn find_command_index(commands: &Vec<CompileCommand>, file: &str) -> (r: Option<usize>)
    ensures
        match r {
            Some(i) => i < commands@.len() && find_command(command_views(commands@), file@)
                == Some(command_views(commands@)[i as int]),
            None => find_command(command_views(commands@), file@) is None,
        },
{
    let ghost cvs = command_views(commands@);
    let n = commands.len();
    let mut i: usize = 0;
    proof {
        assert(cvs.subrange(0, n as int) =~= cvs);
    }
    while i < n
        invariant
            i <= n,
            n == commands@.len(),
            cvs == command_views(commands@),
            find_command(cvs, file@) == find_command(cvs.subrange(i as int, n as int), file@),
        decreases n - i,
    {
        let ghost tail = cvs.subrange(i as int, n as int);
        proof {
            assert(tail[0] == cvs[i as int]);
            assert(cvs[i as int] == commands@[i as int]@);
            assert(tail.drop_first() =~= cvs.subrange(i as int + 1, n as int));
        }
        if str_eq(commands[i].file.as_str(), file) {
            return Some(i);
        }
        i = i + 1;
    }
    proof {
        assert(cvs.subrange(n as int, n as int) =~= Seq::<CommandSpec>::empty());
    }
    None
}

/// Recovers the preprocessing-relevant flags for `file` from the parsed
/// records of a compilation database. No matching record yields an
/// empty flag set, not an error.
pub fn cmake_options(commands: Vec<CompileCommand>, file: &str) -> (r: Result<Vec<String>, Error>)
    ensures
        match r {
            Ok(v) => cmake_options_spec(command_views(commands@), file@) == Ok::<
                Seq<Seq<char>>,
                ErrorSpec,
            >(path_views(v@)),
            Err(e) => cmake_options_spec(command_views(commands@), file@) == Err::<
                Seq<Seq<char>>,
                ErrorSpec,
            >(e@),
        },
{
    let idx = match find_command_index(&commands, file) {
        None => {
            let out: Vec<String> = Vec::new();
            proof {
                assert(path_views(out@) =~= Seq::<Seq<char>>::empty());
            }
            return Ok(out);
        },
        Some(i) => i,
    };
    let cmd = &commands[idx];
    proof {
        assert(command_views(commands@)[idx as int] == cmd@);
    }
    match &cmd.arguments {
        Some(args) => Ok(filter_preprocessing_args(args)),
        None => match &cmd.command {
            None => Err(Error::MissingCommandEntry),
            Some(c) => match shell_split(c.as_str()) {
                None => Err(Error::CommandParseFailed { command: c.clone() }),
                Some(words) => Ok(filter_preprocessing_args(&words)),
            },
        },
    }
}

} // verus!
