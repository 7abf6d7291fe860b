//! The command data model: a declared command is either a free-text line for
//! the host shell or a direct program invocation, and a batch is one command
//! or a group meant to run concurrently.

use vstd::prelude::*;
use vstd::string::StringExecFns;

verus! {

/// The abstract value of a [`CommandSpec`]: every field as a mathematical value.
pub enum CmdModel {
    Shell { text: Seq<char> },
    Direct {
        program: Seq<char>,
        working_directory: Option<Seq<char>>,
        args: Seq<Seq<char>>,
        spawn_only: bool,
    },
}

/// The abstract value of a [`Batch`].
pub enum BatchModel {
    Single { cmd: CmdModel },
    Parallel { cmds: Seq<CmdModel> },
}

/// One declared command.
///
/// A `ShellLine` is handed verbatim to the host's command interpreter, which
/// resolves words, quoting and the working directory itself. A
/// `DirectExecution` starts `program` directly with `args` as literal argv
/// entries, never through a shell; `working_directory` of `None` means the
/// caller's current directory, and `spawn_only` means the process is started
/// but never awaited and its output never captured.
#[derive(Debug, Clone, PartialEq, Eq)]
pub enum CommandSpec {
    ShellLine(String),
    DirectExecution {
        program: String,
        working_directory: Option<String>,
        args: Vec<String>,
        spawn_only: bool,
    },
}

/// One unit of the run: a single command, or a group run concurrently.
#[derive(Debug, Clone, PartialEq, Eq)]
pub enum Batch {
    Single(CommandSpec),
    Parallel(Vec<CommandSpec>),
}

/// The views of a sequence of strings.
pub open spec fn strs_view(s: Seq<String>) -> Seq<Seq<char>> {
    s.map_values(|a: String| a@)
}

impl View for CommandSpec {
    type V = CmdModel;

    open spec fn view(&self) -> CmdModel {
        match self {
            CommandSpec::ShellLine(text) => CmdModel::Shell { text: text@ },
            CommandSpec::DirectExecution { program, working_directory, args, spawn_only } => {
                CmdModel::Direct {
                    program: program@,
                    working_directory: match working_directory {
                        Some(d) => Some(d@),
                        None => None,
                    },
                    args: strs_view(args@),
                    spawn_only: *spawn_only,
                }
            },
        }
    }
}

impl View for Batch {
    type V = BatchModel;

    open spec fn view(&self) -> BatchModel {
        match self {
            Batch::Single(cmd) => BatchModel::Single { cmd: cmd@ },
            Batch::Parallel(cmds) => BatchModel::Parallel {
                cmds: cmds@.map_values(|c: CommandSpec| c@),
            },
        }
    }
}

/// The views of a sequence of commands.
pub open spec fn cmds_view(s: Seq<CommandSpec>) -> Seq<CmdModel> {
    s.map_values(|c: CommandSpec| c@)
}

/// The views of a sequence of batches.
pub open spec fn batches_view(s: Seq<Batch>) -> Seq<BatchModel> {
    s.map_values(|b: Batch| b@)
}

/// `parts` joined with a comma and a space between neighbours.
pub open spec fn join_comma(parts: Seq<Seq<char>>) -> Seq<char>
    decreases parts.len(),
{
    if parts.len() == 0 {
        Seq::empty()
    } else if parts.len() == 1 {
        parts[0]
    } else {
        join_comma(parts.drop_last()) + ", "@ + parts.last()
    }
}

/// The directory shown in a label: the declared one, or `.` for the caller's
/// current directory.
pub open spec fn wd_text(wd: Option<Seq<char>>) -> Seq<char> {
    match wd {
        Some(d) => d,
        None => "."@,
    }
}

/// The human-readable label of a command: the shell text verbatim, or
/// `<program> in <dir> with [<args>]`.
pub open spec fn label_model(c: CmdModel) -> Seq<char> {
    match c {
        CmdModel::Shell { text } => text,
        CmdModel::Direct { program, working_directory, args, spawn_only: _ } => program + " in "@
            + wd_text(working_directory) + " with ["@ + join_comma(args) + "]"@,
    }
}

/// Builds the label of `spec`.
pub fn label_of(spec: &CommandSpec) -> (r: String)
    ensures
        r@ == label_model(spec@),
{
    match spec {
        CommandSpec::ShellLine(text) => text.clone(),
        CommandSpec::DirectExecution { program, working_directory, args, spawn_only: _ } => {
            let mut s = program.clone();
            s.append(" in ");
            match working_directory {
                Some(d) => s.append(d.as_str()),
                None => s.append("."),
            }
            s.append(" with [");
            let ghost pre: Seq<char> = s@;
            let mut i: usize = 0;
            while i < args.len()
                invariant
                    i <= args.len(),
                    s@ == pre + join_comma(strs_view(args@).take(i as int)),
                decreases args.len() - i,
            {
                if i > 0 {
                    s.append(", ");
                }
                s.append(args[i].as_str());
                proof {
                    let t = strs_view(args@);
                    assert(t.take(i + 1).drop_last() =~= t.take(i as int));
                    assert(t.take(i + 1).last() == t[i as int]);
                    if i == 0 {
                        assert(join_comma(t.take(1)) == t[0]);
                    }
                }
                i += 1;
            }
            proof {
                assert(strs_view(args@).take(args@.len() as int) =~= strs_view(args@));
            }
            s.append("]");
            s
        },
    }
}

} // verus!
