//! Dispatch planning: which program a command starts, with which arguments and
//! working directory, and whether the caller waits for it.

use vstd::prelude::*;
use vstd::string::StringExecFns;
use crate::command::{CmdModel, CommandSpec, strs_view};

verus! {

/// The abstract value of an [`Invocation`].
pub struct InvocationModel {
    pub program: Seq<char>,
    pub args: Seq<Seq<char>>,
    pub working_directory: Option<Seq<char>>,
    pub should_wait: bool,
}

/// A planned process start: `program` is executed with `args` as literal argv
/// entries, in `working_directory` (the caller's current directory when
/// `None`). When `should_wait` is true the caller awaits the process and
/// captures its standard output; otherwise the process is only started.
#[derive(Debug, Clone, PartialEq, Eq)]
pub struct Invocation {
    pub program: String,
    pub args: Vec<String>,
    pub working_directory: Option<String>,
    pub should_wait: bool,
}

impl View for Invocation {
    type V = InvocationModel;

    open spec fn view(&self) -> InvocationModel {
        InvocationModel {
            program: self.program@,
            args: strs_view(self.args@),
            working_directory: match &self.working_directory {
                Some(d) => Some(d@),
                None => None,
            },
            should_wait: self.should_wait,
        }
    }
}

/// The host's command interpreter and its "run this line" flag:
/// `cmd /C` on Windows, `sh -c` elsewhere.
pub open spec fn interpreter_model(windows: bool) -> (Seq<char>, Seq<char>) {
    if windows {
        ("cmd"@, "/C"@)
    } else {
        ("sh"@, "-c"@)
    }
}

/// The invocation planned for a command.
///
/// A shell line becomes `<interpreter> <flag> <text>` and is always awaited.
/// A direct execution starts its program with its declared arguments and
/// working directory, and is awaited exactly when it is not spawn-only.
pub open spec fn plan_model(c: CmdModel, windows: bool) -> InvocationModel {
    match c {
        CmdModel::Shell { text } => InvocationModel {
            program: interpreter_model(windows).0,
            args: seq![interpreter_model(windows).1, text],
            working_directory: None,
            should_wait: true,
        },
        CmdModel::Direct { program, working_directory, args, spawn_only } => InvocationModel {
            program,
            args,
            working_directory,
            should_wait: !spawn_only,
        },
    }
}

/// Returns the host interpreter and its flag for `windows`.
pub fn interpreter_for(windows: bool) -> (r: (String, String))
    ensures
        r.0@ == interpreter_model(windows).0,
        r.1@ == interpreter_model(windows).1,
{
    if windows {
        (String::from_str("cmd"), String::from_str("/C"))
    } else {
        (String::from_str("sh"), String::from_str("-c"))
    }
}

/// Plans the process start for `spec` on the given platform.
pub fn dispatch_plan(spec: &CommandSpec, windows: bool) -> (inv: Invocation)
    ensures
        inv@ == plan_model(spec@, windows),
{
    match spec {
        CommandSpec::ShellLine(text) => {
            let (program, flag) = interpreter_for(windows);
            let mut args: Vec<String> = Vec::new();
            args.push(flag);
            args.push(text.clone());
            let inv = Invocation { program, args, working_directory: None, should_wait: true };
            proof {
                assert(inv@.args =~= plan_model(spec@, windows).args);
            }
            inv
        },
        CommandSpec::DirectExecution { program, working_directory, args, spawn_only } => {
            let inv = Invocation {
                program: program.clone(),
                args: args.clone(),
                working_directory: match working_directory {
                    Some(d) => Some(d.clone()),
                    None => None,
                },
                should_wait: !*spawn_only,
            };
            proof {
                assert(inv@.args =~= plan_model(spec@, windows).args);
            }
            inv
        },
    }
}

} // verus!
