//! From a parsed command to the one action the surrounding loop must
//! perform: terminate, print a line, change directory, or spawn a program.
//! The loop supplies the environment's answers (home directory, working
//! directory, how the command name resolved on PATH) as plain values and
//! carries out the returned step.

use vstd::prelude::*;
use crate::ast::{BuiltinName, Command, CommandV};
use crate::builtins::{
    cd_target,
    echo_output,
    exit_status,
    not_found_message,
    type_output,
    type_output_spec,
    valid_exit_code,
    dec_val,
};
use crate::resolver::has_slash;
use crate::strutil::{views, clone_strings, join_sep, join_with};
use vstd::string::*;

verus! {

/// A line a built-in produced, bound for one of the two streams.
#[derive(Debug, PartialEq, Eq)]
pub enum CommandOutput {
    StdOut(String),
    StdErr(String),
    Noop,
}

/// Where one produced line must actually be written, honouring the
/// redirections of the current command.
#[derive(Clone, Copy, Debug, PartialEq, Eq, Structural)]
pub enum WriteTarget {
    Stdout,
    Stderr,
    StdoutFile,
    StderrFile,
}

/// Route one logical output line: a redirected stream goes to its file,
/// an unredirected one to the shell's own stream.
pub fn route_output(output: &CommandOutput, stdout_redirected: bool, stderr_redirected: bool) -> (r:
    Option<(WriteTarget, String)>)
    ensures
        output matches CommandOutput::StdOut(s) ==> (r matches Some((t, line)) && line@ == s@ && t
            == (if stdout_redirected {
            WriteTarget::StdoutFile
        } else {
            WriteTarget::Stdout
        })),
        output matches CommandOutput::StdErr(s) ==> (r matches Some((t, line)) && line@ == s@ && t
            == (if stderr_redirected {
            WriteTarget::StderrFile
        } else {
            WriteTarget::Stderr
        })),
        output is Noop ==> r is None,
{
    match output {
        CommandOutput::StdOut(s) => {
            if stdout_redirected {
                Some((WriteTarget::StdoutFile, s.clone()))
            } else {
                Some((WriteTarget::Stdout, s.clone()))
            }
        },
        CommandOutput::StdErr(s) => {
            if stderr_redirected {
                Some((WriteTarget::StderrFile, s.clone()))
            } else {
                Some((WriteTarget::Stderr, s.clone()))
            }
        },
        CommandOutput::Noop => None,
    }
}

/// The single action a parsed command asks of the loop.
#[derive(Debug, PartialEq, Eq)]
pub enum Step {
    /// Nothing to do (an empty line).
    Done,
    /// Leave the loop and exit the process with this status.
    Terminate(i32),
    /// Write this line as the command's stdout.
    Out(String),
    /// Write this line as the command's stderr.
    ErrLine(String),
    /// Change the working directory to this path.
    Chdir(String),
    /// Spawn `program` with `argv0` as its zeroth argument.
    Spawn { program: String, argv0: String, args: Vec<String> },
}

/// The name the loop must look up on PATH before it can act on the
/// command: the target of `type`, or an external program's name.
pub fn resolution_target(cmd: &Command) -> (r: Option<String>)
    ensures
        cmd@ matches CommandV::Builtin(b, args) ==> (if b == BuiltinName::Type {
            r matches Some(s) && s@ == join_sep(args, " "@)
        } else {
            r is None
        }),
        cmd@ matches CommandV::External(name, a) ==> (r matches Some(s) && s@ == name),
        cmd@ is Empty ==> r is None,
{
    match cmd {
        Command::Builtin(BuiltinName::Type, args) => Some(join_with(args, " ")),
        Command::External(name, _) => Some(name.clone()),
        _ => None,
    }
}

/// Decide what one parsed command does.  `home` and `cwd` are the
/// environment's answers; `resolved` is the first executable PATH offered
/// for the name `resolution_target` gave, if any.
pub fn step_of(cmd: &Command, home: Option<&String>, cwd: &str, resolved: Option<&String>) -> (r:
    Step)
    ensures
        cmd@ is Empty ==> r is Done,
        cmd@ matches CommandV::Builtin(BuiltinName::Echo, args) ==> (r matches Step::Out(s) && s@
            == join_sep(args, " "@)),
        cmd@ matches CommandV::Builtin(BuiltinName::Pwd, args) ==> (r matches Step::Out(s) && s@
            == cwd@),
        cmd@ matches CommandV::Builtin(BuiltinName::Type, args) ==> (r matches Step::Out(s) && s@
            == type_output_spec(
            join_sep(args, " "@),
            match resolved {
                Some(p) => Some(p@),
                None => None,
            },
        )),
        cmd@ matches CommandV::Builtin(BuiltinName::Exit, args) ==> ({
            let code = join_sep(args, " "@);
            &&& code.len() == 0 ==> r == Step::Terminate(0)
            &&& valid_exit_code(code) ==> (r matches Step::Terminate(c) && c == dec_val(code))
            &&& (code.len() > 0 && !valid_exit_code(code)) ==> (r matches Step::ErrLine(m) && m@
                == "Unknown exit code "@ + code)
        }),
        cmd@ matches CommandV::Builtin(BuiltinName::Cd, args) ==> ({
            let dir = join_sep(args, " "@);
            if dir == "~"@ {
                match home {
                    Some(h) => r matches Step::Chdir(p) && p@ == h@,
                    None => r matches Step::ErrLine(m) && m@
                        == "cd: HOME environment variable not set"@,
                }
            } else {
                r matches Step::Chdir(p) && p@ == dir
            }
        }),
        cmd@ matches CommandV::External(name, args) ==> (if name.contains('/') {
            r matches Step::Spawn { program, argv0, args: a } && program@ == name && argv0@ == name
                && views(a@) == args
        } else {
            match resolved {
                Some(p) => r matches Step::Spawn { program, argv0, args: a } && program@ == p@
                    && argv0@ == name && views(a@) == args,
                None => r matches Step::ErrLine(m) && m@ == name + ": command not found"@,
            }
        }),
{
    match cmd {
        Command::Empty => Step::Done,
        Command::Builtin(BuiltinName::Echo, args) => Step::Out(echo_output(args)),
        Command::Builtin(BuiltinName::Pwd, _) => Step::Out(String::from_str(cwd)),
        Command::Builtin(BuiltinName::Type, args) => {
            let target = join_with(args, " ");
            Step::Out(type_output(target.as_str(), resolved))
        },
        Command::Builtin(BuiltinName::Exit, args) => match exit_status(args) {
            Ok(c) => Step::Terminate(c),
            Err(m) => Step::ErrLine(m),
        },
        Command::Builtin(BuiltinName::Cd, args) => {
            let dir = join_with(args, " ");
            match cd_target(dir.as_str(), home) {
                Ok(p) => Step::Chdir(p),
                Err(m) => Step::ErrLine(m),
            }
        },
        Command::External(name, args) => {
            if has_slash(name.as_str()) {
                Step::Spawn { program: name.clone(), argv0: name.clone(), args: clone_strings(args) }
            } else {
                match resolved {
                    Some(p) => Step::Spawn {
                        program: p.clone(),
                        argv0: name.clone(),
                        args: clone_strings(args),
                    },
                    None => Step::ErrLine(not_found_message(name.as_str())),
                }
            }
        },
    }
}

} // verus!
