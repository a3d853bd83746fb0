//! The parsed form of a command line: a tagged command (empty, built-in or
//! external) together with optional stdout and stderr redirection targets.

use vstd::prelude::*;
use crate::strutil::views;

verus! {

/// The five built-in commands.
#[derive(Clone, Copy, Debug, PartialEq, Eq, Structural)]
pub enum BuiltinName {
    Exit,
    Echo,
    Type,
    Pwd,
    Cd,
}

/// Truncate replaces the target file's contents; append adds to them.
#[derive(Clone, Copy, Debug, PartialEq, Eq, Structural)]
pub enum RedirMode {
    Truncate,
    Append,
}

/// A redirection target: the file to bind the stream to, and how to open it.
#[derive(Clone, Debug, PartialEq, Eq)]
pub struct Redirect {
    pub path: String,
    pub mode: RedirMode,
}

/// The mathematical value of a `Redirect`.
pub struct RedirectV {
    pub path: Seq<char>,
    pub mode: RedirMode,
}

impl View for Redirect {
    type V = RedirectV;

    open spec fn view(&self) -> RedirectV {
        RedirectV { path: self.path@, mode: self.mode }
    }
}

/// What the positional tokens of a line name: nothing, a built-in with its
/// arguments, or an external program with its arguments.
#[derive(Clone, Debug, PartialEq, Eq)]
pub enum Command {
    Empty,
    Builtin(BuiltinName, Vec<String>),
    External(String, Vec<String>),
}

/// The mathematical value of a `Command`.
pub enum CommandV {
    Empty,
    Builtin(BuiltinName, Seq<Seq<char>>),
    External(Seq<char>, Seq<Seq<char>>),
}

impl View for Command {
    type V = CommandV;

    open spec fn view(&self) -> CommandV {
        match self {
            Command::Empty => CommandV::Empty,
            Command::Builtin(b, args) => CommandV::Builtin(*b, views(args@)),
            Command::External(name, args) => CommandV::External(name@, views(args@)),
        }
    }
}

/// A whole parsed line.  Later redirections of the same stream overwrite
/// earlier ones; both streams may be redirected at once.
#[derive(Clone, Debug, PartialEq, Eq)]
pub struct ParsedCommand {
    pub command: Command,
    pub stdout: Option<Redirect>,
    pub stderr: Option<Redirect>,
}

/// The mathematical value of a `ParsedCommand`.
pub struct ParsedCommandV {
    pub command: CommandV,
    pub stdout: Option<RedirectV>,
    pub stderr: Option<RedirectV>,
}

pub open spec fn redirect_view(r: Option<Redirect>) -> Option<RedirectV> {
    match r {
        Some(rd) => Some(rd@),
        None => None,
    }
}

impl View for ParsedCommand {
    type V = ParsedCommandV;

    open spec fn view(&self) -> ParsedCommandV {
        ParsedCommandV {
            command: self.command@,
            stdout: redirect_view(self.stdout),
            stderr: redirect_view(self.stderr),
        }
    }
}

} // verus!
