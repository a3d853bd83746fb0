//! Verified core of a small interactive POSIX-style shell.
//!
//! The library covers the input-to-execution pipeline: a lexer that honours
//! single quotes, double quotes and backslash escapes; a post-pass that
//! isolates redirection operators; a parser that folds the token stream into
//! a structured command with optional stdout/stderr redirections; the pure
//! logic of the built-in commands; PATH-resolution arithmetic; and a
//! tab-completion engine.  All I/O (reading lines, spawning processes,
//! touching the filesystem and the environment) stays outside: callers hand
//! in plain values and perform the actions this library decides on.

pub mod strutil;
pub mod lexer;
pub mod redirect;
pub mod ast;
pub mod parser;
pub mod builtins;
pub mod resolver;
pub mod dispatch;
pub mod completion;

use vstd::prelude::*;

verus! {

/// An input line can be refused for one of two reasons: a quoted run that
/// never closes, or a redirection operator with no path token after it.
#[derive(Clone, Copy, Debug, PartialEq, Eq, Structural)]
pub enum ParseError {
    UnterminatedQuote,
    DanglingRedirect,
}

} // verus!
