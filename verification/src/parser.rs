//! Folding the re-split token stream into a `ParsedCommand`: redirection
//! operators consume the token after them as the target path (the last
//! occurrence per stream wins), every other token is positional, and the
//! first positional token picks the built-in or external dispatch.

use vstd::prelude::*;
use crate::ParseError;
use crate::ast::{
    BuiltinName,
    Command,
    CommandV,
    ParsedCommand,
    ParsedCommandV,
    Redirect,
    RedirectV,
    RedirMode,
    redirect_view,
};
use crate::lexer::{lex_ok, lex_spec};
use crate::redirect::{flat_split, split_all_redirects};
use crate::strutil::{views, str_eq};
use crate::lexer::parse_arguments;

verus! {

/// Which stream and mode a redirection operator token names, if any.
/// The boolean is true for stderr.
pub open spec fn redir_of(t: Seq<char>) -> Option<(bool, RedirMode)> {
    if t == seq!['>'] || t == seq!['1', '>'] {
        Some((false, RedirMode::Truncate))
    } else if t == seq!['>', '>'] || t == seq!['1', '>', '>'] {
        Some((false, RedirMode::Append))
    } else if t == seq!['2', '>'] {
        Some((true, RedirMode::Truncate))
    } else if t == seq!['2', '>', '>'] {
        Some((true, RedirMode::Append))
    } else {
        None
    }
}

/// Which built-in a command name denotes, if any.
pub open spec fn builtin_of(name: Seq<char>) -> Option<BuiltinName> {
    if name == seq!['e', 'x', 'i', 't'] {
        Some(BuiltinName::Exit)
    } else if name == seq!['e', 'c', 'h', 'o'] {
        Some(BuiltinName::Echo)
    } else if name == seq!['t', 'y', 'p', 'e'] {
        Some(BuiltinName::Type)
    } else if name == seq!['p', 'w', 'd'] {
        Some(BuiltinName::Pwd)
    } else if name == seq!['c', 'd'] {
        Some(BuiltinName::Cd)
    } else {
        None
    }
}

/// The scan's accumulator: positional tokens seen so far and the latest
/// redirection per stream.
pub struct ScanV {
    pub args: Seq<Seq<char>>,
    pub stdout: Option<RedirectV>,
    pub stderr: Option<RedirectV>,
}

pub open spec fn scan_init() -> ScanV {
    ScanV { args: Seq::empty(), stdout: None, stderr: None }
}

/// One left-to-right scan over the tokens.  An operator with no token after
/// it is a dangling redirection, and the whole line is refused (`None`).
pub open spec fn scan_toks(ts: Seq<Seq<char>>, acc: ScanV) -> Option<ScanV>
    decreases ts.len(),
{
    if ts.len() == 0 {
        Some(acc)
    } else {
        match redir_of(ts[0]) {
            Some((to_stderr, mode)) => {
                if ts.len() >= 2 {
                    let rd = Some(RedirectV { path: ts[1], mode });
                    let acc2 = if to_stderr {
                        ScanV { stderr: rd, ..acc }
                    } else {
                        ScanV { stdout: rd, ..acc }
                    };
                    scan_toks(ts.skip(2), acc2)
                } else {
                    None
                }
            },
            None => scan_toks(ts.skip(1), ScanV { args: acc.args.push(ts[0]), ..acc }),
        }
    }
}

/// The command the positional tokens name.
pub open spec fn command_of(args: Seq<Seq<char>>) -> CommandV {
    if args.len() == 0 {
        CommandV::Empty
    } else {
        match builtin_of(args[0]) {
            Some(b) => CommandV::Builtin(b, args.drop_first()),
            None => CommandV::External(args[0], args.drop_first()),
        }
    }
}

/// What a token list parses to, or `None` for a dangling redirection.
pub open spec fn parse_spec(ts: Seq<Seq<char>>) -> Option<ParsedCommandV> {
    match scan_toks(ts, scan_init()) {
        Some(sc) => Some(
            ParsedCommandV {
                command: command_of(sc.args),
                stdout: sc.stdout,
                stderr: sc.stderr,
            },
        ),
        None => None,
    }
}

/// Recognize a redirection operator token.
pub fn classify_redirect(t: &str) -> (r: Option<(bool, RedirMode)>)
    ensures
        r == redir_of(t@),
{
    proof {
        reveal_strlit(">");
        reveal_strlit("1>");
        reveal_strlit(">>");
        reveal_strlit("1>>");
        reveal_strlit("2>");
        reveal_strlit("2>>");
        assert(">"@ =~= seq!['>']);
        assert("1>"@ =~= seq!['1', '>']);
        assert(">>"@ =~= seq!['>', '>']);
        assert("1>>"@ =~= seq!['1', '>', '>']);
        assert("2>"@ =~= seq!['2', '>']);
        assert("2>>"@ =~= seq!['2', '>', '>']);
    }
    if str_eq(t, ">") || str_eq(t, "1>") {
        Some((false, RedirMode::Truncate))
    } else if str_eq(t, ">>") || str_eq(t, "1>>") {
        Some((false, RedirMode::Append))
    } else if str_eq(t, "2>") {
        Some((true, RedirMode::Truncate))
    } else if str_eq(t, "2>>") {
        Some((true, RedirMode::Append))
    } else {
        None
    }
}

/// Recognize a built-in command name.
pub fn builtin_name_of(name: &str) -> (r: Option<BuiltinName>)
    ensures
        r == builtin_of(name@),
{
    proof {
        reveal_strlit("exit");
        reveal_strlit("echo");
        reveal_strlit("type");
        reveal_strlit("pwd");
        reveal_strlit("cd");
        assert("exit"@ =~= seq!['e', 'x', 'i', 't']);
        assert("echo"@ =~= seq!['e', 'c', 'h', 'o']);
        assert("type"@ =~= seq!['t', 'y', 'p', 'e']);
        assert("pwd"@ =~= seq!['p', 'w', 'd']);
        assert("cd"@ =~= seq!['c', 'd']);
    }
    if str_eq(name, "exit") {
        Some(BuiltinName::Exit)
    } else if str_eq(name, "echo") {
        Some(BuiltinName::Echo)
    } else if str_eq(name, "type") {
        Some(BuiltinName::Type)
    } else if str_eq(name, "pwd") {
        Some(BuiltinName::Pwd)
    } else if str_eq(name, "cd") {
        Some(BuiltinName::Cd)
    } else {
        None
    }
}

/// Fold a token stream into a parsed command.  A redirection operator
/// followed by nothing is refused.
pub fn parse_shell_exec(parts: &Vec<String>) -> (r: Result<ParsedCommand, ParseError>)
    ensures
        parse_spec(views(parts@)) matches Some(pc) ==> (r matches Ok(p) && p@ == pc),
        parse_spec(views(parts@)) is None ==> r == Err::<ParsedCommand, ParseError>(
            ParseError::DanglingRedirect,
        ),
{
    let n = parts.len();
    let mut args: Vec<String> = Vec::new();
    let mut out_rd: Option<Redirect> = None;
    let mut err_rd: Option<Redirect> = None;
    let mut i: usize = 0;
    proof {
        assert(views(parts@).skip(0) =~= views(parts@));
        assert(views(args@) =~= Seq::<Seq<char>>::empty());
    }
    while i < n
        invariant
            i <= n,
            n == parts@.len(),
            scan_toks(views(parts@), scan_init()) == scan_toks(
                views(parts@).skip(i as int),
                ScanV {
                    args: views(args@),
                    stdout: redirect_view(out_rd),
                    stderr: redirect_view(err_rd),
                },
            ),
        decreases n - i,
    {
        let ghost rest = views(parts@).skip(i as int);
        proof {
            assert(rest[0] == parts@[i as int]@);
        }
        match classify_redirect(parts[i].as_str()) {
            Some((to_stderr, mode)) => {
                if i + 1 < n {
                    let rd = Redirect { path: parts[i + 1].clone(), mode };
                    proof {
                        assert(rest[1] == parts@[i as int + 1]@);
                        assert(rest.skip(2) =~= views(parts@).skip(i as int + 2));
                    }
                    if to_stderr {
                        err_rd = Some(rd);
                    } else {
                        out_rd = Some(rd);
                    }
                    i += 2;
                } else {
                    proof {
                        assert(rest.len() == 1);
                    }
                    return Err(ParseError::DanglingRedirect);
                }
            },
            None => {
                proof {
                    crate::strutil::lemma_views_push(args@, parts@[i as int]);
                    assert(rest.skip(1) =~= views(parts@).skip(i as int + 1));
                }
                args.push(parts[i].clone());
                i += 1;
            },
        }
    }
    proof {
        assert(views(parts@).skip(n as int) =~= Seq::<Seq<char>>::empty());
    }
    let ghost sc = ScanV {
        args: views(args@),
        stdout: redirect_view(out_rd),
        stderr: redirect_view(err_rd),
    };
    proof {
        assert(scan_toks(views(parts@), scan_init()) == Some(sc));
    }
    let command: Command = if args.len() == 0 {
        Command::Empty
    } else {
        let rest_args = tail_of(&args);
        match builtin_name_of(args[0].as_str()) {
            Some(b) => Command::Builtin(b, rest_args),
            None => Command::External(args[0].clone(), rest_args),
        }
    };
    proof {
        assert(command@ == command_of(sc.args));
    }
    Ok(ParsedCommand { command, stdout: out_rd, stderr: err_rd })
}

/// A copy of everything after the first item.
fn tail_of(items: &Vec<String>) -> (r: Vec<String>)
    requires
        items@.len() >= 1,
    ensures
        views(r@) == views(items@).drop_first(),
{
    let mut r: Vec<String> = Vec::new();
    let mut j: usize = 1;
    proof {
        assert(views(r@) =~= Seq::<Seq<char>>::empty());
    }
    while j < items.len()
        invariant
            1 <= j <= items@.len(),
            views(r@) == views(items@).subrange(1, j as int),
        decreases items@.len() - j,
    {
        proof {
            crate::strutil::lemma_views_push(r@, items@[j as int]);
            assert(views(items@).subrange(1, j as int).push(items@[j as int]@) =~= views(
                items@,
            ).subrange(1, j as int + 1));
        }
        r.push(items[j].clone());
        j += 1;
    }
    proof {
        assert(views(items@).subrange(1, items@.len() as int) =~= views(items@).drop_first());
    }
    r
}

proof fn lemma_scan_plain_prefix(ts: Seq<Seq<char>>, i: int, acc: ScanV)
    requires
        0 <= i <= ts.len(),
        forall|j: int| 0 <= j < i ==> redir_of(ts[j]) is None,
    ensures
        scan_toks(ts, acc) == scan_toks(
            ts.skip(i),
            ScanV { args: acc.args + ts.take(i), ..acc },
        ),
    decreases i,
{
    if i == 0 {
        assert(ts.skip(0) =~= ts);
        assert(acc.args + ts.take(0) =~= acc.args);
    } else {
        assert(redir_of(ts[0]) is None);
        let acc1 = ScanV { args: acc.args.push(ts[0]), ..acc };
        assert(scan_toks(ts, acc) == scan_toks(ts.skip(1), acc1));
        lemma_scan_plain_prefix(ts.skip(1), i - 1, acc1);
        assert(ts.skip(1).skip(i - 1) =~= ts.skip(i));
        assert(acc1.args + ts.skip(1).take(i - 1) =~= acc.args + ts.take(i));
    }
}

proof fn lemma_scan_keeps_stream(ts: Seq<Seq<char>>, acc: ScanV, to_stderr: bool)
    requires
        forall|j: int|
            0 <= j < ts.len() ==> ((#[trigger] redir_of(ts[j])) matches Some((e, m)) ==> e
                != to_stderr),
        ts.len() == 0 || redir_of(ts[ts.len() - 1]) is None,
    ensures
        scan_toks(ts, acc) matches Some(sc) && (if to_stderr {
            sc.stderr == acc.stderr
        } else {
            sc.stdout == acc.stdout
        }),
    decreases ts.len(),
{
    if ts.len() == 0 {
    } else {
        match redir_of(ts[0]) {
            Some((e, mode)) => {
                assert(e != to_stderr);
                assert(ts.len() >= 2);
                let rd = Some(RedirectV { path: ts[1], mode });
                let acc2 = if e {
                    ScanV { stderr: rd, ..acc }
                } else {
                    ScanV { stdout: rd, ..acc }
                };
                assert(forall|j: int|
                    0 <= j < ts.skip(2).len() ==> ts.skip(2)[j] == ts[j + 2]);
                if ts.skip(2).len() > 0 {
                    assert(ts.skip(2)[ts.skip(2).len() - 1] == ts[ts.len() - 1]);
                }
                lemma_scan_keeps_stream(ts.skip(2), acc2, to_stderr);
            },
            None => {
                let acc1 = ScanV { args: acc.args.push(ts[0]), ..acc };
                assert(forall|j: int|
                    0 <= j < ts.skip(1).len() ==> ts.skip(1)[j] == ts[j + 1]);
                if ts.skip(1).len() > 0 {
                    assert(ts.skip(1)[ts.skip(1).len() - 1] == ts[ts.len() - 1]);
                }
                lemma_scan_keeps_stream(ts.skip(1), acc1, to_stderr);
            },
        }
    }
}

/// Law: a redirection operator that the scan recognizes binds the token
/// immediately after it as the path of its stream.  The operator here is
/// the only one for its stream (a later one would overwrite it), nothing
/// before it looks like an operator (an earlier one could swallow it as a
/// path), and no operator dangles at the very end (that refuses the line).
pub proof fn lemma_redirect_binds_next_token(
    ts: Seq<Seq<char>>,
    i: int,
    to_stderr: bool,
    mode: RedirMode,
)
    requires
        0 <= i,
        i + 1 < ts.len(),
        redir_of(ts[i]) == Some((to_stderr, mode)),
        forall|j: int| 0 <= j < i ==> redir_of(ts[j]) is None,
        forall|j: int|
            i + 2 <= j < ts.len() ==> ((#[trigger] redir_of(ts[j])) matches Some((e, m)) ==> e
                != to_stderr),
        redir_of(ts[ts.len() - 1]) is None || ts.len() - 1 == i + 1,
    ensures
        parse_spec(ts) matches Some(pc) && (if to_stderr {
            pc.stderr == Some(RedirectV { path: ts[i + 1], mode })
        } else {
            pc.stdout == Some(RedirectV { path: ts[i + 1], mode })
        }),
{
    lemma_scan_plain_prefix(ts, i, scan_init());
    let acc = ScanV { args: scan_init().args + ts.take(i), ..scan_init() };
    let rest = ts.skip(i);
    assert(rest[0] == ts[i]);
    assert(rest.len() >= 2);
    assert(rest[1] == ts[i + 1]);
    let rd = Some(RedirectV { path: ts[i + 1], mode });
    let acc2 = if to_stderr {
        ScanV { stderr: rd, ..acc }
    } else {
        ScanV { stdout: rd, ..acc }
    };
    assert(scan_toks(ts, scan_init()) == scan_toks(rest.skip(2), acc2));
    assert(rest.skip(2) =~= ts.skip(i + 2));
    let tail = ts.skip(i + 2);
    assert(forall|j: int| 0 <= j < tail.len() ==> tail[j] == ts[j + i + 2]);
    if tail.len() > 0 {
        assert(tail[tail.len() - 1] == ts[ts.len() - 1]);
    }
    lemma_scan_keeps_stream(tail, acc2, to_stderr);
}

/// What a whole input line means: lex it, isolate redirection operators,
/// and fold the tokens into a command.
pub open spec fn parse_line_spec(s: Seq<char>) -> Result<ParsedCommandV, ParseError> {
    if !lex_ok(s) {
        Err(ParseError::UnterminatedQuote)
    } else {
        match parse_spec(flat_split(lex_spec(s))) {
            Some(pc) => Ok(pc),
            None => Err(ParseError::DanglingRedirect),
        }
    }
}

/// The whole front half of the shell: from one input line to the parsed
/// command it denotes, or the error that abandons the line.
pub fn parse_line(input: &str) -> (r: Result<ParsedCommand, ParseError>)
    ensures
        r matches Ok(p) ==> parse_line_spec(input@) == Ok::<ParsedCommandV, ParseError>(p@),
        r matches Err(e) ==> parse_line_spec(input@) == Err::<ParsedCommandV, ParseError>(e),
{
    match parse_arguments(input) {
        Ok(toks) => {
            let parts = split_all_redirects(&toks);
            parse_shell_exec(&parts)
        },
        Err(e) => Err(e),
    }
}

} // verus!
