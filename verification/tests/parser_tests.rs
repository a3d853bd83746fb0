use seashell::ast::{BuiltinName, Command, ParsedCommand, Redirect, RedirMode};
use seashell::lexer::parse_arguments;
use seashell::parser::{parse_line, parse_shell_exec};
use seashell::redirect::{split_all_redirects, split_redirects};
use seashell::ParseError;

fn strings(items: &[&str]) -> Vec<String> {
    let mut v = Vec::new();
    for s in items {
        v.push(s.to_string());
    }
    v
}

fn parsed(line: &str) -> ParsedCommand {
    parse_line(line).expect("line should parse")
}

#[test]
fn split_recognizes_every_operator() {
    assert_eq!(split_redirects(">"), strings(&[">"]));
    assert_eq!(split_redirects(">>"), strings(&[">>"]));
    assert_eq!(split_redirects("1>"), strings(&["1>"]));
    assert_eq!(split_redirects("1>>"), strings(&["1>>"]));
    assert_eq!(split_redirects("2>"), strings(&["2>"]));
    assert_eq!(split_redirects("2>>"), strings(&["2>>"]));
}

#[test]
fn split_separates_glued_operators() {
    assert_eq!(split_redirects("a1>b"), strings(&["a", "1>", "b"]));
    assert_eq!(split_redirects("x2>>y"), strings(&["x", "2>>", "y"]));
    assert_eq!(split_redirects("hi>out"), strings(&["hi", ">", "out"]));
}

#[test]
fn split_leaves_plain_tokens_alone() {
    assert_eq!(split_redirects("echo"), strings(&["echo"]));
    assert_eq!(split_redirects("1"), strings(&["1"]));
    assert_eq!(split_redirects("12"), strings(&["12"]));
    assert_eq!(split_redirects(""), strings(&[]));
}

#[test]
fn split_all_flattens_in_order() {
    let toks = parse_arguments("echo hi>out").unwrap();
    assert_eq!(split_all_redirects(&toks), strings(&["echo", "hi", ">", "out"]));
}

#[test]
fn stdout_truncate_redirection_parses() {
    let p = parsed("ls /tmp/baz > /tmp/foo/baz.md");
    assert_eq!(
        p.command,
        Command::External("ls".to_string(), strings(&["/tmp/baz"]))
    );
    assert_eq!(
        p.stdout,
        Some(Redirect { path: "/tmp/foo/baz.md".to_string(), mode: RedirMode::Truncate })
    );
    assert_eq!(p.stderr, None);
}

#[test]
fn stderr_append_redirection_parses() {
    let p = parsed("ls /tmp/baz 2>> /tmp/err.log");
    assert_eq!(
        p.command,
        Command::External("ls".to_string(), strings(&["/tmp/baz"]))
    );
    assert_eq!(p.stdout, None);
    assert_eq!(
        p.stderr,
        Some(Redirect { path: "/tmp/err.log".to_string(), mode: RedirMode::Append })
    );
}

#[test]
fn both_streams_can_be_redirected_at_once() {
    let p = parsed("ls > out.txt 2> err.txt");
    assert_eq!(p.command, Command::External("ls".to_string(), strings(&[])));
    assert_eq!(
        p.stdout,
        Some(Redirect { path: "out.txt".to_string(), mode: RedirMode::Truncate })
    );
    assert_eq!(
        p.stderr,
        Some(Redirect { path: "err.txt".to_string(), mode: RedirMode::Truncate })
    );
}

#[test]
fn later_redirection_overwrites_earlier_one() {
    let p = parsed("ls > a > b");
    assert_eq!(
        p.stdout,
        Some(Redirect { path: "b".to_string(), mode: RedirMode::Truncate })
    );
}

#[test]
fn one_and_bare_arrow_both_mean_stdout() {
    let p = parsed("ls 1> a");
    assert_eq!(
        p.stdout,
        Some(Redirect { path: "a".to_string(), mode: RedirMode::Truncate })
    );
    let q = parsed("ls 1>> a");
    assert_eq!(
        q.stdout,
        Some(Redirect { path: "a".to_string(), mode: RedirMode::Append })
    );
}

#[test]
fn builtins_dispatch_by_first_token() {
    let p = parsed("echo a b");
    assert_eq!(p.command, Command::Builtin(BuiltinName::Echo, strings(&["a", "b"])));
    assert_eq!(parsed("pwd").command, Command::Builtin(BuiltinName::Pwd, strings(&[])));
    assert_eq!(
        parsed("cd /tmp").command,
        Command::Builtin(BuiltinName::Cd, strings(&["/tmp"]))
    );
    assert_eq!(
        parsed("type echo").command,
        Command::Builtin(BuiltinName::Type, strings(&["echo"]))
    );
    assert_eq!(
        parsed("exit 4").command,
        Command::Builtin(BuiltinName::Exit, strings(&["4"]))
    );
}

#[test]
fn a_quoted_builtin_name_still_dispatches_by_its_characters() {
    // Quoting strips to the same characters, so the first token still
    // matches the built-in name exactly.
    assert_eq!(
        parsed("'echo' hi").command,
        Command::Builtin(BuiltinName::Echo, strings(&["hi"]))
    );
}

#[test]
fn empty_line_parses_to_empty_command() {
    let p = parsed("");
    assert_eq!(p.command, Command::Empty);
    assert_eq!(p.stdout, None);
    assert_eq!(p.stderr, None);
    assert_eq!(parsed("   \t ").command, Command::Empty);
}

#[test]
fn redirection_without_command_still_carries_the_target() {
    let p = parsed("> f");
    assert_eq!(p.command, Command::Empty);
    assert_eq!(
        p.stdout,
        Some(Redirect { path: "f".to_string(), mode: RedirMode::Truncate })
    );
}

#[test]
fn dangling_operator_is_refused() {
    assert_eq!(parse_line("ls >"), Err(ParseError::DanglingRedirect));
    assert_eq!(parse_line("2>>"), Err(ParseError::DanglingRedirect));
}

#[test]
fn unterminated_quote_is_refused_by_the_pipeline() {
    assert_eq!(parse_line("echo 'a"), Err(ParseError::UnterminatedQuote));
}

#[test]
fn parse_shell_exec_takes_the_token_after_the_operator_as_path() {
    let parts = strings(&["ls", ">", "x", "y"]);
    let p = parse_shell_exec(&parts).unwrap();
    assert_eq!(p.command, Command::External("ls".to_string(), strings(&["y"])));
    assert_eq!(
        p.stdout,
        Some(Redirect { path: "x".to_string(), mode: RedirMode::Truncate })
    );
}

#[test]
fn spawned_program_keeps_exact_argument_characters() {
    let p = parsed("cat \"/tmp/file\\\\name\"");
    assert_eq!(
        p.command,
        Command::External("cat".to_string(), strings(&["/tmp/file\\name"]))
    );
}
