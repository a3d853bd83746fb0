use seashell::ast::{BuiltinName, Command};
use seashell::dispatch::{resolution_target, route_output, step_of, CommandOutput, Step, WriteTarget};

fn strings(items: &[&str]) -> Vec<String> {
    let mut v = Vec::new();
    for s in items {
        v.push(s.to_string());
    }
    v
}

#[test]
fn routing_honours_redirections() {
    let out = CommandOutput::StdOut("hi".to_string());
    assert_eq!(
        route_output(&out, false, false),
        Some((WriteTarget::Stdout, "hi".to_string()))
    );
    assert_eq!(
        route_output(&out, true, false),
        Some((WriteTarget::StdoutFile, "hi".to_string()))
    );
    let err = CommandOutput::StdErr("oops".to_string());
    assert_eq!(
        route_output(&err, true, false),
        Some((WriteTarget::Stderr, "oops".to_string()))
    );
    assert_eq!(
        route_output(&err, false, true),
        Some((WriteTarget::StderrFile, "oops".to_string()))
    );
    assert_eq!(route_output(&CommandOutput::Noop, true, true), None);
}

#[test]
fn resolution_is_needed_for_type_and_externals_only() {
    assert_eq!(
        resolution_target(&Command::Builtin(BuiltinName::Type, strings(&["ls"]))),
        Some("ls".to_string())
    );
    assert_eq!(
        resolution_target(&Command::Builtin(BuiltinName::Echo, strings(&["ls"]))),
        None
    );
    assert_eq!(
        resolution_target(&Command::External("grep".to_string(), strings(&["x"]))),
        Some("grep".to_string())
    );
    assert_eq!(resolution_target(&Command::Empty), None);
}

#[test]
fn empty_command_does_nothing() {
    let cmd = Command::Empty;
    assert_eq!(step_of(&cmd, None, "/", None), Step::Done);
}

#[test]
fn echo_step_prints_the_joined_arguments() {
    let cmd = Command::Builtin(BuiltinName::Echo, strings(&["a", "b  c"]));
    assert_eq!(step_of(&cmd, None, "/", None), Step::Out("a b  c".to_string()));
}

#[test]
fn pwd_step_prints_the_working_directory() {
    let cmd = Command::Builtin(BuiltinName::Pwd, strings(&[]));
    assert_eq!(
        step_of(&cmd, None, "/home/user", None),
        Step::Out("/home/user".to_string())
    );
}

#[test]
fn type_step_uses_the_resolution_answer() {
    let cmd = Command::Builtin(BuiltinName::Type, strings(&["ls"]));
    let resolved = "/bin/ls".to_string();
    assert_eq!(
        step_of(&cmd, None, "/", Some(&resolved)),
        Step::Out("ls is /bin/ls".to_string())
    );
    assert_eq!(
        step_of(&cmd, None, "/", None),
        Step::Out("ls: not found".to_string())
    );
    let cmd2 = Command::Builtin(BuiltinName::Type, strings(&["pwd"]));
    assert_eq!(
        step_of(&cmd2, None, "/", None),
        Step::Out("pwd is a shell builtin".to_string())
    );
}

#[test]
fn exit_steps() {
    let cmd = Command::Builtin(BuiltinName::Exit, strings(&[]));
    assert_eq!(step_of(&cmd, None, "/", None), Step::Terminate(0));
    let cmd = Command::Builtin(BuiltinName::Exit, strings(&["3"]));
    assert_eq!(step_of(&cmd, None, "/", None), Step::Terminate(3));
    let cmd = Command::Builtin(BuiltinName::Exit, strings(&["x"]));
    assert_eq!(
        step_of(&cmd, None, "/", None),
        Step::ErrLine("Unknown exit code x".to_string())
    );
}

#[test]
fn cd_steps() {
    let home = "/home/user".to_string();
    let cmd = Command::Builtin(BuiltinName::Cd, strings(&["~"]));
    assert_eq!(
        step_of(&cmd, Some(&home), "/", None),
        Step::Chdir("/home/user".to_string())
    );
    assert_eq!(
        step_of(&cmd, None, "/", None),
        Step::ErrLine("cd: HOME environment variable not set".to_string())
    );
    let cmd = Command::Builtin(BuiltinName::Cd, strings(&["/tmp"]));
    assert_eq!(step_of(&cmd, None, "/", None), Step::Chdir("/tmp".to_string()));
}

#[test]
fn external_spawns_with_original_name_as_argv0() {
    let cmd = Command::External("ls".to_string(), strings(&["/tmp/baz"]));
    let resolved = "/bin/ls".to_string();
    assert_eq!(
        step_of(&cmd, None, "/", Some(&resolved)),
        Step::Spawn {
            program: "/bin/ls".to_string(),
            argv0: "ls".to_string(),
            args: strings(&["/tmp/baz"]),
        }
    );
}

#[test]
fn external_with_slash_bypasses_resolution() {
    let cmd = Command::External("./prog".to_string(), strings(&["a"]));
    assert_eq!(
        step_of(&cmd, None, "/", None),
        Step::Spawn {
            program: "./prog".to_string(),
            argv0: "./prog".to_string(),
            args: strings(&["a"]),
        }
    );
}

#[test]
fn unresolved_external_is_not_found() {
    let cmd = Command::External("frob".to_string(), strings(&[]));
    assert_eq!(
        step_of(&cmd, None, "/", None),
        Step::ErrLine("frob: command not found".to_string())
    );
}
