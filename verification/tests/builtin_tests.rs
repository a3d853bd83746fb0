use seashell::builtins::{
    builtin_names, cd_error_message, cd_target, echo_output, exit_status, not_found_message,
    parse_exit_code, type_output,
};

fn strings(items: &[&str]) -> Vec<String> {
    let mut v = Vec::new();
    for s in items {
        v.push(s.to_string());
    }
    v
}

#[test]
fn echo_joins_arguments_by_single_spaces() {
    assert_eq!(echo_output(&strings(&["quz  hello", "bar"])), "quz  hello bar");
    assert_eq!(echo_output(&strings(&["foo                  bar"])), "foo                  bar");
    assert_eq!(echo_output(&strings(&["world      script"])), "world      script");
    assert_eq!(echo_output(&strings(&[])), "");
}

#[test]
fn every_builtin_name_reports_itself_as_builtin() {
    for name in ["exit", "echo", "type", "pwd", "cd"] {
        assert_eq!(
            type_output(name, None),
            format!("{} is a shell builtin", name)
        );
        // The resolution answer cannot override a built-in.
        let somewhere = "/bin/x".to_string();
        assert_eq!(
            type_output(name, Some(&somewhere)),
            format!("{} is a shell builtin", name)
        );
    }
}

#[test]
fn type_reports_the_resolved_path() {
    let path = "/usr/bin/ls".to_string();
    assert_eq!(type_output("ls", Some(&path)), "ls is /usr/bin/ls");
}

#[test]
fn type_reports_not_found() {
    assert_eq!(type_output("frobnicate", None), "frobnicate: not found");
}

#[test]
fn exit_without_argument_is_status_zero() {
    assert_eq!(exit_status(&strings(&[])), Ok(0));
}

#[test]
fn exit_with_number_uses_it() {
    assert_eq!(exit_status(&strings(&["0"])), Ok(0));
    assert_eq!(exit_status(&strings(&["7"])), Ok(7));
    assert_eq!(exit_status(&strings(&["255"])), Ok(255));
}

#[test]
fn exit_with_garbage_reports_the_code() {
    assert_eq!(
        exit_status(&strings(&["banana"])),
        Err("Unknown exit code banana".to_string())
    );
    assert_eq!(
        exit_status(&strings(&["1", "2"])),
        Err("Unknown exit code 1 2".to_string())
    );
    assert_eq!(
        exit_status(&strings(&["-1"])),
        Err("Unknown exit code -1".to_string())
    );
}

#[test]
fn exit_code_parsing_handles_bounds() {
    assert_eq!(parse_exit_code("2147483647"), Some(2147483647));
    assert_eq!(parse_exit_code("2147483648"), None);
    assert_eq!(parse_exit_code("99999999999999999999"), None);
    assert_eq!(parse_exit_code(""), None);
    assert_eq!(parse_exit_code("12a"), None);
    assert_eq!(parse_exit_code("007"), Some(7));
}

#[test]
fn cd_substitutes_home_for_tilde() {
    let home = "/home/someone".to_string();
    assert_eq!(cd_target("~", Some(&home)), Ok("/home/someone".to_string()));
}

#[test]
fn cd_without_home_is_an_error() {
    assert_eq!(
        cd_target("~", None),
        Err("cd: HOME environment variable not set".to_string())
    );
}

#[test]
fn cd_takes_other_targets_as_written() {
    assert_eq!(cd_target("/tmp", None), Ok("/tmp".to_string()));
    assert_eq!(cd_target("..", None), Ok("..".to_string()));
}

#[test]
fn cd_failure_lines() {
    assert_eq!(
        cd_error_message("/nope", true, "ignored"),
        "cd: /nope: No such file or directory"
    );
    assert_eq!(
        cd_error_message("/nope", false, "Permission denied (os error 13)"),
        "cd: Permission denied (os error 13)"
    );
}

#[test]
fn command_not_found_line() {
    assert_eq!(not_found_message("frob"), "frob: command not found");
}

#[test]
fn builtin_name_list_is_complete_and_ordered() {
    assert_eq!(builtin_names(), strings(&["exit", "echo", "type", "pwd", "cd"]));
}
