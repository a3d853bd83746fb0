use seashell::resolver::{
    first_match, has_slash, is_exe_extension, is_executable, path_candidates, split_path_var,
};

fn strings(items: &[&str]) -> Vec<String> {
    let mut v = Vec::new();
    for s in items {
        v.push(s.to_string());
    }
    v
}

#[test]
fn executability_needs_a_file_and_an_execute_bit() {
    assert!(is_executable(true, 0o755));
    assert!(is_executable(true, 0o100));
    assert!(is_executable(true, 0o010));
    assert!(is_executable(true, 0o001));
    assert!(!is_executable(true, 0o644));
    assert!(!is_executable(false, 0o755));
}

#[test]
fn exe_extension_is_case_insensitive() {
    assert!(is_exe_extension("exe"));
    assert!(is_exe_extension("ExE"));
    assert!(is_exe_extension("EXE"));
    assert!(!is_exe_extension("exf"));
    assert!(!is_exe_extension("exe "));
    assert!(!is_exe_extension("ex"));
}

#[test]
fn path_splits_on_colons() {
    assert_eq!(
        split_path_var("/usr/bin:/bin"),
        strings(&["/usr/bin", "/bin"])
    );
    assert_eq!(split_path_var(""), strings(&[]));
    assert_eq!(split_path_var("/bin:"), strings(&["/bin", ""]));
}

#[test]
fn candidates_join_each_directory_with_the_name() {
    assert_eq!(
        path_candidates("/usr/bin:/bin", "ls"),
        strings(&["/usr/bin/ls", "/bin/ls"])
    );
}

#[test]
fn candidate_join_handles_trailing_slash_and_empty_dir() {
    assert_eq!(
        path_candidates("/usr/bin/::/opt", "x"),
        strings(&["/usr/bin/x", "x", "/opt/x"])
    );
}

#[test]
fn empty_path_offers_no_candidates() {
    assert_eq!(path_candidates("", "ls"), strings(&[]));
}

#[test]
fn first_executable_candidate_wins() {
    let cands = strings(&["/a/x", "/b/x", "/c/x"]);
    let flags = vec![false, true, true];
    assert_eq!(first_match(&cands, &flags), Some("/b/x".to_string()));
}

#[test]
fn no_executable_candidate_means_none() {
    let cands = strings(&["/a/x", "/b/x"]);
    let flags = vec![false, false];
    assert_eq!(first_match(&cands, &flags), None);
}

#[test]
fn slash_in_a_command_bypasses_resolution() {
    assert!(has_slash("./prog"));
    assert!(has_slash("/bin/ls"));
    assert!(!has_slash("ls"));
}
