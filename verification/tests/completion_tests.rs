use seashell::builtins::builtin_names;
use seashell::completion::{
    complete, current_word, filter_matches, lcp_of, CompletionAction, CompletionState,
};

fn strings(items: &[&str]) -> Vec<String> {
    let mut v = Vec::new();
    for s in items {
        v.push(s.to_string());
    }
    v
}

fn fresh_state() -> CompletionState {
    CompletionState {
        line: String::new(),
        pos: 0,
        presses: 0,
        matches: Vec::new(),
    }
}

#[test]
fn current_word_is_the_run_before_the_cursor() {
    assert_eq!(current_word("echo fo", 7), "fo");
    assert_eq!(current_word("echo fo", 4), "echo");
    assert_eq!(current_word("echo fo", 5), "");
    assert_eq!(current_word("", 0), "");
    assert_eq!(current_word("a\tbc", 4), "bc");
}

#[test]
fn filtering_sorts_and_deduplicates() {
    let cands = strings(&["zeta", "alpha", "alpha", "alp", "beta"]);
    assert_eq!(filter_matches(&cands, "al"), strings(&["alp", "alpha"]));
    assert_eq!(filter_matches(&cands, ""), strings(&["alp", "alpha", "beta", "zeta"]));
    assert_eq!(filter_matches(&cands, "x"), strings(&[]));
}

#[test]
fn longest_common_prefix_of_matches() {
    let items = strings(&["interspecies", "interstellar", "interstate"]);
    assert_eq!(lcp_of(&items), "inters");
    assert_eq!(lcp_of(&strings(&["solo"])), "solo");
    assert_eq!(lcp_of(&strings(&[])), "");
}

#[test]
fn unique_match_completes_with_a_trailing_space() {
    let mut st = fresh_state();
    let action = complete(&mut st, "ec", 2, &builtin_names());
    assert_eq!(action, CompletionAction::Insert("ho ".to_string()));
}

#[test]
fn common_prefix_extends_the_word_without_a_space() {
    let mut st = fresh_state();
    let cands = strings(&["interspecies", "interstellar", "interstate"]);
    let action = complete(&mut st, "int", 3, &cands);
    assert_eq!(action, CompletionAction::Insert("ers".to_string()));
}

#[test]
fn double_tab_rings_then_lists() {
    let mut st = fresh_state();
    let cands = strings(&["alpha", "alpine"]);
    let first = complete(&mut st, "alp", 3, &cands);
    assert_eq!(first, CompletionAction::Bell);
    let second = complete(&mut st, "alp", 3, &cands);
    assert_eq!(
        second,
        CompletionAction::ShowList(strings(&["alpha", "alpine"]))
    );
}

#[test]
fn moving_the_cursor_resets_the_press_counter() {
    let mut st = fresh_state();
    let cands = strings(&["aa1", "aa2"]);
    assert_eq!(complete(&mut st, "aa", 2, &cands), CompletionAction::Bell);
    // A different query: the counter starts over.
    assert_eq!(complete(&mut st, "a", 1, &cands), CompletionAction::Insert("a".to_string()));
    assert_eq!(complete(&mut st, "aa", 2, &cands), CompletionAction::Bell);
    assert_eq!(
        complete(&mut st, "aa", 2, &cands),
        CompletionAction::ShowList(strings(&["aa1", "aa2"]))
    );
}

#[test]
fn no_match_rings_the_bell() {
    let mut st = fresh_state();
    let action = complete(&mut st, "zz", 2, &builtin_names());
    assert_eq!(action, CompletionAction::Bell);
}

#[test]
fn completion_considers_only_the_word_at_the_cursor() {
    let mut st = fresh_state();
    let action = complete(&mut st, "echo ec", 7, &builtin_names());
    assert_eq!(action, CompletionAction::Insert("ho ".to_string()));
}
