use seashell::lexer::{parse_arguments, requote_tokens};
use seashell::ParseError;

fn toks(input: &str) -> Vec<String> {
    parse_arguments(input).expect("line should lex")
}

fn strings(items: &[&str]) -> Vec<String> {
    let mut v = Vec::new();
    for s in items {
        v.push(s.to_string());
    }
    v
}

#[test]
fn single_quotes_preserve_inner_spaces() {
    assert_eq!(
        toks("echo 'foo                  bar'"),
        strings(&["echo", "foo                  bar"])
    );
}

#[test]
fn double_quotes_preserve_inner_spaces_and_words_split() {
    assert_eq!(
        toks("echo \"quz  hello\"  \"bar\""),
        strings(&["echo", "quz  hello", "bar"])
    );
}

#[test]
fn backslash_escapes_spaces_outside_quotes() {
    assert_eq!(
        toks("echo world\\ \\ \\ \\ \\ \\ script"),
        strings(&["echo", "world      script"])
    );
}

#[test]
fn double_quote_backslash_before_backslash_collapses() {
    assert_eq!(
        toks("cat \"/tmp/file\\\\name\""),
        strings(&["cat", "/tmp/file\\name"])
    );
}

#[test]
fn double_quote_backslash_before_ordinary_char_stays() {
    assert_eq!(toks("echo \"a\\nb\""), strings(&["echo", "a\\nb"]));
}

#[test]
fn double_quote_backslash_escapes_quote_and_dollar() {
    assert_eq!(toks("echo \"a\\\"b\""), strings(&["echo", "a\"b"]));
    assert_eq!(toks("echo \"a\\$b\""), strings(&["echo", "a$b"]));
}

#[test]
fn adjacent_quoted_and_unquoted_runs_merge() {
    assert_eq!(toks("echo \"foo\"bar'baz'"), strings(&["echo", "foobarbaz"]));
}

#[test]
fn empty_single_quotes_make_an_empty_token() {
    assert_eq!(toks("echo ''"), strings(&["echo", ""]));
}

#[test]
fn tabs_separate_words() {
    assert_eq!(toks("echo\ta\tb"), strings(&["echo", "a", "b"]));
}

#[test]
fn blank_lines_lex_to_no_tokens() {
    assert_eq!(toks(""), strings(&[]));
    assert_eq!(toks("   \t  "), strings(&[]));
}

#[test]
fn trailing_backslash_is_kept() {
    assert_eq!(toks("echo a\\"), strings(&["echo", "a\\"]));
}

#[test]
fn unterminated_single_quote_is_refused() {
    assert_eq!(parse_arguments("echo 'a"), Err(ParseError::UnterminatedQuote));
}

#[test]
fn unterminated_double_quote_is_refused() {
    assert_eq!(parse_arguments("echo \"a"), Err(ParseError::UnterminatedQuote));
    assert_eq!(parse_arguments("echo \"a\\"), Err(ParseError::UnterminatedQuote));
}

#[test]
fn single_quotes_keep_every_character_literal() {
    assert_eq!(
        toks("echo 'a \\ $ \" x'"),
        strings(&["echo", "a \\ $ \" x"])
    );
}

#[test]
fn requote_round_trips_through_the_lexer() {
    let lines = [
        "echo 'foo                  bar'",
        "echo \"quz  hello\"  \"bar\"",
        "echo world\\ \\ \\ \\ \\ \\ script",
        "cat \"/tmp/file\\\\name\"",
        "echo '' a\\ b \"c d\"",
        "",
    ];
    for line in lines {
        let first = toks(line);
        let requoted = requote_tokens(&first);
        assert_eq!(toks(&requoted), first);
    }
}

#[test]
fn requote_escapes_every_character() {
    let tokens = strings(&["a b", ""]);
    assert_eq!(requote_tokens(&tokens), "\\a\\ \\b ''");
}
