use vshell::parser::{parse_input, expand_escape_sequences};

fn argv(line: &str) -> Vec<String> {
    let pipeline = parse_input(line).expect("line should parse");
    assert_eq!(pipeline.len(), 1);
    pipeline[0].tokens.clone().expect("stage should have arguments")
}

#[test]
fn whitespace_only_yields_nothing() {
    assert!(parse_input("").is_none());
    assert!(parse_input(" ").is_none());
    assert!(parse_input("   \t   ").is_none());
    assert!(parse_input("\t\t\n  \r ").is_none());
}

#[test]
fn redirection_only_is_a_degenerate_stage() {
    // the line parses; the stage has no arguments and is skipped at
    // execution time, so the file is never created
    let p = parse_input("> out.txt").unwrap();
    assert_eq!(p.len(), 1);
    assert!(p[0].tokens.is_none());
    assert_eq!(p[0].stdout.file_name.as_deref(), Some("out.txt"));
    assert!(!p[0].stdout.append_to);

    let p = parse_input("2> err.txt").unwrap();
    assert!(p[0].tokens.is_none());
    assert_eq!(p[0].stderr.file_name.as_deref(), Some("err.txt"));

    let p = parse_input("> a | > b").unwrap();
    assert_eq!(p.len(), 2);
    assert!(p[0].tokens.is_none());
    assert!(p[1].tokens.is_none());
    assert_eq!(p[0].stdout.file_name.as_deref(), Some("a"));
    assert_eq!(p[1].stdout.file_name.as_deref(), Some("b"));
}

#[test]
fn simple_words() {
    assert_eq!(argv("ls -l /tmp"), vec!["ls", "-l", "/tmp"]);
}

#[test]
fn consecutive_whitespace_makes_no_empty_tokens() {
    assert_eq!(argv("echo   a    b"), vec!["echo", "a", "b"]);
}

#[test]
fn quoting_round_trip() {
    assert_eq!(argv("echo 'a b'  \"c\\\"d\""), vec!["echo", "a b", "c\"d"]);
}

#[test]
fn single_quotes_are_fully_literal() {
    assert_eq!(argv("echo 'a\\nb'"), vec!["echo", "a\\nb"]);
    assert_eq!(argv("echo '\"x\"'"), vec!["echo", "\"x\""]);
}

#[test]
fn adjacent_quotes_join_tokens() {
    assert_eq!(argv("echo a'b c'd"), vec!["echo", "ab cd"]);
    assert_eq!(argv("echo a\"b\"c"), vec!["echo", "abc"]);
}

#[test]
fn backslash_outside_quotes_escapes_anything() {
    assert_eq!(argv("echo a\\ b"), vec!["echo", "a b"]);
    assert_eq!(argv("echo \\| x"), vec!["echo", "|", "x"]);
    assert_eq!(argv("echo \\'"), vec!["echo", "'"]);
}

#[test]
fn backslash_in_double_quotes_is_selective() {
    // `\"` and `\\` are escapes; `\t` is kept literally.
    assert_eq!(argv("echo \"a\\tb\""), vec!["echo", "a\\tb"]);
    assert_eq!(argv("echo \"a\\\\b\""), vec!["echo", "a\\b"]);
    assert_eq!(argv("echo \"a\\$b\""), vec!["echo", "a$b"]);
}

#[test]
fn stdout_redirection_truncate() {
    let p = parse_input("echo hi > out.txt").unwrap();
    assert_eq!(p.len(), 1);
    assert_eq!(p[0].tokens.as_ref().unwrap(), &vec!["echo", "hi"]);
    assert_eq!(p[0].stdout.file_name.as_deref(), Some("out.txt"));
    assert!(!p[0].stdout.append_to);
    assert!(p[0].stderr.file_name.is_none());
}

#[test]
fn stdout_redirection_append() {
    let p = parse_input("echo bye >> f").unwrap();
    assert_eq!(p[0].stdout.file_name.as_deref(), Some("f"));
    assert!(p[0].stdout.append_to);
}

#[test]
fn explicit_stdout_descriptor() {
    let p = parse_input("cmd 1> f").unwrap();
    assert_eq!(p[0].stdout.file_name.as_deref(), Some("f"));
    assert!(!p[0].stdout.append_to);
    let p = parse_input("cmd 1>> f").unwrap();
    assert!(p[0].stdout.append_to);
}

#[test]
fn stderr_redirection() {
    let p = parse_input("cmd 2> err.log").unwrap();
    assert_eq!(p[0].tokens.as_ref().unwrap(), &vec!["cmd"]);
    assert!(p[0].stdout.file_name.is_none());
    assert_eq!(p[0].stderr.file_name.as_deref(), Some("err.log"));
    assert!(!p[0].stderr.append_to);
    let p = parse_input("cmd 2>> err.log").unwrap();
    assert!(p[0].stderr.append_to);
}

#[test]
fn both_streams_redirection() {
    let p = parse_input("cmd &> both.log").unwrap();
    assert_eq!(p[0].stdout.file_name.as_deref(), Some("both.log"));
    assert_eq!(p[0].stderr.file_name.as_deref(), Some("both.log"));
    assert!(!p[0].stdout.append_to);
    assert!(!p[0].stderr.append_to);
    let p = parse_input("cmd &>> both.log").unwrap();
    assert!(p[0].stdout.append_to);
    assert!(p[0].stderr.append_to);
}

#[test]
fn leading_digit_without_operator_is_a_token() {
    assert_eq!(argv("echo 1 2"), vec!["echo", "1", "2"]);
    assert_eq!(argv("1"), vec!["1"]);
}

#[test]
fn quoted_operators_are_literal() {
    assert_eq!(argv("echo '|' '>'"), vec!["echo", "|", ">"]);
    let p = parse_input("echo \"a > b\"").unwrap();
    assert_eq!(p[0].tokens.as_ref().unwrap(), &vec!["echo", "a > b"]);
    assert!(p[0].stdout.file_name.is_none());
}

#[test]
fn pipeline_splits_stages() {
    let p = parse_input("printf 'a\\nb\\nc\\n' | head -n 2").unwrap();
    assert_eq!(p.len(), 2);
    assert_eq!(p[0].tokens.as_ref().unwrap(), &vec!["printf", "a\\nb\\nc\\n"]);
    assert_eq!(p[1].tokens.as_ref().unwrap(), &vec!["head", "-n", "2"]);
}

#[test]
fn pipeline_keeps_mid_stage_redirection_spec() {
    let p = parse_input("cmd1 > f.txt | cmd2").unwrap();
    assert_eq!(p.len(), 2);
    assert_eq!(p[0].stdout.file_name.as_deref(), Some("f.txt"));
    assert!(p[1].stdout.file_name.is_none());
}

#[test]
fn empty_mid_stage_is_kept_as_degenerate() {
    let p = parse_input("a | | b").unwrap();
    assert_eq!(p.len(), 3);
    assert!(p[0].tokens.is_some());
    assert!(p[1].tokens.is_none());
    assert!(p[2].tokens.is_some());
}

#[test]
fn pipe_of_empty_stages_yields_nothing() {
    assert!(parse_input(" | ").is_none());
    assert!(parse_input("|").is_none());
}

#[test]
fn expand_escape_sequences_known_escapes() {
    assert_eq!(expand_escape_sequences("a\\tb\\nc"), "a\tb\nc");
    assert_eq!(expand_escape_sequences("a\\rb"), "a\rb");
    assert_eq!(expand_escape_sequences("a\\\\b"), "a\\b");
    assert_eq!(expand_escape_sequences("a\\0b"), "a\0b");
    assert_eq!(expand_escape_sequences("a\\\"b"), "a\"b");
    assert_eq!(expand_escape_sequences("a\\'b"), "a'b");
}

#[test]
fn expand_escape_sequences_unknown_escape_is_kept() {
    assert_eq!(expand_escape_sequences("a\\xb"), "a\\xb");
}

#[test]
fn expand_escape_sequences_trailing_backslash_is_dropped() {
    assert_eq!(expand_escape_sequences("ab\\"), "ab");
}

#[test]
fn expand_escape_sequences_plain_text_unchanged() {
    assert_eq!(expand_escape_sequences("hello"), "hello");
    assert_eq!(expand_escape_sequences(""), "");
}
