use vshell::builtins::{
    cd_error_message, command_cd, command_echo, command_exit, command_history, command_pwd,
    command_type, parse_i32, parse_usize,
};
use vshell::parser::parse_input;

fn strings(xs: &[&str]) -> Vec<String> {
    xs.iter().map(|s| s.to_string()).collect()
}

#[test]
fn echo_joins_with_spaces_and_newline() {
    assert_eq!(command_echo(&strings(&["hello", "world"])), "hello world\n");
    assert_eq!(command_echo(&strings(&["one"])), "one\n");
    assert_eq!(command_echo(&strings(&[])), "\n");
}

#[test]
fn echo_expands_escapes_with_flag() {
    assert_eq!(command_echo(&strings(&["-e", "a\\tb\\nc"])), "a\tb\nc\n");
    assert_eq!(command_echo(&strings(&["-e"])), "\n");
    assert_eq!(command_echo(&strings(&["-e", "x", "y\\n"])), "x y\n\n");
}

#[test]
fn echo_without_flag_keeps_escapes() {
    assert_eq!(command_echo(&strings(&["a\\tb"])), "a\\tb\n");
}

#[test]
fn echo_flag_only_recognized_first() {
    assert_eq!(command_echo(&strings(&["x", "-e", "a\\tb"])), "x -e a\\tb\n");
}

#[test]
fn echo_escape_expansion_through_parse() {
    // echo -e "a\tb\nc" produces a<TAB>b<NEWLINE>c<NEWLINE>
    let p = parse_input("echo -e \"a\\tb\\nc\"").unwrap();
    let argv = p[0].tokens.clone().unwrap();
    assert_eq!(argv, vec!["echo", "-e", "a\\tb\\nc"]);
    let out = command_echo(&argv[1..].to_vec());
    assert_eq!(out, "a\tb\nc\n");
}

#[test]
fn exit_codes() {
    assert_eq!(command_exit(&strings(&["3"])), 3);
    assert_eq!(command_exit(&strings(&["abc"])), 0);
    assert_eq!(command_exit(&strings(&[])), 0);
    assert_eq!(command_exit(&strings(&["-5"])), -5);
    assert_eq!(command_exit(&strings(&["+7"])), 7);
    assert_eq!(command_exit(&strings(&["2147483647"])), 2147483647);
    assert_eq!(command_exit(&strings(&["-2147483648"])), -2147483648);
    assert_eq!(command_exit(&strings(&["2147483648"])), 0);
    assert_eq!(command_exit(&strings(&["99999999999999999999"])), 0);
    assert_eq!(command_exit(&strings(&["12x"])), 0);
    assert_eq!(command_exit(&strings(&[" 3"])), 0);
}

#[test]
fn parse_i32_matches_std() {
    for s in ["0", "42", "-42", "+9", "", "-", "+", "abc", "2147483648", "-2147483649", "007"] {
        assert_eq!(parse_i32(s), s.parse::<i32>().ok(), "input {s:?}");
    }
}

#[test]
fn parse_usize_matches_std() {
    for s in ["0", "42", "+9", "", "-", "-1", "abc", "18446744073709551616", "007"] {
        assert_eq!(parse_usize(s), s.parse::<usize>().ok(), "input {s:?}");
    }
}

#[test]
fn cd_picks_target() {
    assert_eq!(command_cd(&strings(&[]), "/home/u"), "/home/u");
    assert_eq!(command_cd(&strings(&["~"]), "/home/u"), "/home/u");
    assert_eq!(command_cd(&strings(&["/tmp"]), "/home/u"), "/tmp");
    // only the first argument counts
    assert_eq!(command_cd(&strings(&["a", "b"]), "/home/u"), "a");
}

#[test]
fn cd_error_text() {
    assert_eq!(
        cd_error_message("/no/such/dir"),
        "cd: /no/such/dir: No such file or directory\n"
    );
}

#[test]
fn pwd_line() {
    assert_eq!(command_pwd("/some/where"), "/some/where\n");
}

#[test]
fn type_reports_builtins_even_with_path_match() {
    // a same-named executable on PATH must not win over the builtin
    let dirs = strings(&["/bin", "/usr/bin"]);
    let flags = vec![true, true];
    for name in ["cd", "echo", "exit", "pwd", "type", "history"] {
        let out = command_type(&strings(&[name]), true, &dirs, &flags);
        assert_eq!(out.stdout_line.unwrap(), format!("{name} is a shell builtin\n"));
        assert!(out.stderr_line.is_none());
    }
}

#[test]
fn type_reports_external_path() {
    let dirs = strings(&["/bin", "/usr/bin"]);
    let out = command_type(&strings(&["foo"]), false, &dirs, &vec![false, true]);
    assert_eq!(out.stdout_line.unwrap(), "foo is /usr/bin/foo\n");
    assert!(out.stderr_line.is_none());
}

#[test]
fn type_reports_not_found_on_stderr() {
    let dirs = strings(&["/bin"]);
    let out = command_type(&strings(&["nosuch"]), false, &dirs, &vec![false]);
    assert!(out.stdout_line.is_none());
    assert_eq!(out.stderr_line.unwrap(), "nosuch: not found\n");
}

#[test]
fn type_reports_executable_path_names_directly() {
    // a name written as a path to an executable file is reported as-is
    let out = command_type(&strings(&["./local/tool"]), true, &strings(&[]), &vec![]);
    assert_eq!(out.stdout_line.unwrap(), "./local/tool is ./local/tool\n");
    assert!(out.stderr_line.is_none());
}

#[test]
fn type_path_name_without_execute_bit_is_searched() {
    let out = command_type(&strings(&["./local/tool"]), false, &strings(&["/bin"]), &vec![false]);
    assert!(out.stdout_line.is_none());
    assert_eq!(out.stderr_line.unwrap(), "./local/tool: not found\n");
}

#[test]
fn type_without_name_is_silent() {
    let out = command_type(&strings(&[]), false, &strings(&[]), &vec![]);
    assert!(out.stdout_line.is_none());
    assert!(out.stderr_line.is_none());
}

#[test]
fn history_prints_all_entries_numbered() {
    let entries = strings(&["ls", "pwd", "echo hi"]);
    let out = command_history(&entries, &strings(&[]));
    assert_eq!(out, "    1  ls\n    2  pwd\n    3  echo hi\n");
}

#[test]
fn history_prints_last_n() {
    let entries = strings(&["ls", "pwd", "echo hi"]);
    assert_eq!(
        command_history(&entries, &strings(&["2"])),
        "    2  pwd\n    3  echo hi\n"
    );
    assert_eq!(command_history(&entries, &strings(&["1"])), "    3  echo hi\n");
}

#[test]
fn history_count_larger_than_length_prints_all() {
    let entries = strings(&["a", "b"]);
    assert_eq!(command_history(&entries, &strings(&["10"])), "    1  a\n    2  b\n");
}

#[test]
fn history_non_numeric_or_zero_count_prints_all() {
    let entries = strings(&["a", "b"]);
    let all = "    1  a\n    2  b\n";
    assert_eq!(command_history(&entries, &strings(&["abc"])), all);
    assert_eq!(command_history(&entries, &strings(&["0"])), all);
}

#[test]
fn history_of_nothing_is_empty() {
    assert_eq!(command_history(&strings(&[]), &strings(&[])), "");
}

#[test]
fn history_aligns_wide_positions() {
    let entries: Vec<String> = (0..12).map(|i| format!("c{i}")).collect();
    let out = command_history(&entries, &strings(&["3"]));
    assert_eq!(out, "   10  c9\n   11  c10\n   12  c11\n");
}
