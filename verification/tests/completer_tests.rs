use vshell::completer::{str_lt, ShellCompleter, ShellHelper};

fn strings(xs: &[&str]) -> Vec<String> {
    xs.iter().map(|s| s.to_string()).collect()
}

#[test]
fn candidate_list_is_sorted_and_deduplicated() {
    let c = ShellCompleter::new(&strings(&["ls", "cat", "cat", "echo"]));
    assert_eq!(
        c.commands,
        vec!["cat", "cd", "echo", "exit", "history", "ls", "pwd", "type"]
    );
}

#[test]
fn candidate_list_without_path_entries_is_the_builtins() {
    let c = ShellCompleter::new(&strings(&[]));
    assert_eq!(c.commands, vec!["cd", "echo", "exit", "history", "pwd", "type"]);
}

#[test]
fn complete_matches_prefix_of_first_word() {
    let c = ShellCompleter::new(&strings(&["ls", "lsblk", "cat"]));
    let (start, cands) = c.complete("ls", 2);
    assert_eq!(start, 0);
    assert_eq!(cands, vec!["ls", "lsblk"]);
    let (_, cands) = c.complete("ec", 2);
    assert_eq!(cands, vec!["echo"]);
    let (_, cands) = c.complete("zz", 2);
    assert!(cands.is_empty());
}

#[test]
fn complete_with_empty_word_offers_everything() {
    let c = ShellCompleter::new(&strings(&[]));
    let (start, cands) = c.complete("", 0);
    assert_eq!(start, 0);
    assert_eq!(cands.len(), 6);
}

#[test]
fn complete_stops_after_first_word() {
    let c = ShellCompleter::new(&strings(&[]));
    let (start, cands) = c.complete("echo h", 6);
    assert_eq!(start, 0);
    assert!(cands.is_empty());
}

#[test]
fn complete_only_looks_before_the_cursor() {
    let c = ShellCompleter::new(&strings(&[]));
    // whitespace after the cursor does not suppress candidates
    let (_, cands) = c.complete("ec x", 2);
    assert_eq!(cands, vec!["echo"]);
}

#[test]
fn string_order() {
    assert!(str_lt("abc", "abd"));
    assert!(str_lt("ab", "abc"));
    assert!(!str_lt("abc", "abc"));
    assert!(!str_lt("b", "a"));
    assert!(str_lt("", "a"));
}

#[test]
fn helper_carries_the_completer() {
    let h = ShellHelper { completer: ShellCompleter::new(&strings(&["ls"])) };
    let (_, cands) = h.completer.complete("l", 1);
    assert_eq!(cands, vec!["ls"]);
}
