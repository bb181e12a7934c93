use vshell::resolver::{
    is_builtin, is_executable, join_path, resolve, search_executable, Classification,
};

fn strings(xs: &[&str]) -> Vec<String> {
    xs.iter().map(|s| s.to_string()).collect()
}

#[test]
fn builtin_names() {
    for name in ["cd", "echo", "exit", "pwd", "type", "history"] {
        assert!(is_builtin(name), "{name} is a builtin");
    }
    for name in ["ls", "cat", "Echo", "exi", "exits", ""] {
        assert!(!is_builtin(name), "{name} is not a builtin");
    }
}

#[test]
fn executable_needs_file_and_execute_bit() {
    assert!(is_executable(true, 0o755));
    assert!(is_executable(true, 0o100));
    assert!(is_executable(true, 0o001));
    assert!(!is_executable(true, 0o644));
    assert!(!is_executable(false, 0o755));
    assert!(!is_executable(false, 0o644));
}

#[test]
fn join_path_inserts_separator() {
    assert_eq!(join_path("/usr/bin", "foo"), "/usr/bin/foo");
    // an empty directory component stands for the current directory
    assert_eq!(join_path("", "foo"), "foo");
}

#[test]
fn search_with_empty_path_component_yields_bare_name() {
    let dirs = strings(&["", "/b"]);
    assert_eq!(
        search_executable("foo", &dirs, &vec![true, true]),
        Some("foo".to_string())
    );
}

#[test]
fn search_returns_earliest_directory() {
    let dirs = strings(&["/first", "/second"]);
    // both directories hold an executable: the earlier-listed one wins
    assert_eq!(
        search_executable("foo", &dirs, &vec![true, true]),
        Some("/first/foo".to_string())
    );
    assert_eq!(
        search_executable("foo", &dirs, &vec![false, true]),
        Some("/second/foo".to_string())
    );
    assert_eq!(search_executable("foo", &dirs, &vec![false, false]), None);
    assert_eq!(search_executable("foo", &strings(&[]), &vec![]), None);
}

#[test]
fn resolve_prefers_builtin() {
    let dirs = strings(&["/bin"]);
    let r = resolve("echo", false, &dirs, &vec![true]);
    assert!(matches!(r, Classification::Builtin));
}

#[test]
fn resolve_takes_path_names_directly() {
    let r = resolve("./local/tool", true, &strings(&[]), &vec![]);
    match r {
        Classification::ExternalAt(p) => assert_eq!(p, "./local/tool"),
        _ => panic!("expected an external classification"),
    }
}

#[test]
fn resolve_searches_path_otherwise() {
    let dirs = strings(&["/a", "/b"]);
    let r = resolve("tool", false, &dirs, &vec![false, true]);
    match r {
        Classification::ExternalAt(p) => assert_eq!(p, "/b/tool"),
        _ => panic!("expected an external classification"),
    }
    let r = resolve("tool", false, &dirs, &vec![false, false]);
    assert!(matches!(r, Classification::NotFound));
}

#[test]
fn resolve_path_name_not_executable_falls_to_search() {
    // a name with a slash whose file is not executable is searched on PATH
    let dirs = strings(&["/a"]);
    let r = resolve("sub/tool", false, &dirs, &vec![false]);
    assert!(matches!(r, Classification::NotFound));
}
