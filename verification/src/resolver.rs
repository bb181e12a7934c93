//! Executable resolution: classifying a command name as a builtin, a
//! path to an executable file, or a `PATH`-searchable program.
//!
//! The file system itself stays outside the library: callers scan the
//! `PATH`-style directory list and report, per directory, whether an
//! entry of the wanted name is an executable regular file. The search
//! order and the classification are decided — and proved — here.

use vstd::prelude::*;

use crate::text::{str_eq, chars_of, string_from_chars, strings_view};

verus! {

/// The fixed identifiers of the in-process builtin commands.
pub open spec fn is_builtin_name(name: Seq<char>) -> bool {
    ||| name == "cd"@
    ||| name == "echo"@
    ||| name == "exit"@
    ||| name == "pwd"@
    ||| name == "type"@
    ||| name == "history"@
}

/// Whether `name` names a shell builtin.
pub fn is_builtin(name: &str) -> (r: bool)
    ensures
        r == is_builtin_name(name@),
{
    str_eq(name, "cd") || str_eq(name, "echo") || str_eq(name, "exit") || str_eq(name, "pwd")
        || str_eq(name, "type") || str_eq(name, "history")
}

/// Whether a file with the given kind and permission bits counts as
/// executable: a regular file with at least one execute bit set.
pub fn is_executable(is_regular_file: bool, permission_mode: u32) -> (r: bool)
    ensures
        r == (is_regular_file && permission_mode & 0o111 != 0),
{
    is_regular_file && permission_mode & 0o111 != 0
}

/// The candidate path for `name` inside directory `dir`: the two joined
/// with a path separator. An empty directory component stands for the
/// current directory and contributes the bare name.
pub open spec fn joined_path(dir: Seq<char>, name: Seq<char>) -> Seq<char> {
    if dir.len() == 0 {
        name
    } else {
        dir + "/"@ + name
    }
}

/// Join a directory and a file name with a path separator.
pub fn join_path(dir: &str, name: &str) -> (r: String)
    ensures
        r@ == joined_path(dir@, name@),
{
    let mut out = chars_of(dir);
    if out.len() > 0 {
        out.push('/');
    }
    let mut tail = chars_of(name);
    out.append(&mut tail);
    proof {
        reveal_strlit("/");
        assert(out@ =~= joined_path(dir@, name@));
    }
    string_from_chars(&out)
}

/// The result of searching the directory list in order: the candidate
/// path from the first directory whose entry is executable.
pub open spec fn search_spec(dirs: Seq<Seq<char>>, flags: Seq<bool>, name: Seq<char>) -> Option<
    Seq<char>,
>
    decreases dirs.len(),
{
    if dirs.len() == 0 || flags.len() == 0 {
        None
    } else if flags[0] {
        Some(joined_path(dirs[0], name))
    } else {
        search_spec(dirs.skip(1), flags.skip(1), name)
    }
}

/// Search the `PATH`-style directory list for `command`.
///
/// `executable[i]` reports whether directory `path_dirs[i]` holds an
/// entry named `command` that is an executable regular file; the first
/// directory for which it holds wins.
pub fn search_executable(command: &str, path_dirs: &Vec<String>, executable: &Vec<bool>) -> (r:
    Option<String>)
    requires
        path_dirs@.len() == executable@.len(),
    ensures
        match r {
            Some(p) => search_spec(strings_view(path_dirs@), executable@, command@) == Some(p@),
            None => search_spec(strings_view(path_dirs@), executable@, command@) is None,
        },
{
    let ghost dirs = strings_view(path_dirs@);
    let n = path_dirs.len();
    let mut i: usize = 0;
    proof {
        assert(dirs.skip(0) =~= dirs);
        assert(executable@.skip(0) =~= executable@);
    }
    while i < n
        invariant
            i <= n,
            n == path_dirs@.len(),
            n == executable@.len(),
            dirs == strings_view(path_dirs@),
            search_spec(dirs, executable@, command@) == search_spec(
                dirs.skip(i as int),
                executable@.skip(i as int),
                command@,
            ),
        decreases n - i,
    {
        let ghost pre = i as int;
        if executable[i] {
            let p = join_path(path_dirs[i].as_str(), command);
            proof {
                assert(dirs.skip(pre)[0] == dirs[pre]);
                assert(executable@.skip(pre)[0] == executable@[pre]);
            }
            return Some(p);
        }
        i = i + 1;
        proof {
            assert(dirs.skip(pre)[0] == dirs[pre]);
            assert(executable@.skip(pre)[0] == executable@[pre]);
            assert(dirs.skip(pre).skip(1) =~= dirs.skip(i as int));
            assert(executable@.skip(pre).skip(1) =~= executable@.skip(i as int));
        }
    }
    proof {
        assert(dirs.skip(n as int).len() == 0);
    }
    None
}

/// The first executable directory decides the search: if `flags[i]`
/// holds and no earlier flag does, the result is the candidate from
/// directory `i`.
pub proof fn lemma_search_first_match(
    dirs: Seq<Seq<char>>,
    flags: Seq<bool>,
    name: Seq<char>,
    i: int,
)
    requires
        dirs.len() == flags.len(),
        0 <= i < flags.len(),
        flags[i],
        forall|j: int| 0 <= j < i ==> !flags[j],
    ensures
        search_spec(dirs, flags, name) == Some(joined_path(dirs[i], name)),
    decreases i,
{
    if i == 0 {
    } else {
        assert(!flags[0]);
        assert(forall|j: int| 0 <= j < i - 1 ==> !flags.skip(1)[j]);
        lemma_search_first_match(dirs.skip(1), flags.skip(1), name, i - 1);
        assert(dirs.skip(1)[i - 1] == dirs[i]);
    }
}

proof fn lemma_least_flag(flags: Seq<bool>, i: int)
    requires
        0 <= i < flags.len(),
        flags[i],
    ensures
        exists|k: int|
            0 <= k <= i && flags[k] && (forall|m: int| 0 <= m < k ==> !flags[m]),
    decreases i,
{
    if forall|m: int| 0 <= m < i ==> !flags[m] {
        assert(0 <= i <= i && flags[i] && (forall|m: int| 0 <= m < i ==> !flags[m]));
    } else {
        let m = choose|m: int| 0 <= m < i && flags[m];
        lemma_least_flag(flags, m);
        let k = choose|k: int|
            0 <= k <= m && flags[k] && (forall|mm: int| 0 <= mm < k ==> !flags[mm]);
        assert(0 <= k <= i && flags[k] && (forall|mm: int| 0 <= mm < k ==> !flags[mm]));
    }
}

/// `PATH` search order: when two directories on the list both hold an
/// executable entry for `name`, the earlier-listed one is resolved — the
/// result comes from some directory no later than the first of the two.
pub proof fn lemma_search_prefers_earlier(
    dirs: Seq<Seq<char>>,
    flags: Seq<bool>,
    name: Seq<char>,
    i: int,
    j: int,
)
    requires
        dirs.len() == flags.len(),
        0 <= i < j < flags.len(),
        flags[i],
        flags[j],
    ensures
        exists|k: int|
            0 <= k <= i && flags[k] && search_spec(dirs, flags, name) == Some(
                joined_path(dirs[k], name),
            ),
{
    lemma_least_flag(flags, i);
    let k = choose|k: int|
        0 <= k <= i && flags[k] && (forall|m: int| 0 <= m < k ==> !flags[m]);
    lemma_search_first_match(dirs, flags, name, k);
}

/// Whether the name is written as a path (holds a slash) rather than a
/// bare command name.
pub open spec fn contains_slash(s: Seq<char>) -> bool {
    exists|i: int| 0 <= i < s.len() && s[i] == '/'
}

/// Whether `name` holds a path separator.
pub fn has_slash(name: &str) -> (r: bool)
    ensures
        r == contains_slash(name@),
{
    let chars = chars_of(name);
    let n = chars.len();
    let mut i: usize = 0;
    while i < n
        invariant
            i <= n,
            n == chars@.len(),
            chars@ == name@,
            forall|j: int| 0 <= j < i ==> name@[j] != '/',
        decreases n - i,
    {
        if chars[i] == '/' {
            return true;
        }
        i = i + 1;
    }
    false
}

/// What a command name resolves to.
#[derive(Clone, Debug)]
pub enum Classification {
    /// The name is one of the fixed builtin identifiers.
    Builtin,
    /// The name runs as an external program at this path.
    ExternalAt(String),
    /// Neither a builtin nor an executable found on the search list.
    NotFound,
}

/// Classify a command name.
///
/// Builtin identifiers win over everything. A name written as a path is
/// taken as-is when the caller reports the file at that path executable
/// (`name_is_executable_file`). Anything else is searched for along the
/// directory list, `executable[i]` reporting — as for
/// [`search_executable`] — whether directory `i` holds an executable
/// entry of that name.
pub fn resolve(
    name: &str,
    name_is_executable_file: bool,
    path_dirs: &Vec<String>,
    executable: &Vec<bool>,
) -> (r: Classification)
    requires
        path_dirs@.len() == executable@.len(),
    ensures
        is_builtin_name(name@) ==> r is Builtin,
        !is_builtin_name(name@) && contains_slash(name@) && name_is_executable_file ==> (r matches
            Classification::ExternalAt(p) && p@ == name@),
        !is_builtin_name(name@) && !(contains_slash(name@) && name_is_executable_file) ==> match
            search_spec(strings_view(path_dirs@), executable@, name@) {
            Some(p) => r matches Classification::ExternalAt(q) && q@ == p,
            None => r is NotFound,
        },
{
    if is_builtin(name) {
        Classification::Builtin
    } else if has_slash(name) && name_is_executable_file {
        Classification::ExternalAt(String::from_str(name))
    } else {
        match search_executable(name, path_dirs, executable) {
            Some(p) => Classification::ExternalAt(p),
            None => Classification::NotFound,
        }
    }
}

} // verus!
