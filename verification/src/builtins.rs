//! The in-process builtin commands: the text they emit and the decisions
//! they make, as pure functions.
//!
//! Each builtin here computes from plain values — its argument vector
//! and whatever facts of the environment it needs — and returns the text
//! to write or the action to take. Reading the environment, changing the
//! working directory and terminating the process stay with the caller.

use vstd::prelude::*;
use vstd::string::StringExecFns;

use crate::parser::{expand_escapes, expand_escape_sequences};
use crate::resolver::{contains_slash, has_slash, is_builtin, is_builtin_name, search_executable,
    search_spec};
use crate::text::{chars_of, str_eq, string_from_chars, strings_view};

verus! {

/// The view of an optional string.
pub open spec fn opt_view(o: Option<String>) -> Option<Seq<char>> {
    match o {
        Some(s) => Some(s@),
        None => None,
    }
}

/// A decimal digit.
pub open spec fn is_digit_char(c: char) -> bool {
    48 <= c as u32 <= 57
}

/// The numeric value of a decimal digit character.
pub open spec fn digit_value(c: char) -> int {
    c as u32 - 48
}

/// The value of a sequence of decimal digit characters.
pub open spec fn dec_val(s: Seq<char>) -> int
    decreases s.len(),
{
    if s.len() == 0 {
        0
    } else {
        dec_val(s.drop_last()) * 10 + digit_value(s.last())
    }
}

/// Every character of `s` is a decimal digit.
pub open spec fn all_digits(s: Seq<char>) -> bool {
    forall|i: int| 0 <= i < s.len() ==> is_digit_char(#[trigger] s[i])
}

proof fn lemma_dec_val_nonneg(s: Seq<char>)
    requires
        all_digits(s),
    ensures
        dec_val(s) >= 0,
    decreases s.len(),
{
    if s.len() > 0 {
        assert(all_digits(s.drop_last()));
        lemma_dec_val_nonneg(s.drop_last());
    }
}

/// A digit string's value only grows as digits are appended.
proof fn lemma_dec_val_prefix_le(s: Seq<char>, k: int)
    requires
        all_digits(s),
        0 <= k <= s.len(),
    ensures
        dec_val(s.subrange(0, k)) <= dec_val(s),
    decreases s.len(),
{
    if k == s.len() {
        assert(s.subrange(0, k) =~= s);
    } else {
        assert(all_digits(s.drop_last()));
        lemma_dec_val_nonneg(s.drop_last());
        lemma_dec_val_prefix_le(s.drop_last(), k);
        assert(s.drop_last().subrange(0, k) =~= s.subrange(0, k));
        assert(digit_value(s.last()) >= 0);
    }
}

/// The digit part of a signed decimal integer: what follows an optional
/// leading sign.
pub open spec fn int_digits(s: Seq<char>) -> Seq<char> {
    if s.len() > 0 && (s[0] == '-' || s[0] == '+') {
        s.skip(1)
    } else {
        s
    }
}

/// Whether a decimal integer is written with a leading minus sign.
pub open spec fn int_negative(s: Seq<char>) -> bool {
    s.len() > 0 && s[0] == '-'
}

/// What parsing a signed 32-bit decimal integer yields: an optional `+`
/// or `-`, then one or more digits, nothing else, and a value within the
/// 32-bit range.
pub open spec fn parse_i32_spec(s: Seq<char>) -> Option<int> {
    if int_digits(s).len() > 0 && all_digits(int_digits(s)) {
        if int_negative(s) && dec_val(int_digits(s)) <= 0x8000_0000 {
            Some(-dec_val(int_digits(s)))
        } else if !int_negative(s) && dec_val(int_digits(s)) <= 0x7fff_ffff {
            Some(dec_val(int_digits(s)))
        } else {
            None
        }
    } else {
        None
    }
}

/// Parse a signed 32-bit decimal integer, exactly as
/// [`parse_i32_spec`] describes.
pub fn parse_i32(s: &str) -> (r: Option<i32>)
    ensures
        match r {
            Some(v) => parse_i32_spec(s@) == Some(v as int),
            None => parse_i32_spec(s@) is None,
        },
{
    let chars = chars_of(s);
    let n = chars.len();
    let mut start: usize = 0;
    let mut negative = false;
    if n > 0 && (chars[0] == '-' || chars[0] == '+') {
        negative = chars[0] == '-';
        start = 1;
    }
    let ghost digits: Seq<char> = int_digits(s@);
    proof {
        assert(digits.len() == n - start);
        assert(forall|j: int| 0 <= j < digits.len() ==> digits[j] == s@[j + start]);
    }
    if start >= n {
        return None;
    }
    let mut acc: u64 = 0;
    let mut i: usize = start;
    while i < n
        invariant
            start <= i <= n,
            start <= 1,
            n == s@.len(),
            chars@ == s@,
            digits == int_digits(s@),
            digits.len() == n - start,
            forall|j: int| 0 <= j < digits.len() ==> digits[j] == s@[j + start],
            forall|j: int| 0 <= j < i - start ==> is_digit_char(#[trigger] digits[j]),
            acc as int == dec_val(digits.subrange(0, i - start)),
            acc <= 0x8000_0000,
        decreases n - i,
    {
        let ghost k = i - start;
        let c = chars[i];
        let u = c as u32;
        if u < 48 || u > 57 {
            proof {
                assert(digits[k as int] == c);
                assert(!all_digits(digits));
            }
            return None;
        }
        let d = (u - 48) as u64;
        let next = acc * 10 + d;
        proof {
            assert(digits[k as int] == c);
            assert(digits.subrange(0, k + 1) =~= digits.subrange(0, k as int).push(c));
            assert(digits.subrange(0, k + 1).drop_last() =~= digits.subrange(0, k as int));
            assert(next as int == dec_val(digits.subrange(0, k + 1)));
        }
        if next > 0x8000_0000 {
            proof {
                if all_digits(digits) {
                    lemma_dec_val_prefix_le(digits, k + 1);
                }
            }
            return None;
        }
        acc = next;
        i = i + 1;
    }
    proof {
        assert(digits.subrange(0, (n - start) as int) =~= digits);
    }
    if negative {
        if acc == 0x8000_0000 {
            Some(i32::MIN)
        } else {
            Some(-(acc as i32))
        }
    } else {
        if acc <= 0x7fff_ffff {
            Some(acc as i32)
        } else {
            None
        }
    }
}

/// The digit part of an unsigned decimal size: what follows an optional
/// leading plus sign.
pub open spec fn size_digits(s: Seq<char>) -> Seq<char> {
    if s.len() > 0 && s[0] == '+' {
        s.skip(1)
    } else {
        s
    }
}

/// What parsing an unsigned size yields: an optional `+`, then one or
/// more digits, nothing else, and a value that fits the platform size.
pub open spec fn parse_usize_spec(s: Seq<char>) -> Option<int> {
    if size_digits(s).len() > 0 && all_digits(size_digits(s)) && dec_val(size_digits(s))
        <= usize::MAX as int {
        Some(dec_val(size_digits(s)))
    } else {
        None
    }
}

/// Parse an unsigned decimal size, exactly as [`parse_usize_spec`]
/// describes.
pub fn parse_usize(s: &str) -> (r: Option<usize>)
    ensures
        match r {
            Some(v) => parse_usize_spec(s@) == Some(v as int),
            None => parse_usize_spec(s@) is None,
        },
{
    let chars = chars_of(s);
    let n = chars.len();
    let mut start: usize = 0;
    if n > 0 && chars[0] == '+' {
        start = 1;
    }
    let ghost digits: Seq<char> = size_digits(s@);
    proof {
        assert(digits.len() == n - start);
        assert(forall|j: int| 0 <= j < digits.len() ==> digits[j] == s@[j + start]);
    }
    if start >= n {
        return None;
    }
    let mut acc: usize = 0;
    let mut i: usize = start;
    while i < n
        invariant
            start <= i <= n,
            start <= 1,
            n == s@.len(),
            chars@ == s@,
            digits == size_digits(s@),
            digits.len() == n - start,
            forall|j: int| 0 <= j < digits.len() ==> digits[j] == s@[j + start],
            forall|j: int| 0 <= j < i - start ==> is_digit_char(#[trigger] digits[j]),
            acc as int == dec_val(digits.subrange(0, i - start)),
        decreases n - i,
    {
        let ghost k = i - start;
        let c = chars[i];
        let u = c as u32;
        if u < 48 || u > 57 {
            proof {
                assert(digits[k as int] == c);
                assert(!is_digit_char(digits[k as int]));
            }
            return None;
        }
        let d = (u - 48) as usize;
        proof {
            assert(digits[k as int] == c);
            assert(digits.subrange(0, k + 1) =~= digits.subrange(0, k as int).push(c));
            assert(digits.subrange(0, k + 1).drop_last() =~= digits.subrange(0, k as int));
        }
        let next = match acc.checked_mul(10) {
            Some(x) => match x.checked_add(d) {
                Some(y) => y,
                None => {
                    proof {
                        lemma_dec_val_nonneg(digits.subrange(0, k as int));
                        if all_digits(digits) {
                            lemma_dec_val_prefix_le(digits, k + 1);
                        }
                    }
                    return None;
                },
            },
            None => {
                proof {
                    lemma_dec_val_nonneg(digits.subrange(0, k as int));
                    if all_digits(digits) {
                        lemma_dec_val_prefix_le(digits, k + 1);
                    }
                }
                return None;
            },
        };
        acc = next;
        i = i + 1;
    }
    proof {
        assert(digits.subrange(0, (n - start) as int) =~= digits);
    }
    Some(acc)
}

/// The exit code the `exit` builtin uses: its first argument read as a
/// 32-bit integer, or zero when the argument is absent or not numeric.
pub open spec fn exit_code_spec(args: Seq<Seq<char>>) -> int {
    if args.len() == 0 {
        0
    } else {
        match parse_i32_spec(args[0]) {
            Some(v) => v,
            None => 0,
        }
    }
}

/// Decide the process exit code for `exit` from the builtin's arguments
/// (the argument vector without the command name itself). The caller
/// terminates the process with this code; this function only computes it.
pub fn command_exit(arguments: &Vec<String>) -> (code: i32)
    ensures
        code as int == exit_code_spec(strings_view(arguments@)),
{
    if arguments.len() == 0 {
        0
    } else {
        match parse_i32(arguments[0].as_str()) {
            Some(v) => v,
            None => 0,
        }
    }
}

/// Arguments joined with single spaces.
pub open spec fn join_spaced(args: Seq<Seq<char>>) -> Seq<char>
    decreases args.len(),
{
    if args.len() == 0 {
        Seq::empty()
    } else if args.len() == 1 {
        args[0]
    } else {
        args[0] + seq![' '] + join_spaced(args.skip(1))
    }
}

proof fn lemma_join_snoc(args: Seq<Seq<char>>, x: Seq<char>)
    ensures
        join_spaced(args.push(x)) == if args.len() == 0 {
            x
        } else {
            join_spaced(args) + seq![' '] + x
        },
    decreases args.len(),
{
    if args.len() == 0 {
        assert(args.push(x).len() == 1);
        assert(args.push(x)[0] == x);
    } else if args.len() == 1 {
        assert(args.push(x)[0] == args[0]);
        assert(args.push(x).skip(1) =~= seq![x]);
        assert(join_spaced(seq![x]) == x);
    } else {
        assert(args.push(x)[0] == args[0]);
        assert(args.push(x).skip(1) =~= args.skip(1).push(x));
        lemma_join_snoc(args.skip(1), x);
        assert((args[0] + seq![' '] + (join_spaced(args.skip(1)) + seq![' '] + x)) =~= ((args[0]
            + seq![' '] + join_spaced(args.skip(1))) + seq![' '] + x));
    }
}

/// Every argument with its escape sequences expanded.
pub open spec fn expand_all(args: Seq<Seq<char>>) -> Seq<Seq<char>> {
    args.map_values(|a: Seq<char>| expand_escapes(a))
}

/// The text `echo` writes: its arguments joined with single spaces and a
/// trailing newline; when the first argument is exactly `-e`, the
/// remaining arguments have their escape sequences expanded first.
pub open spec fn echo_output(args: Seq<Seq<char>>) -> Seq<char> {
    let joined = if args.len() > 0 && args[0] == "-e"@ {
        join_spaced(expand_all(args.skip(1)))
    } else {
        join_spaced(args)
    };
    joined + seq!['\n']
}

/// The output of the `echo` builtin for the given arguments (the
/// argument vector without the command name itself).
pub fn command_echo(arguments: &Vec<String>) -> (r: String)
    ensures
        r@ == echo_output(strings_view(arguments@)),
{
    let ghost args = strings_view(arguments@);
    let n = arguments.len();
    let mut expand = false;
    let mut start: usize = 0;
    if n > 0 && str_eq(arguments[0].as_str(), "-e") {
        expand = true;
        start = 1;
    }
    let ghost target: Seq<Seq<char>> = if expand {
        expand_all(args.skip(1))
    } else {
        args
    };
    proof {
        assert(target.len() == n - start);
    }
    let mut out: Vec<char> = Vec::new();
    let mut i: usize = start;
    proof {
        assert(target.subrange(0, 0) =~= Seq::<Seq<char>>::empty());
    }
    while i < n
        invariant
            start <= i <= n,
            start <= 1,
            n == arguments@.len(),
            args == strings_view(arguments@),
            target == (if expand {
                expand_all(args.skip(1))
            } else {
                args
            }),
            expand ==> start == 1,
            !expand ==> start == 0,
            target.len() == n - start,
            out@ == join_spaced(target.subrange(0, i - start)),
        decreases n - i,
    {
        let ghost k = i - start;
        let piece: String = if expand {
            expand_escape_sequences(arguments[i].as_str())
        } else {
            arguments[i].clone()
        };
        proof {
            assert(args[i as int] == arguments@[i as int]@);
            if expand {
                assert(args.skip(1)[k as int] == args[i as int]);
                assert(target[k as int] == expand_escapes(args[i as int]));
            }
            assert(piece@ == target[k as int]);
        }
        let ghost out0 = out@;
        if i > start {
            out.push(' ');
        }
        let mut piece_chars = chars_of(piece.as_str());
        out.append(&mut piece_chars);
        i = i + 1;
        proof {
            assert(target.subrange(0, k + 1) =~= target.subrange(0, k as int).push(
                target[k as int],
            ));
            lemma_join_snoc(target.subrange(0, k as int), target[k as int]);
            if k == 0 {
                assert(out0 =~= Seq::<char>::empty());
                assert(out@ =~= join_spaced(target.subrange(0, k + 1)));
            } else {
                assert(out@ =~= (out0 + seq![' ']) + piece@);
                assert((out0 + seq![' ']) + piece@ =~= out0 + seq![' '] + piece@);
                assert(out@ =~= join_spaced(target.subrange(0, k + 1)));
            }
        }
    }
    proof {
        assert(target.subrange(0, (n - start) as int) =~= target);
    }
    out.push('\n');
    proof {
        assert(out@ =~= join_spaced(target) + seq!['\n']);
    }
    string_from_chars(&out)
}

/// The line `type` writes to its output stream: the builtin report for a
/// builtin identifier, the path for a name written as a path to an
/// executable file, the resolved path for a program found on the list,
/// nothing otherwise (or when no name was given).
pub open spec fn type_stdout_spec(
    args: Seq<Seq<char>>,
    name_is_executable_file: bool,
    dirs: Seq<Seq<char>>,
    flags: Seq<bool>,
) -> Option<Seq<char>> {
    if args.len() == 0 {
        None
    } else if is_builtin_name(args[0]) {
        Some(args[0] + " is a shell builtin\n"@)
    } else if contains_slash(args[0]) && name_is_executable_file {
        Some(args[0] + " is "@ + args[0] + "\n"@)
    } else {
        match search_spec(dirs, flags, args[0]) {
            Some(p) => Some(args[0] + " is "@ + p + "\n"@),
            None => None,
        }
    }
}

/// The line `type` writes to its error stream: the not-found report,
/// exactly when the name is neither a builtin, nor a path to an
/// executable file, nor found on the list.
pub open spec fn type_stderr_spec(
    args: Seq<Seq<char>>,
    name_is_executable_file: bool,
    dirs: Seq<Seq<char>>,
    flags: Seq<bool>,
) -> Option<Seq<char>> {
    if args.len() == 0 {
        None
    } else if is_builtin_name(args[0]) {
        None
    } else if contains_slash(args[0]) && name_is_executable_file {
        None
    } else {
        match search_spec(dirs, flags, args[0]) {
            Some(p) => None,
            None => Some(args[0] + ": not found\n"@),
        }
    }
}

/// What the `type` builtin writes, one optional line per stream.
pub struct TypeOutput {
    pub stdout_line: Option<String>,
    pub stderr_line: Option<String>,
}

/// The `type` builtin: report what its first argument resolves to, as
/// the executable resolver would.
///
/// `name_is_executable_file` reports whether the file at that name — if
/// written as a path — exists and is executable; `path_dirs` and
/// `executable` describe the `PATH` search for it, as for
/// [`search_executable`].
pub fn command_type(
    arguments: &Vec<String>,
    name_is_executable_file: bool,
    path_dirs: &Vec<String>,
    executable: &Vec<bool>,
) -> (r: TypeOutput)
    requires
        path_dirs@.len() == executable@.len(),
    ensures
        opt_view(r.stdout_line) == type_stdout_spec(
            strings_view(arguments@),
            name_is_executable_file,
            strings_view(path_dirs@),
            executable@,
        ),
        opt_view(r.stderr_line) == type_stderr_spec(
            strings_view(arguments@),
            name_is_executable_file,
            strings_view(path_dirs@),
            executable@,
        ),
{
    if arguments.len() == 0 {
        return TypeOutput { stdout_line: None, stderr_line: None };
    }
    let command = &arguments[0];
    if is_builtin(command.as_str()) {
        TypeOutput {
            stdout_line: Some(String::from_str(command.as_str()).concat(" is a shell builtin\n")),
            stderr_line: None,
        }
    } else if has_slash(command.as_str()) && name_is_executable_file {
        TypeOutput {
            stdout_line: Some(
                String::from_str(command.as_str()).concat(" is ").concat(command.as_str()).concat(
                    "\n",
                ),
            ),
            stderr_line: None,
        }
    } else {
        match search_executable(command.as_str(), path_dirs, executable) {
            Some(p) => TypeOutput {
                stdout_line: Some(
                    String::from_str(command.as_str()).concat(" is ").concat(p.as_str()).concat(
                        "\n",
                    ),
                ),
                stderr_line: None,
            },
            None => TypeOutput {
                stdout_line: None,
                stderr_line: Some(String::from_str(command.as_str()).concat(": not found\n")),
            },
        }
    }
}

/// `type` classification is stable for builtin identifiers: whatever
/// the file system or the directory list reports — even when a
/// same-named executable stands on it — the name is reported as a shell
/// builtin, never as an external program, and never as not found.
pub proof fn lemma_type_builtin_stable(
    args: Seq<Seq<char>>,
    name_is_executable_file: bool,
    dirs: Seq<Seq<char>>,
    flags: Seq<bool>,
)
    requires
        args.len() > 0,
        is_builtin_name(args[0]),
    ensures
        type_stdout_spec(args, name_is_executable_file, dirs, flags) == Some(
            args[0] + " is a shell builtin\n"@,
        ),
        type_stderr_spec(args, name_is_executable_file, dirs, flags) is None,
{
}

/// The directory `cd` changes to: its first argument, with an absent
/// argument or the `~` shorthand standing for the home directory.
pub open spec fn cd_target_spec(args: Seq<Seq<char>>, home: Seq<char>) -> Seq<char> {
    if args.len() == 0 {
        home
    } else if args[0] == "~"@ {
        home
    } else {
        args[0]
    }
}

/// The `cd` builtin's decision: which directory to change to. Only the
/// first argument is consulted; the caller performs the change.
pub fn command_cd(arguments: &Vec<String>, home: &str) -> (r: String)
    ensures
        r@ == cd_target_spec(strings_view(arguments@), home@),
{
    if arguments.len() == 0 {
        String::from_str(home)
    } else if str_eq(arguments[0].as_str(), "~") {
        String::from_str(home)
    } else {
        arguments[0].clone()
    }
}

/// The error line `cd` writes when the directory cannot be entered.
pub fn cd_error_message(directory: &str) -> (r: String)
    ensures
        r@ == "cd: "@ + directory@ + ": No such file or directory\n"@,
{
    String::from_str("cd: ").concat(directory).concat(": No such file or directory\n")
}

/// The line `pwd` writes for the given working directory.
pub fn command_pwd(current_directory: &str) -> (r: String)
    ensures
        r@ == current_directory@ + "\n"@,
{
    String::from_str(current_directory).concat("\n")
}

/// The character of a decimal digit value.
pub open spec fn digit_char(d: int) -> char {
    ((48 + d) as u32) as char
}

/// The decimal digit characters of a nonnegative number.
pub open spec fn dec_digits(n: int) -> Seq<char>
    decreases n,
{
    if n < 10 {
        seq![digit_char(n)]
    } else {
        dec_digits(n / 10).push(digit_char(n % 10))
    }
}

/// Append the decimal digits of `n`.
fn push_dec(n: u64, out: &mut Vec<char>)
    ensures
        final(out)@ == old(out)@ + dec_digits(n as int),
    decreases n,
{
    if n < 10 {
        let c = (48 + n as u8) as char;
        out.push(c);
        proof {
            assert(c == digit_char(n as int));
            assert(out@ =~= old(out)@ + dec_digits(n as int));
        }
    } else {
        push_dec(n / 10, out);
        let c = (48 + (n % 10) as u8) as char;
        out.push(c);
        proof {
            assert(c == digit_char(n as int % 10));
            assert(out@ =~= old(out)@ + dec_digits(n as int));
        }
    }
}

/// A run of `k` spaces.
pub open spec fn spaces(k: int) -> Seq<char> {
    Seq::new(if k < 0 {
        0
    } else {
        k as nat
    }, |i: int| ' ')
}

/// A number right-aligned in a field of width five: the decimal digits,
/// space-padded on the left when shorter than the field.
pub open spec fn dec_field(n: int) -> Seq<char> {
    spaces(5 - dec_digits(n).len()) + dec_digits(n)
}

/// Append `n` right-aligned in a field of width five.
fn push_dec_field(n: u64, out: &mut Vec<char>)
    ensures
        final(out)@ == old(out)@ + dec_field(n as int),
{
    let mut digits: Vec<char> = Vec::new();
    push_dec(n, &mut digits);
    let ghost out0 = out@;
    let mut pad: usize = 0;
    if digits.len() < 5 {
        pad = 5 - digits.len();
    }
    let mut p: usize = 0;
    while p < pad
        invariant
            p <= pad,
            out@ == out0 + spaces(p as int),
        decreases pad - p,
    {
        out.push(' ');
        p = p + 1;
        proof {
            assert(out@ =~= out0 + spaces(p as int));
        }
    }
    out.append(&mut digits);
    proof {
        assert(spaces(pad as int) =~= spaces(5 - dec_digits(n as int).len()));
        assert(out@ =~= out0 + dec_field(n as int));
    }
}

/// The entry count the `history` builtin was asked for: its first
/// argument read as a size, or zero (meaning all entries) when absent or
/// not numeric.
pub open spec fn history_count(args: Seq<Seq<char>>) -> int {
    if args.len() == 0 {
        0
    } else {
        match parse_usize_spec(args[0]) {
            Some(v) => v,
            None => 0,
        }
    }
}

/// The first entry index printed: the last `count` entries, or all of
/// them when `count` is zero.
pub open spec fn history_start(len: int, count: int) -> int {
    if count > 0 {
        if count >= len {
            0
        } else {
            len - count
        }
    } else {
        0
    }
}

/// The printed history from entry `i` on: each entry on its own line,
/// prefixed by its one-based position right-aligned in a field of five.
pub open spec fn history_lines(entries: Seq<Seq<char>>, i: int) -> Seq<char>
    decreases entries.len() - i,
{
    if i < 0 || i >= entries.len() {
        Seq::empty()
    } else {
        dec_field(i + 1) + seq![' ', ' '] + entries[i] + seq!['\n'] + history_lines(entries, i + 1)
    }
}

/// The whole output of the `history` builtin.
pub open spec fn history_output(entries: Seq<Seq<char>>, args: Seq<Seq<char>>) -> Seq<char> {
    history_lines(entries, history_start(entries.len() as int, history_count(args)))
}

/// The `history` builtin: print the last `n` entries of the history
/// (all of them when no count, a zero count or a non-numeric count was
/// given), each prefixed with its one-based position.
pub fn command_history(entries: &Vec<String>, arguments: &Vec<String>) -> (r: String)
    ensures
        r@ == history_output(strings_view(entries@), strings_view(arguments@)),
{
    let ghost hist = strings_view(entries@);
    let n = entries.len();
    let count: usize = if arguments.len() > 0 {
        match parse_usize(arguments[0].as_str()) {
            Some(v) => v,
            None => 0,
        }
    } else {
        0
    };
    proof {
        assert(count as int == history_count(strings_view(arguments@)));
    }
    let start: usize = if count > 0 {
        if count >= n {
            0
        } else {
            n - count
        }
    } else {
        0
    };
    proof {
        assert(start as int == history_start(hist.len() as int, count as int));
    }
    let mut out: Vec<char> = Vec::new();
    let mut i: usize = start;
    while i < n
        invariant
            start <= i <= n,
            n == entries@.len(),
            hist == strings_view(entries@),
            history_lines(hist, start as int) == out@ + history_lines(hist, i as int),
        decreases n - i,
    {
        let ghost out0 = out@;
        let ghost k = i as int;
        push_dec_field((i + 1) as u64, &mut out);
        out.push(' ');
        out.push(' ');
        let mut entry_chars = chars_of(entries[i].as_str());
        out.append(&mut entry_chars);
        out.push('\n');
        i = i + 1;
        proof {
            assert(hist[k] == entries@[k]@);
            assert(out@ =~= out0 + (dec_field(k + 1) + seq![' ', ' '] + hist[k] + seq!['\n']));
            assert(out0 + (dec_field(k + 1) + seq![' ', ' '] + hist[k] + seq!['\n'])
                + history_lines(hist, k + 1) =~= out0 + ((dec_field(k + 1) + seq![' ', ' ']
                + hist[k] + seq!['\n']) + history_lines(hist, k + 1)));
        }
    }
    proof {
        assert(history_lines(hist, n as int) =~= Seq::<char>::empty());
        assert(out@ + Seq::<char>::empty() =~= out@);
    }
    string_from_chars(&out)
}

} // verus!
