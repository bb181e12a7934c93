//! Tab-completion candidates: the builtin names together with the
//! executables discovered on `PATH`, held sorted and without duplicates,
//! and matched against the word being typed.
//!
//! Scanning the `PATH` directories happens outside the library; the
//! discovered names are handed to [`ShellCompleter::new`], which merges
//! them with the builtin identifiers. [`ShellCompleter::complete`]
//! decides the candidates for a line and cursor position.

use vstd::prelude::*;
use vstd::string::StringExecFns;

use crate::resolver::is_builtin_name;
use crate::text::{chars_of, is_space, is_space_char, is_prefix_of, str_eq, str_starts_with,
    string_from_chars, strings_view};

verus! {

/// Lexicographic order on character sequences, by code point.
pub open spec fn lex_le(a: Seq<char>, b: Seq<char>) -> bool
    decreases a.len(),
{
    if a.len() == 0 {
        true
    } else if b.len() == 0 {
        false
    } else if (a[0] as u32) < (b[0] as u32) {
        true
    } else if (a[0] as u32) > (b[0] as u32) {
        false
    } else {
        lex_le(a.skip(1), b.skip(1))
    }
}

/// Strict lexicographic order.
pub open spec fn lex_lt(a: Seq<char>, b: Seq<char>) -> bool {
    lex_le(a, b) && a != b
}

proof fn lemma_char_eq_by_u32(a: char, b: char)
    requires
        a as u32 == b as u32,
    ensures
        a == b,
{
    vstd::utf8::char_u32_cast(a, a as u32);
    vstd::utf8::char_u32_cast(b, b as u32);
}

proof fn lemma_lex_le_total(a: Seq<char>, b: Seq<char>)
    ensures
        lex_le(a, b) || lex_le(b, a),
    decreases a.len(),
{
    if a.len() > 0 && b.len() > 0 && a[0] as u32 == b[0] as u32 {
        lemma_lex_le_total(a.skip(1), b.skip(1));
    }
}

proof fn lemma_lex_le_antisymmetric(a: Seq<char>, b: Seq<char>)
    requires
        lex_le(a, b),
        lex_le(b, a),
    ensures
        a == b,
    decreases a.len(),
{
    if a.len() == 0 {
        assert(b.len() == 0);
        assert(a =~= b);
    } else {
        assert(a[0] as u32 == b[0] as u32);
        lemma_char_eq_by_u32(a[0], b[0]);
        lemma_lex_le_antisymmetric(a.skip(1), b.skip(1));
        assert(a =~= seq![a[0]] + a.skip(1));
        assert(b =~= seq![b[0]] + b.skip(1));
    }
}

proof fn lemma_lex_le_transitive(a: Seq<char>, b: Seq<char>, c: Seq<char>)
    requires
        lex_le(a, b),
        lex_le(b, c),
    ensures
        lex_le(a, c),
    decreases a.len(),
{
    if a.len() > 0 && b.len() > 0 && c.len() > 0 && a[0] as u32 == b[0] as u32 && b[0] as u32
        == c[0] as u32 {
        lemma_lex_le_transitive(a.skip(1), b.skip(1), c.skip(1));
    }
}

proof fn lemma_lex_lt_transitive(a: Seq<char>, b: Seq<char>, c: Seq<char>)
    requires
        lex_lt(a, b),
        lex_lt(b, c),
    ensures
        lex_lt(a, c),
{
    lemma_lex_le_transitive(a, b, c);
    if a == c {
        lemma_lex_le_antisymmetric(a, b);
    }
}

/// Decide the strict lexicographic order of two strings.
pub fn str_lt(a: &str, b: &str) -> (r: bool)
    ensures
        r == lex_lt(a@, b@),
{
    let ca = chars_of(a);
    let cb = chars_of(b);
    let na = ca.len();
    let nb = cb.len();
    let mut i: usize = 0;
    proof {
        assert(a@.skip(0) =~= a@);
        assert(b@.skip(0) =~= b@);
    }
    while i < na && i < nb
        invariant
            i <= na,
            i <= nb,
            na == a@.len(),
            nb == b@.len(),
            ca@ == a@,
            cb@ == b@,
            lex_le(a@, b@) == lex_le(a@.skip(i as int), b@.skip(i as int)),
            lex_le(b@, a@) == lex_le(b@.skip(i as int), a@.skip(i as int)),
            forall|j: int| 0 <= j < i ==> a@[j] == b@[j],
        decreases na - i,
    {
        let ghost pre = i as int;
        let x = ca[i];
        let y = cb[i];
        proof {
            assert(a@.skip(pre)[0] == a@[pre]);
            assert(b@.skip(pre)[0] == b@[pre]);
        }
        if (x as u32) < (y as u32) {
            proof {
                assert(lex_le(a@.skip(pre), b@.skip(pre)));
                assert(a@[pre] != b@[pre]);
                assert(a@ != b@);
            }
            return true;
        }
        if (x as u32) > (y as u32) {
            proof {
                assert(!lex_le(a@.skip(pre), b@.skip(pre)));
            }
            return false;
        }
        i = i + 1;
        proof {
            lemma_char_eq_by_u32(x, y);
            assert(a@.skip(pre).skip(1) =~= a@.skip(i as int));
            assert(b@.skip(pre).skip(1) =~= b@.skip(i as int));
        }
    }
    if na < nb {
        proof {
            assert(a@.skip(na as int).len() == 0);
            assert(lex_le(a@.skip(na as int), b@.skip(na as int)));
            assert(a@ != b@);
        }
        true
    } else {
        proof {
            if na == nb {
                assert(a@ =~= b@);
            } else {
                assert(b@.skip(nb as int).len() == 0);
                assert(a@.skip(nb as int).len() > 0);
                assert(!lex_le(a@.skip(nb as int), b@.skip(nb as int)));
            }
        }
        false
    }
}

/// The sequence is strictly increasing: sorted, with no duplicates.
pub open spec fn strictly_sorted(s: Seq<Seq<char>>) -> bool {
    forall|i: int, j: int| 0 <= i < j < s.len() ==> lex_lt(#[trigger] s[i], #[trigger] s[j])
}

/// Insert `s` into a sorted duplicate-free vector, keeping it so; a
/// value already present is not added again.
fn sorted_insert(v: &mut Vec<String>, s: String)
    requires
        strictly_sorted(strings_view(old(v)@)),
    ensures
        strictly_sorted(strings_view(final(v)@)),
        forall|x: Seq<char>|
            #[trigger] strings_view(final(v)@).contains(x) <==> (strings_view(
                old(v)@,
            ).contains(x) || x == s@),
{
    let ghost before = strings_view(v@);
    let n = v.len();
    let mut i: usize = 0;
    while i < n && str_lt(v[i].as_str(), s.as_str())
        invariant
            i <= n,
            n == v@.len(),
            before == strings_view(v@),
            strictly_sorted(before),
            forall|j: int| 0 <= j < i ==> lex_lt(#[trigger] before[j], s@),
        decreases n - i,
    {
        i = i + 1;
    }
    if i < n && str_eq(v[i].as_str(), s.as_str()) {
        proof {
            assert(before[i as int] == s@);
            assert(before.contains(s@));
            assert(forall|x: Seq<char>|
                #[trigger] strings_view(v@).contains(x) <==> (before.contains(x) || x == s@));
        }
        return;
    }
    proof {
        if i < n {
            assert(!lex_lt(before[i as int], s@));
            assert(before[i as int] != s@);
            lemma_lex_le_total(before[i as int], s@);
            assert(lex_lt(s@, before[i as int]));
        }
    }
    v.insert(i, s);
    proof {
        let after = strings_view(v@);
        assert(after =~= before.insert(i as int, s@));
        assert forall|p: int, q: int| 0 <= p < q < after.len() implies lex_lt(
            after[p],
            after[q],
        ) by {
            let iv = i as int;
            if p < iv && q == iv {
                assert(after[p] == before[p]);
                assert(after[q] == s@);
            } else if p == iv && q > iv {
                assert(after[p] == s@);
                assert(after[q] == before[q - 1]);
                assert(q - 1 >= iv);
                if q - 1 == iv {
                    assert(lex_lt(s@, before[iv]));
                } else {
                    assert(lex_lt(before[iv], before[q - 1]));
                    lemma_lex_lt_transitive(s@, before[iv], before[q - 1]);
                }
            } else if p < iv && q > iv {
                assert(after[p] == before[p]);
                assert(after[q] == before[q - 1]);
            } else if p > iv && q > iv {
                assert(after[p] == before[p - 1]);
                assert(after[q] == before[q - 1]);
            }
        }
        assert forall|x: Seq<char>| #[trigger] after.contains(x) implies (before.contains(x) || x
            == s@) by {
            let j = choose|j: int| 0 <= j < after.len() && after[j] == x;
            if j < i as int {
                assert(before[j] == x);
            } else if j == i as int {
            } else {
                assert(before[j - 1] == x);
            }
        }
        assert forall|x: Seq<char>| (before.contains(x) || x == s@) implies #[trigger] after.contains(
            x,
        ) by {
            if x == s@ {
                assert(after[i as int] == x);
            } else {
                let j = choose|j: int| 0 <= j < before.len() && before[j] == x;
                if j < i as int {
                    assert(after[j] == x);
                } else {
                    assert(after[j + 1] == x);
                }
            }
        }
    }
}

/// The completion candidate list: the builtin identifiers and the
/// discovered `PATH` executables, sorted and without duplicates.
pub struct ShellCompleter {
    pub commands: Vec<String>,
}

/// The completion helper around the candidate list.
pub struct ShellHelper {
    pub completer: ShellCompleter,
}

impl ShellCompleter {
    /// Build the candidate list from the executables found on `PATH`:
    /// it holds exactly the builtin identifiers and the given names, in
    /// sorted order, each once.
    pub fn new(path_commands: &Vec<String>) -> (r: ShellCompleter)
        ensures
            strictly_sorted(strings_view(r.commands@)),
            forall|x: Seq<char>|
                #[trigger] strings_view(r.commands@).contains(x) <==> (is_builtin_name(x)
                    || strings_view(path_commands@).contains(x)),
    {
        let mut commands: Vec<String> = Vec::new();
        sorted_insert(&mut commands, String::from_str("cd"));
        sorted_insert(&mut commands, String::from_str("echo"));
        sorted_insert(&mut commands, String::from_str("exit"));
        sorted_insert(&mut commands, String::from_str("pwd"));
        sorted_insert(&mut commands, String::from_str("type"));
        sorted_insert(&mut commands, String::from_str("history"));
        proof {
            assert(forall|x: Seq<char>|
                #[trigger] strings_view(commands@).contains(x) <==> is_builtin_name(x));
        }
        let n = path_commands.len();
        let mut i: usize = 0;
        while i < n
            invariant
                i <= n,
                n == path_commands@.len(),
                strictly_sorted(strings_view(commands@)),
                forall|x: Seq<char>|
                    #[trigger] strings_view(commands@).contains(x) <==> (is_builtin_name(x)
                        || strings_view(path_commands@).subrange(0, i as int).contains(x)),
            decreases n - i,
        {
            let ghost pre = i as int;
            sorted_insert(&mut commands, path_commands[i].clone());
            i = i + 1;
            proof {
                let pcs = strings_view(path_commands@);
                assert(pcs.subrange(0, i as int) =~= pcs.subrange(0, pre).push(pcs[pre]));
                assert forall|x: Seq<char>|
                    #[trigger] pcs.subrange(0, i as int).contains(x) implies (pcs.subrange(
                    0,
                    pre,
                ).contains(x) || x == pcs[pre]) by {
                    let j = choose|j: int|
                        0 <= j < pcs.subrange(0, i as int).len() && pcs.subrange(0, i as int)[j]
                            == x;
                    if j < pre {
                        assert(pcs.subrange(0, pre)[j] == x);
                    }
                }
                assert forall|x: Seq<char>| (pcs.subrange(0, pre).contains(x) || x == pcs[pre])
                    implies #[trigger] pcs.subrange(0, i as int).contains(x) by {
                    if x == pcs[pre] {
                        assert(pcs.subrange(0, i as int)[pre] == x);
                    } else {
                        let j = choose|j: int|
                            0 <= j < pcs.subrange(0, pre).len() && pcs.subrange(0, pre)[j] == x;
                        assert(pcs.subrange(0, i as int)[j] == x);
                    }
                }
            }
        }
        proof {
            assert(strings_view(path_commands@).subrange(0, n as int) =~= strings_view(
                path_commands@,
            ));
        }
        ShellCompleter { commands }
    }
}

/// The candidates whose names begin with the word being completed.
pub open spec fn matching_commands(commands: Seq<Seq<char>>, word: Seq<char>) -> Seq<Seq<char>> {
    commands.filter(|c: Seq<char>| is_prefix_of(word, c))
}

impl ShellCompleter {
    /// Completion candidates for a cursor at character position `pos` of
    /// `line`: nothing once a whitespace stands before the cursor (only
    /// the command word is completed), else every candidate that begins
    /// with the word before the cursor. The returned position is the
    /// start of the word being replaced, always the line's start here.
    pub fn complete(&self, line: &str, pos: usize) -> (r: (usize, Vec<String>))
        requires
            pos <= line@.len(),
        ensures
            r.0 == 0,
            (exists|j: int| 0 <= j < pos && is_space_char(#[trigger] line@[j]))
                ==> r.1@.len() == 0,
            !(exists|j: int| 0 <= j < pos && is_space_char(#[trigger] line@[j]))
                ==> strings_view(r.1@) == matching_commands(
                strings_view(self.commands@),
                line@.subrange(0, pos as int),
            ),
    {
        let line_chars = chars_of(line);
        let mut j: usize = 0;
        while j < pos
            invariant
                j <= pos,
                pos <= line@.len(),
                line_chars@ == line@,
                forall|k: int| 0 <= k < j ==> !is_space_char(#[trigger] line@[k]),
            decreases pos - j,
        {
            if is_space(line_chars[j]) {
                return (0, Vec::new());
            }
            j = j + 1;
        }
        let mut word_chars: Vec<char> = Vec::new();
        let mut k: usize = 0;
        while k < pos
            invariant
                k <= pos,
                pos <= line@.len(),
                line_chars@ == line@,
                word_chars@ == line@.subrange(0, k as int),
            decreases pos - k,
        {
            word_chars.push(line_chars[k]);
            k = k + 1;
            proof {
                assert(word_chars@ =~= line@.subrange(0, k as int));
            }
        }
        let word = string_from_chars(&word_chars);
        let ghost w = line@.subrange(0, pos as int);
        let ghost cs = strings_view(self.commands@);
        let n = self.commands.len();
        let mut out: Vec<String> = Vec::new();
        let mut i: usize = 0;
        proof {
            reveal(Seq::filter);
            assert(cs.subrange(0, 0) =~= Seq::<Seq<char>>::empty());
            assert(strings_view(out@) =~= matching_commands(cs.subrange(0, 0), w));
        }
        while i < n
            invariant
                i <= n,
                n == self.commands@.len(),
                cs == strings_view(self.commands@),
                word@ == w,
                w == line@.subrange(0, pos as int),
                strings_view(out@) == matching_commands(cs.subrange(0, i as int), w),
            decreases n - i,
        {
            let ghost pre = i as int;
            let ghost out0 = strings_view(out@);
            let candidate = &self.commands[i];
            let matched = str_starts_with(candidate.as_str(), word.as_str());
            if matched {
                out.push(candidate.clone());
            }
            i = i + 1;
            proof {
                reveal(Seq::filter);
                assert(cs.subrange(0, i as int) =~= cs.subrange(0, pre).push(cs[pre]));
                assert(cs.subrange(0, i as int).drop_last() =~= cs.subrange(0, pre));
                assert(cs.subrange(0, i as int).last() == cs[pre]);
                assert(cs[pre] == self.commands@[pre]@);
                if matched {
                    assert(strings_view(out@) =~= out0.push(cs[pre]));
                    assert(strings_view(out@) =~= matching_commands(cs.subrange(0, i as int), w));
                } else {
                    assert(strings_view(out@) =~= out0);
                    assert(strings_view(out@) =~= matching_commands(cs.subrange(0, i as int), w));
                }
            }
        }
        proof {
            assert(cs.subrange(0, n as int) =~= cs);
        }
        (0, out)
    }
}

} // verus!
