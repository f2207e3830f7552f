//! Completion of command names in the interactive shell.

use vstd::prelude::*;
use crate::text::{char_is_ws, chars_of, is_prefix, is_ws, string_of, sub_chars, vec_starts_with, views_of_strings};

verus! {

/// The command names the shell offers, in the order they are offered.
pub open spec fn command_list() -> Seq<Seq<char>> {
    seq![
        "help"@, "pwd"@, "lpwd"@, "quota"@, "ls"@, "lls"@, "cd"@, "lcd"@, "mkdir"@, "lmkdir"@,
        "search"@, "semsearch"@, "put"@, "get"@, "mget"@, "rename"@, "mv"@, "cp"@, "rm"@,
        "lmv"@, "lcp"@, "lrm"@, "clear"@, "exit"@, "quit"@, "bye"@,
    ]
}

/// The command names the shell offers.
pub fn command_words() -> (r: Vec<&'static str>)
    ensures
        r@.len() == command_list().len(),
        forall|i: int| 0 <= i < r@.len() ==> #[trigger] r@[i]@ == command_list()[i],
{
    let r = vec![
        "help", "pwd", "lpwd", "quota", "ls", "lls", "cd", "lcd", "mkdir", "lmkdir",
        "search", "semsearch", "put", "get", "mget", "rename", "mv", "cp", "rm",
        "lmv", "lcp", "lrm", "clear", "exit", "quit", "bye",
    ];
    assert(r@.len() == command_list().len());
    r
}

/// Position of the last whitespace character.
pub open spec fn last_ws(s: Seq<char>) -> Option<int>
    decreases s.len(),
{
    if s.len() == 0 {
        None
    } else if is_ws(s.last()) {
        Some(s.len() - 1)
    } else {
        last_ws(s.drop_last())
    }
}

/// The word being typed: what follows the last whitespace character.
pub open spec fn last_word(s: Seq<char>) -> Seq<char> {
    match last_ws(s) {
        Some(i) => s.skip(i + 1),
        None => s,
    }
}

/// The candidates that start with `w`, in order.
pub open spec fn starting_with(cands: Seq<Seq<char>>, w: Seq<char>) -> Seq<Seq<char>>
    decreases cands.len(),
{
    if cands.len() == 0 {
        Seq::empty()
    } else {
        let prev = starting_with(cands.drop_last(), w);
        if is_prefix(w, cands.last()) { prev.push(cands.last()) } else { prev }
    }
}

proof fn lemma_last_ws(s: Seq<char>, k: int)
    requires
        0 <= k <= s.len(),
        forall|j: int| k <= j < s.len() ==> !is_ws(#[trigger] s[j]),
    ensures
        last_ws(s) == last_ws(s.take(k)),
    decreases s.len() - k,
{
    if k < s.len() {
        assert(s.drop_last() =~= s.take(s.len() - 1));
        lemma_last_ws(s.drop_last(), k);
        assert(s.drop_last().take(k) =~= s.take(k));
    } else {
        assert(s.take(k) =~= s);
    }
}

/// Completes the word at the end of `prefix` (the line up to the cursor)
/// to the command names it begins. Gives the word and the candidates.
pub fn complete_command(prefix: &str) -> (r: (String, Vec<String>))
    ensures
        r.0@ == last_word(prefix@),
        views_of_strings(r.1@) == starting_with(command_list(), last_word(prefix@)),
{
    let p = chars_of(prefix);
    let mut i: usize = p.len();
    while i > 0 && !char_is_ws(p[i - 1])
        invariant
            i <= p@.len(),
            forall|j: int| i <= j < p@.len() ==> !is_ws(#[trigger] p@[j]),
        decreases i,
    {
        i = i - 1;
    }
    proof {
        lemma_last_ws(p@, i as int);
        if i > 0 {
            assert(p@.take(i as int).last() == p@[i - 1]);
            assert(last_ws(p@.take(i as int)) == Some(i - 1));
        } else {
            assert(p@.take(0) =~= Seq::<char>::empty());
        }
    }
    let word = sub_chars(&p, i, p.len());
    assert(word@ =~= last_word(p@)) by {
        if i == 0 {
            assert(p@.skip(0) =~= p@);
        }
    }
    let words = command_words();
    let mut out: Vec<String> = Vec::new();
    assert(views_of_strings(out@) =~= starting_with(command_list().take(0), word@));
    for k in 0..words.len()
        invariant
            words@.len() == command_list().len(),
            forall|m: int| 0 <= m < words@.len() ==> #[trigger] words@[m]@ == command_list()[m],
            views_of_strings(out@) == starting_with(command_list().take(k as int), word@),
    {
        let c = chars_of(words[k]);
        assert(command_list().take(k + 1).drop_last() =~= command_list().take(k as int));
        assert(command_list().take(k + 1).last() == c@);
        let ghost before = views_of_strings(out@);
        if vec_starts_with(&c, &word) {
            out.push(string_of(&c));
            assert(views_of_strings(out@) =~= before.push(c@));
        }
    }
    assert(command_list().take(words@.len() as int) =~= command_list());
    (string_of(&word), out)
}

proof fn lemma_starting_with(cands: Seq<Seq<char>>, w: Seq<char>, c: Seq<char>)
    ensures
        starting_with(cands, w).contains(c) <==> (cands.contains(c) && is_prefix(w, c)),
    decreases cands.len(),
{
    if cands.len() > 0 {
        let d = cands.drop_last();
        lemma_starting_with(d, w, c);
        let prev = starting_with(d, w);
        if cands.contains(c) && is_prefix(w, c) {
            if c != cands.last() {
                let i = choose|i: int| 0 <= i < cands.len() && cands[i] == c;
                assert(i < cands.len() - 1);
                assert(d[i] == c);
                assert(d.contains(c));
                if is_prefix(w, cands.last()) {
                    let j = choose|j: int| 0 <= j < prev.len() && prev[j] == c;
                    assert(prev.push(cands.last())[j] == c);
                }
            } else {
                assert(prev.push(cands.last())[prev.len() as int] == c);
            }
        }
        if starting_with(cands, w).contains(c) {
            let s = starting_with(cands, w);
            let j = choose|j: int| 0 <= j < s.len() && s[j] == c;
            if is_prefix(w, cands.last()) && j == prev.len() {
                assert(cands[cands.len() - 1] == c);
            } else {
                assert(prev[j] == c);
                assert(prev.contains(c));
                let i = choose|i: int| 0 <= i < d.len() && d[i] == c;
                assert(cands[i] == c);
            }
        }
    }
}

/// Law: the completer offers exactly the command names that begin with the
/// word being typed.
pub proof fn completions_are_the_matching_commands(w: Seq<char>, c: Seq<char>)
    ensures
        starting_with(command_list(), w).contains(c) <==> (command_list().contains(c) && is_prefix(w, c)),
{
    lemma_starting_with(command_list(), w, c);
}

/// The shell's completer of command names.
pub struct BftpHelper;

impl BftpHelper {
    /// Completes the word at the end of `line_prefix` (see [`complete_command`]).
    pub fn complete(&self, line_prefix: &str) -> (r: (String, Vec<String>))
        ensures
            r.0@ == last_word(line_prefix@),
            views_of_strings(r.1@) == starting_with(command_list(), last_word(line_prefix@)),
    {
        complete_command(line_prefix)
    }
}

} // verus!
