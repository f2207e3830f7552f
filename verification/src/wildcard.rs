//! Shell-style wildcards (`*`, `?`, `[...]`) in command arguments: detecting
//! them, turning a glob into a regular expression, matching names, and
//! splitting a wildcard argument into a directory and a pattern.

use vstd::prelude::*;
use crate::models::{FileInfo, FileListResponse};
use crate::path_utils::{normalize_path, normalized, resolve_local_path, resolved_local, simplify_path, simplified};
use crate::text::{chars_of, extend_chars, find_char, has_char, rfind_char, lemma_rfind_char, string_of, sub_chars, vec_rfind};

verus! {

/// Is `c` one of the wildcard characters `*`, `?`, `[`?
pub open spec fn is_wild(c: char) -> bool {
    c == '*' || c == '?' || c == '['
}

/// Does the text contain a wildcard character?
pub open spec fn has_wild(s: Seq<char>) -> bool {
    exists|i: int| 0 <= i < s.len() && is_wild(s[i])
}

/// Checks whether a path contains wildcards.
pub fn has_wildcards(path: &str) -> (r: bool)
    ensures
        r == has_wild(path@),
{
    let p = chars_of(path);
    for i in 0..p.len()
        invariant
            p@ == path@,
            forall|j: int| 0 <= j < i ==> !is_wild(p@[j]),
    {
        if p[i] == '*' || p[i] == '?' || p[i] == '[' {
            return true;
        }
    }
    false
}

/// Characters that a regular expression would read as operators.
pub open spec fn is_regex_meta(c: char) -> bool {
    c == '.' || c == '+' || c == '(' || c == ')' || c == '^' || c == '$' || c == '{' || c == '}'
        || c == '|' || c == '\\'
}

/// The regular-expression body for a glob: `*` becomes `[^/]*`, `?` becomes
/// `[^/]`, a `[...]` class is copied (a leading `!` or `^` becomes `^`; an
/// unterminated class is copied without its `]` and ends the pattern),
/// regex operators are escaped, and other characters stand for themselves.
pub open spec fn glob_re(p: Seq<char>) -> Seq<char>
    decreases p.len(),
{
    if p.len() == 0 {
        Seq::empty()
    } else if p[0] == '*' {
        "[^/]*"@ + glob_re(p.skip(1))
    } else if p[0] == '?' {
        "[^/]"@ + glob_re(p.skip(1))
    } else if p[0] == '[' {
        let rest = p.skip(1);
        let neg = rest.len() > 0 && (rest[0] == '!' || rest[0] == '^');
        let body = if neg { rest.skip(1) } else { rest };
        let open = if neg { seq!['[', '^'] } else { seq!['['] };
        match find_char(body, ']') {
            Some(k) => if 0 <= k < body.len() {
                open + body.take(k) + seq![']'] + glob_re(body.skip(k + 1))
            } else {
                open + body
            },
            None => open + body,
        }
    } else if is_regex_meta(p[0]) {
        seq!['\\', p[0]] + glob_re(p.skip(1))
    } else {
        seq![p[0]] + glob_re(p.skip(1))
    }
}

/// The anchored regular expression for a glob.
pub open spec fn glob_regex(p: Seq<char>) -> Seq<char> {
    seq!['^'] + glob_re(p) + seq!['$']
}

proof fn lemma_find_char(s: Seq<char>, c: char)
    ensures
        match find_char(s, c) {
            Some(i) => 0 <= i < s.len() && s[i] == c && forall|j: int| 0 <= j < i ==> s[j] != c,
            None => forall|j: int| 0 <= j < s.len() ==> s[j] != c,
        },
    decreases s.len(),
{
    if s.len() > 0 {
        lemma_find_char(s.drop_first(), c);
        if s[0] != c {
            match find_char(s.drop_first(), c) {
                Some(i) => {
                    assert forall|j: int| 0 <= j < i + 1 implies s[j] != c by {
                        if j > 0 {
                            assert(s[j] == s.drop_first()[j - 1]);
                        }
                    }
                },
                None => {
                    assert forall|j: int| 0 <= j < s.len() implies s[j] != c by {
                        if j > 0 {
                            assert(s[j] == s.drop_first()[j - 1]);
                        }
                    }
                },
            }
        }
    }
}

/// Position of the first `c` in `s[from..]`, as an index into `s`.
fn find_from(s: &Vec<char>, from: usize, c: char) -> (r: Option<usize>)
    requires
        from <= s@.len(),
    ensures
        match r {
            Some(k) => from <= k < s@.len() && find_char(s@.skip(from as int), c) == Some(k - from),
            None => find_char(s@.skip(from as int), c) is None,
        },
{
    let mut j = from;
    proof { lemma_find_char(s@.skip(from as int), c); }
    while j < s.len()
        invariant
            from <= j <= s@.len(),
            forall|t: int| from <= t < j ==> s@[t] != c,
        decreases s@.len() - j,
    {
        if s[j] == c {
            proof {
                lemma_find_char(s@.skip(from as int), c);
                match find_char(s@.skip(from as int), c) {
                    Some(i) => {
                        assert(s@.skip(from as int)[j - from] == c);
                        assert(!(i > j - from)) by {
                            if i > j - from {
                                assert(s@.skip(from as int)[j - from] != c);
                            }
                        }
                        assert(s@.skip(from as int)[i] == c);
                        assert(!(i < j - from)) by {
                            if i < j - from {
                                assert(s@[from + i] != c);
                            }
                        }
                    },
                    None => {
                        assert(s@.skip(from as int)[j - from] == c);
                    },
                }
            }
            return Some(j);
        }
        j = j + 1;
    }
    proof {
        lemma_find_char(s@.skip(from as int), c);
        match find_char(s@.skip(from as int), c) {
            Some(i) => {
                assert(s@.skip(from as int)[i] == s@[from + i]);
            },
            None => {},
        }
    }
    None
}

proof fn lemma_skip_skip(s: Seq<char>, a: int, b: int)
    requires
        0 <= a,
        0 <= b,
        a + b <= s.len(),
    ensures
        s.skip(a).skip(b) == s.skip(a + b),
{
    assert(s.skip(a).skip(b) =~= s.skip(a + b));
}

/// Translates a glob into an anchored regular expression.
#[verifier::rlimit(40)]
pub fn glob_to_regex(pattern: &str) -> (r: String)
    ensures
        r@ == glob_regex(pattern@),
{
    let p = chars_of(pattern);
    let mut out: Vec<char> = Vec::new();
    out.push('^');
    let mut i: usize = 0;
    assert(p@.skip(0) =~= p@);
    while i < p.len()
        invariant
            i <= p@.len(),
            seq!['^'] + glob_re(p@) == out@ + glob_re(p@.skip(i as int)),
        decreases p@.len() - i,
    {
        let ghost rest = p@.skip(i as int);
        let c = p[i];
        assert(rest[0] == c);
        if c == '*' {
            extend_chars(&mut out, &chars_of("[^/]*"));
            proof { lemma_skip_skip(p@, i as int, 1); }
            i = i + 1;
        } else if c == '?' {
            extend_chars(&mut out, &chars_of("[^/]"));
            proof { lemma_skip_skip(p@, i as int, 1); }
            i = i + 1;
        } else if c == '[' {
            out.push('[');
            let mut start = i + 1;
            let ghost r1 = rest.skip(1);
            proof { lemma_skip_skip(p@, i as int, 1); }
            let neg = start < p.len() && (p[start] == '!' || p[start] == '^');
            if neg {
                out.push('^');
                proof { lemma_skip_skip(p@, (i + 1) as int, 1); }
                start = start + 1;
            }
            let ghost body = p@.skip(start as int);
            assert(body == (if neg { r1.skip(1) } else { r1 }));
            match find_from(&p, start, ']') {
                Some(k) => {
                    let part = sub_chars(&p, start, k);
                    extend_chars(&mut out, &part);
                    out.push(']');
                    assert(part@ =~= body.take(k - start));
                    proof { lemma_skip_skip(p@, start as int, (k - start + 1) as int); }
                    i = k + 1;
                },
                None => {
                    let part = sub_chars(&p, start, p.len());
                    extend_chars(&mut out, &part);
                    assert(part@ =~= body);
                    i = p.len();
                    assert(p@.skip(i as int) =~= Seq::<char>::empty());
                },
            }
        } else if c == '.' || c == '+' || c == '(' || c == ')' || c == '^' || c == '$' || c == '{'
            || c == '}' || c == '|' || c == '\\' {
            out.push('\\');
            out.push(c);
            proof { lemma_skip_skip(p@, i as int, 1); }
            i = i + 1;
        } else {
            out.push(c);
            proof { lemma_skip_skip(p@, i as int, 1); }
            i = i + 1;
        }
    }
    assert(p@.skip(i as int) =~= Seq::<char>::empty());
    out.push('$');
    string_of(&out)
}

// ---- matching through the regex crate ----

/// Whether `regex::Regex::new` accepts `pattern`.
pub uninterp spec fn regex_compiles(pattern: Seq<char>) -> bool;

/// Whether the regular expression `pattern` matches somewhere in `text`
/// (`regex::Regex::is_match`).
pub uninterp spec fn regex_is_match(pattern: Seq<char>, text: Seq<char>) -> bool;

/// Compiles `pattern` with `regex::Regex::new` and, when it compiles, asks
/// `Regex::is_match` about `text`. The contract names both outcomes.
#[verifier::external_body]
pub(crate) fn regex_matches(pattern: &str, text: &str) -> (r: Option<bool>)
    ensures
        r == (if regex_compiles(pattern@) { Some(regex_is_match(pattern@, text@)) } else { None }),
{
    match regex::Regex::new(pattern) {
        Ok(re) => Some(re.is_match(text)),
        Err(_) => None,
    }
}

/// A name matches a glob when the glob's regular expression compiles and matches it.
pub open spec fn glob_matches(pattern: Seq<char>, name: Seq<char>) -> bool {
    regex_compiles(glob_regex(pattern)) && regex_is_match(glob_regex(pattern), name)
}

/// Matches a file name against a glob. A glob whose regular expression does
/// not compile matches nothing.
pub fn glob_match(pattern: &str, name: &str) -> (r: bool)
    ensures
        r == glob_matches(pattern@, name@),
{
    let re = glob_to_regex(pattern);
    match regex_matches(re.as_str(), name) {
        Some(b) => b,
        None => false,
    }
}

// ---- splitting a wildcard argument ----

/// Index of the first wildcard character.
pub open spec fn first_wild(s: Seq<char>) -> int
    decreases s.len(),
{
    if s.len() == 0 {
        0
    } else if is_wild(s[0]) {
        0
    } else {
        1 + first_wild(s.drop_first())
    }
}

proof fn lemma_first_wild(s: Seq<char>)
    requires
        has_wild(s),
    ensures
        0 <= first_wild(s) < s.len(),
        is_wild(s[first_wild(s)]),
        forall|j: int| 0 <= j < first_wild(s) ==> !is_wild(s[j]),
    decreases s.len(),
{
    if !is_wild(s[0]) {
        let t = s.drop_first();
        let w = choose|i: int| 0 <= i < s.len() && is_wild(s[i]);
        assert(t[w - 1] == s[w]);
        lemma_first_wild(t);
        assert forall|j: int| 0 <= j < first_wild(s) implies !is_wild(s[j]) by {
            if j > 0 {
                assert(s[j] == t[j - 1]);
            }
        }
    }
}

/// Where the directory part of a wildcard argument ends: just after the last
/// `/` before the first wildcard, or 0.
pub open spec fn wild_dir_end(s: Seq<char>) -> int {
    match rfind_char(s.take(first_wild(s)), '/') {
        Some(i) => i + 1,
        None => 0,
    }
}

/// The (directory, pattern) pair for a wildcard argument.
pub open spec fn wildcard_parts(path: Seq<char>, current_dir: Seq<char>, is_remote: bool) -> (Seq<char>, Seq<char>) {
    let e = wild_dir_end(path);
    let dir_part = path.take(e);
    let pattern = path.skip(e);
    let dir = if dir_part.len() == 0 || dir_part == seq!['.'] {
        current_dir
    } else if dir_part[0] == '/' {
        if is_remote { simplified(dir_part) } else { dir_part }
    } else if is_remote {
        normalized(current_dir, dir_part)
    } else {
        resolved_local(current_dir, dir_part)
    };
    (dir, pattern)
}

/// Splits a wildcard argument into the directory to list and the glob to
/// match there. The directory part (up to the last `/` before the first
/// wildcard) is resolved against `current_dir`, as a remote path when
/// `is_remote` holds and as a local path otherwise.
pub fn parse_wildcard_path(path: &str, current_dir: &str, is_remote: bool) -> (r: (String, String))
    requires
        has_wild(path@),
    ensures
        (r.0@, r.1@) == wildcard_parts(path@, current_dir@, is_remote),
{
    let p = chars_of(path);
    proof { lemma_first_wild(p@); }
    let mut first: usize = 0;
    while !(p[first] == '*' || p[first] == '?' || p[first] == '[')
        invariant
            0 <= first <= first_wild(p@) < p@.len(),
            forall|j: int| 0 <= j < first_wild(p@) ==> !is_wild(p@[j]),
            is_wild(p@[first_wild(p@)]),
        decreases first_wild(p@) - first,
    {
        assert(first != first_wild(p@));
        assert(first < p.len());
        first = first + 1;
    }
    assert(first == first_wild(p@));
    let head = sub_chars(&p, 0, first);
    assert(head@ =~= p@.take(first as int));
    let dir_end: usize = match vec_rfind(&head, '/') {
        Some(i) => {
            proof { lemma_rfind_char(head@, '/'); }
            i + 1
        },
        None => 0,
    };
    let dir_part = sub_chars(&p, 0, dir_end);
    let pattern = sub_chars(&p, dir_end, p.len());
    assert(dir_part@ =~= p@.take(dir_end as int));
    assert(pattern@ =~= p@.skip(dir_end as int));
    let dir_str = string_of(&dir_part);
    let resolved = if dir_part.len() == 0 || (dir_part.len() == 1 && dir_part[0] == '.') {
        proof {
            if dir_part.len() == 1 {
                assert(dir_part@ =~= seq!['.']);
            }
        }
        string_of(&chars_of(current_dir))
    } else if dir_part[0] == '/' {
        if is_remote {
            simplify_path(dir_str.as_str())
        } else {
            dir_str
        }
    } else if is_remote {
        normalize_path(current_dir, dir_str.as_str())
    } else {
        resolve_local_path(current_dir, dir_str.as_str())
    };
    proof {
        if !(dir_part@.len() == 0) && dir_part@.len() == 1 && dir_part@[0] != '.' {
            assert(dir_part@ != seq!['.']);
        }
    }
    (resolved, string_of(&pattern))
}

// ---- selecting matches ----

/// Does a remote entry have the wanted kind (directory or file)?
pub open spec fn kind_ok(f: FileInfo, dirs_only: bool) -> bool {
    if dirs_only { f.isdir == 1 } else { f.isdir == 0 }
}

/// Paths of the entries of the wanted kind whose names match the glob, in listing order.
pub open spec fn selected_paths(files: Seq<FileInfo>, pattern: Seq<char>, dirs_only: bool) -> Seq<Seq<char>>
    decreases files.len(),
{
    if files.len() == 0 {
        Seq::empty()
    } else {
        let prev = selected_paths(files.drop_last(), pattern, dirs_only);
        let f = files.last();
        if kind_ok(f, dirs_only) && glob_matches(pattern, f.server_filename@) {
            prev.push(f.path@)
        } else {
            prev
        }
    }
}

/// The entries of a listing to act on for a wildcard: the paths of the
/// directories (`dirs_only`) or of the files whose names match `pattern`.
/// A listing without entries selects nothing.
pub fn select_remote_matches(file_list: &FileListResponse, pattern: &str, dirs_only: bool) -> (r: Vec<String>)
    ensures
        crate::text::views_of_strings(r@) == match file_list.list {
            Some(l) => selected_paths(l@, pattern@, dirs_only),
            None => Seq::empty(),
        },
{
    let mut out: Vec<String> = Vec::new();
    match &file_list.list {
        None => {
            assert(crate::text::views_of_strings(out@) =~= Seq::<Seq<char>>::empty());
        },
        Some(files) => {
            assert(crate::text::views_of_strings(out@) =~= Seq::<Seq<char>>::empty());
            for i in 0..files.len()
                invariant
                    crate::text::views_of_strings(out@) == selected_paths(files@.take(i as int), pattern@, dirs_only),
            {
                let f = &files[i];
                assert(files@.take(i + 1).drop_last() =~= files@.take(i as int));
                let ghost before = out@;
                let type_ok = if dirs_only { f.isdir == 1 } else { f.isdir == 0 };
                if type_ok && glob_match(pattern, f.server_filename.as_str()) {
                    out.push(f.path.clone());
                    assert(crate::text::views_of_strings(out@) =~= crate::text::views_of_strings(before).push(f.path@));
                }
            }
            assert(files@.take(files@.len() as int) =~= files@);
        },
    }
    out
}

/// One entry of a local directory.
pub struct LocalEntry {
    pub name: String,
    pub path: String,
    pub is_file: bool,
}

/// Paths of the local entries (only regular files when `files_only`) whose
/// names match the glob, in directory order.
pub open spec fn selected_local(entries: Seq<LocalEntry>, pattern: Seq<char>, files_only: bool) -> Seq<Seq<char>>
    decreases entries.len(),
{
    if entries.len() == 0 {
        Seq::empty()
    } else {
        let prev = selected_local(entries.drop_last(), pattern, files_only);
        let e = entries.last();
        if (!files_only || e.is_file) && glob_matches(pattern, e.name@) {
            prev.push(e.path@)
        } else {
            prev
        }
    }
}

/// The local entries a wildcard selects: the paths of the entries (regular
/// files only when `files_only`) whose names match `pattern`.
pub fn select_local_matches(entries: &Vec<LocalEntry>, pattern: &str, files_only: bool) -> (r: Vec<String>)
    ensures
        crate::text::views_of_strings(r@) == selected_local(entries@, pattern@, files_only),
{
    let mut out: Vec<String> = Vec::new();
    assert(crate::text::views_of_strings(out@) =~= Seq::<Seq<char>>::empty());
    for i in 0..entries.len()
        invariant
            crate::text::views_of_strings(out@) == selected_local(entries@.take(i as int), pattern@, files_only),
    {
        let e = &entries[i];
        assert(entries@.take(i + 1).drop_last() =~= entries@.take(i as int));
        let ghost before = out@;
        if (!files_only || e.is_file) && glob_match(pattern, e.name.as_str()) {
            out.push(e.path.clone());
            assert(crate::text::views_of_strings(out@) =~= crate::text::views_of_strings(before).push(e.path@));
        }
    }
    assert(entries@.take(entries@.len() as int) =~= entries@);
    out
}

/// `f` maps the positions of `a` to strictly increasing positions of `b`
/// that hold the same items.
pub open spec fn embeds(f: spec_fn(int) -> int, a: Seq<Seq<char>>, b: Seq<Seq<char>>) -> bool {
    &&& forall|i: int, j: int| 0 <= i < j < a.len() ==> #[trigger] f(i) < #[trigger] f(j)
    &&& forall|i: int| 0 <= i < a.len() ==> 0 <= #[trigger] f(i) < b.len() && b[f(i)] == a[i]
}

/// `a` is a subsequence of `b`: its items occur in `b` in the same order,
/// at strictly increasing positions.
pub open spec fn is_subsequence(a: Seq<Seq<char>>, b: Seq<Seq<char>>) -> bool {
    exists|f: spec_fn(int) -> int| #[trigger] embeds(f, a, b)
}

/// Law: the regular files that a local wildcard selects are a subsequence
/// of all the entries it selects (files and directories alike).
pub proof fn local_files_are_a_subsequence(entries: Seq<LocalEntry>, pattern: Seq<char>)
    ensures
        is_subsequence(selected_local(entries, pattern, true), selected_local(entries, pattern, false)),
    decreases entries.len(),
{
    let a = selected_local(entries, pattern, true);
    let b = selected_local(entries, pattern, false);
    if entries.len() == 0 {
        let f = |i: int| i;
        assert(embeds(f, a, b));
    } else {
        local_files_are_a_subsequence(entries.drop_last(), pattern);
        let a0 = selected_local(entries.drop_last(), pattern, true);
        let b0 = selected_local(entries.drop_last(), pattern, false);
        let f0 = choose|f: spec_fn(int) -> int| #[trigger] embeds(f, a0, b0);
        assert(embeds(f0, a0, b0));
        let f = |i: int| if i < a0.len() { f0(i) } else { b0.len() as int };
        assert forall|i: int, j: int| 0 <= i < j < a.len() implies #[trigger] f(i) < #[trigger] f(j) by {
            if j < a0.len() {
                assert(f0(i) < f0(j));
            } else {
                assert(0 <= f0(i) < b0.len());
            }
        }
        assert forall|i: int| 0 <= i < a.len() implies 0 <= #[trigger] f(i) < b.len() && b[f(i)] == a[i] by {
            if i < a0.len() {
                assert(0 <= f0(i) < b0.len() && b0[f0(i)] == a0[i]);
            }
        }
        assert(embeds(f, a, b));
    }
}

} // verus!
