//! What a shell command asks for: its arguments read and its paths resolved
//! against the working directories, before anything is transferred.
//!
//! The shell splits a line into words (`shell_split`), and [`plan_command`]
//! turns the words into a [`Command`]; the caller then performs it.

use vstd::prelude::*;
use crate::constants::DEFAULT_THREADS;
use crate::models::opt_view;
use crate::path_utils::{
    dest_parts, file_name_or, file_name_or_chars, is_canonical, normalize_keeps_canonical, normalize_path,
    normalized, parent_or, parent_or_chars, parse_dest_path, resolve_local_path, resolved_local,
};
use crate::text::{
    chars_eq, chars_of, extend_chars, join_chars, join_with, parse_i32_chars, parse_usize_chars,
    parsed_i32, parsed_usize, str_eq, string_of, trim_chars, trim_ws, views, views_of_strings,
};
use crate::wildcard::{has_wild, has_wildcards, parse_wildcard_path, wildcard_parts};

verus! {

/// Which usage message a command with missing or conflicting arguments gets.
#[derive(Clone, Copy, PartialEq, Eq, Structural, Debug)]
pub enum Usage {
    Cd,
    Lcd,
    Mkdir,
    Lmkdir,
    Search,
    SemSearch,
    Rename,
    Mv,
    Cp,
    Rm,
    Lcp,
    Lmv,
    Lrm,
    Put,
    /// A wildcard upload cannot take a remote name.
    PutWildcardName,
    Get,
    /// `get -r` without a directory.
    GetRecursive,
    Mget,
    /// `mget -t` without a thread count.
    MgetThreads,
}

/// What a command line asks for, with its paths already resolved.
pub enum Command {
    /// Show the help text.
    Help,
    /// Show the remote working directory.
    Pwd,
    /// Show the local working directory.
    Lpwd,
    /// Show the storage quota.
    Quota,
    /// List the remote working directory.
    Ls,
    /// Clear the screen.
    Clear,
    /// Leave the shell.
    Exit,
    /// List the local working directory (hidden entries too when `show_all`).
    Lls { show_all: bool },
    /// The arguments do not fit the command.
    Usage { which: Usage },
    /// Change the remote working directory.
    Cd { path: String },
    /// Change the local working directory (if it exists).
    Lcd { path: String },
    /// Create a remote directory.
    Mkdir { path: String },
    /// Create a local directory (with its parents).
    Lmkdir { path: String },
    /// Keyword search.
    Search { key: String, dir: Option<String>, recursion: bool },
    /// Semantic search.
    SemSearch { query: String, search_type: i32, dir: Option<String> },
    /// Rename a remote file in place.
    Rename { path: String, newname: String },
    /// Move a remote file: a rename when it stays in its directory, else a
    /// copy followed by a delete.
    Move { src: String, dest_dir: String, newname: String, same_dir: bool },
    /// Copy a remote file.
    Copy { src: String, dest_dir: String, newname: String },
    /// Delete the remote files in `dir` that match `pattern` (after confirmation).
    RemoveMatching { dir: String, pattern: String },
    /// Delete a remote file (after confirmation).
    Remove { path: String },
    /// Copy the local files in `dir` that match `pattern` into `dest_dir`.
    LocalCopyMatching { dir: String, pattern: String, dest_dir: String },
    /// Copy a local file.
    LocalCopy { src: String, dest: String },
    /// Move the local files in `dir` that match `pattern` into `dest_dir`.
    LocalMoveMatching { dir: String, pattern: String, dest_dir: String },
    /// Move a local file.
    LocalMove { src: String, dest: String },
    /// Delete the local entries in `dir` that match `pattern` (after confirmation).
    LocalRemoveMatching { dir: String, pattern: String },
    /// Delete a local file or directory (after confirmation).
    LocalRemove { path: String },
    /// Upload the local files in `dir` that match `pattern`.
    PutMatching { dir: String, pattern: String },
    /// Upload a local file, optionally under another name.
    Put { local_path: String, remote_name: Option<String> },
    /// Download the remote directories in `dir` that match `pattern`, each
    /// into a directory of its name below `local_base`.
    GetDirsMatching { dir: String, pattern: String, local_base: String, threads: Option<usize> },
    /// Download a remote directory.
    GetDir { remote_dir: String, local_dir: String, threads: Option<usize> },
    /// Download the remote files in `dir` that match `pattern` into `local_dir`.
    GetFilesMatching { dir: String, pattern: String, local_dir: String, threads: Option<usize> },
    /// Download a remote file.
    GetFile { remote_path: String, local_path: String, threads: Option<usize> },
    /// Not a command.
    Unknown { command: String },
}

/// A [`Command`] with its strings taken as character sequences.
pub enum CommandView {
    Help,
    Pwd,
    Lpwd,
    Quota,
    Ls,
    Clear,
    Exit,
    Lls { show_all: bool },
    Usage { which: Usage },
    Cd { path: Seq<char> },
    Lcd { path: Seq<char> },
    Mkdir { path: Seq<char> },
    Lmkdir { path: Seq<char> },
    Search { key: Seq<char>, dir: Option<Seq<char>>, recursion: bool },
    SemSearch { query: Seq<char>, search_type: i32, dir: Option<Seq<char>> },
    Rename { path: Seq<char>, newname: Seq<char> },
    Move { src: Seq<char>, dest_dir: Seq<char>, newname: Seq<char>, same_dir: bool },
    Copy { src: Seq<char>, dest_dir: Seq<char>, newname: Seq<char> },
    RemoveMatching { dir: Seq<char>, pattern: Seq<char> },
    Remove { path: Seq<char> },
    LocalCopyMatching { dir: Seq<char>, pattern: Seq<char>, dest_dir: Seq<char> },
    LocalCopy { src: Seq<char>, dest: Seq<char> },
    LocalMoveMatching { dir: Seq<char>, pattern: Seq<char>, dest_dir: Seq<char> },
    LocalMove { src: Seq<char>, dest: Seq<char> },
    LocalRemoveMatching { dir: Seq<char>, pattern: Seq<char> },
    LocalRemove { path: Seq<char> },
    PutMatching { dir: Seq<char>, pattern: Seq<char> },
    Put { local_path: Seq<char>, remote_name: Option<Seq<char>> },
    GetDirsMatching { dir: Seq<char>, pattern: Seq<char>, local_base: Seq<char>, threads: Option<usize> },
    GetDir { remote_dir: Seq<char>, local_dir: Seq<char>, threads: Option<usize> },
    GetFilesMatching { dir: Seq<char>, pattern: Seq<char>, local_dir: Seq<char>, threads: Option<usize> },
    GetFile { remote_path: Seq<char>, local_path: Seq<char>, threads: Option<usize> },
    Unknown { command: Seq<char> },
}

impl View for Command {
    type V = CommandView;

    open spec fn view(&self) -> CommandView {
        match self {
            Command::Help => CommandView::Help,
            Command::Pwd => CommandView::Pwd,
            Command::Lpwd => CommandView::Lpwd,
            Command::Quota => CommandView::Quota,
            Command::Ls => CommandView::Ls,
            Command::Clear => CommandView::Clear,
            Command::Exit => CommandView::Exit,
            Command::Lls { show_all } => CommandView::Lls { show_all: *show_all },
            Command::Usage { which } => CommandView::Usage { which: *which },
            Command::Cd { path } => CommandView::Cd { path: path@ },
            Command::Lcd { path } => CommandView::Lcd { path: path@ },
            Command::Mkdir { path } => CommandView::Mkdir { path: path@ },
            Command::Lmkdir { path } => CommandView::Lmkdir { path: path@ },
            Command::Search { key, dir, recursion } => CommandView::Search {
                key: key@,
                dir: opt_view(*dir),
                recursion: *recursion,
            },
            Command::SemSearch { query, search_type, dir } => CommandView::SemSearch {
                query: query@,
                search_type: *search_type,
                dir: opt_view(*dir),
            },
            Command::Rename { path, newname } => CommandView::Rename { path: path@, newname: newname@ },
            Command::Move { src, dest_dir, newname, same_dir } => CommandView::Move {
                src: src@,
                dest_dir: dest_dir@,
                newname: newname@,
                same_dir: *same_dir,
            },
            Command::Copy { src, dest_dir, newname } => CommandView::Copy {
                src: src@,
                dest_dir: dest_dir@,
                newname: newname@,
            },
            Command::RemoveMatching { dir, pattern } => CommandView::RemoveMatching { dir: dir@, pattern: pattern@ },
            Command::Remove { path } => CommandView::Remove { path: path@ },
            Command::LocalCopyMatching { dir, pattern, dest_dir } => CommandView::LocalCopyMatching {
                dir: dir@,
                pattern: pattern@,
                dest_dir: dest_dir@,
            },
            Command::LocalCopy { src, dest } => CommandView::LocalCopy { src: src@, dest: dest@ },
            Command::LocalMoveMatching { dir, pattern, dest_dir } => CommandView::LocalMoveMatching {
                dir: dir@,
                pattern: pattern@,
                dest_dir: dest_dir@,
            },
            Command::LocalMove { src, dest } => CommandView::LocalMove { src: src@, dest: dest@ },
            Command::LocalRemoveMatching { dir, pattern } => CommandView::LocalRemoveMatching {
                dir: dir@,
                pattern: pattern@,
            },
            Command::LocalRemove { path } => CommandView::LocalRemove { path: path@ },
            Command::PutMatching { dir, pattern } => CommandView::PutMatching { dir: dir@, pattern: pattern@ },
            Command::Put { local_path, remote_name } => CommandView::Put {
                local_path: local_path@,
                remote_name: opt_view(*remote_name),
            },
            Command::GetDirsMatching { dir, pattern, local_base, threads } => CommandView::GetDirsMatching {
                dir: dir@,
                pattern: pattern@,
                local_base: local_base@,
                threads: *threads,
            },
            Command::GetDir { remote_dir, local_dir, threads } => CommandView::GetDir {
                remote_dir: remote_dir@,
                local_dir: local_dir@,
                threads: *threads,
            },
            Command::GetFilesMatching { dir, pattern, local_dir, threads } => CommandView::GetFilesMatching {
                dir: dir@,
                pattern: pattern@,
                local_dir: local_dir@,
                threads: *threads,
            },
            Command::GetFile { remote_path, local_path, threads } => CommandView::GetFile {
                remote_path: remote_path@,
                local_path: local_path@,
                threads: *threads,
            },
            Command::Unknown { command } => CommandView::Unknown { command: command@ },
        }
    }
}

// ---- arguments ----

/// The word at `i`, when there is one.
pub open spec fn word_at(p: Seq<Seq<char>>, i: int) -> Option<Seq<char>> {
    if 0 <= i < p.len() { Some(p[i]) } else { None }
}

/// Does the word start with `/`?
pub open spec fn is_absolute(w: Seq<char>) -> bool {
    w.len() > 0 && w[0] == '/'
}

/// Words joined by single spaces.
pub open spec fn spaced(ws: Seq<Seq<char>>) -> Seq<char> {
    join_chars(ws, seq![' '])
}

/// Does `s` start with the character `c`?
fn starts_with_char(s: &str, c: char) -> (r: bool)
    ensures
        r == (s@.len() > 0 && s@[0] == c),
{
    let v = chars_of(s);
    v.len() > 0 && v[0] == c
}

/// A fresh copy of a string.
fn copy_string(s: &str) -> (r: String)
    ensures
        r@ == s@,
{
    string_of(&chars_of(s))
}

/// The words from `from` on, joined by single spaces.
fn join_words(parts: &Vec<String>, from: usize) -> (r: String)
    requires
        from <= parts.len(),
    ensures
        r@ == spaced(views_of_strings(parts@).skip(from as int)),
{
    let ghost p = views_of_strings(parts@);
    let mut ws: Vec<Vec<char>> = Vec::new();
    let mut k: usize = from;
    while k < parts.len()
        invariant
            from <= k <= parts.len(),
            p == views_of_strings(parts@),
            views(ws@) == p.skip(from as int).take(k - from),
        decreases parts.len() - k,
    {
        let ghost before = views(ws@);
        ws.push(chars_of(parts[k].as_str()));
        assert(views(ws@) =~= before.push(parts@[k as int]@));
        assert(p.skip(from as int).take(k + 1 - from) =~= p.skip(from as int).take(k - from).push(p[k as int]));
        k = k + 1;
    }
    assert(p.skip(from as int).take(parts.len() - from) =~= p.skip(from as int));
    let joined = join_with(&ws, ' ');
    string_of(&joined)
}

// ---- searches ----

/// Keyword search arguments, read left to right: `-r` asks for a recursive
/// search, a word starting with `/` names the directory (the last one
/// wins), every other word is part of the key.
pub open spec fn search_scan(args: Seq<Seq<char>>) -> (Seq<Seq<char>>, Option<Seq<char>>, bool)
    decreases args.len(),
{
    if args.len() == 0 {
        (Seq::empty(), None, false)
    } else {
        let prev = search_scan(args.drop_last());
        let a = args.last();
        if a == "-r"@ {
            (prev.0, prev.1, true)
        } else if is_absolute(a) {
            (prev.0, Some(a), prev.2)
        } else {
            (prev.0.push(a), prev.1, prev.2)
        }
    }
}

/// `search <key words> [-r] [/dir]`: the key is the key words joined by
/// spaces; without a key the usage is shown.
pub open spec fn search_plan(p: Seq<Seq<char>>) -> CommandView {
    if p.len() < 2 {
        CommandView::Usage { which: Usage::Search }
    } else {
        let s = search_scan(p.skip(1));
        let key = spaced(s.0);
        if key.len() == 0 {
            CommandView::Usage { which: Usage::Search }
        } else {
            CommandView::Search { key, dir: s.1, recursion: s.2 }
        }
    }
}

/// The search type that `-t` sets: the number given, or 1 when it is not one.
pub open spec fn search_type_arg(w: Seq<char>) -> i32 {
    match parsed_i32(w) {
        Some(v) => v,
        None => 1,
    }
}

/// Semantic search arguments from position `i` on: `-t` takes the next word
/// as the search type (a `-t` at the end is ignored), a word starting with
/// `/` names the directory, every other word is part of the query.
pub open spec fn sem_scan(
    p: Seq<Seq<char>>,
    i: int,
    ty: i32,
    dir: Option<Seq<char>>,
    q: Seq<Seq<char>>,
) -> (i32, Option<Seq<char>>, Seq<Seq<char>>)
    decreases p.len() - i,
{
    if i < 0 || i >= p.len() {
        (ty, dir, q)
    } else if p[i] == "-t"@ {
        if i + 1 < p.len() {
            sem_scan(p, i + 2, search_type_arg(p[i + 1]), dir, q)
        } else {
            sem_scan(p, i + 1, ty, dir, q)
        }
    } else if is_absolute(p[i]) {
        sem_scan(p, i + 1, ty, Some(p[i]), q)
    } else {
        sem_scan(p, i + 1, ty, dir, q.push(p[i]))
    }
}

/// `semsearch <query words> [-t type] [/dir]`: the type defaults to 1; without
/// a query the usage is shown.
pub open spec fn sem_plan(p: Seq<Seq<char>>) -> CommandView {
    if p.len() < 2 {
        CommandView::Usage { which: Usage::SemSearch }
    } else {
        let s = sem_scan(p, 1, 1, None, Seq::empty());
        let query = spaced(s.2);
        if query.len() == 0 {
            CommandView::Usage { which: Usage::SemSearch }
        } else {
            CommandView::SemSearch { query, search_type: s.0, dir: s.1 }
        }
    }
}

fn plan_search(parts: &Vec<String>) -> (r: Command)
    requires
        parts.len() >= 1,
    ensures
        r@ == search_plan(views_of_strings(parts@)),
{
    if parts.len() < 2 {
        return Command::Usage { which: Usage::Search };
    }
    let ghost p = views_of_strings(parts@);
    let ghost args = p.skip(1);
    let mut keys: Vec<Vec<char>> = Vec::new();
    let mut dir: Option<String> = None;
    let mut recursion = false;
    let mut i: usize = 1;
    assert(args.take(0) =~= Seq::<Seq<char>>::empty());
    assert(views(keys@) =~= Seq::<Seq<char>>::empty());
    while i < parts.len()
        invariant
            1 <= i <= parts.len(),
            p == views_of_strings(parts@),
            args == p.skip(1),
            search_scan(args.take(i - 1)) == (views(keys@), opt_view(dir), recursion),
        decreases parts.len() - i,
    {
        let w = parts[i].as_str();
        assert(args.take(i as int).drop_last() =~= args.take(i - 1));
        assert(args.take(i as int).last() == w@);
        if str_eq(w, "-r") {
            recursion = true;
        } else if starts_with_char(w, '/') {
            dir = Some(copy_string(w));
        } else {
            let ghost before = views(keys@);
            keys.push(chars_of(w));
            assert(views(keys@) =~= before.push(w@));
        }
        i = i + 1;
    }
    assert(args.take(parts.len() - 1) =~= args);
    let key = join_with(&keys, ' ');
    if key.len() == 0 {
        return Command::Usage { which: Usage::Search };
    }
    Command::Search { key: string_of(&key), dir, recursion }
}

fn plan_semsearch(parts: &Vec<String>) -> (r: Command)
    requires
        parts.len() >= 1,
    ensures
        r@ == sem_plan(views_of_strings(parts@)),
{
    if parts.len() < 2 {
        return Command::Usage { which: Usage::SemSearch };
    }
    let ghost p = views_of_strings(parts@);
    let mut query: Vec<Vec<char>> = Vec::new();
    let mut dir: Option<String> = None;
    let mut search_type: i32 = 1;
    let mut i: usize = 1;
    assert(views(query@) =~= Seq::<Seq<char>>::empty());
    while i < parts.len()
        invariant
            1 <= i <= parts.len(),
            p == views_of_strings(parts@),
            sem_scan(p, 1, 1, None, Seq::empty()) == sem_scan(p, i as int, search_type, opt_view(dir), views(query@)),
        decreases parts.len() - i,
    {
        let w = parts[i].as_str();
        assert(p[i as int] == w@);
        if str_eq(w, "-t") {
            if i + 1 < parts.len() {
                let v = chars_of(parts[i + 1].as_str());
                search_type = match parse_i32_chars(&v) {
                    Some(t) => t,
                    None => 1,
                };
                i = i + 2;
            } else {
                i = i + 1;
            }
        } else if starts_with_char(w, '/') {
            dir = Some(copy_string(w));
            i = i + 1;
        } else {
            let ghost before = views(query@);
            query.push(chars_of(w));
            assert(views(query@) =~= before.push(w@));
            i = i + 1;
        }
    }
    let q = join_with(&query, ' ');
    if q.len() == 0 {
        return Command::Usage { which: Usage::SemSearch };
    }
    Command::SemSearch { query: string_of(&q), search_type, dir }
}

// ---- downloads ----

/// Where a single download lands: the explicit destination resolved against
/// the local directory, or else the remote item's own name there (`download`
/// when it has none).
pub open spec fn local_dest_for(l: Seq<char>, remote: Seq<char>, explicit: Option<Seq<char>>) -> Seq<char> {
    match explicit {
        Some(d) => resolved_local(l, d),
        None => resolved_local(l, file_name_or(remote, "download"@)),
    }
}

/// A download with its arguments `args` (source, then an optional local
/// destination). A source with wildcards is matched in its remote
/// directory, and the matches land below the destination (by default the
/// local directory); otherwise the source is resolved against the remote
/// directory.
pub open spec fn get_plan(
    args: Seq<Seq<char>>,
    recursive: bool,
    threads: Option<usize>,
    r: Seq<char>,
    l: Seq<char>,
) -> CommandView
    recommends
        args.len() > 0,
{
    let a = args[0];
    if has_wild(a) {
        let w = wildcard_parts(a, r, true);
        let base = match word_at(args, 1) {
            Some(d) => resolved_local(l, d),
            None => l,
        };
        if recursive {
            CommandView::GetDirsMatching { dir: w.0, pattern: w.1, local_base: base, threads }
        } else {
            CommandView::GetFilesMatching { dir: w.0, pattern: w.1, local_dir: base, threads }
        }
    } else {
        let target = normalized(r, a);
        let local = local_dest_for(l, target, word_at(args, 1));
        if recursive {
            CommandView::GetDir { remote_dir: target, local_dir: local, threads }
        } else {
            CommandView::GetFile { remote_path: target, local_path: local, threads }
        }
    }
}

/// `get [-r] <remote> [local]`: a directory download with `-r`.
pub open spec fn get_command(p: Seq<Seq<char>>, r: Seq<char>, l: Seq<char>) -> CommandView {
    if p.len() < 2 {
        CommandView::Usage { which: Usage::Get }
    } else if p[1] == "-r"@ {
        if p.len() < 3 {
            CommandView::Usage { which: Usage::GetRecursive }
        } else {
            get_plan(p.skip(2), true, None, r, l)
        }
    } else {
        get_plan(p.skip(1), false, None, r, l)
    }
}

/// The thread count that `-t` sets: the number given, or the default when it
/// is not one.
pub open spec fn threads_arg(w: Seq<char>) -> usize {
    match parsed_usize(w) {
        Some(n) => n,
        None => DEFAULT_THREADS,
    }
}

/// The leading options of `mget` from position `i` on: `-r` and `-t N`, in any
/// order and number. Gives (recursive, threads, position of the first other
/// word), or `None` when `-t` is the last word.
pub open spec fn mget_scan(p: Seq<Seq<char>>, i: int, recursive: bool, threads: usize) -> Option<(bool, usize, int)>
    decreases p.len() - i,
{
    if i < 0 || i >= p.len() {
        Some((recursive, threads, i))
    } else if p[i] == "-r"@ {
        mget_scan(p, i + 1, true, threads)
    } else if p[i] == "-t"@ {
        if i + 1 < p.len() {
            mget_scan(p, i + 2, recursive, threads_arg(p[i + 1]))
        } else {
            None
        }
    } else {
        Some((recursive, threads, i))
    }
}

/// `mget [-r] [-t N] <remote> [local]`: a download over several connections.
pub open spec fn mget_command(p: Seq<Seq<char>>, r: Seq<char>, l: Seq<char>) -> CommandView {
    if p.len() < 2 {
        CommandView::Usage { which: Usage::Mget }
    } else {
        match mget_scan(p, 1, false, DEFAULT_THREADS) {
            None => CommandView::Usage { which: Usage::MgetThreads },
            Some(s) => if s.2 >= p.len() {
                CommandView::Usage { which: Usage::Mget }
            } else {
                get_plan(p.skip(s.2), s.0, Some(s.1), r, l)
            },
        }
    }
}

fn plan_get_args(
    parts: &Vec<String>,
    from: usize,
    recursive: bool,
    threads: Option<usize>,
    remote: &str,
    local: &str,
) -> (r: Command)
    requires
        from < parts.len(),
    ensures
        r@ == get_plan(views_of_strings(parts@).skip(from as int), recursive, threads, remote@, local@),
{
    let ghost args = views_of_strings(parts@).skip(from as int);
    let a = parts[from].as_str();
    assert(args[0] == a@);
    let explicit: Option<&str> = if from + 1 < parts.len() {
        assert(word_at(args, 1) == Some(parts@[from + 1]@));
        Some(parts[from + 1].as_str())
    } else {
        None
    };
    if has_wildcards(a) {
        let (dir, pattern) = parse_wildcard_path(a, remote, true);
        let base = match explicit {
            Some(d) => resolve_local_path(local, d),
            None => copy_string(local),
        };
        if recursive {
            Command::GetDirsMatching { dir, pattern, local_base: base, threads }
        } else {
            Command::GetFilesMatching { dir, pattern, local_dir: base, threads }
        }
    } else {
        let target = normalize_path(remote, a);
        let local_path = match explicit {
            Some(d) => resolve_local_path(local, d),
            None => {
                let name = file_name_or_chars(&chars_of(target.as_str()), "download");
                resolve_local_path(local, string_of(&name).as_str())
            },
        };
        if recursive {
            Command::GetDir { remote_dir: target, local_dir: local_path, threads }
        } else {
            Command::GetFile { remote_path: target, local_path, threads }
        }
    }
}

fn plan_get(parts: &Vec<String>, remote: &str, local: &str) -> (r: Command)
    requires
        parts.len() >= 1,
    ensures
        r@ == get_command(views_of_strings(parts@), remote@, local@),
{
    if parts.len() < 2 {
        return Command::Usage { which: Usage::Get };
    }
    if str_eq(parts[1].as_str(), "-r") {
        if parts.len() < 3 {
            Command::Usage { which: Usage::GetRecursive }
        } else {
            plan_get_args(parts, 2, true, None, remote, local)
        }
    } else {
        plan_get_args(parts, 1, false, None, remote, local)
    }
}

fn plan_mget(parts: &Vec<String>, remote: &str, local: &str) -> (r: Command)
    requires
        parts.len() >= 1,
    ensures
        r@ == mget_command(views_of_strings(parts@), remote@, local@),
{
    if parts.len() < 2 {
        return Command::Usage { which: Usage::Mget };
    }
    let ghost p = views_of_strings(parts@);
    let ghost total = mget_scan(p, 1, false, DEFAULT_THREADS);
    let mut recursive = false;
    let mut threads: usize = DEFAULT_THREADS;
    let mut i: usize = 1;
    loop
        invariant
            1 <= i <= parts.len(),
            p == views_of_strings(parts@),
            total == mget_scan(p, 1, false, DEFAULT_THREADS),
            total == mget_scan(p, i as int, recursive, threads),
        ensures
            1 <= i <= parts.len(),
            total == Some((recursive, threads, i as int)),
        decreases parts.len() - i,
    {
        if i >= parts.len() {
            break;
        }
        let w = parts[i].as_str();
        assert(p[i as int] == w@);
        if str_eq(w, "-r") {
            recursive = true;
            i = i + 1;
        } else if str_eq(w, "-t") {
            if i + 1 < parts.len() {
                let v = chars_of(parts[i + 1].as_str());
                threads = match parse_usize_chars(&v) {
                    Some(n) => n,
                    None => DEFAULT_THREADS,
                };
                i = i + 2;
            } else {
                return Command::Usage { which: Usage::MgetThreads };
            }
        } else {
            break;
        }
    }
    if i >= parts.len() {
        return Command::Usage { which: Usage::Mget };
    }
    plan_get_args(parts, i, recursive, Some(threads), remote, local)
}

// ---- file operations ----

/// The target of a local copy or move: a destination ending in `/` is a
/// directory that keeps the source's file name (`untitled` when it has
/// none); any other destination is the target itself.
pub open spec fn local_dest_arg(l: Seq<char>, src: Seq<char>, dest: Seq<char>) -> Seq<char> {
    if dest.len() > 0 && dest.last() == '/' {
        resolved_local(l, dest) + seq!['/'] + file_name_or(src, "untitled"@)
    } else {
        resolved_local(l, dest)
    }
}

/// `mv <src> <dest>`: the source resolved remotely, the destination split
/// into directory and name; it stays a rename when the directory is the
/// source's own.
pub open spec fn move_plan(p: Seq<Seq<char>>, r: Seq<char>) -> CommandView {
    if p.len() < 3 {
        CommandView::Usage { which: Usage::Mv }
    } else {
        let src = normalized(r, p[1]);
        let d = dest_parts(r, p[2], src);
        CommandView::Move { src, dest_dir: d.0, newname: d.1, same_dir: parent_or(src, "/"@) == d.0 }
    }
}

/// `cp <src> <dest>`.
pub open spec fn copy_plan(p: Seq<Seq<char>>, r: Seq<char>) -> CommandView {
    if p.len() < 3 {
        CommandView::Usage { which: Usage::Cp }
    } else {
        let src = normalized(r, p[1]);
        let d = dest_parts(r, p[2], src);
        CommandView::Copy { src, dest_dir: d.0, newname: d.1 }
    }
}

/// `rm <path>`: a path with wildcards selects the matching remote files.
pub open spec fn rm_plan(p: Seq<Seq<char>>, r: Seq<char>) -> CommandView {
    if p.len() < 2 {
        CommandView::Usage { which: Usage::Rm }
    } else if has_wild(p[1]) {
        let w = wildcard_parts(p[1], r, true);
        CommandView::RemoveMatching { dir: w.0, pattern: w.1 }
    } else {
        CommandView::Remove { path: normalized(r, p[1]) }
    }
}

/// `lcp <src> <dest>` and (when `moving`) `lmv <src> <dest>`: with
/// wildcards the matching local files go into the destination directory.
pub open spec fn local_transfer_plan(p: Seq<Seq<char>>, l: Seq<char>, moving: bool) -> CommandView {
    if p.len() < 3 {
        CommandView::Usage { which: if moving { Usage::Lmv } else { Usage::Lcp } }
    } else if has_wild(p[1]) {
        let w = wildcard_parts(p[1], l, false);
        let dest_dir = resolved_local(l, p[2]);
        if moving {
            CommandView::LocalMoveMatching { dir: w.0, pattern: w.1, dest_dir }
        } else {
            CommandView::LocalCopyMatching { dir: w.0, pattern: w.1, dest_dir }
        }
    } else {
        let src = resolved_local(l, p[1]);
        let dest = local_dest_arg(l, src, p[2]);
        if moving {
            CommandView::LocalMove { src, dest }
        } else {
            CommandView::LocalCopy { src, dest }
        }
    }
}

/// `lrm <path>`: a path with wildcards selects the matching local entries.
pub open spec fn lrm_plan(p: Seq<Seq<char>>, l: Seq<char>) -> CommandView {
    if p.len() < 2 {
        CommandView::Usage { which: Usage::Lrm }
    } else if has_wild(p[1]) {
        let w = wildcard_parts(p[1], l, false);
        CommandView::LocalRemoveMatching { dir: w.0, pattern: w.1 }
    } else {
        CommandView::LocalRemove { path: resolved_local(l, p[1]) }
    }
}

/// `put <local> [remote name]`: with wildcards the matching local files are
/// uploaded under their own names, and a remote name is refused.
pub open spec fn put_plan(p: Seq<Seq<char>>, l: Seq<char>) -> CommandView {
    if p.len() < 2 {
        CommandView::Usage { which: Usage::Put }
    } else if has_wild(p[1]) {
        if p.len() > 2 {
            CommandView::Usage { which: Usage::PutWildcardName }
        } else {
            let w = wildcard_parts(p[1], l, false);
            CommandView::PutMatching { dir: w.0, pattern: w.1 }
        }
    } else {
        CommandView::Put { local_path: resolved_local(l, p[1]), remote_name: word_at(p, 2) }
    }
}

/// The target of a local copy or move (see [`local_dest_arg`]).
pub fn resolve_local_dest(local: &str, src: &str, dest: &str) -> (r: String)
    ensures
        r@ == local_dest_arg(local@, src@, dest@),
{
    let d = chars_of(dest);
    if d.len() > 0 && d[d.len() - 1] == '/' {
        let dir = resolve_local_path(local, dest);
        let mut v = chars_of(dir.as_str());
        v.push('/');
        let name = file_name_or_chars(&chars_of(src), "untitled");
        extend_chars(&mut v, &name);
        string_of(&v)
    } else {
        resolve_local_path(local, dest)
    }
}

/// Where one matched item goes: `base`, a `/`, and the item's file name
/// (`fallback` when it has none).
pub fn item_path(base: &str, item: &str, fallback: &str) -> (r: String)
    ensures
        r@ == base@ + seq!['/'] + file_name_or(item@, fallback@),
{
    let mut v = chars_of(base);
    v.push('/');
    let name = file_name_or_chars(&chars_of(item), fallback);
    extend_chars(&mut v, &name);
    string_of(&v)
}

/// The file name of a matched item (`fallback` when it has none).
pub fn item_name(item: &str, fallback: &str) -> (r: String)
    ensures
        r@ == file_name_or(item@, fallback@),
{
    string_of(&file_name_or_chars(&chars_of(item), fallback))
}

fn plan_move(parts: &Vec<String>, remote: &str, moving: bool) -> (r: Command)
    requires
        parts.len() >= 1,
    ensures
        r@ == if moving {
            move_plan(views_of_strings(parts@), remote@)
        } else {
            copy_plan(views_of_strings(parts@), remote@)
        },
{
    if parts.len() < 3 {
        return Command::Usage { which: if moving { Usage::Mv } else { Usage::Cp } };
    }
    let src = normalize_path(remote, parts[1].as_str());
    let (dest_dir, newname) = parse_dest_path(remote, parts[2].as_str(), src.as_str());
    if moving {
        let parent = parent_or_chars(&chars_of(src.as_str()), "/");
        let same_dir = chars_eq(&parent, &chars_of(dest_dir.as_str()));
        Command::Move { src, dest_dir, newname, same_dir }
    } else {
        Command::Copy { src, dest_dir, newname }
    }
}

fn plan_rm(parts: &Vec<String>, remote: &str) -> (r: Command)
    requires
        parts.len() >= 1,
    ensures
        r@ == rm_plan(views_of_strings(parts@), remote@),
{
    if parts.len() < 2 {
        return Command::Usage { which: Usage::Rm };
    }
    let a = parts[1].as_str();
    if has_wildcards(a) {
        let (dir, pattern) = parse_wildcard_path(a, remote, true);
        Command::RemoveMatching { dir, pattern }
    } else {
        Command::Remove { path: normalize_path(remote, a) }
    }
}

fn plan_local_transfer(parts: &Vec<String>, local: &str, moving: bool) -> (r: Command)
    requires
        parts.len() >= 1,
    ensures
        r@ == local_transfer_plan(views_of_strings(parts@), local@, moving),
{
    if parts.len() < 3 {
        return Command::Usage { which: if moving { Usage::Lmv } else { Usage::Lcp } };
    }
    let a = parts[1].as_str();
    let b = parts[2].as_str();
    if has_wildcards(a) {
        let (dir, pattern) = parse_wildcard_path(a, local, false);
        let dest_dir = resolve_local_path(local, b);
        if moving {
            Command::LocalMoveMatching { dir, pattern, dest_dir }
        } else {
            Command::LocalCopyMatching { dir, pattern, dest_dir }
        }
    } else {
        let src = resolve_local_path(local, a);
        let dest = resolve_local_dest(local, src.as_str(), b);
        if moving {
            Command::LocalMove { src, dest }
        } else {
            Command::LocalCopy { src, dest }
        }
    }
}

fn plan_lrm(parts: &Vec<String>, local: &str) -> (r: Command)
    requires
        parts.len() >= 1,
    ensures
        r@ == lrm_plan(views_of_strings(parts@), local@),
{
    if parts.len() < 2 {
        return Command::Usage { which: Usage::Lrm };
    }
    let a = parts[1].as_str();
    if has_wildcards(a) {
        let (dir, pattern) = parse_wildcard_path(a, local, false);
        Command::LocalRemoveMatching { dir, pattern }
    } else {
        Command::LocalRemove { path: resolve_local_path(local, a) }
    }
}

fn plan_put(parts: &Vec<String>, local: &str) -> (r: Command)
    requires
        parts.len() >= 1,
    ensures
        r@ == put_plan(views_of_strings(parts@), local@),
{
    if parts.len() < 2 {
        return Command::Usage { which: Usage::Put };
    }
    let a = parts[1].as_str();
    if has_wildcards(a) {
        if parts.len() > 2 {
            Command::Usage { which: Usage::PutWildcardName }
        } else {
            let (dir, pattern) = parse_wildcard_path(a, local, false);
            Command::PutMatching { dir, pattern }
        }
    } else {
        let remote_name = if parts.len() > 2 {
            Some(copy_string(parts[2].as_str()))
        } else {
            None
        };
        Command::Put { local_path: resolve_local_path(local, a), remote_name }
    }
}

// ---- the command word ----

/// The command a line's first word names.
#[derive(Clone, Copy, PartialEq, Eq, Structural, Debug)]
pub enum CommandName {
    Help,
    Pwd,
    Lpwd,
    Quota,
    Ls,
    Lls,
    Cd,
    Lcd,
    Mkdir,
    Lmkdir,
    Search,
    SemSearch,
    Put,
    Get,
    Mget,
    Rename,
    Mv,
    Cp,
    Rm,
    Lcp,
    Lmv,
    Lrm,
    Clear,
    /// `exit`, `quit` or `bye`.
    Exit,
    /// Any other word.
    Other,
}

/// The command named by `w`.
pub open spec fn command_name(w: Seq<char>) -> CommandName {
    if w == "help"@ {
        CommandName::Help
    } else if w == "pwd"@ {
        CommandName::Pwd
    } else if w == "lpwd"@ {
        CommandName::Lpwd
    } else if w == "quota"@ {
        CommandName::Quota
    } else if w == "ls"@ {
        CommandName::Ls
    } else if w == "lls"@ {
        CommandName::Lls
    } else if w == "cd"@ {
        CommandName::Cd
    } else if w == "lcd"@ {
        CommandName::Lcd
    } else if w == "mkdir"@ {
        CommandName::Mkdir
    } else if w == "lmkdir"@ {
        CommandName::Lmkdir
    } else if w == "search"@ {
        CommandName::Search
    } else if w == "semsearch"@ {
        CommandName::SemSearch
    } else if w == "put"@ {
        CommandName::Put
    } else if w == "get"@ {
        CommandName::Get
    } else if w == "mget"@ {
        CommandName::Mget
    } else if w == "rename"@ {
        CommandName::Rename
    } else if w == "mv"@ {
        CommandName::Mv
    } else if w == "cp"@ {
        CommandName::Cp
    } else if w == "rm"@ {
        CommandName::Rm
    } else if w == "lcp"@ {
        CommandName::Lcp
    } else if w == "lmv"@ {
        CommandName::Lmv
    } else if w == "lrm"@ {
        CommandName::Lrm
    } else if w == "clear"@ {
        CommandName::Clear
    } else if w == "exit"@ || w == "quit"@ || w == "bye"@ {
        CommandName::Exit
    } else {
        CommandName::Other
    }
}

/// Reads the command word.
pub fn name_command(w: &str) -> (r: CommandName)
    ensures
        r == command_name(w@),
{
    if str_eq(w, "help") {
        CommandName::Help
    } else if str_eq(w, "pwd") {
        CommandName::Pwd
    } else if str_eq(w, "lpwd") {
        CommandName::Lpwd
    } else if str_eq(w, "quota") {
        CommandName::Quota
    } else if str_eq(w, "ls") {
        CommandName::Ls
    } else if str_eq(w, "lls") {
        CommandName::Lls
    } else if str_eq(w, "cd") {
        CommandName::Cd
    } else if str_eq(w, "lcd") {
        CommandName::Lcd
    } else if str_eq(w, "mkdir") {
        CommandName::Mkdir
    } else if str_eq(w, "lmkdir") {
        CommandName::Lmkdir
    } else if str_eq(w, "search") {
        CommandName::Search
    } else if str_eq(w, "semsearch") {
        CommandName::SemSearch
    } else if str_eq(w, "put") {
        CommandName::Put
    } else if str_eq(w, "get") {
        CommandName::Get
    } else if str_eq(w, "mget") {
        CommandName::Mget
    } else if str_eq(w, "rename") {
        CommandName::Rename
    } else if str_eq(w, "mv") {
        CommandName::Mv
    } else if str_eq(w, "cp") {
        CommandName::Cp
    } else if str_eq(w, "rm") {
        CommandName::Rm
    } else if str_eq(w, "lcp") {
        CommandName::Lcp
    } else if str_eq(w, "lmv") {
        CommandName::Lmv
    } else if str_eq(w, "lrm") {
        CommandName::Lrm
    } else if str_eq(w, "clear") {
        CommandName::Clear
    } else if str_eq(w, "exit") || str_eq(w, "quit") || str_eq(w, "bye") {
        CommandName::Exit
    } else {
        CommandName::Other
    }
}

/// What the words `p` of a command line ask for, with the remote working
/// directory `r` and the local one `l`.
pub open spec fn planned(p: Seq<Seq<char>>, r: Seq<char>, l: Seq<char>) -> CommandView
    recommends
        p.len() > 0,
{
    match command_name(p[0]) {
        CommandName::Help => CommandView::Help,
        CommandName::Pwd => CommandView::Pwd,
        CommandName::Lpwd => CommandView::Lpwd,
        CommandName::Quota => CommandView::Quota,
        CommandName::Ls => CommandView::Ls,
        CommandName::Lls => CommandView::Lls { show_all: p.len() > 1 && p[1] == "-la"@ },
        CommandName::Cd => if p.len() < 2 {
            CommandView::Usage { which: Usage::Cd }
        } else {
            CommandView::Cd { path: normalized(r, spaced(p.skip(1))) }
        },
        CommandName::Lcd => if p.len() < 2 {
            CommandView::Usage { which: Usage::Lcd }
        } else {
            CommandView::Lcd { path: normalized(l, spaced(p.skip(1))) }
        },
        CommandName::Mkdir => if p.len() < 2 {
            CommandView::Usage { which: Usage::Mkdir }
        } else {
            CommandView::Mkdir { path: normalized(r, p[1]) }
        },
        CommandName::Lmkdir => if p.len() < 2 {
            CommandView::Usage { which: Usage::Lmkdir }
        } else {
            CommandView::Lmkdir { path: resolved_local(l, p[1]) }
        },
        CommandName::Search => search_plan(p),
        CommandName::SemSearch => sem_plan(p),
        CommandName::Put => put_plan(p, l),
        CommandName::Get => get_command(p, r, l),
        CommandName::Mget => mget_command(p, r, l),
        CommandName::Rename => if p.len() < 3 {
            CommandView::Usage { which: Usage::Rename }
        } else {
            CommandView::Rename { path: normalized(r, p[1]), newname: p[2] }
        },
        CommandName::Mv => move_plan(p, r),
        CommandName::Cp => copy_plan(p, r),
        CommandName::Rm => rm_plan(p, r),
        CommandName::Lcp => local_transfer_plan(p, l, false),
        CommandName::Lmv => local_transfer_plan(p, l, true),
        CommandName::Lrm => lrm_plan(p, l),
        CommandName::Clear => CommandView::Clear,
        CommandName::Exit => CommandView::Exit,
        CommandName::Other => CommandView::Unknown { command: p[0] },
    }
}

/// Turns the words of a command line into the command they ask for, with
/// remote paths resolved against `remote_dir` and local ones against
/// `local_dir`. A line needs at least one word.
pub fn plan_command(parts: &Vec<String>, remote_dir: &str, local_dir: &str) -> (r: Command)
    requires
        parts.len() >= 1,
    ensures
        r@ == planned(views_of_strings(parts@), remote_dir@, local_dir@),
{
    let ghost p = views_of_strings(parts@);
    let first = parts[0].as_str();
    assert(p[0] == first@);
    match name_command(first) {
        CommandName::Help => Command::Help,
        CommandName::Pwd => Command::Pwd,
        CommandName::Lpwd => Command::Lpwd,
        CommandName::Quota => Command::Quota,
        CommandName::Ls => Command::Ls,
        CommandName::Lls => {
            let show_all = parts.len() > 1 && str_eq(parts[1].as_str(), "-la");
            Command::Lls { show_all }
        },
        CommandName::Cd => if parts.len() < 2 {
            Command::Usage { which: Usage::Cd }
        } else {
            let target = join_words(parts, 1);
            Command::Cd { path: normalize_path(remote_dir, target.as_str()) }
        },
        CommandName::Lcd => if parts.len() < 2 {
            Command::Usage { which: Usage::Lcd }
        } else {
            let target = join_words(parts, 1);
            Command::Lcd { path: normalize_path(local_dir, target.as_str()) }
        },
        CommandName::Mkdir => if parts.len() < 2 {
            Command::Usage { which: Usage::Mkdir }
        } else {
            Command::Mkdir { path: normalize_path(remote_dir, parts[1].as_str()) }
        },
        CommandName::Lmkdir => if parts.len() < 2 {
            Command::Usage { which: Usage::Lmkdir }
        } else {
            Command::Lmkdir { path: resolve_local_path(local_dir, parts[1].as_str()) }
        },
        CommandName::Search => plan_search(parts),
        CommandName::SemSearch => plan_semsearch(parts),
        CommandName::Put => plan_put(parts, local_dir),
        CommandName::Get => plan_get(parts, remote_dir, local_dir),
        CommandName::Mget => plan_mget(parts, remote_dir, local_dir),
        CommandName::Rename => if parts.len() < 3 {
            Command::Usage { which: Usage::Rename }
        } else {
            Command::Rename {
                path: normalize_path(remote_dir, parts[1].as_str()),
                newname: copy_string(parts[2].as_str()),
            }
        },
        CommandName::Mv => plan_move(parts, remote_dir, true),
        CommandName::Cp => plan_move(parts, remote_dir, false),
        CommandName::Rm => plan_rm(parts, remote_dir),
        CommandName::Lcp => plan_local_transfer(parts, local_dir, false),
        CommandName::Lmv => plan_local_transfer(parts, local_dir, true),
        CommandName::Lrm => plan_lrm(parts, local_dir),
        CommandName::Clear => Command::Clear,
        CommandName::Exit => Command::Exit,
        CommandName::Other => Command::Unknown { command: copy_string(first) },
    }
}

// ---- confirmation ----

/// Is `c` the letter `lower` in either case?
pub open spec fn either_case(c: char, lower: char, upper: char) -> bool {
    c == lower || c == upper
}

/// An answer that confirms: `y` or `yes`, in any letter case.
pub open spec fn is_yes(t: Seq<char>) -> bool {
    (t.len() == 1 && either_case(t[0], 'y', 'Y')) || (t.len() == 3 && either_case(t[0], 'y', 'Y')
        && either_case(t[1], 'e', 'E') && either_case(t[2], 's', 'S'))
}

/// Does the typed answer confirm a deletion? Surrounding whitespace is
/// ignored; `y` and `yes` in any letter case confirm, anything else declines.
pub fn confirms(answer: &str) -> (r: bool)
    ensures
        r == is_yes(trim_ws(answer@)),
{
    let t = trim_chars(&chars_of(answer));
    (t.len() == 1 && (t[0] == 'y' || t[0] == 'Y')) || (t.len() == 3 && (t[0] == 'y' || t[0] == 'Y')
        && (t[1] == 'e' || t[1] == 'E') && (t[2] == 's' || t[2] == 'S'))
}

// ---- laws ----

/// Law: a destination ending in `/` names a directory, and the source keeps
/// its file name there, both for remote `cp`/`mv` and for local `lcp`/`lmv`.
pub proof fn trailing_slash_keeps_source_name(current: Seq<char>, local: Seq<char>, dest: Seq<char>, src: Seq<char>)
    requires
        dest.len() > 0,
        dest.last() == '/',
    ensures
        dest_parts(current, dest, src) == (normalized(current, dest), file_name_or(src, "untitled"@)),
        local_dest_arg(local, src, dest) == resolved_local(local, dest) + seq!['/'] + file_name_or(src, "untitled"@),
{
}

/// Law: the remote working directory stays canonical. From a canonical
/// directory, every `cd` leads to a canonical one.
pub proof fn cd_keeps_remote_dir_canonical(p: Seq<Seq<char>>, r: Seq<char>, l: Seq<char>)
    requires
        p.len() > 0,
        is_canonical(r),
    ensures
        planned(p, r, l) matches CommandView::Cd { path } ==> is_canonical(path),
{
    if command_name(p[0]) == CommandName::Cd && p.len() >= 2 {
        normalize_keeps_canonical(r, spaced(p.skip(1)));
    }
}

/// Law: `mv` renames in place exactly when the destination directory is the
/// source's parent directory (`/` for a source without one); otherwise the
/// file is copied to the destination and the source removed. The source is
/// the first argument resolved against the working directory, and the
/// second argument is split into directory and name.
pub proof fn move_renames_in_place_only_within_source_dir(p: Seq<Seq<char>>, r: Seq<char>, l: Seq<char>)
    requires
        p.len() >= 3,
        command_name(p[0]) == CommandName::Mv,
    ensures
        planned(p, r, l) matches CommandView::Move { src, dest_dir, newname, same_dir }
            && src == normalized(r, p[1])
            && (dest_dir, newname) == dest_parts(r, p[2], src)
            && (same_dir <==> parent_or(src, "/"@) == dest_dir),
{
}

/// Law: with an absolute source and an absolute destination, what `mv`
/// does depends on neither working directory.
pub proof fn absolute_move_ignores_working_dirs(
    p: Seq<Seq<char>>,
    r1: Seq<char>,
    l1: Seq<char>,
    r2: Seq<char>,
    l2: Seq<char>,
)
    requires
        p.len() >= 3,
        command_name(p[0]) == CommandName::Mv,
        p[1].len() > 0 && p[1][0] == '/',
        p[2].len() > 0 && p[2][0] == '/',
    ensures
        planned(p, r1, l1) == planned(p, r2, l2),
{
}

/// Law: in `semsearch`, the word after a `-t` sets the search type to the
/// number it spells whenever it is one (`-t 0` asks for a keyword search),
/// and to 1 when it is not a number; other words do not change the type.
/// Here the `-t` at `i` is the only one that takes a word.
pub proof fn semsearch_uses_the_type_given(p: Seq<Seq<char>>, r: Seq<char>, l: Seq<char>, i: int)
    requires
        command_name(p[0]) == CommandName::SemSearch,
        1 <= i,
        i + 1 < p.len(),
        p[i] == "-t"@,
        forall|j: int| 1 <= j < i ==> p[j] != "-t"@,
        forall|j: int| i + 2 <= j < p.len() ==> p[j] != "-t"@,
    ensures
        parsed_i32(p[i + 1]) matches Some(v) ==> (planned(p, r, l) matches CommandView::SemSearch { search_type, .. }
            ==> search_type == v),
        parsed_i32(p[i + 1]) is None ==> (planned(p, r, l) matches CommandView::SemSearch { search_type, .. }
            ==> search_type == 1),
{
    lemma_sem_type_reaches(p, 1, i, 1, None, Seq::empty());
    let t = search_type_arg(p[i + 1]);
    lemma_sem_type_kept(p, i + 2, t, None, Seq::empty());
}

/// Without `-t` from position `i` on, the search type stays as it is.
proof fn lemma_sem_type_kept(p: Seq<Seq<char>>, i: int, ty: i32, dir: Option<Seq<char>>, q: Seq<Seq<char>>)
    requires
        0 <= i,
        forall|j: int| i <= j < p.len() ==> p[j] != "-t"@,
    ensures
        sem_scan(p, i, ty, dir, q).0 == ty,
    decreases p.len() - i,
{
    if i < p.len() {
        assert(p[i] != "-t"@);
        if is_absolute(p[i]) {
            lemma_sem_type_kept(p, i + 1, ty, Some(p[i]), q);
        } else {
            lemma_sem_type_kept(p, i + 1, ty, dir, q.push(p[i]));
        }
    }
}

/// The search type a scan ends with does not depend on the directory and
/// query words gathered so far.
proof fn lemma_sem_type_ignores_words(
    p: Seq<Seq<char>>,
    i: int,
    ty: i32,
    d1: Option<Seq<char>>,
    q1: Seq<Seq<char>>,
    d2: Option<Seq<char>>,
    q2: Seq<Seq<char>>,
)
    ensures
        sem_scan(p, i, ty, d1, q1).0 == sem_scan(p, i, ty, d2, q2).0,
    decreases p.len() - i,
{
    if i < 0 || i >= p.len() {
    } else if p[i] == "-t"@ {
        if i + 1 < p.len() {
            lemma_sem_type_ignores_words(p, i + 2, search_type_arg(p[i + 1]), d1, q1, d2, q2);
        } else {
            lemma_sem_type_ignores_words(p, i + 1, ty, d1, q1, d2, q2);
        }
    } else if is_absolute(p[i]) {
        lemma_sem_type_ignores_words(p, i + 1, ty, Some(p[i]), q1, Some(p[i]), q2);
    } else {
        lemma_sem_type_ignores_words(p, i + 1, ty, d1, q1.push(p[i]), d2, q2.push(p[i]));
    }
}

/// Without `-t` between `k` and `i`, a scan from `k` ends with the type that
/// a scan from `i` ends with.
proof fn lemma_sem_type_reaches(p: Seq<Seq<char>>, k: int, i: int, ty: i32, dir: Option<Seq<char>>, q: Seq<Seq<char>>)
    requires
        0 <= k <= i < p.len(),
        forall|j: int| k <= j < i ==> p[j] != "-t"@,
    ensures
        sem_scan(p, k, ty, dir, q).0 == sem_scan(p, i, ty, None, Seq::empty()).0,
    decreases i - k,
{
    if k == i {
        lemma_sem_type_ignores_words(p, i, ty, dir, q, None, Seq::empty());
    } else {
        assert(p[k] != "-t"@);
        if is_absolute(p[k]) {
            lemma_sem_type_reaches(p, k + 1, i, ty, Some(p[k]), q);
        } else {
            lemma_sem_type_reaches(p, k + 1, i, ty, dir, q.push(p[k]));
        }
    }
}

/// Words of a `semsearch` line that belong to the query: those that do not
/// name a directory.
pub open spec fn query_word() -> spec_fn(Seq<char>) -> bool {
    |w: Seq<char>| !is_absolute(w)
}

/// Law: a `semsearch` line without `-t` runs a search of type 1 for its
/// words other than directories, in their order, joined by single spaces;
/// when that query is empty the usage text is shown instead.
pub proof fn semsearch_query_is_its_other_words(p: Seq<Seq<char>>, r: Seq<char>, l: Seq<char>)
    requires
        p.len() >= 1,
        command_name(p[0]) == CommandName::SemSearch,
        forall|j: int| 1 <= j < p.len() ==> p[j] != "-t"@,
    ensures
        spaced(p.skip(1).filter(query_word())).len() > 0 ==> (planned(p, r, l) matches CommandView::SemSearch {
            query,
            search_type,
            ..
        } && query == spaced(p.skip(1).filter(query_word())) && search_type == 1),
        spaced(p.skip(1).filter(query_word())).len() == 0 ==> planned(p, r, l) == (CommandView::Usage {
            which: Usage::SemSearch,
        }),
{
    if p.len() >= 2 {
        lemma_sem_words(p, 1, 1, None, Seq::empty());
        assert(Seq::<Seq<char>>::empty() + p.skip(1).filter(query_word()) =~= p.skip(1).filter(query_word()));
    } else {
        assert(p.skip(1) =~= Seq::<Seq<char>>::empty());
        reveal_with_fuel(Seq::filter, 1);
    }
}

/// Without `-t` from position `i` on, a scan keeps its search type and
/// appends the query words from `i` on.
proof fn lemma_sem_words(p: Seq<Seq<char>>, i: int, ty: i32, dir: Option<Seq<char>>, q: Seq<Seq<char>>)
    requires
        0 <= i <= p.len(),
        forall|j: int| i <= j < p.len() ==> p[j] != "-t"@,
    ensures
        sem_scan(p, i, ty, dir, q).0 == ty,
        sem_scan(p, i, ty, dir, q).2 == q + p.skip(i).filter(query_word()),
    decreases p.len() - i,
{
    reveal_with_fuel(Seq::filter, 2);
    if i == p.len() {
        assert(p.skip(i) =~= Seq::<Seq<char>>::empty());
        assert(q + Seq::<Seq<char>>::empty() =~= q);
    } else {
        assert(p[i] != "-t"@);
        let rest = p.skip(i + 1);
        assert(p.skip(i) =~= seq![p[i]] + rest);
        Seq::filter_distributes_over_add(seq![p[i]], rest, query_word());
        assert(seq![p[i]].drop_last() =~= Seq::<Seq<char>>::empty());
        if is_absolute(p[i]) {
            lemma_sem_words(p, i + 1, ty, Some(p[i]), q);
            assert(seq![p[i]].filter(query_word()) =~= Seq::<Seq<char>>::empty());
            assert(Seq::<Seq<char>>::empty() + rest.filter(query_word()) =~= rest.filter(query_word()));
        } else {
            lemma_sem_words(p, i + 1, ty, dir, q.push(p[i]));
            assert(seq![p[i]].filter(query_word()) =~= seq![p[i]]);
            assert(q.push(p[i]) + rest.filter(query_word()) =~= q + (seq![p[i]] + rest.filter(query_word())));
        }
    }
}

} // verus!
