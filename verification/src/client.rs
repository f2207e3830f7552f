//! The decisions of the drive client that do not touch the network or the
//! disk: download strategy and byte ranges, resume offsets, directory
//! download plans, upload bookkeeping, and the request URLs and bodies.

use vstd::prelude::*;
use crate::constants::{CHUNK_SIZE, MULTITHREAD_MIN_SIZE};
use crate::error::BftpError;
use crate::models::{CategoryFileListResponse, FileInfo, FileListResponse, FileManagerItem, LocateUploadResponse, QueryFileInfoResponse};
use crate::path_utils::{file_name_or, file_name_chars, joined, parent_or, parent_or_chars, path_file_name, path_join, join_chars_path, file_name_or_chars};
use crate::requests::{json_plain, json_string_text, lemma_json_plain_text};
use crate::text::{join_chars, lines_chars, lines_of, parse_i32_chars, parsed_i32, trim_chars, trim_ws, views, chars_of, extend_chars, extend_str, int_decimal, is_prefix, push_int_decimal, string_of, sub_chars, vec_starts_with, views_of_strings};

verus! {

/// How a download is carried out.
#[derive(Clone, Copy)]
pub struct DownloadOptions {
    pub num_threads: usize,
    pub resume: u64,
}

impl DownloadOptions {
    /// One connection, starting at `resume`.
    pub fn single(resume: u64) -> (r: Self)
        ensures
            r.num_threads == 1,
            r.resume == resume,
    {
        Self { num_threads: 1, resume }
    }

    /// `num_threads` connections, starting at `resume`.
    pub fn multi(resume: u64, num_threads: usize) -> (r: Self)
        ensures
            r.num_threads == num_threads,
            r.resume == resume,
    {
        Self { num_threads, resume }
    }
}

/// A download is split across connections only when more than one is asked
/// for and at least `MULTITHREAD_MIN_SIZE` bytes remain.
pub open spec fn splits_download(num_threads: nat, file_size: nat, resume: nat) -> bool {
    num_threads > 1 && (if file_size >= resume { file_size - resume } else { 0 }) >= MULTITHREAD_MIN_SIZE
}

/// Decides between the single-connection and the split download.
pub fn use_multithread(opts: DownloadOptions, file_size: u64) -> (r: bool)
    ensures
        r == splits_download(opts.num_threads as nat, file_size as nat, opts.resume as nat),
{
    !(opts.num_threads <= 1 || file_size.saturating_sub(opts.resume) < MULTITHREAD_MIN_SIZE)
}

/// `a / b` rounded up.
pub open spec fn ceil_div(a: int, b: int) -> int
    recommends
        b > 0,
{
    (a + b - 1) / b
}

/// The inclusive byte ranges that the connections of a split download
/// fetch: `num_threads` ranges of `ceil(remaining / num_threads)` bytes
/// from `resume` on, the last one cut at the end of the file, and none that
/// would start past it.
pub open spec fn ranges_ok(r: Seq<(u64, u64)>, file_size: nat, resume: nat, num_threads: nat) -> bool {
    let c = ceil_div(file_size - resume, num_threads as int);
    &&& r.len() <= num_threads
    &&& forall|i: int| 0 <= i < r.len() ==> {
        &&& (#[trigger] r[i]).0 == resume + i * c
        &&& r[i].0 < file_size
        &&& r[i].1 == (if resume + (i + 1) * c <= file_size { resume + (i + 1) * c } else { file_size as int }) - 1
    }
    &&& (r.len() == num_threads || resume + r.len() * c >= file_size)
}

/// Splits `[resume, file_size)` into the ranges of a split download.
pub fn chunk_ranges(file_size: u64, resume: u64, num_threads: usize) -> (r: Vec<(u64, u64)>)
    requires
        resume < file_size,
        num_threads >= 1,
        file_size as int + num_threads as int <= u64::MAX,
    ensures
        ranges_ok(r@, file_size as nat, resume as nat, num_threads as nat),
{
    let remaining = file_size - resume;
    let n = num_threads as u64;
    let chunk_size = remaining / n + if remaining % n != 0 { 1 } else { 0 };
    assert(chunk_size == ceil_div(remaining as int, n as int)) by (nonlinear_arith)
        requires
            n >= 1,
            chunk_size == remaining / n + if remaining % n != 0 { 1int } else { 0int },
    {
    }
    assert(n * chunk_size <= remaining + n - 1) by (nonlinear_arith)
        requires
            n >= 1,
            chunk_size == (remaining + n - 1) / (n as int),
    {
    }
    assert(chunk_size >= 1) by (nonlinear_arith)
        requires
            n >= 1,
            remaining >= 1,
            chunk_size == (remaining + n - 1) / (n as int),
    {
    }
    let mut out: Vec<(u64, u64)> = Vec::new();
    let mut i: u64 = 0;
    while i < n
        invariant
            i <= n,
            n == num_threads,
            resume < file_size,
            remaining == file_size - resume,
            chunk_size == ceil_div(remaining as int, n as int),
            n * chunk_size <= remaining + n - 1,
            chunk_size >= 1,
            file_size as int + n as int <= u64::MAX,
            out@.len() == i,
            forall|j: int| 0 <= j < i ==> {
                &&& (#[trigger] out@[j]).0 == resume + j * chunk_size
                &&& out@[j].0 < file_size
                &&& out@[j].1 == (if resume + (j + 1) * chunk_size <= file_size { resume + (j + 1) * chunk_size } else { file_size as int }) - 1
            },
        ensures
            out@.len() <= n,
            forall|j: int| 0 <= j < out@.len() ==> {
                &&& (#[trigger] out@[j]).0 == resume + j * chunk_size
                &&& out@[j].0 < file_size
                &&& out@[j].1 == (if resume + (j + 1) * chunk_size <= file_size { resume + (j + 1) * chunk_size } else { file_size as int }) - 1
            },
            out@.len() == n || resume + out@.len() * chunk_size >= file_size,
        decreases n - i,
    {
        assert(i * chunk_size <= n * chunk_size) by (nonlinear_arith)
            requires
                i <= n,
        {
        }
        assert((i + 1) * chunk_size <= n * chunk_size) by (nonlinear_arith)
            requires
                i < n,
        {
        }
        assert((i + 1) * chunk_size == i * chunk_size + chunk_size) by (nonlinear_arith);
        let start = resume + i * chunk_size;
        if start >= file_size {
            break;
        }
        let stop = start + chunk_size;
        let end = (if stop <= file_size { stop } else { file_size }) - 1;
        out.push((start, end));
        i = i + 1;
    }
    out
}

/// Law: the ranges of a split download cover `[resume, file_size)` exactly,
/// one after another without gaps or overlaps.
pub proof fn chunk_ranges_partition(r: Seq<(u64, u64)>, file_size: nat, resume: nat, num_threads: nat)
    requires
        ranges_ok(r, file_size, resume, num_threads),
        resume < file_size,
        num_threads >= 1,
    ensures
        r.len() >= 1,
        r[0].0 == resume,
        r[r.len() - 1].1 == file_size - 1,
        forall|i: int| 0 <= i < r.len() ==> #[trigger] r[i].0 <= r[i].1,
        forall|i: int| 0 <= i < r.len() - 1 ==> #[trigger] r[i + 1].0 == r[i].1 + 1,
{
    let c = ceil_div(file_size - resume, num_threads as int);
    let rem = file_size - resume;
    assert(c >= 1) by (nonlinear_arith)
        requires
            c == (rem + num_threads - 1) / (num_threads as int),
            rem >= 1,
            num_threads >= 1,
    {
    }
    assert(num_threads * c >= rem) by (nonlinear_arith)
        requires
            c == (rem + num_threads - 1) / (num_threads as int),
            num_threads >= 1,
    {
    }
    if r.len() == 0 {
        assert(resume + 0 * c >= file_size);
    }
    assert(r.len() >= 1);
    assert(r[0].0 == resume);
    let l = r.len() - 1;
    assert(r[l].1 == file_size - 1) by {
        if r.len() == num_threads {
            assert(resume + (l + 1) * c >= file_size) by (nonlinear_arith)
                requires
                    l + 1 == num_threads,
                    num_threads * c >= rem,
                    rem == file_size - resume,
            {
            }
        } else {
            assert(resume + (l + 1) * c >= file_size);
        }
    }
    assert forall|i: int| 0 <= i < r.len() implies #[trigger] r[i].0 <= r[i].1 by {
        assert((i + 1) * c == i * c + c) by (nonlinear_arith);
    }
    assert forall|i: int| 0 <= i < r.len() - 1 implies #[trigger] r[i + 1].0 == r[i].1 + 1 by {
        assert((i + 1) * c == i * c + c) by (nonlinear_arith);
        assert(r[i + 1].0 < file_size);
    }
}

// ---- resuming ----

/// What the progress file of a split download holds.
pub enum PartRecord {
    /// There is no progress file.
    Missing,
    /// There is one, but its 8-byte counter could not be read.
    Unreadable,
    /// The counter of bytes already written.
    Recorded(u64),
}

/// Where a download resumes, and whether the progress file is to be
/// deleted. A recorded counter wins (capped at the remote size, in which
/// case the download is complete and the file goes); otherwise an existing
/// local file's size counts (capped at the remote size); otherwise 0.
pub open spec fn resume_decision(part: PartRecord, local_file_size: Option<u64>, remote_size: u64) -> (u64, bool) {
    let from_local = match local_file_size {
        Some(n) => if n >= remote_size { remote_size } else { n },
        None => 0,
    };
    match part {
        PartRecord::Recorded(n) => if n >= remote_size { (remote_size, true) } else { (n, false) },
        PartRecord::Unreadable => (from_local, true),
        PartRecord::Missing => (from_local, false),
    }
}

/// Decides the resume offset of a download from its progress record and
/// the size of the local file (`None` when there is no regular file).
pub fn resume_offset(part: PartRecord, local_file_size: Option<u64>, remote_size: u64) -> (r: (u64, bool))
    ensures
        r == resume_decision(part, local_file_size, remote_size),
        r.0 <= remote_size,
        part matches PartRecord::Recorded(n) ==> (n < remote_size ==> r == (n, false)),
        part matches PartRecord::Recorded(n) ==> (n >= remote_size ==> r == (remote_size, true)),
        !(part is Recorded) ==> (r.1 <==> part is Unreadable),
        !(part is Recorded) ==> (local_file_size matches Some(n) ==> (n < remote_size ==> r.0 == n)),
        !(part is Recorded) ==> (local_file_size matches Some(n) ==> (n >= remote_size ==> r.0 == remote_size)),
        !(part is Recorded) ==> (local_file_size is None ==> r.0 == 0),
{
    let from_local = match local_file_size {
        Some(n) => if n >= remote_size { remote_size } else { n },
        None => 0,
    };
    match part {
        PartRecord::Recorded(n) => if n >= remote_size { (remote_size, true) } else { (n, false) },
        PartRecord::Unreadable => (from_local, true),
        PartRecord::Missing => (from_local, false),
    }
}

/// Without a progress record a download resumes where the local file
/// ends: at its size when that is below the remote size, at the remote
/// size (nothing left to fetch) otherwise, and at 0 without a local file;
/// the decision never deletes a progress file that is not there. A record
/// that cannot be read falls back on the local file the same way, and is
/// deleted. A readable record decides alone, whatever the local file.
pub proof fn resume_follows_record_or_local_size(part: PartRecord, local_file_size: Option<u64>, remote_size: u64)
    ensures
        local_file_size matches Some(n) ==> (n < remote_size ==>
            resume_decision(PartRecord::Missing, local_file_size, remote_size) == (n, false)),
        local_file_size matches Some(n) ==> (n >= remote_size ==>
            resume_decision(PartRecord::Missing, local_file_size, remote_size) == (remote_size, false)),
        resume_decision(PartRecord::Missing, None, remote_size) == (0u64, false),
        resume_decision(PartRecord::Unreadable, local_file_size, remote_size).0
            == resume_decision(PartRecord::Missing, local_file_size, remote_size).0,
        resume_decision(PartRecord::Unreadable, local_file_size, remote_size).1,
        part is Missing && remote_size > 0 && resume_decision(part, local_file_size, remote_size).0 == remote_size
            ==> (local_file_size matches Some(m) && m >= remote_size),
        part matches PartRecord::Recorded(n) ==> resume_decision(part, local_file_size, remote_size)
            == resume_decision(part, None, remote_size),
{
}

// ---- directory downloads ----

/// `s` without the prefix `p` when it starts with it.
pub open spec fn strip_prefix_or_keep(s: Seq<char>, p: Seq<char>) -> Seq<char> {
    if is_prefix(p, s) { s.skip(p.len() as int) } else { s }
}

/// Where a remote file of a downloaded directory lands: its path relative
/// to the remote directory (one leading `/` dropped) joined onto the local
/// directory.
pub open spec fn local_target(remote_dir: Seq<char>, local_dir: Seq<char>, file_path: Seq<char>) -> Seq<char> {
    path_join(local_dir, strip_prefix_or_keep(strip_prefix_or_keep(file_path, remote_dir), seq!['/']))
}

/// The local path for a file of a downloaded directory.
pub fn local_target_path(remote_dir: &str, local_dir: &str, file_path: &str) -> (r: String)
    ensures
        r@ == local_target(remote_dir@, local_dir@, file_path@),
{
    let f = chars_of(file_path);
    let d = chars_of(remote_dir);
    let rel = if vec_starts_with(&f, &d) { sub_chars(&f, d.len(), f.len()) } else { f.clone() };
    assert(rel@ == strip_prefix_or_keep(f@, d@)) by {
        if is_prefix(d@, f@) {
            assert(rel@ =~= f@.skip(d@.len() as int));
        }
    }
    let mut slash: Vec<char> = Vec::new();
    slash.push('/');
    let rel2 = if vec_starts_with(&rel, &slash) { sub_chars(&rel, 1, rel.len()) } else { rel.clone() };
    assert(rel2@ == strip_prefix_or_keep(rel@, seq!['/'])) by {
        assert(slash@ =~= seq!['/']);
        if is_prefix(seq!['/'], rel@) {
            assert(rel2@ =~= rel@.skip(1));
        }
    }
    let base = chars_of(local_dir);
    let j = join_chars_path(&base, &rel2);
    string_of(&j)
}

/// Positions of the regular files (not directories) in a recursive listing.
pub open spec fn file_positions(entries: Seq<FileInfo>) -> Seq<int>
    decreases entries.len(),
{
    if entries.len() == 0 {
        Seq::empty()
    } else {
        let prev = file_positions(entries.drop_last());
        if entries.last().isdir == 0 { prev.push(entries.len() - 1) } else { prev }
    }
}

/// The positions as integers.
pub open spec fn usize_ints(s: Seq<usize>) -> Seq<int> {
    Seq::new(s.len(), |k: int| s[k] as int)
}

/// The entries of a recursive listing that are files, by position.
pub fn downloadable_files(entries: &Vec<FileInfo>) -> (r: Vec<usize>)
    ensures
        usize_ints(r@) == file_positions(entries@),
{
    let mut out: Vec<usize> = Vec::new();
    assert(usize_ints(out@) =~= file_positions(entries@.take(0)));
    for i in 0..entries.len()
        invariant
            usize_ints(out@) == file_positions(entries@.take(i as int)),
    {
        assert(entries@.take(i + 1).drop_last() =~= entries@.take(i as int));
        let ghost before = out@;
        if entries[i].isdir == 0 {
            out.push(i);
            assert(usize_ints(out@) =~= usize_ints(before).push(i as int));
        }
    }
    assert(entries@.take(entries@.len() as int) =~= entries@);
    out
}

/// Sum of the sizes whose resume offset equals (or differs from) the size.
pub open spec fn scan_totals(sizes: Seq<u64>, resumes: Seq<u64>, complete: bool) -> (nat, nat)
    decreases sizes.len(),
{
    if sizes.len() == 0 || resumes.len() != sizes.len() {
        (0, 0)
    } else {
        let prev = scan_totals(sizes.drop_last(), resumes.drop_last(), complete);
        if (resumes.last() == sizes.last()) == complete {
            ((prev.0 + 1) as nat, (prev.1 + sizes.last()) as nat)
        } else {
            prev
        }
    }
}

/// Totals before a directory download: how many files (and bytes) are
/// already complete locally, and how many (and how many bytes) are to be
/// fetched.
pub struct ScanSummary {
    pub skip_count: u64,
    pub skip_size: u64,
    pub new_count: u64,
    pub new_size: u64,
}

/// Counts the complete and the outstanding files of a directory download,
/// given each file's size and resume offset.
pub fn summarize_scan(sizes: &Vec<u64>, resumes: &Vec<u64>) -> (r: ScanSummary)
    requires
        sizes@.len() == resumes@.len(),
        scan_totals(sizes@, resumes@, true).1 + scan_totals(sizes@, resumes@, false).1 <= u64::MAX,
    ensures
        (r.skip_count as nat, r.skip_size as nat) == scan_totals(sizes@, resumes@, true),
        (r.new_count as nat, r.new_size as nat) == scan_totals(sizes@, resumes@, false),
        r.skip_count + r.new_count == sizes.len(),
        r.skip_size + r.new_size == total_size(sizes@),
        (forall|i: int| 0 <= i < sizes.len() ==> resumes[i] != sizes[i])
            ==> r.skip_count == 0 && r.skip_size == 0 && r.new_count == sizes.len() && r.new_size == total_size(sizes@),
        (forall|i: int| 0 <= i < sizes.len() ==> resumes[i] == sizes[i])
            ==> r.new_count == 0 && r.new_size == 0 && r.skip_count == sizes.len(),
{
    let mut r = ScanSummary { skip_count: 0, skip_size: 0, new_count: 0, new_size: 0 };
    for i in 0..sizes.len()
        invariant
            sizes@.len() == resumes@.len(),
            scan_totals(sizes@, resumes@, true).1 + scan_totals(sizes@, resumes@, false).1 <= u64::MAX,
            (r.skip_count as nat, r.skip_size as nat) == scan_totals(sizes@.take(i as int), resumes@.take(i as int), true),
            (r.new_count as nat, r.new_size as nat) == scan_totals(sizes@.take(i as int), resumes@.take(i as int), false),
    {
        assert(sizes@.take(i + 1).drop_last() =~= sizes@.take(i as int));
        assert(resumes@.take(i + 1).drop_last() =~= resumes@.take(i as int));
        proof {
            lemma_scan_totals_grow(sizes@, resumes@, (i + 1) as int);
        }
        if resumes[i] == sizes[i] {
            r.skip_count = r.skip_count + 1;
            r.skip_size = r.skip_size + sizes[i];
        } else {
            r.new_count = r.new_count + 1;
            r.new_size = r.new_size + sizes[i];
        }
    }
    assert(sizes@.take(sizes@.len() as int) =~= sizes@);
    assert(resumes@.take(resumes@.len() as int) =~= resumes@);
    proof {
        scan_splits_every_file(sizes@, resumes@);
        if forall|i: int| 0 <= i < sizes.len() ==> resumes[i] != sizes[i] {
            scan_with_no_complete_file(sizes@, resumes@);
        }
        if forall|i: int| 0 <= i < sizes.len() ==> resumes[i] == sizes[i] {
            scan_with_every_file_complete(sizes@, resumes@);
        }
    }
    r
}

/// The sum of `sizes`.
pub open spec fn total_size(sizes: Seq<u64>) -> nat
    decreases sizes.len(),
{
    if sizes.len() == 0 {
        0
    } else {
        (total_size(sizes.drop_last()) + sizes.last()) as nat
    }
}

/// Every file of a directory download is counted exactly once: either as
/// already complete or as to be fetched, with its size.
pub proof fn scan_splits_every_file(sizes: Seq<u64>, resumes: Seq<u64>)
    requires
        sizes.len() == resumes.len(),
    ensures
        scan_totals(sizes, resumes, true).0 + scan_totals(sizes, resumes, false).0 == sizes.len(),
        scan_totals(sizes, resumes, true).1 + scan_totals(sizes, resumes, false).1 == total_size(sizes),
    decreases sizes.len(),
{
    if sizes.len() > 0 {
        scan_splits_every_file(sizes.drop_last(), resumes.drop_last());
    }
}

/// A file counts as already complete exactly when its resume offset equals
/// its size: taking file `i` out of the listing takes one file and its
/// size out of the complete totals when it was complete, and out of the
/// totals to fetch otherwise (a partial or absent local copy), leaving the
/// other totals as they were.
pub proof fn scan_counts_file_by_its_offset(sizes: Seq<u64>, resumes: Seq<u64>, i: int)
    requires
        sizes.len() == resumes.len(),
        0 <= i < sizes.len(),
    ensures
        resumes[i] == sizes[i] ==> scan_totals(sizes, resumes, true) == (
            (scan_totals(sizes.remove(i), resumes.remove(i), true).0 + 1) as nat,
            (scan_totals(sizes.remove(i), resumes.remove(i), true).1 + sizes[i]) as nat,
        ),
        resumes[i] == sizes[i] ==> scan_totals(sizes, resumes, false)
            == scan_totals(sizes.remove(i), resumes.remove(i), false),
        resumes[i] != sizes[i] ==> scan_totals(sizes, resumes, false) == (
            (scan_totals(sizes.remove(i), resumes.remove(i), false).0 + 1) as nat,
            (scan_totals(sizes.remove(i), resumes.remove(i), false).1 + sizes[i]) as nat,
        ),
        resumes[i] != sizes[i] ==> scan_totals(sizes, resumes, true)
            == scan_totals(sizes.remove(i), resumes.remove(i), true),
    decreases sizes.len(),
{
    if i == sizes.len() - 1 {
        assert(sizes.remove(i) =~= sizes.drop_last());
        assert(resumes.remove(i) =~= resumes.drop_last());
    } else {
        scan_counts_file_by_its_offset(sizes.drop_last(), resumes.drop_last(), i);
        assert(sizes.drop_last().remove(i) =~= sizes.remove(i).drop_last());
        assert(resumes.drop_last().remove(i) =~= resumes.remove(i).drop_last());
        assert(sizes.remove(i).last() == sizes.last());
        assert(resumes.remove(i).last() == resumes.last());
    }
}

/// With no local file complete (an empty local directory, say), nothing is
/// skipped and every file, with all its bytes, is to be fetched.
pub proof fn scan_with_no_complete_file(sizes: Seq<u64>, resumes: Seq<u64>)
    requires
        sizes.len() == resumes.len(),
        forall|i: int| 0 <= i < sizes.len() ==> resumes[i] != sizes[i],
    ensures
        scan_totals(sizes, resumes, true) == (0nat, 0nat),
        scan_totals(sizes, resumes, false) == (sizes.len(), total_size(sizes)),
    decreases sizes.len(),
{
    if sizes.len() > 0 {
        scan_with_no_complete_file(sizes.drop_last(), resumes.drop_last());
        assert(resumes.last() != sizes.last()) by {
            assert(resumes[sizes.len() - 1] != sizes[sizes.len() - 1]);
        }
    }
}

/// With every local file complete, nothing is to be fetched.
pub proof fn scan_with_every_file_complete(sizes: Seq<u64>, resumes: Seq<u64>)
    requires
        sizes.len() == resumes.len(),
        forall|i: int| 0 <= i < sizes.len() ==> resumes[i] == sizes[i],
    ensures
        scan_totals(sizes, resumes, false) == (0nat, 0nat),
        scan_totals(sizes, resumes, true) == (sizes.len(), total_size(sizes)),
    decreases sizes.len(),
{
    if sizes.len() > 0 {
        scan_with_every_file_complete(sizes.drop_last(), resumes.drop_last());
        assert(resumes.last() == sizes.last()) by {
            assert(resumes[sizes.len() - 1] == sizes[sizes.len() - 1]);
        }
    }
}

proof fn lemma_scan_totals_grow(sizes: Seq<u64>, resumes: Seq<u64>, k: int)
    requires
        sizes.len() == resumes.len(),
        0 <= k <= sizes.len(),
    ensures
        scan_totals(sizes.take(k), resumes.take(k), true).1 + scan_totals(sizes.take(k), resumes.take(k), false).1
            <= scan_totals(sizes, resumes, true).1 + scan_totals(sizes, resumes, false).1,
        scan_totals(sizes.take(k), resumes.take(k), true).0 + scan_totals(sizes.take(k), resumes.take(k), false).0 == k,
    decreases sizes.len(),
{
    if k < sizes.len() {
        lemma_scan_totals_grow(sizes.drop_last(), resumes.drop_last(), k);
        assert(sizes.drop_last().take(k) =~= sizes.take(k));
        assert(resumes.drop_last().take(k) =~= resumes.take(k));
    } else {
        assert(sizes.take(k) =~= sizes);
        assert(resumes.take(k) =~= resumes);
        if k > 0 {
            lemma_scan_totals_grow(sizes.drop_last(), resumes.drop_last(), k - 1);
            assert(sizes.drop_last().take(k - 1) =~= sizes.drop_last());
            assert(resumes.drop_last().take(k - 1) =~= resumes.drop_last());
        }
    }
}

// ---- listings and answers ----

/// The position of the listed entry named like the last component of
/// `remote_path`.
pub open spec fn finds_name(list: Seq<FileInfo>, name: Seq<char>, i: int) -> bool {
    0 <= i < list.len() && list[i].server_filename@ == name
        && forall|j: int| 0 <= j < i ==> list[j].server_filename@ != name
}

/// The directory to list to find `remote_path`, and the name to look for.
pub open spec fn lookup_parts(remote_path: Seq<char>) -> (Seq<char>, Seq<char>) {
    (parent_or(remote_path, "/"@), file_name_or(remote_path, ""@))
}

/// Splits a remote file path into the directory to list and the name to find there.
pub fn lookup_target(remote_path: &str) -> (r: (String, String))
    ensures
        (r.0@, r.1@) == lookup_parts(remote_path@),
{
    let p = chars_of(remote_path);
    let dir = parent_or_chars(&p, "/");
    let name = file_name_or_chars(&p, "");
    (string_of(&dir), string_of(&name))
}

/// The error text for a file that is not listed.
pub open spec fn not_found_text(remote_path: Seq<char>) -> Seq<char> {
    "未找到远程文件: "@ + remote_path
}

/// The error text for a directory given where a file is needed.
pub open spec fn is_dir_text(remote_path: Seq<char>) -> Seq<char> {
    remote_path + " 是目录，请使用 -r 下载"@
}

/// Finds the file to download in the listing of its directory: the first
/// entry with its name, which must not be a directory.
pub fn find_download_target(list: &FileListResponse, remote_path: &str, name: &str) -> (r: Result<usize, BftpError>)
    ensures
        match list.list {
            None => r matches Err(BftpError::Other(m)) && m@ == not_found_text(remote_path@),
            Some(l) => match r {
                Ok(i) => finds_name(l@, name@, i as int) && l@[i as int].isdir != 1,
                Err(BftpError::Other(m)) => (forall|j: int| 0 <= j < l@.len() ==> l@[j].server_filename@ != name@)
                    && m@ == not_found_text(remote_path@)
                    || (exists|i: int| finds_name(l@, name@, i) && l@[i].isdir == 1) && m@ == is_dir_text(remote_path@),
                Err(_) => false,
            },
        },
{
    match &list.list {
        None => {
            let mut v = chars_of("未找到远程文件: ");
            extend_str(&mut v, remote_path);
            Err(BftpError::Other(string_of(&v)))
        },
        Some(files) => {
            for i in 0..files.len()
                invariant
                    list.list == Some(*files),
                    forall|j: int| 0 <= j < i ==> files@[j].server_filename@ != name@,
            {
                if crate::text::str_eq(files[i].server_filename.as_str(), name) {
                    if files[i].isdir == 1 {
                        let mut v = chars_of(remote_path);
                        extend_str(&mut v, " 是目录，请使用 -r 下载");
                        assert(finds_name(files@, name@, i as int));
                        return Err(BftpError::Other(string_of(&v)));
                    }
                    return Ok(i);
                }
            }
            let mut v = chars_of("未找到远程文件: ");
            extend_str(&mut v, remote_path);
            Err(BftpError::Other(string_of(&v)))
        },
    }
}

/// The download link of the first metadata record, if any.
pub fn first_dlink(metas: &QueryFileInfoResponse) -> (r: Option<String>)
    ensures
        metas.list@.len() == 0 ==> r is None,
        metas.list@.len() > 0 ==> (r matches Some(l) && l@ == metas.list@[0].dlink@),
{
    if metas.list.len() == 0 {
        None
    } else {
        Some(metas.list[0].dlink.clone())
    }
}

/// After one page of a recursive listing: the cursor of the next page, or
/// `None` when there are no more.
pub fn next_page_cursor(page: &CategoryFileListResponse) -> (r: Option<i32>)
    ensures
        page.has_more == 0 ==> r is None,
        page.has_more != 0 ==> r == Some(page.cursor),
{
    if page.has_more == 0 { None } else { Some(page.cursor) }
}

/// Adds one page of a recursive listing to the entries gathered so far, in
/// order, and gives the cursor of the next page (`None` after the last one).
pub fn absorb_page(all: &mut Vec<FileInfo>, page: CategoryFileListResponse) -> (r: Option<i32>)
    ensures
        final(all)@ == old(all)@ + match page.list {
            Some(l) => l@,
            None => Seq::<FileInfo>::empty(),
        },
        page.has_more == 0 ==> r is None,
        page.has_more != 0 ==> r == Some(page.cursor),
{
    let next = next_page_cursor(&page);
    match page.list {
        Some(mut l) => {
            all.append(&mut l);
        },
        None => {
            assert(all@ =~= all@ + Seq::<FileInfo>::empty());
        },
    }
    next
}

/// Picks the upload server: the first one on `https://`, else the first one.
pub fn pick_upload_server(resp: &LocateUploadResponse) -> (r: Option<String>)
    ensures
        match resp.servers {
            None => r is None,
            Some(s) => match r {
                None => s@.len() == 0,
                Some(u) => (exists|i: int| 0 <= i < s@.len() && is_prefix("https://"@, s@[i].server@)
                    && u@ == s@[i].server@
                    && forall|j: int| 0 <= j < i ==> !is_prefix("https://"@, #[trigger] s@[j].server@))
                    || ((forall|j: int| 0 <= j < s@.len() ==> !is_prefix("https://"@, #[trigger] s@[j].server@))
                        && s@.len() > 0 && u@ == s@[0].server@),
            },
        },
{
    match &resp.servers {
        None => None,
        Some(servers) => {
            let https = chars_of("https://");
            for i in 0..servers.len()
                invariant
                    resp.servers == Some(*servers),
                    https@ == "https://"@,
                    forall|j: int| 0 <= j < i ==> !is_prefix("https://"@, #[trigger] servers@[j].server@),
            {
                let sv = chars_of(servers[i].server.as_str());
                if vec_starts_with(&sv, &https) {
                    return Some(servers[i].server.clone());
                }
            }
            if servers.len() > 0 {
                Some(servers[0].server.clone())
            } else {
                None
            }
        },
    }
}

/// The message for a file-manager item that failed.
pub open spec fn item_failed_text(path: Option<Seq<char>>, errno: i32) -> Seq<char> {
    "文件 "@ + match path {
        Some(p) => p,
        None => "?"@,
    } + " 操作失败: errno="@ + int_decimal(errno as int)
}

/// Rejects a file-manager answer in which some item failed, naming the first failed item.
pub fn check_file_manager_items(info: &Option<Vec<FileManagerItem>>) -> (r: Result<(), BftpError>)
    ensures
        match info {
            None => r is Ok,
            Some(items) => match r {
                Ok(_) => forall|j: int| 0 <= j < items@.len() ==> #[trigger] items@[j].errno == 0,
                Err(BftpError::Other(m)) => exists|i: int| 0 <= i < items@.len() && items@[i].errno != 0
                    && (forall|j: int| 0 <= j < i ==> #[trigger] items@[j].errno == 0)
                    && m@ == item_failed_text(crate::models::opt_view(items@[i].path), items@[i].errno),
                Err(_) => false,
            },
        },
{
    match info {
        None => Ok(()),
        Some(items) => {
            for i in 0..items.len()
                invariant
                    *info == Some(*items),
                    forall|j: int| 0 <= j < i ==> #[trigger] items@[j].errno == 0,
            {
                if items[i].errno != 0 {
                    let mut v = chars_of("文件 ");
                    match &items[i].path {
                        Some(p) => extend_str(&mut v, p.as_str()),
                        None => extend_str(&mut v, "?"),
                    }
                    extend_str(&mut v, " 操作失败: errno=");
                    push_int_decimal(&mut v, items[i].errno as i64);
                    return Err(BftpError::Other(string_of(&v)));
                }
            }
            Ok(())
        },
    }
}

// ---- uploads ----

/// The remote path of an upload: the chosen name (or the local file's
/// name) in the current remote directory.
pub open spec fn upload_target(current_remote_path: Seq<char>, local_path: Seq<char>, remote_filename: Option<Seq<char>>) -> Seq<char> {
    joined(current_remote_path, match remote_filename {
        Some(n) => n,
        None => file_name_or(local_path, Seq::<char>::empty()),
    })
}

/// Where an upload goes. Without a chosen name, the local path must have a file name.
pub fn upload_remote_path(current_remote_path: &str, local_path: &str, remote_filename: Option<&str>) -> (r: String)
    requires
        remote_filename is Some || path_file_name(local_path@) is Some,
    ensures
        r@ == upload_target(current_remote_path@, local_path@, match remote_filename {
            Some(n) => Some(n@),
            None => None,
        }),
{
    let name = match remote_filename {
        Some(n) => chars_of(n),
        None => file_name_or_chars(&chars_of(local_path), ""),
    };
    let cur = chars_of(current_remote_path);
    let mut v = cur.clone();
    if !(cur.len() > 0 && cur[cur.len() - 1] == '/') {
        v.push('/');
    }
    extend_chars(&mut v, &name);
    string_of(&v)
}

/// The chunk indexes to upload: those the service asks for, or just the first.
pub fn chunks_to_upload(block_list: Option<Vec<i32>>) -> (r: Vec<i32>)
    ensures
        match block_list {
            Some(l) => r@ == l@,
            None => r@ == seq![0i32],
        },
{
    match block_list {
        Some(l) => l,
        None => {
            let mut v = Vec::new();
            v.push(0);
            assert(v@ =~= seq![0i32]);
            v
        },
    }
}

// ---- block lists (md5 crate) ----

/// The 16-byte MD5 digest of `data`.
pub uninterp spec fn md5_digest(data: Seq<u8>) -> Seq<u8>;

/// `md5::compute`: the MD5 digest of `data`, its 16 bytes.
#[verifier::external_body]
fn md5_compute(data: &[u8]) -> (r: Vec<u8>)
    ensures
        r@ == md5_digest(data@),
        r@.len() == 16,
{
    md5::compute(data).0.to_vec()
}

/// The lowercase hexadecimal digit for `d < 16`.
pub open spec fn hex_lower_digit(d: nat) -> char {
    if d < 10 { ((48 + d) as u8) as char } else { ((87 + d) as u8) as char }
}

/// Two lowercase hex digits per byte, as `{:x}` prints an MD5 digest.
pub open spec fn hex_lower(bs: Seq<u8>) -> Seq<char>
    decreases bs.len(),
{
    if bs.len() == 0 {
        Seq::empty()
    } else {
        hex_lower(bs.drop_last()) + seq![hex_lower_digit((bs.last() / 16) as nat), hex_lower_digit((bs.last() % 16) as nat)]
    }
}

fn hex_digit(d: u8) -> (c: char)
    requires
        d < 16,
    ensures
        c == hex_lower_digit(d as nat),
{
    if d < 10 { (48 + d) as char } else { (87 + d) as char }
}

/// The MD5 of `data` in lowercase hex.
pub fn compute_file_md5(data: &[u8]) -> (r: String)
    ensures
        r@ == hex_lower(md5_digest(data@)),
{
    let digest = md5_compute(data);
    let mut v: Vec<char> = Vec::new();
    assert(digest@.take(0) =~= Seq::<u8>::empty());
    for i in 0..digest.len()
        invariant
            v@ == hex_lower(digest@.take(i as int)),
    {
        let b = digest[i];
        assert(digest@.take(i + 1).drop_last() =~= digest@.take(i as int));
        v.push(hex_digit(b / 16));
        v.push(hex_digit(b % 16));
        assert(v@ =~= hex_lower(digest@.take(i + 1)));
    }
    assert(digest@.take(digest@.len() as int) =~= digest@);
    string_of(&v)
}

/// The hex MD5 of each `CHUNK_SIZE` piece of `data` (the last may be shorter).
pub open spec fn chunk_md5s(data: Seq<u8>) -> Seq<Seq<char>>
    decreases data.len(),
{
    if data.len() == 0 {
        Seq::empty()
    } else if data.len() <= CHUNK_SIZE {
        seq![hex_lower(md5_digest(data))]
    } else {
        seq![hex_lower(md5_digest(data.take(CHUNK_SIZE as int)))] + chunk_md5s(data.skip(CHUNK_SIZE as int))
    }
}

/// The chunk digests an upload announces; an empty file has the one digest
/// of the empty input.
pub open spec fn block_md5s(data: Seq<u8>) -> Seq<Seq<char>> {
    if data.len() == 0 { seq![hex_lower(md5_digest(Seq::empty()))] } else { chunk_md5s(data) }
}

proof fn lemma_hex_plain(bs: Seq<u8>)
    ensures
        json_plain(hex_lower(bs)),
    decreases bs.len(),
{
    if bs.len() > 0 {
        lemma_hex_plain(bs.drop_last());
        let b = bs.last();
        let hi = (b / 16) as nat;
        let lo = (b % 16) as nat;
        assert(hex_lower_digit(hi) >= '0' && hex_lower_digit(hi) != '"' && hex_lower_digit(hi) != '\\') by {
            if hi < 10 {
                assert(48 <= 48 + hi <= 57);
            } else {
                assert(97 <= 87 + hi <= 102);
            }
        }
        assert(hex_lower_digit(lo) >= '0' && hex_lower_digit(lo) != '"' && hex_lower_digit(lo) != '\\') by {
            if lo < 10 {
                assert(48 <= 48 + lo <= 57);
            } else {
                assert(97 <= 87 + lo <= 102);
            }
        }
        let prev = hex_lower(bs.drop_last());
        let h = hex_lower(bs);
        assert(h == prev + seq![hex_lower_digit(hi), hex_lower_digit(lo)]);
        assert forall|i: int| 0 <= i < h.len() implies h[i] != '"' && h[i] != '\\' && h[i] >= ' ' by {
            if i < prev.len() {
                assert(h[i] == prev[i]);
            }
        }
    }
}

/// A string between double quotes.
pub open spec fn quoted(s: Seq<char>) -> Seq<char> {
    seq!['"'] + s + seq!['"']
}

/// The JSON array of strings that need no escaping: `[`, each string
/// between double quotes, separated by `,`, then `]`.
pub open spec fn json_plain_list(items: Seq<Seq<char>>) -> Seq<char> {
    seq!['['] + join_chars(Seq::new(items.len(), |i: int| quoted(items[i])), seq![',']) + seq![']']
}

/// The JSON array text that `serde_json::to_string` writes for a list of
/// strings: `[`, the string literals separated by `,`, then `]`.
pub open spec fn json_string_array_text(items: Seq<Seq<char>>) -> Seq<char> {
    seq!['['] + join_chars(Seq::new(items.len(), |i: int| json_string_text(items[i])), seq![',']) + seq![']']
}

/// `serde_json::to_string` of a list of strings (serialising into memory
/// cannot fail). Its compact formatter writes `[`, the elements separated by
/// `,`, and `]`, each element as a JSON string literal.
#[verifier::external_body]
fn json_string_array(items: &Vec<String>) -> (r: String)
    ensures
        r@ == json_string_array_text(views_of_strings(items@)),
{
    match serde_json::to_string(items) {
        Ok(t) => t,
        Err(_) => String::new(),
    }
}

/// Strings with nothing to escape make a list of plainly quoted strings.
proof fn lemma_plain_array(items: Seq<Seq<char>>)
    requires
        forall|i: int| 0 <= i < items.len() ==> #[trigger] json_plain(items[i]),
    ensures
        json_string_array_text(items) == json_plain_list(items),
{
    assert forall|i: int| 0 <= i < items.len() implies #[trigger] json_string_text(items[i]) == quoted(items[i]) by {
        lemma_json_plain_text(items[i]);
    }
    assert(Seq::new(items.len(), |i: int| json_string_text(items[i])) =~= Seq::new(items.len(), |i: int| quoted(items[i])));
}

/// The size, the block list (JSON array of chunk digests) and the number of
/// chunks of a file's contents.
pub fn compute_block_list(data: &[u8]) -> (r: (u64, String, usize))
    ensures
        r.0 == data@.len(),
        r.1@ == json_plain_list(block_md5s(data@)),
        r.2 == block_md5s(data@).len(),
{
    let mut md5s: Vec<String> = Vec::new();
    let mut start: usize = 0;
    let n = data.len();
    assert(data@.skip(0) =~= data@);
    assert(views_of_strings(md5s@) =~= Seq::<Seq<char>>::empty());
    while start < n
        invariant
            start <= n == data@.len(),
            chunk_md5s(data@) == views_of_strings(md5s@) + chunk_md5s(data@.skip(start as int)),
            forall|j: int| 0 <= j < md5s@.len() ==> #[trigger] json_plain(md5s@[j]@),
        decreases n - start,
    {
        let rest = n - start;
        let take = if rest <= CHUNK_SIZE { rest } else { CHUNK_SIZE };
        let piece = vstd::slice::slice_subrange(data, start, start + take);
        let ghost tail = data@.skip(start as int);
        assert(piece@ =~= tail.take(take as int));
        let h = compute_file_md5(piece);
        proof { lemma_hex_plain(md5_digest(piece@)); }
        let ghost before = views_of_strings(md5s@);
        md5s.push(h);
        assert(views_of_strings(md5s@) =~= before.push(h@));
        if rest <= CHUNK_SIZE {
            assert(tail.take(take as int) =~= tail);
            assert(data@.skip((start + take) as int) =~= Seq::<u8>::empty());
        } else {
            assert(tail.skip(CHUNK_SIZE as int) =~= data@.skip((start + take) as int));
        }
        assert(chunk_md5s(data@.skip((start + take) as int)) == chunk_md5s(data@.skip(start as int)).drop_first()
            || chunk_md5s(data@.skip((start + take) as int)).len() == 0);
        assert(views_of_strings(md5s@) + chunk_md5s(data@.skip((start + take) as int))
            =~= before + chunk_md5s(tail));
        start = start + take;
    }
    assert(data@.skip(n as int) =~= Seq::<u8>::empty());
    assert(views_of_strings(md5s@) =~= chunk_md5s(data@));
    if md5s.len() == 0 {
        let empty: [u8; 0] = [];
        let h = compute_file_md5(&empty);
        proof { lemma_hex_plain(md5_digest(empty@)); }
        assert(empty@ =~= Seq::<u8>::empty());
        md5s.push(h);
        assert(views_of_strings(md5s@) =~= block_md5s(data@));
    }
    let text = json_string_array(&md5s);
    proof {
        assert forall|i: int| 0 <= i < views_of_strings(md5s@).len()
            implies #[trigger] json_plain(views_of_strings(md5s@)[i]) by {
            assert(json_plain(md5s@[i]@));
        }
        lemma_plain_array(views_of_strings(md5s@));
    }
    (n as u64, text, md5s.len())
}

// ---- upload progress file ----

/// The chunk indexes recorded after the first line: each line, trimmed,
/// that parses as an `i32`; other lines are skipped.
pub open spec fn recorded_chunks(ls: Seq<Seq<char>>) -> Seq<i32>
    decreases ls.len(),
{
    if ls.len() == 0 {
        Seq::empty()
    } else {
        let prev = recorded_chunks(ls.drop_last());
        match parsed_i32(trim_ws(ls.last())) {
            Some(v) => prev.push(v),
            None => prev,
        }
    }
}

/// What a progress file says: its first line is the upload id, the other
/// lines the chunks already sent.
pub open spec fn progress_of(content: Seq<char>) -> (Option<Seq<char>>, Seq<i32>) {
    let ls = lines_of(content);
    if ls.len() == 0 {
        (None, Seq::empty())
    } else {
        (Some(ls[0]), recorded_chunks(ls.drop_first()))
    }
}

/// Reads an upload progress file's text.
pub fn parse_upload_progress(content: &str) -> (r: (Option<String>, Vec<i32>))
    ensures
        (crate::models::opt_view(r.0), r.1@) == progress_of(content@),
{
    let c = chars_of(content);
    let ls = lines_chars(&c);
    if ls.len() == 0 {
        return (None, Vec::new());
    }
    let first = string_of(&ls[0]);
    let mut chunks: Vec<i32> = Vec::new();
    let ghost rest = views(ls@).drop_first();
    assert(rest.take(0) =~= Seq::<Seq<char>>::empty());
    for k in 1..ls.len()
        invariant
            rest == views(ls@).drop_first(),
            chunks@ == recorded_chunks(rest.take(k - 1)),
    {
        assert(rest.take(k as int).drop_last() =~= rest.take(k - 1));
        assert(rest.take(k as int).last() == ls@[k as int]@);
        let t = trim_chars(&ls[k]);
        match parse_i32_chars(&t) {
            Some(v) => chunks.push(v),
            None => {},
        }
    }
    assert(rest.take(ls@.len() - 1) =~= rest);
    (Some(first), chunks)
}

/// The text a progress file starts with: the upload id on its own line.
pub fn upload_progress_text(uploadid: &str) -> (r: String)
    ensures
        r@ == uploadid@ + seq!['\n'],
{
    let mut v = chars_of(uploadid);
    v.push('\n');
    string_of(&v)
}

/// The line appended to a progress file when a chunk has been sent.
pub fn completed_chunk_line(chunk_idx: i32) -> (r: String)
    ensures
        r@ == int_decimal(chunk_idx as int) + seq!['\n'],
{
    let mut v: Vec<char> = Vec::new();
    push_int_decimal(&mut v, chunk_idx as i64);
    v.push('\n');
    string_of(&v)
}

/// The lines appended for the chunks sent, one `<index>\n` each.
pub open spec fn chunk_lines(cs: Seq<i32>) -> Seq<char>
    decreases cs.len(),
{
    if cs.len() == 0 {
        Seq::empty()
    } else {
        chunk_lines(cs.drop_last()) + int_decimal(cs.last() as int) + seq!['\n']
    }
}

/// The progress text before its final newline.
spec fn progress_body(id: Seq<char>, cs: Seq<i32>) -> Seq<char>
    decreases cs.len(),
{
    if cs.len() == 0 {
        id
    } else {
        progress_body(id, cs.drop_last()) + seq!['\n'] + int_decimal(cs.last() as int)
    }
}

proof fn lemma_progress_body(id: Seq<char>, cs: Seq<i32>)
    requires
        !crate::text::has_char(id, '\n'),
    ensures
        id + seq!['\n'] + chunk_lines(cs) == progress_body(id, cs) + seq!['\n'],
        split_chars_lines(progress_body(id, cs)) == seq![id] + Seq::new(cs.len(), |i: int| int_decimal(cs[i] as int)),
    decreases cs.len(),
{
    if cs.len() > 0 {
        let d = cs.drop_last();
        lemma_progress_body(id, d);
        crate::text::lemma_i32_text_reads_back(cs.last());
        crate::text::lemma_split_append_sep(progress_body(id, d), int_decimal(cs.last() as int), '\n');
        assert(seq![id] + Seq::new(cs.len(), |i: int| int_decimal(cs[i] as int))
            =~= (seq![id] + Seq::new(d.len(), |i: int| int_decimal(d[i] as int))).push(int_decimal(cs.last() as int)));
    } else {
        crate::text::lemma_split_no_sep(id, '\n');
        assert(seq![id] + Seq::new(cs.len(), |i: int| int_decimal(cs[i] as int)) =~= seq![id]);
        assert(chunk_lines(cs) =~= Seq::<char>::empty());
    }
}

spec fn split_chars_lines(s: Seq<char>) -> Seq<Seq<char>> {
    crate::text::split_chars(s, '\n')
}

proof fn lemma_recorded_texts(cs: Seq<i32>)
    ensures
        recorded_chunks(Seq::new(cs.len(), |i: int| int_decimal(cs[i] as int))) == cs,
    decreases cs.len(),
{
    if cs.len() > 0 {
        let d = cs.drop_last();
        lemma_recorded_texts(d);
        let ls = Seq::new(cs.len(), |i: int| int_decimal(cs[i] as int));
        assert(ls.drop_last() =~= Seq::new(d.len(), |i: int| int_decimal(d[i] as int)));
        crate::text::lemma_i32_text_reads_back(cs.last());
        assert(d.push(cs.last()) =~= cs);
    } else {
        assert(cs =~= Seq::<i32>::empty());
    }
}

/// Law: a progress file written as the upload-id line (`upload_progress_text`)
/// followed by one `completed_chunk_line` per sent chunk reads back
/// (`parse_upload_progress`) as that id and those chunks, in order.
pub proof fn progress_file_roundtrip(id: Seq<char>, chunks: Seq<i32>)
    requires
        !crate::text::has_char(id, '\n'),
        !(id.len() > 0 && id.last() == '\r'),
    ensures
        progress_of(id + seq!['\n'] + chunk_lines(chunks)) == (Some(id), chunks),
{
    lemma_progress_body(id, chunks);
    let body = progress_body(id, chunks);
    let text = body + seq!['\n'];
    crate::text::lemma_split_append_sep(body, Seq::<char>::empty(), '\n');
    assert(body + seq!['\n'] + Seq::<char>::empty() =~= text);
    let parts = crate::text::split_chars(text, '\n');
    let texts = Seq::new(chunks.len(), |i: int| int_decimal(chunks[i] as int));
    assert(parts.drop_last() == seq![id] + texts);
    assert(text.last() == '\n');
    let ls = lines_of(text);
    assert forall|i: int| 0 <= i < ls.len() implies #[trigger] ls[i] == (seq![id] + texts)[i] by {
        if i > 0 {
            crate::text::lemma_i32_text_reads_back(chunks[i - 1]);
        }
    }
    assert(ls =~= seq![id] + texts);
    assert(ls.drop_first() =~= texts);
    lemma_recorded_texts(chunks);
}

} // verus!
