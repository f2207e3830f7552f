//! Human-readable sizes and timestamps, and the text lines of file listings
//! and search results.

use vstd::prelude::*;
use crate::models::{
    CapacityInfoResponse, FileInfo, FileListResponse, FileType, SearchFileByKeywordResponse,
    SearchFileBySemanticResponse, SemanticData, SemanticFileInfo,
};
use crate::text::{
    chars_of, decimal, digit_char, extend_chars, int_decimal, push_decimal, push_int_decimal,
    string_of, views_of_strings,
};

verus! {

/// `2^e`.
pub open spec fn pow2n(e: nat) -> nat
    decreases e,
{
    if e == 0 { 1 } else { 2 * pow2n((e - 1) as nat) }
}

/// How many low bits of `n` do not fit in the 53-bit significand of an `f64`.
pub open spec fn lost_bits(n: nat) -> nat
    decreases n,
{
    if n < 0x20_0000_0000_0000 { 0 } else { 1 + lost_bits(n / 2) }
}

/// `n / d` rounded to the nearest integer, ties to the even one.
pub open spec fn div_round_even(n: nat, d: nat) -> nat
    recommends
        d > 0,
{
    let q = n / d;
    let r = n % d;
    if 2 * r > d || (2 * r == d && q % 2 == 1) { q + 1 } else { q }
}

/// The value of `n as f64`: `n` rounded to the nearest multiple of
/// `2^lost_bits(n)`, ties to the even multiple.
pub open spec fn f64_value(n: nat) -> nat {
    let p = pow2n(lost_bits(n));
    div_round_even(n, p) * p
}

/// `1024^k`.
pub open spec fn kib_pow(k: nat) -> nat
    decreases k,
{
    if k == 0 { 1 } else { 1024 * kib_pow((k - 1) as nat) }
}

/// The unit a size is shown in: 0 = B, 1 = K, 2 = M, 3 = G, 4 = T — the
/// largest that keeps the number at least 1.
pub open spec fn size_unit(v: nat) -> nat {
    if v >= kib_pow(4) { 4 }
    else if v >= kib_pow(3) { 3 }
    else if v >= kib_pow(2) { 2 }
    else if v >= kib_pow(1) { 1 }
    else { 0 }
}

/// The letter of a unit.
pub open spec fn unit_char(k: nat) -> char {
    if k == 0 { 'B' } else if k == 1 { 'K' } else if k == 2 { 'M' } else if k == 3 { 'G' } else { 'T' }
}

/// A size in bytes as the listing shows it: plain bytes below 1 KiB
/// (`512B`), otherwise the value in the largest fitting unit with one
/// decimal, rounded half to even (`1.5K`, `3.0M`, up to `T`).
pub open spec fn size_text(size: nat) -> Seq<char> {
    let v = f64_value(size);
    let k = size_unit(v);
    if k == 0 {
        decimal(v) + seq!['B']
    } else {
        let t = div_round_even(v * 10, kib_pow(k));
        decimal(t / 10) + seq!['.', digit_char(t % 10), unit_char(k)]
    }
}

proof fn lemma_pow_facts(e: nat)
    ensures
        pow2n(e) >= 1,
    decreases e,
{
    if e > 0 {
        lemma_pow_facts((e - 1) as nat);
    }
}

/// The value of `n as f64`, exactly.
fn f64_of(n: u64) -> (v: u128)
    ensures
        v == f64_value(n as nat),
        v <= 0x1_0000_0000_0000_1000,
{
    let mut m: u64 = n;
    let mut p: u64 = 1;
    let ghost mut e: nat = 0;
    while m >= 0x20_0000_0000_0000
        invariant
            p == pow2n(e),
            1 <= p <= 4096,
            m == n / p,
            lost_bits(n as nat) == e + lost_bits(m as nat),
        decreases m,
    {
        proof {
            vstd::arithmetic::div_mod::lemma_div_denominator(n as int, p as int, 2);
            assert(p < 2048) by (nonlinear_arith)
                requires
                    m == n / p,
                    p >= 1,
                    m >= 0x20_0000_0000_0000,
                    n <= 0xffff_ffff_ffff_ffff,
            {
                assert(m * p <= n);
            }
        }
        m = m / 2;
        p = p * 2;
        proof {
            e = e + 1;
        }
    }
    if p == 1 {
        assert(f64_value(n as nat) == n) by {
            assert(pow2n(lost_bits(n as nat)) == 1);
        }
        return n as u128;
    }
    let q = n / p;
    let r = n % p;
    let half = p / 2;
    let up = r > half || (r == half && q % 2 == 1);
    assert(2 * r > p <==> r > half) by {
        assert(p % 2 == 0) by {
            assert(p == pow2n(e));
            assert(e >= 1);
            assert(p == 2 * pow2n((e - 1) as nat));
        }
    }
    let rq: u128 = if up { q as u128 + 1 } else { q as u128 };
    assert(rq * p as u128 <= 0x1_0000_0000_0000_1000) by (nonlinear_arith)
        requires
            q == n / p,
            1 <= p <= 4096,
            rq <= q + 1,
            n <= 0xffff_ffff_ffff_ffff,
    {
        assert(q * p <= n);
    }
    rq * (p as u128)
}

proof fn lemma_kib_pows()
    ensures
        kib_pow(1) == 1024,
        kib_pow(2) == 1048576,
        kib_pow(3) == 1073741824,
        kib_pow(4) == 1099511627776,
{
    reveal_with_fuel(kib_pow, 5);
}

/// Formats a size in bytes for listings: `512B`, `1.5K`, `3.0M`, … up to `T`.
pub fn format_size(size: u64) -> (r: String)
    ensures
        r@ == size_text(size as nat),
{
    let v = f64_of(size);
    proof { lemma_kib_pows(); }
    let mut out: Vec<char> = Vec::new();
    let (k, d): (u8, u128) = if v >= 1099511627776 {
        (4, 1099511627776)
    } else if v >= 1073741824 {
        (3, 1073741824)
    } else if v >= 1048576 {
        (2, 1048576)
    } else if v >= 1024 {
        (1, 1024)
    } else {
        (0, 1)
    };
    assert(size_unit(v as nat) == k as nat);
    if k == 0 {
        push_decimal(&mut out, v as u64);
        out.push('B');
        assert(out@ =~= size_text(size as nat));
    } else {
        assert(d == kib_pow(k as nat));
        let n10 = v * 10;
        let q = n10 / d;
        let r = n10 % d;
        let t: u128 = if 2 * r > d || (2 * r == d && q % 2 == 1) { q + 1 } else { q };
        assert(t <= 0x1_0000_0000_0000_0000) by (nonlinear_arith)
            requires
                q == n10 / d,
                d >= 1024,
                t <= q + 1,
                n10 <= 0xa_0000_0000_0000_a000,
        {
        }
        assert(t / 10 <= 0xffff_ffff_ffff_ffff);
        assert((t / 10) as u64 as nat == (t as nat) / 10);
        assert(((t % 10) as u64) as nat == (t as nat) % 10);
        push_decimal(&mut out, (t / 10) as u64);
        out.push('.');
        let digit = crate::text::digit_of((t % 10) as u64);
        out.push(digit);
        let uc = if k == 1 { 'K' } else if k == 2 { 'M' } else if k == 3 { 'G' } else { 'T' };
        let ghost before = out@;
        proof {
            assert(before == decimal((t / 10) as nat) + seq!['.', digit_char((t % 10) as nat)]);
        }
        out.push(uc);
        assert(uc == unit_char(k as nat));
        assert(t == div_round_even((v * 10) as nat, kib_pow(k as nat)));
        assert(out@ =~= size_text(size as nat));
    }
    crate::text::string_of(&out)
}

// ---- timestamps ----

/// The `i64` that `t as i64` gives: values above `i64::MAX` wrap to negative.
pub open spec fn wrap_i64(t: nat) -> int {
    if t <= 0x7fff_ffff_ffff_ffff { t as int } else { t - 0x1_0000_0000_0000_0000 }
}

/// Integer division rounding toward zero (Rust's `/` on signed integers), for `b > 0`.
pub open spec fn tdiv(a: int, b: int) -> int {
    if a >= 0 { a / b } else { -((-a) / b) }
}

/// The remainder that goes with [`tdiv`] (Rust's `%`; it has the sign of `a`).
pub open spec fn tmod(a: int, b: int) -> int {
    a - b * tdiv(a, b)
}

/// Month and day of the date `days` days after 1970-01-01 in the proleptic
/// Gregorian calendar, by counting from 0000-03-01 in 400-year eras.
pub open spec fn civil_month_day(days: int) -> (int, int) {
    let z = days + 719468;
    let era = z / 146097;
    let doe = z - era * 146097;
    let yoe = (doe - doe / 1460 + doe / 36524 - doe / 146096) / 365;
    let doy = doe - (365 * yoe + yoe / 4 - yoe / 100);
    let mp = (5 * doy + 2) / 153;
    let d = doy - (153 * mp + 2) / 5 + 1;
    let m = if mp < 10 { mp + 3 } else { mp - 9 };
    (m, d)
}

/// `{:02}` of an integer: a leading zero for 0..=9, otherwise the plain text.
pub open spec fn pad2(n: int) -> Seq<char> {
    if 0 <= n < 10 { seq!['0'] + int_decimal(n) } else { int_decimal(n) }
}

/// `MM-dd HH:mm` for a Unix timestamp (UTC).
pub open spec fn timestamp_text(ts: nat) -> Seq<char> {
    let secs = wrap_i64(ts);
    let days = tdiv(secs, 86400);
    let tid = tmod(secs, 86400);
    let hours = tdiv(tid, 3600);
    let minutes = tdiv(tmod(tid, 3600), 60);
    let md = civil_month_day(days);
    pad2(md.0) + seq!['-'] + pad2(md.1) + seq![' '] + pad2(hours) + seq![':'] + pad2(minutes)
}

fn push_pad2(out: &mut Vec<char>, n: i64)
    ensures
        final(out)@ == old(out)@ + pad2(n as int),
{
    if 0 <= n && n < 10 {
        out.push('0');
    }
    push_int_decimal(out, n);
    proof {
        if 0 <= n && n < 10 {
            assert(final(out)@ =~= old(out)@ + pad2(n as int));
        }
    }
}

/// Howard Hinnant's `civil_from_days`: the (month, day) of a day count
/// since 1970-01-01.
pub fn month_day_from_days(days: i64) -> (r: (u32, u32))
    requires
        days <= 0x7fff_ffff_ffff_ffff - 719468,
    ensures
        (r.0 as int, r.1 as int) == civil_month_day(days as int),
        1 <= r.0 <= 12,
        1 <= r.1 <= 31,
{
    let z: i64 = days + 719468;
    let era: i64 = if z >= 0 { z / 146097 } else { -((146096 - z) / 146097) };
    proof {
        if z < 0 {
            let w = -(z as int);
            let q = (-w) / 146097;
            let r = (-w) % 146097;
            vstd::arithmetic::div_mod::lemma_fundamental_div_mod(-w, 146097);
            assert(0 <= r < 146097);
            assert(146096 + w == 146097 * (-q) + (146096 - r));
            vstd::arithmetic::div_mod::lemma_fundamental_div_mod_converse_div(146096 + w, 146097, -q, 146096 - r);
        }
    }
    assert(era == (z as int) / 146097);
    let doe = (z - era * 146097) as u32;
    let yoe = (doe - doe / 1460 + doe / 36524 - doe / 146096) / 365;
    let doy = doe - (365 * yoe + yoe / 4 - yoe / 100);
    let mp = (5 * doy + 2) / 153;
    let d = doy - (153 * mp + 2) / 5 + 1;
    let m = if mp < 10 { mp + 3 } else { mp - 9 };
    (m, d)
}

/// Formats a Unix timestamp as `MM-dd HH:mm` (UTC). Timestamps above
/// `i64::MAX` wrap to negative values first, as `as i64` does.
pub fn format_timestamp(timestamp: u64) -> (r: String)
    ensures
        r@ == timestamp_text(timestamp as nat),
{
    let secs: i64 = if timestamp <= 0x7fff_ffff_ffff_ffff {
        timestamp as i64
    } else {
        (timestamp - 0x8000_0000_0000_0000) as i64 - 0x7fff_ffff_ffff_ffff - 1
    };
    assert(secs as int == wrap_i64(timestamp as nat));
    let days = secs / 86400;
    let time_in_day = secs % 86400;
    let hours = time_in_day / 3600;
    let minutes = (time_in_day % 3600) / 60;
    assert(days as int == tdiv(secs as int, 86400));
    assert(time_in_day as int == tmod(secs as int, 86400));
    assert(hours as int == tdiv(time_in_day as int, 3600));
    assert(minutes as int == tdiv(tmod(time_in_day as int, 3600), 60));
    let (month, day) = month_day_from_days(days);
    let mut out: Vec<char> = Vec::new();
    push_pad2(&mut out, month as i64);
    out.push('-');
    push_pad2(&mut out, day as i64);
    out.push(' ');
    push_pad2(&mut out, hours);
    out.push(':');
    push_pad2(&mut out, minutes);
    assert(out@ =~= timestamp_text(timestamp as nat));
    crate::text::string_of(&out)
}

/// Gregorian leap-year rule.
pub open spec fn leap_year(year: int) -> bool {
    (year % 4 == 0 && year % 100 != 0) || year % 400 == 0
}

proof fn lemma_divisible_neg(x: int, d: int)
    requires
        d > 0,
    ensures
        (x % d == 0) == ((-x) % d == 0),
{
    vstd::arithmetic::div_mod::lemma_fundamental_div_mod(x, d);
    vstd::arithmetic::div_mod::lemma_fundamental_div_mod(-x, d);
    if x % d == 0 {
        let q = x / d;
        assert(-x == (-q) * d) by (nonlinear_arith)
            requires
                x == d * q,
        ;
        vstd::arithmetic::div_mod::lemma_mod_multiples_basic(-q, d);
    }
    if (-x) % d == 0 {
        let q = (-x) / d;
        assert(x == (-q) * d) by (nonlinear_arith)
            requires
                -x == d * q,
        ;
        vstd::arithmetic::div_mod::lemma_mod_multiples_basic(-q, d);
    }
}

/// Checks the Gregorian leap-year rule.
pub fn is_leap_year(year: i64) -> (r: bool)
    ensures
        r == leap_year(year as int),
{
    let a: u64 = if year < 0 { (0i128 - year as i128) as u64 } else { year as u64 };
    proof {
        if year < 0 {
            assert(a as int == -(year as int));
            lemma_divisible_neg(year as int, 4);
            lemma_divisible_neg(year as int, 100);
            lemma_divisible_neg(year as int, 400);
        }
    }
    (a % 4 == 0 && a % 100 != 0) || a % 400 == 0
}

// ---- listing lines ----

/// `n` spaces.
pub open spec fn spaces(n: nat) -> Seq<char> {
    Seq::new(n, |i: int| ' ')
}

/// `s` right-aligned in a field of `w` characters (`{:>w}`).
pub open spec fn pad_left(s: Seq<char>, w: nat) -> Seq<char> {
    if s.len() >= w { s } else { spaces((w - s.len()) as nat) + s }
}

/// `s` left-aligned in a field of `w` characters (`{:w}`).
pub open spec fn pad_right(s: Seq<char>, w: nat) -> Seq<char> {
    if s.len() >= w { s } else { s + spaces((w - s.len()) as nat) }
}

/// `d` for a directory, `-` for a file.
pub open spec fn kind_char(is_dir: bool) -> char {
    if is_dir { 'd' } else { '-' }
}

/// The columns every listing starts with: kind, size (right-aligned in
/// eight characters) and modification time, separated by spaces.
pub open spec fn entry_head(is_dir: bool, size: u64, mtime: u64) -> Seq<char> {
    seq![kind_char(is_dir), ' '] + pad_left(size_text(size as nat), 8) + seq![' '] + timestamp_text(mtime as nat)
}

/// The type column of a remote listing: `dir` for directories, else the
/// category name, in eight characters.
pub open spec fn type_column(is_dir: bool, category: FileType) -> Seq<char> {
    if is_dir { pad_right("dir"@, 8) } else { pad_right(category.spec_display(), 8) }
}

/// One remote entry, `ls -l` style, ending with `name`.
pub open spec fn remote_line(f: FileInfo, name: Seq<char>) -> Seq<char> {
    entry_head(f.isdir == 1, f.size, match f.server_mtime { Some(t) => t, None => 0 }) + seq![' ']
        + type_column(f.isdir == 1, f.category) + seq![' '] + name
}

/// Appends `s` padded on the left to `w` characters.
fn push_padded_left(dst: &mut Vec<char>, s: &Vec<char>, w: usize)
    ensures
        final(dst)@ == old(dst)@ + pad_left(s@, w as nat),
{
    let ghost start = dst@;
    let mut k: usize = s.len();
    while k < w
        invariant
            s.len() <= k <= w || (w <= s.len() && k == s.len()),
            dst@ == start + spaces((k - s.len()) as nat),
        decreases w - k,
    {
        dst.push(' ');
        assert(dst@ =~= start + spaces((k + 1 - s.len()) as nat));
        k = k + 1;
    }
    extend_chars(dst, s);
    proof {
        if s.len() >= w {
            assert(spaces(0) =~= Seq::<char>::empty());
            assert(dst@ =~= start + s@);
        } else {
            assert(dst@ =~= start + (spaces((w - s.len()) as nat) + s@));
        }
    }
}

/// Appends `s` padded on the right to `w` characters.
fn push_padded_right(dst: &mut Vec<char>, s: &Vec<char>, w: usize)
    ensures
        final(dst)@ == old(dst)@ + pad_right(s@, w as nat),
{
    let ghost start = dst@;
    extend_chars(dst, s);
    let mut k: usize = s.len();
    while k < w
        invariant
            s.len() <= k <= w || (w <= s.len() && k == s.len()),
            dst@ == start + s@ + spaces((k - s.len()) as nat),
        decreases w - k,
    {
        dst.push(' ');
        assert(dst@ =~= start + s@ + spaces((k + 1 - s.len()) as nat));
        k = k + 1;
    }
    proof {
        if s.len() >= w {
            assert(spaces(0) =~= Seq::<char>::empty());
            assert(dst@ =~= start + s@);
        } else {
            assert(dst@ =~= start + (s@ + spaces((w - s.len()) as nat)));
        }
    }
}

/// Appends the kind, size and time columns.
fn push_entry_head(dst: &mut Vec<char>, is_dir: bool, size: u64, mtime: u64)
    ensures
        final(dst)@ == old(dst)@ + entry_head(is_dir, size, mtime),
{
    let ghost start = dst@;
    dst.push(if is_dir { 'd' } else { '-' });
    dst.push(' ');
    push_padded_left(dst, &chars_of(format_size(size).as_str()), 8);
    dst.push(' ');
    extend_chars(dst, &chars_of(format_timestamp(mtime).as_str()));
    assert(dst@ =~= start + entry_head(is_dir, size, mtime));
}

/// Appends the type column of a remote listing.
fn push_type_column(dst: &mut Vec<char>, is_dir: bool, category: FileType)
    ensures
        final(dst)@ == old(dst)@ + type_column(is_dir, category),
{
    if is_dir {
        push_padded_right(dst, &chars_of("dir"), 8);
    } else {
        push_padded_right(dst, &chars_of(category.display()), 8);
    }
}

fn remote_line_of(f: &FileInfo, name: &str) -> (r: String)
    ensures
        r@ == remote_line(*f, name@),
{
    let mtime = match f.server_mtime {
        Some(t) => t,
        None => 0,
    };
    let mut v: Vec<char> = Vec::new();
    push_entry_head(&mut v, f.isdir == 1, f.size, mtime);
    v.push(' ');
    push_type_column(&mut v, f.isdir == 1, f.category);
    v.push(' ');
    extend_chars(&mut v, &chars_of(name));
    assert(v@ =~= remote_line(*f, name@));
    string_of(&v)
}

/// The lines of a remote directory listing, one per entry, ending with the
/// entry's file name.
pub open spec fn file_list_lines(files: Seq<FileInfo>) -> Seq<Seq<char>> {
    Seq::new(files.len(), |i: int| remote_line(files[i], files[i].server_filename@))
}

/// The listing of a directory, `ls -l` style (nothing when the response
/// carries no list).
pub fn file_list_text(response: &FileListResponse) -> (r: Vec<String>)
    ensures
        views_of_strings(r@) == match response.list {
            Some(l) => file_list_lines(l@),
            None => Seq::<Seq<char>>::empty(),
        },
{
    let mut out: Vec<String> = Vec::new();
    match &response.list {
        Some(files) => {
            for i in 0..files.len()
                invariant
                    views_of_strings(out@) == file_list_lines(files@).take(i as int),
            {
                let f = &files[i];
                let line = remote_line_of(f, f.server_filename.as_str());
                let ghost before = views_of_strings(out@);
                assert(*f == files@[i as int]);
                assert(line@ == file_list_lines(files@)[i as int]);
                out.push(line);
                assert(views_of_strings(out@) =~= before.push(line@));
                assert(views_of_strings(out@) =~= file_list_lines(files@).take(i + 1));
            }
            assert(file_list_lines(files@).take(files@.len() as int) =~= file_list_lines(files@));
        },
        None => {
            assert(views_of_strings(out@) =~= Seq::<Seq<char>>::empty());
        },
    }
    out
}

/// The lines of a keyword search: one per hit, ending with its path, and a
/// note when the service has more; a note alone when there are no hits.
pub open spec fn keyword_lines(files: Seq<FileInfo>, has_more: i32) -> Seq<Seq<char>> {
    if files.len() == 0 {
        seq!["(无搜索结果)"@]
    } else {
        Seq::new(files.len(), |i: int| remote_line(files[i], files[i].path@))
            + if has_more == 1 { seq!["... 更多结果未显示"@] } else { Seq::empty() }
    }
}

/// The text of a keyword search's results.
pub fn keyword_search_text(response: &SearchFileByKeywordResponse) -> (r: Vec<String>)
    ensures
        views_of_strings(r@) == keyword_lines(response.list@, response.has_more),
{
    let mut out: Vec<String> = Vec::new();
    let files = &response.list;
    if files.len() == 0 {
        out.push(string_of(&chars_of("(无搜索结果)")));
        assert(views_of_strings(out@) =~= seq!["(无搜索结果)"@]);
        return out;
    }
    let ghost hits = Seq::new(files@.len(), |i: int| remote_line(files@[i], files@[i].path@));
    for i in 0..files.len()
        invariant
            hits == Seq::new(files@.len(), |i: int| remote_line(files@[i], files@[i].path@)),
            views_of_strings(out@) == hits.take(i as int),
    {
        let f = &files[i];
        let line = remote_line_of(f, f.path.as_str());
        let ghost before = views_of_strings(out@);
        assert(*f == files@[i as int]);
        assert(line@ == hits[i as int]);
        out.push(line);
        assert(views_of_strings(out@) =~= before.push(line@));
        assert(views_of_strings(out@) =~= hits.take(i + 1));
    }
    assert(hits.take(files@.len() as int) =~= hits);
    if response.has_more == 1 {
        out.push(string_of(&chars_of("... 更多结果未显示")));
        assert(views_of_strings(out@) =~= hits + seq!["... 更多结果未显示"@]);
    } else {
        assert(hits + Seq::<Seq<char>>::empty() =~= hits);
    }
    out
}

fn push_line(out: &mut Vec<String>, v: &Vec<char>)
    ensures
        views_of_strings(final(out)@) == views_of_strings(old(out)@).push(v@),
{
    let ghost before = views_of_strings(out@);
    out.push(string_of(v));
    assert(views_of_strings(out@) =~= before.push(v@));
}

/// The name of the index a semantic hit came from.
pub open spec fn source_name(source: i32) -> Seq<char> {
    if source == 4 {
        "文件名"@
    } else if source == 5 {
        "图片OCR"@
    } else if source == 7 {
        "文档向量"@
    } else if source == 8 {
        "视频向量"@
    } else if source == 9 {
        "音频向量"@
    } else if source == 11 {
        "文档内容"@
    } else if source == 13 {
        "证件卡片"@
    } else if source == 14 {
        "图片语义"@
    } else {
        "未知来源"@
    }
}

/// The name of the index a semantic hit came from.
pub fn source_label(source: i32) -> (r: &'static str)
    ensures
        r@ == source_name(source),
{
    if source == 4 {
        "文件名"
    } else if source == 5 {
        "图片OCR"
    } else if source == 7 {
        "文档向量"
    } else if source == 8 {
        "视频向量"
    } else if source == 9 {
        "音频向量"
    } else if source == 11 {
        "文档内容"
    } else if source == 13 {
        "证件卡片"
    } else if source == 14 {
        "图片语义"
    } else {
        "未知来源"
    }
}

/// A line for an optional text, when it is there and not empty.
pub open spec fn note_line(prefix: Seq<char>, text: Option<String>) -> Seq<Seq<char>> {
    match text {
        Some(t) => if t@.len() > 0 { seq![prefix + t@] } else { Seq::empty() },
        None => Seq::empty(),
    }
}

/// The lines of one semantic hit: the entry with its category, source and
/// path, then the matched content and the recognized text when present.
pub open spec fn hit_lines(f: SemanticFileInfo, source: Seq<char>) -> Seq<Seq<char>> {
    seq![
        entry_head(f.isdir == 1, match f.size { Some(n) => n, None => 0 }, f.server_mtime) + seq![' ']
            + pad_right(f.category.spec_display(), 8) + seq![' ', '['] + source + seq![']', ' '] + f.path@,
    ] + note_line("  -> "@, f.content) + note_line("  -> OCR: "@, f.ocr)
}

/// The lines of a group's hits, in order.
pub open spec fn hits_lines(files: Seq<SemanticFileInfo>, source: Seq<char>) -> Seq<Seq<char>>
    decreases files.len(),
{
    if files.len() == 0 {
        Seq::empty()
    } else {
        hits_lines(files.drop_last(), source) + hit_lines(files.last(), source)
    }
}

/// The lines of all result groups, in order.
pub open spec fn groups_lines(groups: Seq<SemanticData>) -> Seq<Seq<char>>
    decreases groups.len(),
{
    if groups.len() == 0 {
        Seq::empty()
    } else {
        groups_lines(groups.drop_last()) + hits_lines(groups.last().list@, source_name(groups.last().source))
    }
}

/// The lines of a semantic search: every hit of every group, or a note when
/// there is nothing.
pub open spec fn semantic_lines(data: Option<Vec<SemanticData>>) -> Seq<Seq<char>> {
    match data {
        Some(d) => if d@.len() == 0 { seq!["(无搜索结果)"@] } else { groups_lines(d@) },
        None => seq!["(无搜索结果)"@],
    }
}

fn push_note(out: &mut Vec<String>, prefix: &str, text: &Option<String>)
    ensures
        views_of_strings(final(out)@) == views_of_strings(old(out)@) + note_line(prefix@, *text),
{
    let ghost before = views_of_strings(out@);
    match text {
        Some(t) => {
            let tc = chars_of(t.as_str());
            if tc.len() > 0 {
                let mut v = chars_of(prefix);
                extend_chars(&mut v, &tc);
                push_line(out, &v);
                assert(views_of_strings(out@) =~= before + note_line(prefix@, *text));
            } else {
                assert(views_of_strings(out@) =~= before + note_line(prefix@, *text));
            }
        },
        None => {
            assert(views_of_strings(out@) =~= before + note_line(prefix@, *text));
        },
    }
}

fn push_hit(out: &mut Vec<String>, f: &SemanticFileInfo, source: &str)
    ensures
        views_of_strings(final(out)@) == views_of_strings(old(out)@) + hit_lines(*f, source@),
{
    let ghost before = views_of_strings(out@);
    let size = match f.size {
        Some(n) => n,
        None => 0,
    };
    let mut v: Vec<char> = Vec::new();
    push_entry_head(&mut v, f.isdir == 1, size, f.server_mtime);
    v.push(' ');
    push_padded_right(&mut v, &chars_of(f.category.display()), 8);
    v.push(' ');
    v.push('[');
    extend_chars(&mut v, &chars_of(source));
    v.push(']');
    v.push(' ');
    extend_chars(&mut v, &chars_of(f.path.as_str()));
    let ghost first = v@;
    assert(first =~= entry_head(f.isdir == 1, size, f.server_mtime) + seq![' ']
        + pad_right(f.category.spec_display(), 8) + seq![' ', '['] + source@ + seq![']', ' '] + f.path@);
    push_line(out, &v);
    push_note(out, "  -> ", &f.content);
    push_note(out, "  -> OCR: ", &f.ocr);
    assert(hit_lines(*f, source@) =~= seq![first] + note_line("  -> "@, f.content) + note_line("  -> OCR: "@, f.ocr));
    assert(views_of_strings(out@) =~= before + hit_lines(*f, source@));
}

/// The text of a semantic search's results.
pub fn semantic_search_text(response: &SearchFileBySemanticResponse) -> (r: Vec<String>)
    ensures
        views_of_strings(r@) == semantic_lines(response.data),
{
    let mut out: Vec<String> = Vec::new();
    let groups = match &response.data {
        Some(g) => g,
        None => {
            push_line(&mut out, &chars_of("(无搜索结果)"));
            return out;
        },
    };
    if groups.len() == 0 {
        push_line(&mut out, &chars_of("(无搜索结果)"));
        return out;
    }
    assert(views_of_strings(out@) =~= groups_lines(groups@.take(0)));
    for i in 0..groups.len()
        invariant
            views_of_strings(out@) == groups_lines(groups@.take(i as int)),
    {
        let g = &groups[i];
        let source = source_label(g.source);
        let ghost start = views_of_strings(out@);
        assert(hits_lines(g.list@.take(0), source@) =~= Seq::<Seq<char>>::empty());
        assert(start + hits_lines(g.list@.take(0), source@) =~= start);
        for j in 0..g.list.len()
            invariant
                views_of_strings(out@) == start + hits_lines(g.list@.take(j as int), source@),
        {
            push_hit(&mut out, &g.list[j], source);
            assert(g.list@.take(j + 1).drop_last() =~= g.list@.take(j as int));
            assert(views_of_strings(out@) =~= start + hits_lines(g.list@.take(j + 1), source@));
        }
        assert(g.list@.take(g.list@.len() as int) =~= g.list@);
        assert(groups@.take(i + 1).drop_last() =~= groups@.take(i as int));
        assert(groups@.take(i + 1).last() == *g);
    }
    assert(groups@.take(groups@.len() as int) =~= groups@);
    out
}

/// The storage quota: total, used and free space, and a warning when some
/// capacity expires within seven days.
pub open spec fn quota_lines(c: CapacityInfoResponse) -> Seq<Seq<char>> {
    seq![
        "总空间: "@ + size_text(c.total as nat),
        "已使用: "@ + size_text(c.used as nat),
        "免费容量:   "@ + size_text(c.free as nat),
    ] + if c.expire { seq!["注意: 7天内有容量到期"@] } else { Seq::empty() }
}

fn labelled_size(label: &str, size: u64) -> (r: Vec<char>)
    ensures
        r@ == label@ + size_text(size as nat),
{
    let mut v = chars_of(label);
    extend_chars(&mut v, &chars_of(format_size(size).as_str()));
    v
}

/// The text of the storage quota.
pub fn quota_text(info: &CapacityInfoResponse) -> (r: Vec<String>)
    ensures
        views_of_strings(r@) == quota_lines(*info),
{
    let mut out: Vec<String> = Vec::new();
    assert(views_of_strings(out@) =~= Seq::<Seq<char>>::empty());
    push_line(&mut out, &labelled_size("总空间: ", info.total));
    push_line(&mut out, &labelled_size("已使用: ", info.used));
    push_line(&mut out, &labelled_size("免费容量:   ", info.free));
    if info.expire {
        push_line(&mut out, &chars_of("注意: 7天内有容量到期"));
    }
    assert(views_of_strings(out@) =~= quota_lines(*info));
    out
}

/// What a local listing shows of one directory entry.
pub struct LocalStat {
    pub name: String,
    pub is_dir: bool,
    pub size: u64,
    /// Modification time, seconds since the epoch.
    pub mtime: u64,
}

/// Hidden entries (names starting with `.`) are shown only on request.
pub open spec fn shown(e: LocalStat, show_all: bool) -> bool {
    show_all || !(e.name@.len() > 0 && e.name@[0] == '.')
}

/// One local entry: kind, size, time and name.
pub open spec fn local_line(e: LocalStat) -> Seq<char> {
    entry_head(e.is_dir, e.size, e.mtime) + seq![' '] + e.name@
}

/// The lines of the shown entries that are directories (when `dirs`) or
/// files (otherwise), in the order given.
pub open spec fn local_lines(es: Seq<LocalStat>, show_all: bool, dirs: bool) -> Seq<Seq<char>>
    decreases es.len(),
{
    if es.len() == 0 {
        Seq::empty()
    } else {
        let prev = local_lines(es.drop_last(), show_all, dirs);
        let e = es.last();
        if e.is_dir == dirs && shown(e, show_all) { prev.push(local_line(e)) } else { prev }
    }
}

/// A local listing: the directories first, then the files.
pub open spec fn local_listing(es: Seq<LocalStat>, show_all: bool) -> Seq<Seq<char>> {
    local_lines(es, show_all, true) + local_lines(es, show_all, false)
}

fn push_local_lines(out: &mut Vec<String>, entries: &Vec<LocalStat>, show_all: bool, dirs: bool)
    ensures
        views_of_strings(final(out)@) == views_of_strings(old(out)@) + local_lines(entries@, show_all, dirs),
{
    let ghost start = views_of_strings(out@);
    assert(start + local_lines(entries@.take(0), show_all, dirs) =~= start);
    for i in 0..entries.len()
        invariant
            views_of_strings(out@) == start + local_lines(entries@.take(i as int), show_all, dirs),
    {
        let e = &entries[i];
        assert(entries@.take(i + 1).drop_last() =~= entries@.take(i as int));
        assert(entries@.take(i + 1).last() == *e);
        let name = chars_of(e.name.as_str());
        let hidden = name.len() > 0 && name[0] == '.';
        if e.is_dir == dirs && (show_all || !hidden) {
            let mut v: Vec<char> = Vec::new();
            push_entry_head(&mut v, e.is_dir, e.size, e.mtime);
            v.push(' ');
            extend_chars(&mut v, &name);
            assert(v@ =~= local_line(*e));
            push_line(out, &v);
        }
        assert(views_of_strings(out@) =~= start + local_lines(entries@.take(i + 1), show_all, dirs));
    }
    assert(entries@.take(entries@.len() as int) =~= entries@);
}

/// The text of a local listing (see [`local_listing`]).
pub fn local_listing_text(entries: &Vec<LocalStat>, show_all: bool) -> (r: Vec<String>)
    ensures
        views_of_strings(r@) == local_listing(entries@, show_all),
{
    let mut out: Vec<String> = Vec::new();
    assert(views_of_strings(out@) =~= Seq::<Seq<char>>::empty());
    push_local_lines(&mut out, entries, show_all, true);
    push_local_lines(&mut out, entries, show_all, false);
    assert(views_of_strings(out@) =~= local_listing(entries@, show_all));
    out
}

} // verus!
