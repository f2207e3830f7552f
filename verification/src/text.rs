//! Character-level helpers shared by the path, wildcard and formatting code.
//!
//! Strings are modelled by their `Seq<char>` views; the executable code
//! works on `Vec<char>` buffers and converts at the edges.

use vstd::prelude::*;

verus! {

broadcast use vstd::string::group_string_axioms;

/// The characters of `s`, in order.
pub fn chars_of(s: &str) -> (r: Vec<char>)
    ensures
        r@ == s@,
{
    let mut v: Vec<char> = Vec::new();
    for c in it: s.chars()
        invariant
            it.seq() == s@,
            v@ == it.seq().take(it.index()),
    {
        v.push(c);
    }
    v
}

/// Appends one character to a `String` (std's `String::push`).
#[verifier::external_body]
pub(crate) fn push_char(s: &mut String, c: char)
    ensures
        final(s)@ == old(s)@.push(c),
{
    s.push(c);
}

/// A `String` holding exactly the characters of `v`.
pub fn string_of(v: &Vec<char>) -> (r: String)
    ensures
        r@ == v@,
{
    let mut s = String::new();
    for i in 0..v.len()
        invariant
            s@ == v@.take(i as int),
    {
        push_char(&mut s, v[i]);
        assert(v@.take(i + 1) =~= v@.take(i as int).push(v@[i as int]));
    }
    assert(v@.take(v@.len() as int) =~= v@);
    s
}

/// Appends all characters of `src` to `dst`.
pub fn extend_chars(dst: &mut Vec<char>, src: &Vec<char>)
    ensures
        final(dst)@ == old(dst)@ + src@,
{
    let ghost start = dst@;
    for i in 0..src.len()
        invariant
            dst@ == start + src@.take(i as int),
    {
        dst.push(src[i]);
        assert(src@.take(i + 1) =~= src@.take(i as int).push(src@[i as int]));
    }
    assert(src@.take(src@.len() as int) =~= src@);
}

/// Appends the characters of `s` to `dst`.
pub fn extend_str(dst: &mut Vec<char>, s: &str)
    ensures
        final(dst)@ == old(dst)@ + s@,
{
    let v = chars_of(s);
    extend_chars(dst, &v);
}

/// Character-wise equality of two buffers.
pub fn chars_eq(a: &Vec<char>, b: &Vec<char>) -> (r: bool)
    ensures
        r == (a@ == b@),
{
    if a.len() != b.len() {
        return false;
    }
    for i in 0..a.len()
        invariant
            a@.len() == b@.len(),
            forall|j: int| 0 <= j < i ==> a@[j] == b@[j],
    {
        if a[i] != b[i] {
            return false;
        }
    }
    assert(a@ =~= b@);
    true
}

/// Equality of two strings by their characters.
pub fn str_eq(a: &str, b: &str) -> (r: bool)
    ensures
        r == (a@ == b@),
{
    let va = chars_of(a);
    let vb = chars_of(b);
    chars_eq(&va, &vb)
}

/// Does `s` contain the character `c`?
pub open spec fn has_char(s: Seq<char>, c: char) -> bool {
    exists|i: int| 0 <= i < s.len() && s[i] == c
}

/// Is `p` a prefix of `s`?
pub open spec fn is_prefix(p: Seq<char>, s: Seq<char>) -> bool {
    p.len() <= s.len() && s.take(p.len() as int) == p
}

/// Does `s` start with `p`?
pub fn vec_starts_with(s: &Vec<char>, p: &Vec<char>) -> (r: bool)
    ensures
        r == is_prefix(p@, s@),
{
    if p.len() > s.len() {
        return false;
    }
    for i in 0..p.len()
        invariant
            p@.len() <= s@.len(),
            forall|j: int| 0 <= j < i ==> s@[j] == p@[j],
    {
        if s[i] != p[i] {
            assert(s@.take(p@.len() as int)[i as int] != p@[i as int]);
            return false;
        }
    }
    assert(s@.take(p@.len() as int) =~= p@);
    true
}

/// The characters `s[from..to]`.
pub fn sub_chars(s: &Vec<char>, from: usize, to: usize) -> (r: Vec<char>)
    requires
        from <= to <= s@.len(),
    ensures
        r@ == s@.subrange(from as int, to as int),
{
    let mut v: Vec<char> = Vec::new();
    for i in from..to
        invariant
            from <= to <= s@.len(),
            v@ == s@.subrange(from as int, i as int),
    {
        v.push(s[i]);
        assert(s@.subrange(from as int, i + 1) =~= s@.subrange(from as int, i as int).push(s@[i as int]));
    }
    v
}

/// The pieces of `s` between occurrences of `sep`, as `str::split` yields them
/// (empty pieces included; the empty string has one empty piece).
pub open spec fn split_chars(s: Seq<char>, sep: char) -> Seq<Seq<char>>
    decreases s.len(),
{
    if s.len() == 0 {
        seq![Seq::<char>::empty()]
    } else {
        let prev = split_chars(s.drop_last(), sep);
        if s.last() == sep {
            prev.push(Seq::<char>::empty())
        } else {
            prev.update(prev.len() - 1, prev.last().push(s.last()))
        }
    }
}

pub proof fn lemma_split_nonempty(s: Seq<char>, sep: char)
    ensures
        split_chars(s, sep).len() >= 1,
    decreases s.len(),
{
    if s.len() > 0 {
        lemma_split_nonempty(s.drop_last(), sep);
    }
}

/// Concatenation of the pieces with `sep` between consecutive ones.
pub open spec fn join_chars(parts: Seq<Seq<char>>, sep: Seq<char>) -> Seq<char>
    decreases parts.len(),
{
    if parts.len() == 0 {
        Seq::<char>::empty()
    } else if parts.len() == 1 {
        parts[0]
    } else {
        join_chars(parts.drop_last(), sep) + sep + parts.last()
    }
}

/// Decimal digits of a natural number, most significant first, without leading zeros.
pub open spec fn decimal(n: nat) -> Seq<char>
    decreases n,
{
    if n < 10 {
        seq![digit_char(n)]
    } else {
        decimal(n / 10) + seq![digit_char(n % 10)]
    }
}

/// The ASCII digit for `d < 10`.
pub open spec fn digit_char(d: nat) -> char {
    if d == 0 { '0' }
    else if d == 1 { '1' }
    else if d == 2 { '2' }
    else if d == 3 { '3' }
    else if d == 4 { '4' }
    else if d == 5 { '5' }
    else if d == 6 { '6' }
    else if d == 7 { '7' }
    else if d == 8 { '8' }
    else { '9' }
}

/// Decimal text of an integer as `Display` writes it: a `-` before negative numbers.
pub open spec fn int_decimal(n: int) -> Seq<char> {
    if n < 0 {
        seq!['-'] + decimal((-n) as nat)
    } else {
        decimal(n as nat)
    }
}

pub fn digit_of(d: u64) -> (c: char)
    requires
        d < 10,
    ensures
        c == digit_char(d as nat),
{
    if d == 0 { '0' }
    else if d == 1 { '1' }
    else if d == 2 { '2' }
    else if d == 3 { '3' }
    else if d == 4 { '4' }
    else if d == 5 { '5' }
    else if d == 6 { '6' }
    else if d == 7 { '7' }
    else if d == 8 { '8' }
    else { '9' }
}

/// Appends the decimal digits of `n` to `dst`.
pub fn push_decimal(dst: &mut Vec<char>, n: u64)
    ensures
        final(dst)@ == old(dst)@ + decimal(n as nat),
    decreases n,
{
    if n < 10 {
        dst.push(digit_of(n));
        assert(decimal(n as nat) == seq![digit_char(n as nat)]);
    } else {
        push_decimal(dst, n / 10);
        dst.push(digit_of(n % 10));
    }
}

/// Appends the decimal text of a signed number to `dst`.
pub fn push_int_decimal(dst: &mut Vec<char>, n: i64)
    ensures
        final(dst)@ == old(dst)@ + int_decimal(n as int),
{
    if n < 0 {
        dst.push('-');
        let m: u64 = if n == i64::MIN { 9223372036854775808u64 } else { (-n) as u64 };
        push_decimal(dst, m);
    } else {
        push_decimal(dst, n as u64);
    }
}

/// `decimal(n)` is never empty and has no more than 20 digits for a `u64`.
pub proof fn lemma_decimal_len(n: nat)
    ensures
        decimal(n).len() >= 1,
        n < 10 <==> decimal(n).len() == 1,
    decreases n,
{
    if n >= 10 {
        lemma_decimal_len(n / 10);
    }
}

/// Is `c` in the Unicode `White_Space` set (what `char::is_whitespace` tests)?
pub open spec fn is_ws(c: char) -> bool {
    ||| ('\u{9}' <= c && c <= '\u{d}')
    ||| c == ' '
    ||| c == '\u{85}'
    ||| c == '\u{a0}'
    ||| c == '\u{1680}'
    ||| ('\u{2000}' <= c && c <= '\u{200a}')
    ||| c == '\u{2028}'
    ||| c == '\u{2029}'
    ||| c == '\u{202f}'
    ||| c == '\u{205f}'
    ||| c == '\u{3000}'
}

/// Executable form of [`is_ws`].
pub fn char_is_ws(c: char) -> (r: bool)
    ensures
        r == is_ws(c),
{
    ('\u{9}' <= c && c <= '\u{d}') || c == ' ' || c == '\u{85}' || c == '\u{a0}'
        || c == '\u{1680}' || ('\u{2000}' <= c && c <= '\u{200a}') || c == '\u{2028}'
        || c == '\u{2029}' || c == '\u{202f}' || c == '\u{205f}' || c == '\u{3000}'
}

/// The views of a sequence of character buffers.
pub open spec fn views(s: Seq<Vec<char>>) -> Seq<Seq<char>> {
    Seq::new(s.len(), |i: int| s[i]@)
}

/// The views of a sequence of strings.
pub open spec fn views_of_strings(s: Seq<String>) -> Seq<Seq<char>> {
    Seq::new(s.len(), |i: int| s[i]@)
}

/// Index of the last occurrence of `c` in `s`.
pub open spec fn rfind_char(s: Seq<char>, c: char) -> Option<int>
    decreases s.len(),
{
    if s.len() == 0 {
        None
    } else if s.last() == c {
        Some(s.len() - 1)
    } else {
        rfind_char(s.drop_last(), c)
    }
}

/// Index of the first occurrence of `c` in `s`.
pub open spec fn find_char(s: Seq<char>, c: char) -> Option<int>
    decreases s.len(),
{
    if s.len() == 0 {
        None
    } else if s[0] == c {
        Some(0)
    } else {
        match find_char(s.drop_first(), c) {
            Some(i) => Some(i + 1),
            None => None,
        }
    }
}

pub proof fn lemma_rfind_char(s: Seq<char>, c: char)
    ensures
        match rfind_char(s, c) {
            Some(i) => 0 <= i < s.len() && s[i] == c && !has_char(s.skip(i + 1), c),
            None => !has_char(s, c),
        },
    decreases s.len(),
{
    if s.len() > 0 {
        lemma_rfind_char(s.drop_last(), c);
        if s.last() != c {
            match rfind_char(s.drop_last(), c) {
                Some(i) => {
                    assert forall|j: int| 0 <= j < s.skip(i + 1).len() implies #[trigger] s.skip(i + 1)[j] != c by {
                        if j < s.skip(i + 1).len() - 1 {
                            assert(s.skip(i + 1)[j] == s.drop_last().skip(i + 1)[j]);
                        }
                    }
                },
                None => {
                    assert forall|j: int| 0 <= j < s.len() implies #[trigger] s[j] != c by {
                        if j < s.len() - 1 {
                            assert(s[j] == s.drop_last()[j]);
                        }
                    }
                },
            }
        } else {
            assert(s.skip(s.len() as int) =~= Seq::<char>::empty());
        }
    }
}

/// Last index of `c` in `s`, computed.
pub fn vec_rfind(s: &Vec<char>, c: char) -> (r: Option<usize>)
    ensures
        match r {
            Some(i) => rfind_char(s@, c) == Some(i as int),
            None => rfind_char(s@, c) is None,
        },
{
    let mut i = s.len();
    assert(s@.take(i as int) =~= s@);
    while i > 0
        invariant
            i <= s@.len(),
            rfind_char(s@, c) == rfind_char(s@.take(i as int), c),
        decreases i,
    {
        assert(s@.take(i as int).drop_last() =~= s@.take(i - 1));
        if s[i - 1] == c {
            return Some(i - 1);
        }
        i = i - 1;
    }
    None
}

// ---- trimming, lines, integers ----

/// `s` without leading whitespace.
pub open spec fn trim_start_ws(s: Seq<char>) -> Seq<char>
    decreases s.len(),
{
    if s.len() > 0 && is_ws(s[0]) { trim_start_ws(s.drop_first()) } else { s }
}

/// `s` without trailing whitespace.
pub open spec fn trim_end_ws(s: Seq<char>) -> Seq<char>
    decreases s.len(),
{
    if s.len() > 0 && is_ws(s.last()) { trim_end_ws(s.drop_last()) } else { s }
}

/// `str::trim`: `s` without leading and trailing whitespace.
pub open spec fn trim_ws(s: Seq<char>) -> Seq<char> {
    trim_end_ws(trim_start_ws(s))
}

/// `str::trim` on a character buffer.
pub fn trim_chars(s: &Vec<char>) -> (r: Vec<char>)
    ensures
        r@ == trim_ws(s@),
{
    let mut a: usize = 0;
    assert(s@.skip(0) =~= s@);
    while a < s.len() && char_is_ws(s[a])
        invariant
            a <= s@.len(),
            trim_start_ws(s@) == trim_start_ws(s@.skip(a as int)),
        decreases s@.len() - a,
    {
        assert(s@.skip(a as int).drop_first() =~= s@.skip(a + 1));
        a = a + 1;
    }
    let mut b: usize = s.len();
    assert(s@.subrange(a as int, b as int) =~= s@.skip(a as int));
    while b > a && char_is_ws(s[b - 1])
        invariant
            a <= b <= s@.len(),
            trim_start_ws(s@) == s@.skip(a as int),
            trim_ws(s@) == trim_end_ws(s@.subrange(a as int, b as int)),
        decreases b,
    {
        assert(s@.subrange(a as int, b as int).drop_last() =~= s@.subrange(a as int, b - 1));
        b = b - 1;
    }
    sub_chars(s, a, b)
}

/// `str::lines`: the pieces between `\n`s, a final `\n` not starting an
/// empty last line, each piece without one trailing `\r`.
pub open spec fn lines_of(s: Seq<char>) -> Seq<Seq<char>> {
    let parts = split_chars(s, '\n');
    let kept = if s.len() == 0 || s.last() == '\n' { parts.drop_last() } else { parts };
    Seq::new(kept.len(), |i: int| strip_cr(kept[i]))
}

/// A line without its trailing `\r`.
pub open spec fn strip_cr(l: Seq<char>) -> Seq<char> {
    if l.len() > 0 && l.last() == '\r' { l.drop_last() } else { l }
}

/// The value of a string of ASCII digits.
pub open spec fn digits_value(s: Seq<char>) -> int
    decreases s.len(),
{
    if s.len() == 0 { 0 } else { digits_value(s.drop_last()) * 10 + (s.last() as int - '0' as int) }
}

/// Every character is an ASCII digit.
pub open spec fn all_digits(s: Seq<char>) -> bool {
    forall|i: int| 0 <= i < s.len() ==> '0' <= #[trigger] s[i] <= '9'
}

/// The integer that `str::parse` reads: an optional sign, then one or more
/// ASCII digits (`allow_minus` is false for unsigned types).
pub open spec fn parsed_int(s: Seq<char>, allow_minus: bool) -> Option<int> {
    if s.len() > 0 && (s[0] == '+' || (allow_minus && s[0] == '-')) {
        let body = s.drop_first();
        if body.len() > 0 && all_digits(body) {
            Some(if s[0] == '-' { -digits_value(body) } else { digits_value(body) })
        } else {
            None
        }
    } else if s.len() > 0 && all_digits(s) {
        Some(digits_value(s))
    } else {
        None
    }
}

/// `str::parse::<i32>`: the value when it is in range.
pub open spec fn parsed_i32(s: Seq<char>) -> Option<i32> {
    match parsed_int(s, true) {
        Some(v) => if i32::MIN <= v <= i32::MAX { Some(v as i32) } else { None },
        None => None,
    }
}

/// `str::parse::<usize>`: the value when it is in range.
pub open spec fn parsed_usize(s: Seq<char>) -> Option<usize> {
    match parsed_int(s, false) {
        Some(v) => if 0 <= v <= usize::MAX { Some(v as usize) } else { None },
        None => None,
    }
}

proof fn lemma_digits_nonneg(s: Seq<char>)
    requires
        all_digits(s),
    ensures
        digits_value(s) >= 0,
    decreases s.len(),
{
    if s.len() > 0 {
        assert(all_digits(s.drop_last())) by {
            assert forall|i: int| 0 <= i < s.drop_last().len() implies '0' <= #[trigger] s.drop_last()[i] <= '9' by {
                assert(s.drop_last()[i] == s[i]);
            }
        }
        lemma_digits_nonneg(s.drop_last());
        assert('0' <= s[s.len() - 1] <= '9');
    }
}

/// Reads digits `s[from..to]` as a number, giving up (`None`) once it exceeds `limit`.
fn digits_upto(s: &Vec<char>, from: usize, to: usize, limit: u64) -> (r: Option<u64>)
    requires
        from <= to <= s@.len(),
        limit < 0x1000_0000_0000_0000,
    ensures
        match r {
            Some(v) => all_digits(s@.subrange(from as int, to as int))
                && v as int == digits_value(s@.subrange(from as int, to as int)) && v <= limit,
            None => !all_digits(s@.subrange(from as int, to as int))
                || digits_value(s@.subrange(from as int, to as int)) > limit,
        },
{
    let mut acc: u64 = 0;
    let mut i = from;
    assert(s@.subrange(from as int, from as int) =~= Seq::<char>::empty());
    while i < to
        invariant
            from <= i <= to <= s@.len(),
            limit < 0x1000_0000_0000_0000,
            all_digits(s@.subrange(from as int, i as int)),
            acc as int == digits_value(s@.subrange(from as int, i as int)),
            acc <= limit,
        decreases to - i,
    {
        let c = s[i];
        let ghost pre = s@.subrange(from as int, i as int);
        assert(s@.subrange(from as int, i + 1).drop_last() =~= pre);
        if !('0' <= c && c <= '9') {
            proof {
                let full = s@.subrange(from as int, to as int);
                assert(full[i - from] == c);
            }
            return None;
        }
        let d = (c as u32 - '0' as u32) as u64;
        let next = acc * 10 + d;
        assert(all_digits(s@.subrange(from as int, i + 1))) by {
            assert forall|k: int| 0 <= k < i + 1 - from implies '0' <= #[trigger] s@.subrange(from as int, i + 1)[k] <= '9' by {
                if k < i - from {
                    assert(s@.subrange(from as int, i + 1)[k] == pre[k]);
                }
            }
        }
        if next > limit {
            proof {
                if all_digits(s@.subrange(from as int, to as int)) {
                    lemma_digits_prefix_bound(s@.subrange(from as int, to as int), (i + 1 - from) as int);
                    assert(s@.subrange(from as int, to as int).take((i + 1 - from) as int) =~= s@.subrange(from as int, i + 1));
                }
            }
            return None;
        }
        acc = next;
        i = i + 1;
    }
    Some(acc)
}

proof fn lemma_digits_prefix_bound(s: Seq<char>, k: int)
    requires
        0 <= k <= s.len(),
        all_digits(s),
    ensures
        digits_value(s) >= digits_value(s.take(k)),
    decreases s.len(),
{
    if k < s.len() {
        let d = s.drop_last();
        assert(all_digits(d)) by {
            assert forall|i: int| 0 <= i < d.len() implies '0' <= #[trigger] d[i] <= '9' by {
                assert(d[i] == s[i]);
            }
        }
        lemma_digits_prefix_bound(d, k);
        assert(d.take(k) =~= s.take(k));
        lemma_digits_nonneg(d);
        assert('0' <= s[s.len() - 1] <= '9');
    } else {
        assert(s.take(k) =~= s);
    }
}

/// `str::parse::<i32>` on a character buffer.
pub fn parse_i32_chars(s: &Vec<char>) -> (r: Option<i32>)
    ensures
        r == parsed_i32(s@),
{
    if s.len() == 0 {
        return None;
    }
    let signed = s[0] == '+' || s[0] == '-';
    let from: usize = if signed { 1 } else { 0 };
    if signed && s.len() == 1 {
        return None;
    }
    let neg = s[0] == '-';
    let limit: u64 = if neg { 2147483648 } else { 2147483647 };
    assert(s@.subrange(from as int, s@.len() as int) =~= (if signed { s@.drop_first() } else { s@ }));
    match digits_upto(s, from, s.len(), limit) {
        Some(v) => {
            if neg {
                if v == 2147483648 {
                    Some(-2147483647i32 - 1)
                } else {
                    Some(-(v as i32))
                }
            } else {
                Some(v as i32)
            }
        },
        None => {
            proof {
                let body = s@.subrange(from as int, s@.len() as int);
                if all_digits(body) {
                    lemma_digits_nonneg(body);
                }
            }
            None
        },
    }
}

/// `str::parse::<usize>` on a character buffer.
pub fn parse_usize_chars(s: &Vec<char>) -> (r: Option<usize>)
    ensures
        r == parsed_usize(s@),
{
    if s.len() == 0 {
        return None;
    }
    let signed = s[0] == '+';
    let from: usize = if signed { 1 } else { 0 };
    if signed && s.len() == 1 {
        return None;
    }
    if s[0] == '-' {
        assert(!all_digits(s@)) by {
            assert(s@[0] == '-');
        }
        return None;
    }
    assert(s@.subrange(from as int, s@.len() as int) =~= (if signed { s@.drop_first() } else { s@ }));
    let limit: u64 = if usize::MAX as u64 > 0x0fff_ffff_ffff_ffff { 0x0fff_ffff_ffff_ffff } else { usize::MAX as u64 };
    match digits_upto(s, from, s.len(), limit) {
        Some(v) => Some(v as usize),
        None => {
            proof {
                let body = s@.subrange(from as int, s@.len() as int);
                if all_digits(body) {
                    lemma_digits_nonneg(body);
                }
            }
            if usize::MAX as u64 > 0x0fff_ffff_ffff_ffff {
                // values past the limit may still fit a 64-bit usize
                let big = digits_upto_u64(s, from, s.len());
                match big {
                    Some(v) => Some(v as usize),
                    None => None,
                }
            } else {
                None
            }
        },
    }
}

/// Reads digits `s[from..to]` as a `u64`, `None` for a non-digit or overflow.
fn digits_upto_u64(s: &Vec<char>, from: usize, to: usize) -> (r: Option<u64>)
    requires
        from <= to <= s@.len(),
    ensures
        match r {
            Some(v) => all_digits(s@.subrange(from as int, to as int))
                && v as int == digits_value(s@.subrange(from as int, to as int)),
            None => !all_digits(s@.subrange(from as int, to as int))
                || digits_value(s@.subrange(from as int, to as int)) > u64::MAX,
        },
{
    let mut acc: u64 = 0;
    let mut i = from;
    assert(s@.subrange(from as int, from as int) =~= Seq::<char>::empty());
    while i < to
        invariant
            from <= i <= to <= s@.len(),
            all_digits(s@.subrange(from as int, i as int)),
            acc as int == digits_value(s@.subrange(from as int, i as int)),
        decreases to - i,
    {
        let c = s[i];
        let ghost pre = s@.subrange(from as int, i as int);
        assert(s@.subrange(from as int, i + 1).drop_last() =~= pre);
        if !('0' <= c && c <= '9') {
            proof {
                let full = s@.subrange(from as int, to as int);
                assert(full[i - from] == c);
            }
            return None;
        }
        let d = (c as u32 - '0' as u32) as u64;
        assert(all_digits(s@.subrange(from as int, i + 1))) by {
            assert forall|k: int| 0 <= k < i + 1 - from implies '0' <= #[trigger] s@.subrange(from as int, i + 1)[k] <= '9' by {
                if k < i - from {
                    assert(s@.subrange(from as int, i + 1)[k] == pre[k]);
                }
            }
        }
        if acc > (0xffff_ffff_ffff_ffff - d) / 10 {
            proof {
                if all_digits(s@.subrange(from as int, to as int)) {
                    lemma_digits_prefix_bound(s@.subrange(from as int, to as int), (i + 1 - from) as int);
                    assert(s@.subrange(from as int, to as int).take((i + 1 - from) as int) =~= s@.subrange(from as int, i + 1));
                }
            }
            return None;
        }
        acc = acc * 10 + d;
        i = i + 1;
    }
    Some(acc)
}

/// The lines of a character buffer, as `str::lines` yields them.
pub fn lines_chars(s: &Vec<char>) -> (r: Vec<Vec<char>>)
    ensures
        views(r@) == lines_of(s@),
{
    let mut parts: Vec<Vec<char>> = Vec::new();
    let mut cur: Vec<char> = Vec::new();
    assert(s@.take(0) =~= Seq::<char>::empty());
    assert(views(parts@).push(cur@) =~= split_chars(Seq::<char>::empty(), '\n'));
    for i in 0..s.len()
        invariant
            split_chars(s@.take(i as int), '\n') == views(parts@).push(cur@),
    {
        let c = s[i];
        assert(s@.take(i + 1).drop_last() =~= s@.take(i as int));
        assert(s@.take(i + 1).last() == c);
        if c == '\n' {
            let ghost before = views(parts@);
            let done = cur;
            parts.push(done);
            cur = Vec::new();
            assert(views(parts@) =~= before.push(done@));
            assert(split_chars(s@.take(i + 1), '\n') =~= views(parts@).push(cur@));
        } else {
            cur.push(c);
            assert(split_chars(s@.take(i + 1), '\n') =~= views(parts@).push(cur@));
        }
    }
    assert(s@.take(s@.len() as int) =~= s@);
    let ghost all = views(parts@).push(cur@);
    let ends_nl = s.len() == 0 || s[s.len() - 1] == '\n';
    if !ends_nl {
        parts.push(cur);
    }
    let ghost kept = views(parts@);
    assert(kept =~= (if ends_nl { all.drop_last() } else { all }));
    let mut out: Vec<Vec<char>> = Vec::new();
    for k in 0..parts.len()
        invariant
            kept == views(parts@),
            views(out@) == Seq::new(k as nat, |i: int| strip_cr(kept[i])),
    {
        let l = &parts[k];
        assert(l@ == kept[k as int]);
        let ghost before = views(out@);
        if l.len() > 0 && l[l.len() - 1] == '\r' {
            let t = sub_chars(l, 0, l.len() - 1);
            assert(t@ =~= l@.drop_last());
            out.push(t);
            assert(views(out@) =~= before.push(strip_cr(kept[k as int])));
        } else {
            let t = sub_chars(l, 0, l.len());
            assert(t@ =~= l@);
            out.push(t);
            assert(views(out@) =~= before.push(strip_cr(kept[k as int])));
        }
        assert(views(out@) =~= Seq::new((k + 1) as nat, |i: int| strip_cr(kept[i])));
    }
    assert(views(out@) =~= lines_of(s@));
    out
}

pub proof fn lemma_split_no_sep(s: Seq<char>, sep: char)
    requires
        !has_char(s, sep),
    ensures
        split_chars(s, sep) == seq![s],
    decreases s.len(),
{
    if s.len() > 0 {
        let d = s.drop_last();
        assert(!has_char(d, sep)) by {
            assert forall|j: int| 0 <= j < d.len() implies #[trigger] d[j] != sep by {
                assert(d[j] == s[j]);
            }
        }
        lemma_split_no_sep(d, sep);
        assert(s[s.len() - 1] != sep);
        assert(d.push(s.last()) =~= s);
        assert(split_chars(s, sep) =~= seq![s]);
    } else {
        assert(s =~= Seq::<char>::empty());
    }
}

pub proof fn lemma_split_append_sep(a: Seq<char>, b: Seq<char>, sep: char)
    requires
        !has_char(b, sep),
    ensures
        split_chars(a + seq![sep] + b, sep) == split_chars(a, sep).push(b),
    decreases b.len(),
{
    if b.len() == 0 {
        assert((a + seq![sep] + b).drop_last() =~= a);
        assert(b =~= Seq::<char>::empty());
    } else {
        let b2 = b.drop_last();
        assert(!has_char(b2, sep)) by {
            assert forall|j: int| 0 <= j < b2.len() implies #[trigger] b2[j] != sep by {
                assert(b2[j] == b[j]);
            }
        }
        lemma_split_append_sep(a, b2, sep);
        assert((a + seq![sep] + b).drop_last() =~= a + seq![sep] + b2);
        assert(b[b.len() - 1] != sep);
        assert(b2.push(b.last()) =~= b);
        assert(split_chars(a + seq![sep] + b, sep) =~= split_chars(a, sep).push(b));
    }
}

proof fn lemma_digit_char(d: nat)
    requires
        d < 10,
    ensures
        '0' <= digit_char(d) <= '9',
        digit_char(d) as int - '0' as int == d,
{
}

/// The decimal text of `n` is all digits and reads back as `n`.
pub proof fn lemma_decimal_reads_back(n: nat)
    ensures
        all_digits(decimal(n)),
        digits_value(decimal(n)) == n,
        decimal(n).len() > 0,
    decreases n,
{
    if n < 10 {
        lemma_digit_char(n);
        assert(decimal(n).drop_last() =~= Seq::<char>::empty());
        assert(digits_value(decimal(n)) == digits_value(Seq::<char>::empty()) * 10 + (decimal(n).last() as int - '0' as int));
    } else {
        lemma_decimal_reads_back(n / 10);
        lemma_digit_char(n % 10);
        let s = decimal(n);
        assert(s.drop_last() =~= decimal(n / 10));
        assert(s.last() == digit_char(n % 10));
        vstd::arithmetic::div_mod::lemma_fundamental_div_mod(n as int, 10);
        assert(digits_value(s) == digits_value(decimal(n / 10)) * 10 + (n % 10));
        assert forall|i: int| 0 <= i < s.len() implies '0' <= #[trigger] s[i] <= '9' by {
            if i < s.len() - 1 {
                assert(s[i] == decimal(n / 10)[i]);
            }
        }
    }
}

/// `str::parse::<i32>` reads back what `Display` wrote, and `trim` leaves it alone.
pub proof fn lemma_i32_text_reads_back(c: i32)
    ensures
        parsed_i32(int_decimal(c as int)) == Some(c),
        trim_ws(int_decimal(c as int)) == int_decimal(c as int),
        !has_char(int_decimal(c as int), '\n'),
        int_decimal(c as int).len() > 0,
        int_decimal(c as int).last() != '\r',
{
    let s = int_decimal(c as int);
    if c < 0 {
        let m = (-(c as int)) as nat;
        lemma_decimal_reads_back(m);
        assert(s.drop_first() =~= decimal(m));
        assert(!all_digits(s)) by {
            assert(s[0] == '-');
        }
    } else {
        lemma_decimal_reads_back(c as nat);
    }
    let d = if c < 0 { decimal((-(c as int)) as nat) } else { decimal(c as nat) };
    assert(s.last() == d.last());
    assert('0' <= d[d.len() - 1] <= '9');
    assert(!is_ws(s[0])) by {
        if c >= 0 {
            assert('0' <= d[0] <= '9');
        }
    }
    assert(trim_start_ws(s) == s);
    assert(trim_end_ws(s) == s);
    assert(!has_char(s, '\n')) by {
        assert forall|i: int| 0 <= i < s.len() implies #[trigger] s[i] != '\n' by {
            if c < 0 {
                if i > 0 {
                    assert(s[i] == d[i - 1]);
                    assert('0' <= d[i - 1] <= '9');
                }
            } else {
                assert('0' <= d[i] <= '9');
            }
        }
    }
}

/// Joins the pieces with `sep` between consecutive ones (`[T]::join`).
pub fn join_with(parts: &Vec<Vec<char>>, sep: char) -> (r: Vec<char>)
    ensures
        r@ == join_chars(views(parts@), seq![sep]),
{
    let mut out: Vec<char> = Vec::new();
    assert(views(parts@).take(0) =~= Seq::<Seq<char>>::empty());
    for k in 0..parts.len()
        invariant
            out@ == join_chars(views(parts@).take(k as int), seq![sep]),
    {
        let ghost before = out@;
        let ghost t = views(parts@).take(k + 1);
        assert(t.drop_last() =~= views(parts@).take(k as int));
        assert(t.last() == parts@[k as int]@);
        if k > 0 {
            out.push(sep);
        }
        extend_chars(&mut out, &parts[k]);
        proof {
            if k == 0 {
                assert(t.len() == 1);
                assert(views(parts@).take(0) =~= Seq::<Seq<char>>::empty());
                assert(out@ =~= t[0]);
            } else {
                assert(out@ =~= before + seq![sep] + t.last());
            }
        }
    }
    assert(views(parts@).take(parts@.len() as int) =~= views(parts@));
    out
}

} // verus!
