//! Remote and local path arithmetic: simplification, relative resolution,
//! and the `file_name` / `parent` / `join` operations of Unix paths.

use vstd::prelude::*;
use crate::text::{
    chars_of, extend_chars, has_char, join_chars, lemma_rfind_char, lemma_split_nonempty, rfind_char,
    split_chars, string_of, vec_rfind, views,
};

verus! {

/// Is `s` the single-dot segment `.`?
pub open spec fn is_dot(s: Seq<char>) -> bool {
    s == seq!['.']
}

/// Is `s` the parent segment `..`?
pub open spec fn is_dotdot(s: Seq<char>) -> bool {
    s == seq!['.', '.']
}

/// A segment that survives simplification: non-empty, not `.`, not `..`, no `/`.
pub open spec fn good_segment(s: Seq<char>) -> bool {
    s.len() > 0 && !is_dot(s) && !is_dotdot(s) && !has_char(s, '/')
}

pub open spec fn all_good(st: Seq<Seq<char>>) -> bool {
    forall|i: int| 0 <= i < st.len() ==> good_segment(#[trigger] st[i])
}

/// Applies one segment to the directory stack: empty and `.` are ignored,
/// `..` pops (nothing happens at the root), anything else is pushed.
pub open spec fn resolve_step(st: Seq<Seq<char>>, seg: Seq<char>) -> Seq<Seq<char>> {
    if seg.len() == 0 || is_dot(seg) {
        st
    } else if is_dotdot(seg) {
        if st.len() > 0 { st.drop_last() } else { st }
    } else {
        st.push(seg)
    }
}

/// The directory stack after all segments are applied from left to right.
pub open spec fn resolve_segments(segs: Seq<Seq<char>>) -> Seq<Seq<char>>
    decreases segs.len(),
{
    if segs.len() == 0 {
        Seq::empty()
    } else {
        resolve_step(resolve_segments(segs.drop_last()), segs.last())
    }
}

/// `/a/b/c` for the stack `[a, b, c]` (empty for the empty stack).
pub open spec fn rooted(st: Seq<Seq<char>>) -> Seq<char>
    decreases st.len(),
{
    if st.len() == 0 {
        Seq::empty()
    } else {
        rooted(st.drop_last()) + seq!['/'] + st.last()
    }
}

/// The absolute path naming a stack: `/` for the empty one.
pub open spec fn path_of(st: Seq<Seq<char>>) -> Seq<char> {
    if st.len() == 0 { seq!['/'] } else { rooted(st) }
}

/// The simplified form of a path: its `/`-separated segments applied to an
/// empty stack, written back as an absolute path.
pub open spec fn simplified(p: Seq<char>) -> Seq<char> {
    path_of(resolve_segments(split_chars(p, '/')))
}

/// A canonical path is one that simplification leaves unchanged.
pub open spec fn is_canonical(p: Seq<char>) -> bool {
    simplified(p) == p
}

fn is_dot_vec(s: &Vec<char>) -> (r: bool)
    ensures
        r == is_dot(s@),
{
    if s.len() == 1 && s[0] == '.' {
        assert(s@ =~= seq!['.']);
        true
    } else {
        false
    }
}

fn is_dotdot_vec(s: &Vec<char>) -> (r: bool)
    ensures
        r == is_dotdot(s@),
{
    if s.len() == 2 && s[0] == '.' && s[1] == '.' {
        assert(s@ =~= seq!['.', '.']);
        true
    } else {
        false
    }
}

fn apply_segment(stack: &mut Vec<Vec<char>>, seg: Vec<char>)
    ensures
        views(final(stack)@) == resolve_step(views(old(stack)@), seg@),
{
    let ghost old_v = views(stack@);
    if seg.len() == 0 || is_dot_vec(&seg) {
    } else if is_dotdot_vec(&seg) {
        if stack.len() > 0 {
            stack.pop();
            assert(views(stack@) =~= old_v.drop_last());
        }
    } else {
        stack.push(seg);
        assert(views(stack@) =~= old_v.push(seg@));
    }
}

/// The stack of segments that `p` resolves to.
fn resolve_chars(p: &Vec<char>) -> (r: Vec<Vec<char>>)
    ensures
        views(r@) == resolve_segments(split_chars(p@, '/')),
{
    let mut stack: Vec<Vec<char>> = Vec::new();
    let mut cur: Vec<char> = Vec::new();
    let ghost mut done: Seq<Seq<char>> = Seq::empty();
    assert(p@.take(0) =~= Seq::<char>::empty());
    assert(split_chars(Seq::<char>::empty(), '/') =~= done.push(cur@));
    assert(views(stack@) =~= Seq::<Seq<char>>::empty());
    for i in 0..p.len()
        invariant
            split_chars(p@.take(i as int), '/') == done.push(cur@),
            views(stack@) == resolve_segments(done),
    {
        let c = p[i];
        assert(p@.take(i + 1).drop_last() =~= p@.take(i as int));
        assert(p@.take(i + 1).last() == c);
        if c == '/' {
            let seg = cur;
            proof {
                assert(done.push(seg@).drop_last() =~= done);
                done = done.push(seg@);
            }
            apply_segment(&mut stack, seg);
            cur = Vec::new();
            assert(split_chars(p@.take(i + 1), '/') =~= done.push(cur@));
        } else {
            cur.push(c);
            assert(split_chars(p@.take(i + 1), '/') =~= done.push(cur@));
        }
    }
    assert(p@.take(p@.len() as int) =~= p@);
    assert(done.push(cur@).drop_last() =~= done);
    apply_segment(&mut stack, cur);
    stack
}

/// Writes a stack back as an absolute path.
fn path_of_stack(stack: &Vec<Vec<char>>) -> (r: Vec<char>)
    ensures
        r@ == path_of(views(stack@)),
{
    if stack.len() == 0 {
        let mut r = Vec::new();
        r.push('/');
        assert(r@ =~= seq!['/']);
        return r;
    }
    let mut out: Vec<char> = Vec::new();
    for k in 0..stack.len()
        invariant
            out@ == rooted(views(stack@).take(k as int)),
    {
        assert(views(stack@).take(k + 1).drop_last() =~= views(stack@).take(k as int));
        out.push('/');
        extend_chars(&mut out, &stack[k]);
        assert(out@ =~= rooted(views(stack@).take(k + 1)));
    }
    assert(views(stack@).take(stack@.len() as int) =~= views(stack@));
    out
}

/// Simplification on character buffers.
pub fn simplify_chars(p: &Vec<char>) -> (r: Vec<char>)
    ensures
        r@ == simplified(p@),
{
    let stack = resolve_chars(p);
    path_of_stack(&stack)
}

/// Simplifies a path: drops empty and `.` segments, lets `..` remove the
/// segment before it (never climbing above the root), and writes the result
/// as an absolute path (`/` when nothing is left).
pub fn simplify_path(path: &str) -> (r: String)
    ensures
        r@ == simplified(path@),
{
    let p = chars_of(path);
    let s = simplify_chars(&p);
    string_of(&s)
}

// ---- laws of simplification ----

proof fn lemma_split_pieces_lack_sep(s: Seq<char>, sep: char)
    ensures
        forall|i: int| 0 <= i < split_chars(s, sep).len() ==> !has_char(#[trigger] split_chars(s, sep)[i], sep),
    decreases s.len(),
{
    lemma_split_nonempty(s, sep);
    if s.len() > 0 {
        lemma_split_pieces_lack_sep(s.drop_last(), sep);
        lemma_split_nonempty(s.drop_last(), sep);
        let prev = split_chars(s.drop_last(), sep);
        if s.last() != sep {
            let last = prev.last().push(s.last());
            assert forall|j: int| 0 <= j < last.len() implies #[trigger] last[j] != sep by {
                if j < last.len() - 1 {
                    assert(last[j] == prev.last()[j]);
                    assert(!has_char(prev[prev.len() - 1], sep));
                }
            }
        }
    }
}

proof fn lemma_split_append(a: Seq<char>, b: Seq<char>, sep: char)
    requires
        !has_char(b, sep),
    ensures
        split_chars(a + seq![sep] + b, sep) == split_chars(a, sep).push(b),
    decreases b.len(),
{
    if b.len() == 0 {
        assert((a + seq![sep] + b).drop_last() =~= a);
        assert(b =~= Seq::<char>::empty());
    } else {
        let b2 = b.drop_last();
        assert(!has_char(b2, sep)) by {
            assert forall|j: int| 0 <= j < b2.len() implies #[trigger] b2[j] != sep by {
                assert(b2[j] == b[j]);
            }
        }
        lemma_split_append(a, b2, sep);
        assert((a + seq![sep] + b).drop_last() =~= a + seq![sep] + b2);
        assert(b[b.len() - 1] != sep);
        assert(b2.push(b.last()) =~= b);
        assert(split_chars(a + seq![sep] + b, sep) =~= split_chars(a, sep).push(b));
    }
}

proof fn lemma_resolve_all_good(segs: Seq<Seq<char>>)
    requires
        forall|i: int| 0 <= i < segs.len() ==> !has_char(#[trigger] segs[i], '/'),
    ensures
        all_good(resolve_segments(segs)),
    decreases segs.len(),
{
    if segs.len() > 0 {
        let d = segs.drop_last();
        assert forall|i: int| 0 <= i < d.len() implies !has_char(#[trigger] d[i], '/') by {
            assert(d[i] == segs[i]);
        }
        lemma_resolve_all_good(d);
        let st = resolve_segments(d);
        let last = segs.last();
        assert(!has_char(segs[segs.len() - 1], '/'));
        let r = resolve_step(st, last);
        assert forall|i: int| 0 <= i < r.len() implies good_segment(#[trigger] r[i]) by {
            if i < st.len() {
                assert(r[i] == st[i]);
            }
        }
    }
}

proof fn lemma_split_rooted(st: Seq<Seq<char>>)
    requires
        all_good(st),
    ensures
        split_chars(rooted(st), '/') == seq![Seq::<char>::empty()] + st,
    decreases st.len(),
{
    if st.len() == 0 {
        assert(rooted(st) =~= Seq::<char>::empty());
        assert(seq![Seq::<char>::empty()] + st =~= seq![Seq::<char>::empty()]);
    } else {
        let d = st.drop_last();
        assert forall|i: int| 0 <= i < d.len() implies good_segment(#[trigger] d[i]) by {
            assert(d[i] == st[i]);
        }
        lemma_split_rooted(d);
        assert(good_segment(st[st.len() - 1]));
        lemma_split_append(rooted(d), st.last(), '/');
        assert(seq![Seq::<char>::empty()] + st =~= (seq![Seq::<char>::empty()] + d).push(st.last()));
    }
}

proof fn lemma_resolve_rooted(st: Seq<Seq<char>>)
    requires
        all_good(st),
    ensures
        resolve_segments(seq![Seq::<char>::empty()] + st) == st,
    decreases st.len(),
{
    if st.len() == 0 {
        let e = seq![Seq::<char>::empty()];
        assert(e + st =~= e);
        assert(e.drop_last() =~= Seq::<Seq<char>>::empty());
        assert(resolve_segments(Seq::<Seq<char>>::empty()) =~= Seq::<Seq<char>>::empty());
        assert(e.last().len() == 0);
        assert(resolve_segments(e) =~= st);
    } else {
        let d = st.drop_last();
        assert forall|i: int| 0 <= i < d.len() implies good_segment(#[trigger] d[i]) by {
            assert(d[i] == st[i]);
        }
        lemma_resolve_rooted(d);
        let full = seq![Seq::<char>::empty()] + st;
        assert(full.drop_last() =~= seq![Seq::<char>::empty()] + d);
        assert(good_segment(st[st.len() - 1]));
        assert(d.push(st.last()) =~= st);
    }
}

/// Every path built from good segments is canonical.
pub proof fn lemma_path_of_canonical(st: Seq<Seq<char>>)
    requires
        all_good(st),
    ensures
        is_canonical(path_of(st)),
        resolve_segments(split_chars(path_of(st), '/')) == st,
{
    if st.len() == 0 {
        let e = Seq::<char>::empty();
        lemma_split_append(e, e, '/');
        assert(e + seq!['/'] + e =~= seq!['/']);
        let segs = split_chars(seq!['/'], '/');
        assert(split_chars(e, '/') =~= seq![e]);
        assert(segs =~= seq![e, e]);
        assert(segs.drop_last() =~= seq![e]);
        assert(seq![e].drop_last() =~= Seq::<Seq<char>>::empty());
        assert(resolve_segments(Seq::<Seq<char>>::empty()) =~= Seq::<Seq<char>>::empty());
        assert(seq![e].last().len() == 0);
        assert(resolve_segments(seq![e]) =~= Seq::<Seq<char>>::empty());
        assert(segs.last().len() == 0);
        assert(resolve_segments(segs) =~= st);
    } else {
        lemma_split_rooted(st);
        lemma_resolve_rooted(st);
    }
}

/// Law: the result of simplification is canonical — every segment is
/// non-empty, neither `.` nor `..`, it starts with `/`, and simplifying it
/// again changes nothing.
pub proof fn simplify_is_idempotent(p: Seq<char>)
    ensures
        all_good(resolve_segments(split_chars(p, '/'))),
        is_canonical(simplified(p)),
        simplified(simplified(p)) == simplified(p),
        simplified(p).len() > 0 && simplified(p)[0] == '/',
{
    lemma_split_pieces_lack_sep(p, '/');
    let st = resolve_segments(split_chars(p, '/'));
    lemma_resolve_all_good(split_chars(p, '/'));
    lemma_path_of_canonical(st);
    lemma_rooted_starts_with_slash(st);
}

proof fn lemma_rooted_starts_with_slash(st: Seq<Seq<char>>)
    ensures
        st.len() > 0 ==> rooted(st).len() > 0 && rooted(st)[0] == '/',
    decreases st.len(),
{
    if st.len() > 0 {
        let d = st.drop_last();
        lemma_rooted_starts_with_slash(d);
        if d.len() == 0 {
            assert(rooted(d) =~= Seq::<char>::empty());
            assert(rooted(st) =~= seq!['/'] + st.last());
        } else {
            assert(rooted(st)[0] == rooted(d)[0]);
        }
    }
}

// ---- relative resolution ----

/// `s` without its trailing `c` characters.
pub open spec fn trim_end_char(s: Seq<char>, c: char) -> Seq<char>
    decreases s.len(),
{
    if s.len() > 0 && s.last() == c {
        trim_end_char(s.drop_last(), c)
    } else {
        s
    }
}

/// The directory that `..` leads to from `current`: everything before the
/// last `/` once trailing slashes are dropped, and `/` when that is empty.
pub open spec fn parent_dir_of(current: Seq<char>) -> Seq<char> {
    if current == seq!['/'] {
        seq!['/']
    } else {
        let t = trim_end_char(current, '/');
        match rfind_char(t, '/') {
            Some(p) => if p == 0 { seq!['/'] } else { t.take(p) },
            None => seq!['/'],
        }
    }
}

/// `current` and `target` joined by one `/` (none added when `current`
/// already ends with `/`).
pub open spec fn joined(current: Seq<char>, target: Seq<char>) -> Seq<char> {
    if current.len() > 0 && current.last() == '/' {
        current + target
    } else {
        current + seq!['/'] + target
    }
}

/// Where `target` leads from the directory `current`.
pub open spec fn normalized(current: Seq<char>, target: Seq<char>) -> Seq<char> {
    if target.len() > 0 && target[0] == '/' {
        simplified(target)
    } else if is_dotdot(target) {
        parent_dir_of(current)
    } else if is_dot(target) {
        current
    } else {
        simplified(joined(current, target))
    }
}

fn trim_end_vec(s: &Vec<char>, c: char) -> (r: Vec<char>)
    ensures
        r@ == trim_end_char(s@, c),
{
    let mut n = s.len();
    assert(s@.take(n as int) =~= s@);
    while n > 0 && s[n - 1] == c
        invariant
            n <= s@.len(),
            trim_end_char(s@, c) == trim_end_char(s@.take(n as int), c),
        decreases n,
    {
        assert(s@.take(n as int).drop_last() =~= s@.take(n - 1));
        n = n - 1;
    }
    let r = crate::text::sub_chars(s, 0, n);
    assert(r@ =~= s@.take(n as int));
    r
}

fn joined_vec(current: &Vec<char>, target: &Vec<char>) -> (r: Vec<char>)
    ensures
        r@ == joined(current@, target@),
{
    let mut v = current.clone();
    assert(v@ == current@);
    if !(current.len() > 0 && current[current.len() - 1] == '/') {
        v.push('/');
    }
    extend_chars(&mut v, target);
    v
}

fn parent_dir_vec(current: &Vec<char>) -> (r: Vec<char>)
    ensures
        r@ == parent_dir_of(current@),
{
    let mut root: Vec<char> = Vec::new();
    root.push('/');
    assert(root@ =~= seq!['/']);
    if current.len() == 1 && current[0] == '/' {
        assert(current@ =~= seq!['/']);
        return root;
    }
    let t = trim_end_vec(current, '/');
    match vec_rfind(&t, '/') {
        Some(p) => {
            if p == 0 {
                root
            } else {
                proof { lemma_rfind_char(t@, '/'); }
                let r = crate::text::sub_chars(&t, 0, p);
                assert(r@ =~= t@.take(p as int));
                r
            }
        },
        None => root,
    }
}

fn normalize_chars(current: &Vec<char>, target: &Vec<char>) -> (r: Vec<char>)
    ensures
        r@ == normalized(current@, target@),
{
    if target.len() > 0 && target[0] == '/' {
        simplify_chars(target)
    } else if is_dotdot_vec(target) {
        parent_dir_vec(current)
    } else if is_dot_vec(target) {
        current.clone()
    } else {
        let j = joined_vec(current, target);
        simplify_chars(&j)
    }
}

/// Resolves `target` against the directory `current`: an absolute target is
/// simplified, `..` goes to the parent of `current`, `.` stays, and anything
/// else is appended to `current` and simplified.
pub fn normalize_path(current: &str, target: &str) -> (r: String)
    ensures
        r@ == normalized(current@, target@),
{
    let c = chars_of(current);
    let t = chars_of(target);
    let r = normalize_chars(&c, &t);
    string_of(&r)
}

/// A local path: an absolute target as given, otherwise `target` appended to
/// `current_local_path` with one `/` between them.
pub open spec fn resolved_local(current: Seq<char>, target: Seq<char>) -> Seq<char> {
    if target.len() > 0 && target[0] == '/' {
        target
    } else {
        joined(current, target)
    }
}

/// Resolves a local file path relative to the local working directory.
pub fn resolve_local_path(current_local_path: &str, target: &str) -> (r: String)
    ensures
        r@ == resolved_local(current_local_path@, target@),
{
    let c = chars_of(current_local_path);
    let t = chars_of(target);
    if t.len() > 0 && t[0] == '/' {
        string_of(&t)
    } else {
        let j = joined_vec(&c, &t);
        string_of(&j)
    }
}

proof fn lemma_rfind_append(a: Seq<char>, b: Seq<char>, c: char)
    requires
        !has_char(b, c),
    ensures
        rfind_char(a + seq![c] + b, c) == Some(a.len() as int),
    decreases b.len(),
{
    if b.len() == 0 {
        assert(a + seq![c] + b =~= a.push(c));
    } else {
        let b2 = b.drop_last();
        assert(!has_char(b2, c)) by {
            assert forall|j: int| 0 <= j < b2.len() implies #[trigger] b2[j] != c by {
                assert(b2[j] == b[j]);
            }
        }
        lemma_rfind_append(a, b2, c);
        assert((a + seq![c] + b).drop_last() =~= a + seq![c] + b2);
        assert(b[b.len() - 1] != c);
    }
}

proof fn lemma_rooted_last(st: Seq<Seq<char>>)
    requires
        all_good(st),
        st.len() > 0,
    ensures
        rooted(st).len() >= 2,
        rooted(st).last() == st.last().last(),
        rooted(st).last() != '/',
        rfind_char(rooted(st), '/') == Some(rooted(st.drop_last()).len() as int),
        rooted(st).take(rooted(st.drop_last()).len() as int) == rooted(st.drop_last()),
        rooted(st).skip(rooted(st.drop_last()).len() as int + 1) == st.last(),
{
    let d = st.drop_last();
    let l = st.last();
    assert(good_segment(st[st.len() - 1]));
    assert(l.len() > 0);
    assert(rooted(st) == rooted(d) + seq!['/'] + l);
    assert(has_char(l, l.last()) ==> l.last() != '/') by {
        if l.last() == '/' {
            assert(l[l.len() - 1] == '/');
        }
    }
    assert(rooted(st).last() == l[l.len() - 1]);
    lemma_rfind_append(rooted(d), l, '/');
    assert(rooted(st).take(rooted(d).len() as int) =~= rooted(d));
    assert(rooted(st).skip(rooted(d).len() as int + 1) =~= l);
}

proof fn lemma_canonical_shape(c: Seq<char>)
    requires
        is_canonical(c),
    ensures
        all_good(resolve_segments(split_chars(c, '/'))),
        c == path_of(resolve_segments(split_chars(c, '/'))),
{
    simplify_is_idempotent(c);
}

/// Law: from a canonical directory, `..` leads where simplifying
/// `current/..` leads, and every target leads to a canonical path.
pub proof fn normalize_keeps_canonical(current: Seq<char>, target: Seq<char>)
    requires
        is_canonical(current),
    ensures
        is_canonical(normalized(current, target)),
        parent_dir_of(current) == simplified(joined(current, seq!['.', '.'])),
{
    lemma_canonical_shape(current);
    let st = resolve_segments(split_chars(current, '/'));
    let dd = seq!['.', '.'];
    assert(!has_char(dd, '/')) by {
        assert(dd[0] != '/' && dd[1] != '/');
    }
    if st.len() == 0 {
        assert(current == seq!['/']);
        let j = joined(current, dd);
        assert(j =~= Seq::<char>::empty() + seq!['/'] + dd);
        lemma_split_append(Seq::<char>::empty(), dd, '/');
        let e = Seq::<char>::empty();
        assert(split_chars(e, '/') =~= seq![e]);
        let segs = seq![e].push(dd);
        assert(segs.drop_last() =~= seq![e]);
        assert(seq![e].drop_last() =~= Seq::<Seq<char>>::empty());
        assert(resolve_segments(Seq::<Seq<char>>::empty()) =~= Seq::<Seq<char>>::empty());
        assert(seq![e].last().len() == 0);
        assert(resolve_segments(seq![e]) =~= Seq::<Seq<char>>::empty());
        assert(segs.last() == dd);
        assert(resolve_segments(segs) =~= Seq::<Seq<char>>::empty());
        lemma_path_of_canonical(Seq::<Seq<char>>::empty());
    } else {
        let d = st.drop_last();
        lemma_rooted_last(st);
        assert(current == rooted(st));
        assert(current != seq!['/']);
        assert(trim_end_char(current, '/') == current);
        assert forall|i: int| 0 <= i < d.len() implies good_segment(#[trigger] d[i]) by {
            assert(d[i] == st[i]);
        }
        lemma_path_of_canonical(d);
        if d.len() == 0 {
            assert(rooted(d) =~= Seq::<char>::empty());
            assert(parent_dir_of(current) == path_of(d));
        } else {
            assert(parent_dir_of(current) == rooted(d));
        }
        // current/.. simplifies to the same place
        let j = joined(current, dd);
        assert(j == current + seq!['/'] + dd);
        lemma_split_append(current, dd, '/');
        lemma_split_rooted(st);
        let segs = split_chars(current, '/').push(dd);
        assert(segs.drop_last() =~= split_chars(current, '/'));
        assert(resolve_segments(segs) == resolve_step(st, dd));
        assert(resolve_step(st, dd) == d);
    }
    // the remaining targets
    if target.len() > 0 && target[0] == '/' {
        simplify_is_idempotent(target);
    } else if is_dotdot(target) {
    } else if is_dot(target) {
    } else {
        simplify_is_idempotent(joined(current, target));
    }
}

// ---- Unix path components ----

/// `p` without what `Path` treats as trailing noise: trailing `/` separators
/// and trailing `.` components (`a/./` and `a/.` both end in `a`). A lone
/// `/` or `.` is kept.
pub open spec fn strip_trailing(p: Seq<char>) -> Seq<char>
    decreases p.len(),
{
    if p.len() > 1 && (p.last() == '/' || (p.last() == '.' && p[p.len() - 2] == '/')) {
        strip_trailing(p.drop_last())
    } else {
        p
    }
}

/// The text of the last component of `q`: what follows its last `/`.
pub open spec fn last_component(q: Seq<char>) -> Seq<char> {
    match rfind_char(q, '/') {
        Some(i) => q.skip(i + 1),
        None => q,
    }
}

/// `Path::file_name`: the final component when it is a normal name, `None`
/// for the root, the empty path, `.` and a path ending in `..`.
pub open spec fn path_file_name(p: Seq<char>) -> Option<Seq<char>> {
    let name = last_component(strip_trailing(p));
    if name.len() == 0 || is_dot(name) || is_dotdot(name) {
        None
    } else {
        Some(name)
    }
}

/// `Path::parent`: the path without its final component; `None` for the
/// root and the empty path, the empty path for a one-component relative path.
pub open spec fn path_parent(p: Seq<char>) -> Option<Seq<char>> {
    let q = strip_trailing(p);
    if q.len() == 0 || q == seq!['/'] {
        None
    } else {
        match rfind_char(q, '/') {
            None => Some(Seq::empty()),
            Some(i) => if i == 0 { Some(seq!['/']) } else { Some(strip_trailing(q.take(i))) },
        }
    }
}

/// `Path::join`: an absolute `rel` replaces `base`; otherwise `rel` is
/// appended with a `/` in between unless `base` is empty or ends in `/`.
pub open spec fn path_join(base: Seq<char>, rel: Seq<char>) -> Seq<char> {
    if rel.len() > 0 && rel[0] == '/' {
        rel
    } else if base.len() == 0 || base.last() == '/' {
        base + rel
    } else {
        base + seq!['/'] + rel
    }
}

fn strip_trailing_vec(p: &Vec<char>) -> (r: Vec<char>)
    ensures
        r@ == strip_trailing(p@),
{
    let mut n = p.len();
    assert(p@.take(n as int) =~= p@);
    while n > 1 && (p[n - 1] == '/' || (p[n - 1] == '.' && p[n - 2] == '/'))
        invariant
            n <= p@.len(),
            strip_trailing(p@) == strip_trailing(p@.take(n as int)),
        decreases n,
    {
        assert(p@.take(n as int).drop_last() =~= p@.take(n - 1));
        n = n - 1;
    }
    let r = crate::text::sub_chars(p, 0, n);
    assert(r@ =~= p@.take(n as int));
    r
}

fn last_component_vec(q: &Vec<char>) -> (r: Vec<char>)
    ensures
        r@ == last_component(q@),
{
    match vec_rfind(q, '/') {
        Some(i) => {
            proof { lemma_rfind_char(q@, '/'); }
            assert(i < q.len());
            let r = crate::text::sub_chars(q, i + 1, q.len());
            assert(r@ =~= q@.skip(i + 1));
            r
        },
        None => q.clone(),
    }
}

/// [`path_file_name`] on character buffers.
pub fn file_name_chars(p: &Vec<char>) -> (r: Option<Vec<char>>)
    ensures
        match r {
            Some(v) => path_file_name(p@) == Some(v@),
            None => path_file_name(p@) is None,
        },
{
    let q = strip_trailing_vec(p);
    let name = last_component_vec(&q);
    if name.len() == 0 || is_dot_vec(&name) || is_dotdot_vec(&name) {
        None
    } else {
        Some(name)
    }
}

/// [`path_parent`] on character buffers.
pub fn parent_chars(p: &Vec<char>) -> (r: Option<Vec<char>>)
    ensures
        match r {
            Some(v) => path_parent(p@) == Some(v@),
            None => path_parent(p@) is None,
        },
{
    let q = strip_trailing_vec(p);
    if q.len() == 0 || (q.len() == 1 && q[0] == '/') {
        proof {
            if q.len() == 1 && q[0] == '/' {
                assert(q@ =~= seq!['/']);
            }
        }
        return None;
    }
    match vec_rfind(&q, '/') {
        None => Some(Vec::new()),
        Some(i) => {
            if i == 0 {
                let mut r = Vec::new();
                r.push('/');
                assert(r@ =~= seq!['/']);
                Some(r)
            } else {
                proof { lemma_rfind_char(q@, '/'); }
                let head = crate::text::sub_chars(&q, 0, i);
                assert(head@ =~= q@.take(i as int));
                Some(strip_trailing_vec(&head))
            }
        },
    }
}

/// [`path_join`] on character buffers.
pub fn join_chars_path(base: &Vec<char>, rel: &Vec<char>) -> (r: Vec<char>)
    ensures
        r@ == path_join(base@, rel@),
{
    if rel.len() > 0 && rel[0] == '/' {
        rel.clone()
    } else {
        let mut v = base.clone();
        if !(base.len() == 0 || base[base.len() - 1] == '/') {
            v.push('/');
        }
        extend_chars(&mut v, rel);
        v
    }
}

/// The file name of `p`, or `default` when it has none.
pub open spec fn file_name_or(p: Seq<char>, default: Seq<char>) -> Seq<char> {
    match path_file_name(p) {
        Some(n) => n,
        None => default,
    }
}

/// The parent of `p`, or `default` when it has none.
pub open spec fn parent_or(p: Seq<char>, default: Seq<char>) -> Seq<char> {
    match path_parent(p) {
        Some(n) => n,
        None => default,
    }
}

/// `file_name_chars(p)`, falling back to `default`.
pub fn file_name_or_chars(p: &Vec<char>, default: &str) -> (r: Vec<char>)
    ensures
        r@ == file_name_or(p@, default@),
{
    match file_name_chars(p) {
        Some(n) => n,
        None => chars_of(default),
    }
}

/// `parent_chars(p)`, falling back to `default`.
pub fn parent_or_chars(p: &Vec<char>, default: &str) -> (r: Vec<char>)
    ensures
        r@ == parent_or(p@, default@),
{
    match parent_chars(p) {
        Some(n) => n,
        None => chars_of(default),
    }
}

/// The (directory, name) pair that `parse_dest_path` yields.
pub open spec fn dest_parts(current: Seq<char>, dest: Seq<char>, src: Seq<char>) -> (Seq<char>, Seq<char>) {
    if dest.len() > 0 && dest.last() == '/' {
        (normalized(current, dest), file_name_or(src, "untitled"@))
    } else {
        let full = normalized(current, dest);
        (parent_or(full, "/"@), file_name_or(full, "untitled"@))
    }
}

/// Splits a destination argument into (directory, new file name): a
/// destination ending in `/` is a directory that keeps the source's file
/// name; otherwise the destination's own parent and file name are used
/// (`/` and `untitled` stand in for missing parts).
pub fn parse_dest_path(current: &str, dest: &str, src: &str) -> (r: (String, String))
    ensures
        (r.0@, r.1@) == dest_parts(current@, dest@, src@),
{
    let c = chars_of(current);
    let d = chars_of(dest);
    if d.len() > 0 && d[d.len() - 1] == '/' {
        let s = chars_of(src);
        let name = file_name_or_chars(&s, "untitled");
        let dir = normalize_chars(&c, &d);
        (string_of(&dir), string_of(&name))
    } else {
        let full = normalize_chars(&c, &d);
        let dir = parent_or_chars(&full, "/");
        let name = file_name_or_chars(&full, "untitled");
        (string_of(&dir), string_of(&name))
    }
}

proof fn lemma_strip_rooted(st: Seq<Seq<char>>)
    requires
        all_good(st),
        st.len() > 0,
    ensures
        strip_trailing(rooted(st)) == rooted(st),
{
    lemma_rooted_last(st);
    let p = rooted(st);
    let d = st.drop_last();
    let l = st.last();
    assert(good_segment(st[st.len() - 1]));
    assert(p == rooted(d) + seq!['/'] + l);
    if p.last() == '.' {
        if l.len() == 1 {
            assert(l =~= seq!['.']);
        } else {
            assert(p[p.len() - 2] == l[l.len() - 2]);
            assert(l[l.len() - 2] != '/');
        }
    }
}

/// Law: when the destination does not end in `/` and leads to a canonical
/// path other than the root, the directory and name that `parse_dest_path`
/// returns join back into exactly that path.
pub proof fn dest_parts_rejoin(current: Seq<char>, dest: Seq<char>, src: Seq<char>)
    requires
        !(dest.len() > 0 && dest.last() == '/'),
        is_canonical(normalized(current, dest)),
        normalized(current, dest) != seq!['/'],
    ensures
        path_join(dest_parts(current, dest, src).0, dest_parts(current, dest, src).1)
            == normalized(current, dest),
{
    let full = normalized(current, dest);
    lemma_canonical_shape(full);
    let st = resolve_segments(split_chars(full, '/'));
    assert(st.len() > 0);
    let d = st.drop_last();
    let l = st.last();
    assert(good_segment(st[st.len() - 1]));
    lemma_rooted_last(st);
    lemma_strip_rooted(st);
    assert(full == rooted(st));
    assert(last_component(full) == l);
    assert(!(l.len() == 0 || is_dot(l) || is_dotdot(l)));
    assert(path_file_name(full) == Some(l));
    assert(l[0] != '/');
    if d.len() == 0 {
        assert(rooted(d) =~= Seq::<char>::empty());
        assert(path_parent(full) == Some(seq!['/']));
        assert(path_join(seq!['/'], l) =~= full);
    } else {
        assert forall|i: int| 0 <= i < d.len() implies good_segment(#[trigger] d[i]) by {
            assert(d[i] == st[i]);
        }
        lemma_strip_rooted(d);
        lemma_rooted_last(d);
        assert(path_parent(full) == Some(rooted(d)));
        assert(path_join(rooted(d), l) =~= full);
    }
}

// ---- the written shape of canonical paths ----

/// No two `/` stand next to each other.
pub open spec fn no_double_slash(p: Seq<char>) -> bool {
    forall|i: int| 0 <= i < p.len() - 1 ==> !(#[trigger] p[i] == '/' && p[i + 1] == '/')
}

/// The written shape of a canonical path: it starts with `/`, has no `//`,
/// ends in `/` only when it is `/`, and none of its `/`-separated pieces is
/// `.` or `..`.
pub open spec fn canonical_form(p: Seq<char>) -> bool {
    &&& p.len() > 0 && p[0] == '/'
    &&& no_double_slash(p)
    &&& (p == seq!['/'] || p.last() != '/')
    &&& forall|i: int| 0 <= i < split_chars(p, '/').len()
        ==> !is_dot(#[trigger] split_chars(p, '/')[i]) && !is_dotdot(split_chars(p, '/')[i])
}

proof fn lemma_rooted_form(st: Seq<Seq<char>>)
    requires
        all_good(st),
        st.len() > 0,
    ensures
        rooted(st).len() > 0,
        rooted(st)[0] == '/',
        rooted(st).last() != '/',
        no_double_slash(rooted(st)),
    decreases st.len(),
{
    let d = st.drop_last();
    let l = st.last();
    assert(good_segment(st[st.len() - 1]));
    assert forall|j: int| 0 <= j < l.len() implies #[trigger] l[j] != '/' by {
        if l[j] == '/' {
            assert(has_char(l, '/'));
        }
    }
    let r = rooted(st);
    let rd = rooted(d);
    assert(r == rd + seq!['/'] + l);
    if d.len() == 0 {
        assert(rd =~= Seq::<char>::empty());
        assert forall|i: int| 0 <= i < r.len() - 1 implies !(#[trigger] r[i] == '/' && r[i + 1] == '/') by {
            assert(r[i + 1] == l[i]);
        }
        assert(r.last() == l[l.len() - 1]);
    } else {
        assert forall|i: int| 0 <= i < d.len() implies good_segment(#[trigger] d[i]) by {
            assert(d[i] == st[i]);
        }
        lemma_rooted_form(d);
        assert forall|i: int| 0 <= i < r.len() - 1 implies !(#[trigger] r[i] == '/' && r[i + 1] == '/') by {
            if i < rd.len() - 1 {
                assert(r[i] == rd[i] && r[i + 1] == rd[i + 1]);
            } else if i == rd.len() - 1 {
                assert(r[i] == rd[rd.len() - 1]);
            } else if i == rd.len() {
                assert(r[i + 1] == l[0]);
            } else {
                assert(r[i] == l[i - rd.len() - 1]);
            }
        }
        assert(r[0] == rd[0]);
        assert(r.last() == l[l.len() - 1]);
    }
}

proof fn lemma_slash_form()
    ensures
        canonical_form(seq!['/']),
        is_canonical(seq!['/']),
        split_chars(seq!['/'], '/') == seq![Seq::<char>::empty(), Seq::<char>::empty()],
{
    let e = Seq::<char>::empty();
    lemma_split_append(e, e, '/');
    assert(e + seq!['/'] + e =~= seq!['/']);
    assert(split_chars(e, '/') =~= seq![e]);
    assert(split_chars(seq!['/'], '/') =~= seq![e, e]);
    lemma_path_of_canonical(Seq::<Seq<char>>::empty());
    assert(path_of(Seq::<Seq<char>>::empty()) == seq!['/']);
}

/// Law: simplification gives the written shape of a canonical path — a
/// leading `/`, no `//`, no trailing `/` (except for `/` itself), no `.` or
/// `..` piece — and simplifying that again changes nothing.
pub proof fn simplified_has_canonical_form(p: Seq<char>)
    ensures
        canonical_form(simplified(p)),
        simplified(simplified(p)) == simplified(p),
{
    simplify_is_idempotent(p);
    let st = resolve_segments(split_chars(p, '/'));
    if st.len() == 0 {
        lemma_slash_form();
    } else {
        lemma_rooted_form(st);
        lemma_split_rooted(st);
        let r = rooted(st);
        assert(simplified(p) == r);
        assert forall|i: int| 0 <= i < split_chars(r, '/').len()
            implies !is_dot(#[trigger] split_chars(r, '/')[i]) && !is_dotdot(split_chars(r, '/')[i]) by {
            if i > 0 {
                assert(split_chars(r, '/')[i] == st[i - 1]);
                assert(good_segment(st[i - 1]));
            } else {
                assert(split_chars(r, '/')[i] == Seq::<char>::empty());
            }
        }
        if r == seq!['/'] {
        } else {
            assert(r.last() != '/');
        }
    }
}

proof fn lemma_split_shape(s: Seq<char>)
    requires
        s.len() >= 1,
        s[0] == '/',
        no_double_slash(s),
    ensures
        split_chars(s, '/').len() >= 2,
        split_chars(s, '/')[0] == Seq::<char>::empty(),
        forall|i: int| 1 <= i < split_chars(s, '/').len() - 1 ==> (#[trigger] split_chars(s, '/')[i]).len() > 0,
        (split_chars(s, '/').last().len() == 0) == (s.last() == '/'),
    decreases s.len(),
{
    let e = Seq::<char>::empty();
    if s.len() == 1 {
        assert(s =~= seq!['/']);
        lemma_slash_form();
    } else {
        let t = s.drop_last();
        let c = s.last();
        assert forall|i: int| 0 <= i < t.len() - 1 implies !(#[trigger] t[i] == '/' && t[i + 1] == '/') by {
            assert(t[i] == s[i] && t[i + 1] == s[i + 1]);
        }
        lemma_split_shape(t);
        let pt = split_chars(t, '/');
        if c == '/' {
            assert(!(s[s.len() - 2] == '/' && s[s.len() - 1] == '/'));
            assert(t.last() != '/');
            assert(split_chars(s, '/') == pt.push(e));
        } else {
            assert(split_chars(s, '/') == pt.update(pt.len() - 1, pt.last().push(c)));
        }
    }
}

proof fn lemma_join_split(s: Seq<char>, sep: char)
    ensures
        join_chars(split_chars(s, sep), seq![sep]) == s,
    decreases s.len(),
{
    if s.len() == 0 {
        assert(split_chars(s, sep) =~= seq![Seq::<char>::empty()]);
    } else {
        let t = s.drop_last();
        let c = s.last();
        lemma_join_split(t, sep);
        lemma_split_nonempty(t, sep);
        let pt = split_chars(t, sep);
        if c == sep {
            let ps = pt.push(Seq::<char>::empty());
            assert(split_chars(s, sep) == ps);
            assert(ps.drop_last() =~= pt);
            assert(join_chars(ps, seq![sep]) =~= s);
        } else {
            let ps = pt.update(pt.len() - 1, pt.last().push(c));
            assert(split_chars(s, sep) == ps);
            if pt.len() == 1 {
                assert(join_chars(pt, seq![sep]) == pt[0]);
                assert(join_chars(ps, seq![sep]) =~= s);
            } else {
                assert(ps.drop_last() =~= pt.drop_last());
                assert(ps.last() == pt.last().push(c));
                assert(join_chars(pt, seq![sep]) == join_chars(pt.drop_last(), seq![sep]) + seq![sep] + pt.last());
                assert(join_chars(ps, seq![sep]) == join_chars(pt.drop_last(), seq![sep]) + seq![sep] + ps.last());
                assert(join_chars(ps, seq![sep]) =~= t.push(c));
                assert(t.push(c) =~= s);
            }
        }
    }
}

proof fn lemma_rooted_join(st: Seq<Seq<char>>)
    requires
        st.len() > 0,
    ensures
        rooted(st) == join_chars(seq![Seq::<char>::empty()] + st, seq!['/']),
    decreases st.len(),
{
    let e = Seq::<char>::empty();
    let d = st.drop_last();
    let full = seq![e] + st;
    assert(full.drop_last() =~= seq![e] + d);
    assert(full.last() == st.last());
    if d.len() == 0 {
        assert(rooted(d) =~= e);
        assert(seq![e] + d =~= seq![e]);
        assert(join_chars(seq![e], seq!['/']) == e);
    } else {
        lemma_rooted_join(d);
    }
}

/// A path of the written canonical shape is canonical: simplifying it changes nothing.
pub proof fn canonical_form_is_canonical(p: Seq<char>)
    requires
        canonical_form(p),
    ensures
        is_canonical(p),
{
    if p == seq!['/'] {
        lemma_slash_form();
    } else {
        lemma_split_shape(p);
        lemma_split_pieces_lack_sep(p, '/');
        let segs = split_chars(p, '/');
        let rest = segs.drop_first();
        let e = Seq::<char>::empty();
        assert(segs =~= seq![e] + rest);
        assert forall|i: int| 0 <= i < rest.len() implies good_segment(#[trigger] rest[i]) by {
            assert(rest[i] == segs[i + 1]);
            assert(!has_char(segs[i + 1], '/'));
            assert(!is_dot(segs[i + 1]) && !is_dotdot(segs[i + 1]));
            if i + 1 < segs.len() - 1 {
                assert(segs[i + 1].len() > 0);
            } else {
                assert(segs.last() == segs[i + 1]);
            }
        }
        lemma_resolve_rooted(rest);
        lemma_rooted_join(rest);
        lemma_join_split(p, '/');
        assert(path_of(rest) == rooted(rest));
    }
}

proof fn lemma_split_after_slash(s: Seq<char>)
    ensures
        split_chars(seq!['/'] + s, '/') == seq![Seq::<char>::empty()] + split_chars(s, '/'),
    decreases s.len(),
{
    let e = Seq::<char>::empty();
    if s.len() == 0 {
        assert(seq!['/'] + s =~= seq!['/']);
        lemma_slash_form();
        assert(split_chars(s, '/') =~= seq![e]);
        assert(seq![e] + seq![e] =~= seq![e, e]);
    } else {
        let u = s.drop_last();
        let c = s.last();
        lemma_split_after_slash(u);
        lemma_split_nonempty(u, '/');
        assert((seq!['/'] + s).drop_last() =~= seq!['/'] + u);
        assert((seq!['/'] + s).last() == c);
        let pu = split_chars(u, '/');
        if c == '/' {
            assert((seq![e] + pu).push(e) =~= seq![e] + pu.push(e));
        } else {
            assert((seq![e] + pu).update(pu.len() as int, pu.last().push(c))
                =~= seq![e] + pu.update(pu.len() - 1, pu.last().push(c)));
        }
    }
}

proof fn lemma_resolve_after_empty(x: Seq<Seq<char>>)
    ensures
        resolve_segments(seq![Seq::<char>::empty()] + x) == resolve_segments(x),
    decreases x.len(),
{
    let e = Seq::<char>::empty();
    if x.len() == 0 {
        assert(seq![e] + x =~= seq![e]);
        assert(seq![e].drop_last() =~= Seq::<Seq<char>>::empty());
        assert(resolve_segments(seq![e]) == resolve_step(resolve_segments(Seq::<Seq<char>>::empty()), e));
    } else {
        lemma_resolve_after_empty(x.drop_last());
        let f = seq![e] + x;
        assert(f.drop_last() =~= seq![e] + x.drop_last());
        assert(f.last() == x.last());
        assert(resolve_segments(f) == resolve_step(resolve_segments(f.drop_last()), f.last()));
        assert(resolve_segments(x) == resolve_step(resolve_segments(x.drop_last()), x.last()));
    }
}

proof fn lemma_simplify_after_slash(s: Seq<char>)
    ensures
        simplified(seq!['/'] + s) == simplified(s),
{
    lemma_split_after_slash(s);
    lemma_resolve_after_empty(split_chars(s, '/'));
}

proof fn lemma_joined_simplifies(current: Seq<char>, target: Seq<char>)
    requires
        canonical_form(current),
    ensures
        simplified(joined(current, target)) == simplified(current + seq!['/'] + target),
{
    if current == seq!['/'] {
        assert(joined(current, target) =~= seq!['/'] + target);
        assert(current + seq!['/'] + target =~= seq!['/'] + (seq!['/'] + target));
        lemma_simplify_after_slash(seq!['/'] + target);
    } else {
        assert(joined(current, target) == current + seq!['/'] + target);
    }
}

/// Law: from a canonical working directory, a relative target leads where
/// simplifying `current/target` leads, and the result has the canonical shape.
pub proof fn normalize_relative_is_simplified_join(current: Seq<char>, target: Seq<char>)
    requires
        canonical_form(current),
        !(target.len() > 0 && target[0] == '/'),
    ensures
        normalized(current, target) == simplified(current + seq!['/'] + target),
        canonical_form(normalized(current, target)),
{
    canonical_form_is_canonical(current);
    lemma_joined_simplifies(current, target);
    if is_dotdot(target) {
        normalize_keeps_canonical(current, target);
        lemma_joined_simplifies(current, seq!['.', '.']);
    } else if is_dot(target) {
        assert(!has_char(target, '/')) by {
            assert(target[0] == '.');
        }
        lemma_split_append(current, target, '/');
        let segs = split_chars(current, '/');
        assert(split_chars(current + seq!['/'] + target, '/') == segs.push(target));
        assert(segs.push(target).drop_last() =~= segs);
        assert(resolve_segments(segs.push(target)) == resolve_step(resolve_segments(segs), target));
        assert(resolve_segments(segs.push(target)) == resolve_segments(segs));
        assert(simplified(current + seq!['/'] + target) == simplified(current));
    } else {
        assert(normalized(current, target) == simplified(joined(current, target)));
    }
    simplified_has_canonical_form(current + seq!['/'] + target);
}

/// Law: when the destination does not end in `/` and does not lead to the
/// root, `parse_dest_path` from a canonical directory gives a non-empty name
/// without `/`, and resolving that name from the directory it gives leads
/// back to the destination.
pub proof fn dest_parts_resolve_back(current: Seq<char>, dest: Seq<char>, src: Seq<char>)
    requires
        canonical_form(current),
        !(dest.len() > 0 && dest.last() == '/'),
        normalized(current, dest) != seq!['/'],
    ensures
        dest_parts(current, dest, src).1.len() > 0,
        !has_char(dest_parts(current, dest, src).1, '/'),
        normalized(dest_parts(current, dest, src).0, dest_parts(current, dest, src).1) == normalized(current, dest),
{
    canonical_form_is_canonical(current);
    normalize_keeps_canonical(current, dest);
    let full = normalized(current, dest);
    lemma_canonical_shape(full);
    let st = resolve_segments(split_chars(full, '/'));
    assert(st.len() > 0);
    let d = st.drop_last();
    let l = st.last();
    assert(good_segment(st[st.len() - 1]));
    lemma_rooted_last(st);
    lemma_strip_rooted(st);
    assert(full == rooted(st));
    assert(last_component(full) == l);
    assert(path_file_name(full) == Some(l));
    assert(l[0] != '/') by {
        if l[0] == '/' {
            assert(has_char(l, '/'));
        }
    }
    assert(rooted(st) == rooted(d) + seq!['/'] + l);
    if d.len() == 0 {
        assert(rooted(d) =~= Seq::<char>::empty());
        assert(path_parent(full) == Some(seq!['/']));
        assert(joined(seq!['/'], l) =~= full);
    } else {
        assert forall|i: int| 0 <= i < d.len() implies good_segment(#[trigger] d[i]) by {
            assert(d[i] == st[i]);
        }
        lemma_strip_rooted(d);
        lemma_rooted_last(d);
        assert(path_parent(full) == Some(rooted(d)));
        assert(joined(rooted(d), l) =~= full);
    }
}

} // verus!
