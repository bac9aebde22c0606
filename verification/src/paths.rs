//! Unix paths held as strings, with the component semantics of `std::path`:
//! a path is its root flag and its components, where empty parts and `.`
//! parts are dropped (a leading `.` of a relative path stays).

use vstd::prelude::*;
use crate::text::{chars_eq, chars_of};

verus! {

/// Whether the path starts at the root.
pub open spec fn is_absolute(p: Seq<char>) -> bool {
    p.len() > 0 && p[0] == '/'
}

/// Whether a part between separators is kept as a component.
pub open spec fn keeps(part: Seq<char>, seen_sep: bool) -> bool {
    part.len() > 0 && (part != seq!['.'] || !seen_sep)
}

/// Left-to-right scan of a path: the components so far, the part being read,
/// and whether a separator was seen.
pub open spec fn scan(p: Seq<char>) -> (Seq<Seq<char>>, Seq<char>, bool)
    decreases p.len(),
{
    if p.len() == 0 {
        (Seq::empty(), Seq::empty(), false)
    } else {
        let (d, c, ss) = scan(p.drop_last());
        if p.last() == '/' {
            (if keeps(c, ss) { d.push(c) } else { d }, Seq::empty(), true)
        } else {
            (d, c.push(p.last()), ss)
        }
    }
}

/// The components of a path, without the root.
pub open spec fn components(p: Seq<char>) -> Seq<Seq<char>> {
    let (d, c, ss) = scan(p);
    if keeps(c, ss) {
        d.push(c)
    } else {
        d
    }
}

/// Two paths name the same place, as `PathBuf` equality decides it.
pub open spec fn same_path(a: Seq<char>, b: Seq<char>) -> bool {
    is_absolute(a) == is_absolute(b) && components(a) == components(b)
}

/// The parts joined with `/`.
pub open spec fn join_parts(parts: Seq<Seq<char>>) -> Seq<char>
    decreases parts.len(),
{
    if parts.len() == 0 {
        Seq::empty()
    } else if parts.len() == 1 {
        parts[0]
    } else {
        join_parts(parts.drop_last()) + seq!['/'] + parts.last()
    }
}

/// The path written from a root flag and components.
pub open spec fn path_from(absolute: bool, parts: Seq<Seq<char>>) -> Seq<char> {
    if absolute {
        seq!['/'] + join_parts(parts)
    } else {
        join_parts(parts)
    }
}

/// Left-to-right scan of a path like `scan`, keeping where each component
/// lies in the text: the spans so far, the part being read, where it
/// starts, and whether a separator was seen.
pub open spec fn span_scan(p: Seq<char>) -> (Seq<(int, int)>, Seq<char>, int, bool)
    decreases p.len(),
{
    if p.len() == 0 {
        (Seq::empty(), Seq::empty(), 0, false)
    } else {
        let (d, c, st, ss) = span_scan(p.drop_last());
        if p.last() == '/' {
            (if keeps(c, ss) { d.push((st, p.len() - 1)) } else { d }, Seq::empty(), p.len() as int, true)
        } else {
            (d, c.push(p.last()), st, ss)
        }
    }
}

/// Where each component of a path lies in its text: its start and end.
pub open spec fn spans(p: Seq<char>) -> Seq<(int, int)> {
    let (d, c, st, ss) = span_scan(p);
    if keeps(c, ss) {
        d.push((st, p.len() as int))
    } else {
        d
    }
}

/// The text before the first component that the root takes: one character
/// for an absolute path, none otherwise.
pub open spec fn root_len(p: Seq<char>) -> int {
    if is_absolute(p) {
        1
    } else {
        0
    }
}

/// The parent directory, as `Path::parent` gives it: the text up to the end
/// of the next-to-last component (or the root, when there is one component
/// only), or none when there is no component.
pub open spec fn parent(p: Seq<char>) -> Option<Seq<char>> {
    let sp = spans(p);
    if sp.len() == 0 {
        None
    } else if sp.len() >= 2 {
        Some(p.take(sp[sp.len() - 2].1))
    } else {
        Some(p.take(root_len(p)))
    }
}

/// The last component when it is a name (not `.` or `..`).
pub open spec fn file_name(p: Seq<char>) -> Option<Seq<char>> {
    let cs = components(p);
    if cs.len() > 0 && cs.last() != seq!['.'] && cs.last() != seq!['.', '.'] {
        Some(cs.last())
    } else {
        None
    }
}

/// Index of the last occurrence of `c` in `s`, or -1.
pub open spec fn last_index_of(s: Seq<char>, c: char) -> int
    decreases s.len(),
{
    if s.len() == 0 {
        -1
    } else if s.last() == c {
        s.len() - 1
    } else {
        last_index_of(s.drop_last(), c)
    }
}

/// `last_index_of` finds the last occurrence, if any.
pub proof fn lemma_last_index_of(s: Seq<char>, c: char)
    ensures
        -1 <= last_index_of(s, c) < s.len(),
        last_index_of(s, c) >= 0 ==> s[last_index_of(s, c)] == c,
    decreases s.len(),
{
    if s.len() > 0 && s.last() != c {
        lemma_last_index_of(s.drop_last(), c);
    }
}

/// A file name without its extension: the part before the last `.`, unless
/// that part is empty.
pub open spec fn stem_of(name: Seq<char>) -> Seq<char> {
    let k = last_index_of(name, '.');
    if k <= 0 {
        name
    } else {
        name.take(k)
    }
}

/// The file name without its extension.
pub open spec fn file_stem(p: Seq<char>) -> Option<Seq<char>> {
    match file_name(p) {
        Some(n) => Some(stem_of(n)),
        None => None,
    }
}

/// The path without trailing separators and trailing `.` parts.
pub open spec fn trim_back(p: Seq<char>) -> Seq<char>
    decreases p.len(),
{
    if p.len() > 1 && p.last() == '/' {
        trim_back(p.drop_last())
    } else if p.len() >= 2 && p.last() == '.' && p[p.len() - 2] == '/' {
        trim_back(p.drop_last())
    } else {
        p
    }
}

/// The path with its extension replaced by `md`; unchanged when it has no
/// file name.
pub open spec fn with_md_extension(p: Seq<char>) -> Seq<char> {
    match file_name(p) {
        Some(n) => {
            let t = trim_back(p);
            t.take(if n.len() <= t.len() { t.len() - n.len() } else { 0 }) + stem_of(n) + seq!['.', 'm', 'd']
        },
        None => p,
    }
}

/// `p` pushed onto `base`: an absolute `p` replaces `base`, otherwise a
/// separator is put between them when `base` does not end with one.
pub open spec fn join(base: Seq<char>, p: Seq<char>) -> Seq<char> {
    if is_absolute(p) || base.len() == 0 {
        p
    } else if base.last() == '/' {
        base + p
    } else {
        base + seq!['/'] + p
    }
}

/// `p` relative to `base`, when `base`'s components start `p`'s, as
/// `Path::strip_prefix` gives it: the text of `p` from its first component
/// after them to the end of its last one (empty when none is left). An empty
/// `base` leaves `p` with trailing separators dropped.
pub open spec fn strip_prefix(p: Seq<char>, base: Seq<char>) -> Option<Seq<char>> {
    let cb = components(base);
    let cp = components(p);
    let sp = spans(p);
    if !is_absolute(base) && cb.len() == 0 {
        Some(p.take(if sp.len() > 0 { sp.last().1 } else { root_len(p) }))
    } else if is_absolute(p) == is_absolute(base) && cb.len() <= cp.len() && cp.take(
        cb.len() as int,
    ) == cb {
        Some(if cb.len() < sp.len() { p.subrange(sp[cb.len() as int].0, sp.last().1) } else { Seq::empty() })
    } else {
        None
    }
}

/// `span_scan` runs alongside `scan`, and its spans lie in order within the text.
proof fn lemma_span_scan(p: Seq<char>)
    ensures
        span_scan(p).1 == scan(p).1,
        span_scan(p).3 == scan(p).2,
        span_scan(p).0.len() == scan(p).0.len(),
        0 <= span_scan(p).2 <= p.len(),
        forall|k: int| 0 <= k < span_scan(p).0.len() ==> 0 <= (#[trigger] span_scan(p).0[k]).0 <= span_scan(p).0[k].1 <= span_scan(p).2,
        forall|k: int, j: int|
            0 <= k <= j < span_scan(p).0.len() ==> (#[trigger] span_scan(p).0[k]).0 <= (#[trigger] span_scan(p).0[j]).1,
    decreases p.len(),
{
    if p.len() > 0 {
        lemma_span_scan(p.drop_last());
    }
}

/// A path has one span per component, each within the text and in order.
pub proof fn lemma_spans(p: Seq<char>)
    ensures
        spans(p).len() == components(p).len(),
        forall|k: int| 0 <= k < spans(p).len() ==> 0 <= (#[trigger] spans(p)[k]).0 <= spans(p)[k].1 <= p.len(),
        forall|k: int, j: int| 0 <= k <= j < spans(p).len() ==> (#[trigger] spans(p)[k]).0 <= (#[trigger] spans(p)[j]).1,
        root_len(p) <= p.len(),
{
    lemma_span_scan(p);
    let (d, c, st, ss) = span_scan(p);
    if keeps(c, ss) {
        assert forall|k: int, j: int| 0 <= k <= j < spans(p).len() implies (#[trigger] spans(p)[k]).0 <= (#[trigger] spans(p)[j]).1 by {
            if j < d.len() {
                assert(spans(p)[k] == d[k] && spans(p)[j] == d[j]);
            } else if k < d.len() {
                assert(spans(p)[k] == d[k]);
            }
        }
    }
}

/// The character sequences of a vector of character vectors.
pub open spec fn views(v: Seq<Vec<char>>) -> Seq<Seq<char>> {
    v.map_values(|x: Vec<char>| x@)
}

fn is_dot(part: &Vec<char>) -> (b: bool)
    ensures
        b == (part@ == seq!['.']),
{
    if part.len() == 1 && part[0] == '.' {
        assert(part@ =~= seq!['.']);
        true
    } else {
        false
    }
}

fn keeps_exec(part: &Vec<char>, seen: bool) -> (b: bool)
    ensures
        b == keeps(part@, seen),
{
    part.len() > 0 && (!is_dot(part) || !seen)
}

/// The components of a path.
pub fn components_of(p: &[char]) -> (cs: Vec<Vec<char>>)
    ensures
        views(cs@) == components(p@),
{
    let mut done: Vec<Vec<char>> = Vec::new();
    let mut cur: Vec<char> = Vec::new();
    let mut seen = false;
    let mut i: usize = 0;
    assert(p@.take(0) =~= Seq::<char>::empty());
    while i < p.len()
        invariant
            i <= p.len(),
            scan(p@.take(i as int)) == (views(done@), cur@, seen),
        decreases p.len() - i,
    {
        let ghost d0 = views(done@);
        assert(p@.take(i + 1).drop_last() =~= p@.take(i as int));
        if p[i] == '/' {
            if keeps_exec(&cur, seen) {
                let c = cur;
                done.push(c);
                assert(views(done@) =~= d0.push(c@));
            }
            cur = Vec::new();
            seen = true;
        } else {
            cur.push(p[i]);
        }
        i += 1;
    }
    assert(p@.take(p.len() as int) =~= p@);
    if keeps_exec(&cur, seen) {
        let ghost d0 = views(done@);
        let c = cur;
        done.push(c);
        assert(views(done@) =~= d0.push(c@));
    }
    done
}

/// Equality of two sequences of components.
fn parts_eq(a: &Vec<Vec<char>>, b: &Vec<Vec<char>>) -> (r: bool)
    ensures
        r == (views(a@) == views(b@)),
{
    if a.len() != b.len() {
        return false;
    }
    let mut i: usize = 0;
    while i < a.len()
        invariant
            a.len() == b.len(),
            i <= a.len(),
            forall|j: int| 0 <= j < i ==> views(a@)[j] == views(b@)[j],
        decreases a.len() - i,
    {
        if !chars_eq(a[i].as_slice(), b[i].as_slice()) {
            assert(views(a@)[i as int] != views(b@)[i as int]);
            return false;
        }
        i += 1;
    }
    assert(views(a@) =~= views(b@));
    true
}

pub(crate) fn is_absolute_exec(p: &[char]) -> (b: bool)
    ensures
        b == is_absolute(p@),
{
    p.len() > 0 && p[0] == '/'
}

/// Whether two paths name the same place.
pub fn same_path_exec(a: &[char], b: &[char]) -> (r: bool)
    ensures
        r == same_path(a@, b@),
{
    if is_absolute_exec(a) != is_absolute_exec(b) {
        return false;
    }
    let ca = components_of(a);
    let cb = components_of(b);
    parts_eq(&ca, &cb)
}


/// Appends `b` to `a`.
fn push_all(a: &mut Vec<char>, b: &[char])
    ensures
        final(a)@ == old(a)@ + b@,
{
    let mut i: usize = 0;
    while i < b.len()
        invariant
            i <= b.len(),
            a@ == old(a)@ + b@.take(i as int),
        decreases b.len() - i,
    {
        a.push(b[i]);
        i += 1;
        assert(a@ =~= old(a)@ + b@.take(i as int));
    }
    assert(b@.take(b.len() as int) =~= b@);
}

/// The first `n` components joined with `/`, after a root when `absolute`.
fn path_from_exec(absolute: bool, parts: &Vec<Vec<char>>, n: usize) -> (r: Vec<char>)
    requires
        n <= parts.len(),
    ensures
        r@ == path_from(absolute, views(parts@).take(n as int)),
{
    let mut r: Vec<char> = Vec::new();
    let mut i: usize = 0;
    assert(views(parts@).take(0) =~= Seq::<Seq<char>>::empty());
    while i < n
        invariant
            n <= parts.len(),
            i <= n,
            r@ == join_parts(views(parts@).take(i as int)),
        decreases n - i,
    {
        let ghost before = r@;
        if i > 0 {
            r.push('/');
        }
        push_all(&mut r, parts[i].as_slice());
        let ghost t = views(parts@).take(i + 1);
        assert(t.drop_last() =~= views(parts@).take(i as int));
        if i == 0 {
            assert(r@ =~= t[0]);
        } else {
            assert(r@ =~= before + seq!['/'] + t.last());
        }
        i += 1;
    }
    if absolute {
        let mut a: Vec<char> = Vec::new();
        a.push('/');
        push_all(&mut a, r.as_slice());
        a
    } else {
        r
    }
}

/// The spans of a list of index pairs.
pub open spec fn span_view(v: Seq<(usize, usize)>) -> Seq<(int, int)> {
    v.map_values(|x: (usize, usize)| (x.0 as int, x.1 as int))
}

/// Where each component of a path lies in its text.
pub fn component_spans(p: &[char]) -> (r: Vec<(usize, usize)>)
    ensures
        span_view(r@) == spans(p@),
{
    let mut done: Vec<(usize, usize)> = Vec::new();
    let mut cur: Vec<char> = Vec::new();
    let mut start: usize = 0;
    let mut seen = false;
    let mut i: usize = 0;
    assert(p@.take(0) =~= Seq::<char>::empty());
    while i < p.len()
        invariant
            i <= p.len(),
            start <= i,
            span_scan(p@.take(i as int)) == (span_view(done@), cur@, start as int, seen),
        decreases p.len() - i,
    {
        let ghost d0 = span_view(done@);
        assert(p@.take(i + 1).drop_last() =~= p@.take(i as int));
        if p[i] == '/' {
            if keeps_exec(&cur, seen) {
                done.push((start, i));
                assert(span_view(done@) =~= d0.push((start as int, i as int)));
            }
            cur = Vec::new();
            seen = true;
            start = i + 1;
        } else {
            cur.push(p[i]);
        }
        i += 1;
    }
    assert(p@.take(p.len() as int) =~= p@);
    if keeps_exec(&cur, seen) {
        let ghost d0 = span_view(done@);
        done.push((start, p.len()));
        assert(span_view(done@) =~= d0.push((start as int, p.len() as int)));
    }
    done
}

/// The parent directory of a path.
pub fn parent_exec(p: &[char]) -> (r: Option<Vec<char>>)
    ensures
        match r {
            Some(v) => parent(p@) == Some(v@),
            None => parent(p@) is None,
        },
{
    let sp = component_spans(p);
    proof {
        lemma_spans(p@);
    }
    let n = sp.len();
    if n == 0 {
        None
    } else if n >= 2 {
        assert(span_view(sp@)[n - 2] == (sp@[n - 2].0 as int, sp@[n - 2].1 as int));
        Some(crate::text::slice_vec(p, 0, sp[n - 2].1))
    } else {
        let r: usize = if is_absolute_exec(p) { 1 } else { 0 };
        Some(crate::text::slice_vec(p, 0, r))
    }
}

/// The file name of a path.
pub fn file_name_exec(p: &[char]) -> (r: Option<Vec<char>>)
    ensures
        match r {
            Some(v) => file_name(p@) == Some(v@),
            None => file_name(p@) is None,
        },
{
    let cs = components_of(p);
    if cs.len() == 0 {
        return None;
    }
    let last = &cs[cs.len() - 1];
    assert(views(cs@).last() == last@);
    if is_dot(last) {
        return None;
    }
    if last.len() == 2 && last[0] == '.' && last[1] == '.' {
        assert(last@ =~= seq!['.', '.']);
        return None;
    }
    assert(last@ != seq!['.', '.']);
    Some(slice_of(last))
}

fn slice_of(v: &Vec<char>) -> (r: Vec<char>)
    ensures
        r@ == v@,
{
    let mut r: Vec<char> = Vec::new();
    push_all(&mut r, v.as_slice());
    assert(Seq::<char>::empty() + v@ =~= v@);
    r
}

/// Index of the last `c` in `s`.
pub fn last_index_exec(s: &[char], c: char) -> (r: Option<usize>)
    ensures
        match r {
            Some(k) => last_index_of(s@, c) == k,
            None => last_index_of(s@, c) == -1,
        },
{
    let mut k: usize = s.len();
    assert(s@.take(k as int) =~= s@);
    while k > 0
        invariant
            k <= s.len(),
            last_index_of(s@, c) == last_index_of(s@.take(k as int), c),
        decreases k,
    {
        assert(s@.take(k as int).last() == s@[k - 1]);
        if s[k - 1] == c {
            return Some(k - 1);
        }
        assert(s@.take(k as int).drop_last() =~= s@.take(k - 1));
        k -= 1;
    }
    None
}

/// A file name without its extension.
pub fn stem_exec(name: &[char]) -> (r: Vec<char>)
    ensures
        r@ == stem_of(name@),
{
    proof {
        lemma_last_index_of(name@, '.');
    }
    match last_index_exec(name, '.') {
        Some(k) => {
            if k == 0 {
                let mut r: Vec<char> = Vec::new();
                push_all(&mut r, name);
                assert(Seq::<char>::empty() + name@ =~= name@);
                r
            } else {
                crate::text::slice_vec(name, 0, k)
            }
        },
        None => {
            let mut r: Vec<char> = Vec::new();
            push_all(&mut r, name);
            assert(Seq::<char>::empty() + name@ =~= name@);
            r
        },
    }
}

/// The file stem of a path.
pub fn file_stem_exec(p: &[char]) -> (r: Option<Vec<char>>)
    ensures
        match r {
            Some(v) => file_stem(p@) == Some(v@),
            None => file_stem(p@) is None,
        },
{
    match file_name_exec(p) {
        Some(n) => Some(stem_exec(n.as_slice())),
        None => None,
    }
}

fn trim_back_len(p: &[char]) -> (b: usize)
    ensures
        b <= p.len(),
        trim_back(p@) == p@.take(b as int),
{
    let mut b: usize = p.len();
    assert(p@.take(b as int) =~= p@);
    while b > 1 && (p[b - 1] == '/' || (p[b - 1] == '.' && p[b - 2] == '/'))
        invariant
            b <= p.len(),
            trim_back(p@) == trim_back(p@.take(b as int)),
        decreases b,
    {
        assert(p@.take(b as int).drop_last() =~= p@.take(b - 1));
        b -= 1;
    }
    b
}

/// The path with its extension replaced by `md`.
pub fn with_md_extension_exec(p: &[char]) -> (r: Vec<char>)
    ensures
        r@ == with_md_extension(p@),
{
    match file_name_exec(p) {
        Some(n) => {
            let b = trim_back_len(p);
            let keep = if n.len() <= b { b - n.len() } else { 0 };
            let ghost t = p@.take(b as int);
            let mut r = crate::text::slice_vec(p, 0, keep);
            let stem = stem_exec(n.as_slice());
            push_all(&mut r, stem.as_slice());
            r.push('.');
            r.push('m');
            r.push('d');
            proof {
                let k = if n@.len() <= t.len() { t.len() - n@.len() } else { 0 };
                assert(t.take(k) =~= p@.subrange(0, keep as int));
                assert(r@ =~= t.take(k) + stem_of(n@) + seq!['.', 'm', 'd']);
            }
            r
        },
        None => slice_of_slice(p),
    }
}

fn slice_of_slice(p: &[char]) -> (r: Vec<char>)
    ensures
        r@ == p@,
{
    let mut r: Vec<char> = Vec::new();
    push_all(&mut r, p);
    assert(Seq::<char>::empty() + p@ =~= p@);
    r
}

/// `p` pushed onto `base`.
pub fn join_exec(base: &[char], p: &[char]) -> (r: Vec<char>)
    ensures
        r@ == join(base@, p@),
{
    if is_absolute_exec(p) || base.len() == 0 {
        slice_of_slice(p)
    } else {
        let mut r = slice_of_slice(base);
        if base[base.len() - 1] != '/' {
            r.push('/');
        }
        push_all(&mut r, p);
        r
    }
}

/// `p` relative to `base`.
pub fn strip_prefix_exec(p: &[char], base: &[char]) -> (r: Option<Vec<char>>)
    ensures
        match r {
            Some(v) => strip_prefix(p@, base@) == Some(v@),
            None => strip_prefix(p@, base@) is None,
        },
{
    let cb = components_of(base);
    let cp = components_of(p);
    let sp = component_spans(p);
    proof {
        lemma_spans(p@);
    }
    assert(views(cb@).len() == cb.len() && views(cp@).len() == cp.len());
    assert(span_view(sp@).len() == sp.len());
    if !is_absolute_exec(base) && cb.len() == 0 {
        let end: usize = if sp.len() > 0 {
            assert(span_view(sp@).last() == (sp@[sp.len() - 1].0 as int, sp@[sp.len() - 1].1 as int));
            sp[sp.len() - 1].1
        } else if is_absolute_exec(p) {
            1
        } else {
            0
        };
        return Some(crate::text::slice_vec(p, 0, end));
    }
    if is_absolute_exec(p) != is_absolute_exec(base) || cb.len() > cp.len() {
        return None;
    }
    let mut i: usize = 0;
    while i < cb.len()
        invariant
            cb.len() <= cp.len(),
            i <= cb.len(),
            views(cb@) == components(base@),
            views(cp@) == components(p@),
            is_absolute(p@) == is_absolute(base@),
            is_absolute(base@) || cb.len() > 0,
            forall|j: int| 0 <= j < i ==> views(cp@)[j] == views(cb@)[j],
        decreases cb.len() - i,
    {
        if !chars_eq(cp[i].as_slice(), cb[i].as_slice()) {
            assert(views(cp@).take(cb.len() as int)[i as int] != views(cb@)[i as int]);
            assert(views(cp@).take(cb.len() as int) != views(cb@));
            return None;
        }
        i += 1;
    }
    assert(views(cp@).take(cb.len() as int) =~= views(cb@));
    if cb.len() < sp.len() {
        let n = sp.len();
        let m = cb.len();
        assert(span_view(sp@)[m as int] == (sp@[m as int].0 as int, sp@[m as int].1 as int));
        assert(span_view(sp@)[n - 1] == (sp@[n - 1].0 as int, sp@[n - 1].1 as int));
        Some(crate::text::slice_vec(p, sp[m].0, sp[n - 1].1))
    } else {
        Some(Vec::new())
    }
}


/// Equality of two strings.
pub fn chars_eq_str(a: &str, b: &str) -> (r: bool)
    ensures
        r == (a@ == b@),
{
    let x = chars_of(a);
    let y = chars_of(b);
    chars_eq(x.as_slice(), y.as_slice())
}


/// The first `n` components joined with `/`, after a root when `absolute`.
pub fn path_from_exec_pub(absolute: bool, parts: &Vec<Vec<char>>, n: usize) -> (r: Vec<char>)
    requires
        n <= parts.len(),
    ensures
        r@ == path_from(absolute, views(parts@).take(n as int)),
{
    path_from_exec(absolute, parts, n)
}

} // verus!
