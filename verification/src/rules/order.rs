//! The order diagnostics are reported in: by file path, then line, then
//! column, keeping the order of equal ones.
//!
//! A path is ordered as `std::path::Path` orders it, component by component:
//! the root first, then `.`, then `..`, then names, names by their characters
//! (code point order is the byte order of UTF-8), a path before any longer
//! path it begins. Each path is given a key, a sequence of numbers whose
//! lexicographic order is that order: the root is `1 0`, `.` is `2 0`, `..`
//! is `3 0`, and a name is `4`, its characters each plus one, then `0`.

use vstd::prelude::*;
use crate::paths::{components, components_of, is_absolute, is_absolute_exec, views};
use crate::text::chars_of;
use super::{Diagnostic, DiagnosticView, diag_views};

verus! {

/// Lexicographic order on number sequences; a proper prefix comes first.
pub open spec fn seq_lt(a: Seq<u32>, b: Seq<u32>) -> bool
    decreases a.len(),
{
    if a.len() == 0 {
        b.len() > 0
    } else if b.len() == 0 {
        false
    } else if a[0] != b[0] {
        a[0] < b[0]
    } else {
        seq_lt(a.drop_first(), b.drop_first())
    }
}

/// `seq_lt` is a strict total order.
pub proof fn lemma_seq_lt_order(a: Seq<u32>, b: Seq<u32>, c: Seq<u32>)
    ensures
        !seq_lt(a, a),
        seq_lt(a, b) || a == b || seq_lt(b, a),
        !(seq_lt(a, b) && seq_lt(b, a)),
        seq_lt(a, b) && seq_lt(b, c) ==> seq_lt(a, c),
    decreases a.len(),
{
    if a.len() > 0 && b.len() > 0 && c.len() > 0 {
        lemma_seq_lt_order(a.drop_first(), b.drop_first(), c.drop_first());
        if a[0] == b[0] && a.drop_first() == b.drop_first() {
            assert(a =~= seq![a[0]] + a.drop_first());
            assert(b =~= seq![b[0]] + b.drop_first());
        }
    } else if a.len() > 0 && b.len() > 0 {
        lemma_seq_lt_order(a.drop_first(), b.drop_first(), b.drop_first());
        if a[0] == b[0] && a.drop_first() == b.drop_first() {
            assert(a =~= seq![a[0]] + a.drop_first());
            assert(b =~= seq![b[0]] + b.drop_first());
        }
    } else if a.len() > 0 {
        lemma_seq_lt_order(a.drop_first(), a.drop_first(), a.drop_first());
    }
    if a.len() == 0 && b.len() == 0 {
        assert(a =~= b);
    }
}

/// The key of one component.
pub open spec fn component_key(c: Seq<char>) -> Seq<u32> {
    if c == seq!['.'] {
        seq![2u32, 0u32]
    } else if c == seq!['.', '.'] {
        seq![3u32, 0u32]
    } else {
        seq![4u32] + c.map_values(|ch: char| (ch as u32 + 1) as u32) + seq![0u32]
    }
}

/// The keys of a list of components, one after another.
pub open spec fn components_key(cs: Seq<Seq<char>>) -> Seq<u32>
    decreases cs.len(),
{
    if cs.len() == 0 {
        Seq::empty()
    } else {
        components_key(cs.drop_last()) + component_key(cs.last())
    }
}

/// The key of a path.
pub open spec fn path_key(p: Seq<char>) -> Seq<u32> {
    (if is_absolute(p) { seq![1u32, 0u32] } else { Seq::empty() }) + components_key(components(p))
}

/// `a` is reported no later than `b`: by path, then line, then column.
pub open spec fn diag_le(a: DiagnosticView, b: DiagnosticView) -> bool {
    let (ka, kb) = (path_key(a.file), path_key(b.file));
    seq_lt(ka, kb) || (ka == kb && (a.line < b.line || (a.line == b.line && a.col <= b.col)))
}

/// `diag_le` is a total preorder.
pub proof fn lemma_diag_le_preorder(a: DiagnosticView, b: DiagnosticView, c: DiagnosticView)
    ensures
        diag_le(a, a),
        diag_le(a, b) || diag_le(b, a),
        diag_le(a, b) && diag_le(b, c) ==> diag_le(a, c),
{
    let (ka, kb, kc) = (path_key(a.file), path_key(b.file), path_key(c.file));
    lemma_seq_lt_order(ka, kb, kc);
    lemma_seq_lt_order(kb, ka, kc);
    lemma_seq_lt_order(ka, ka, ka);
}

/// `x` put into `t` after the last element that is no later than it, or
/// first when there is none.
pub open spec fn insert_sorted(t: Seq<DiagnosticView>, x: DiagnosticView) -> Seq<DiagnosticView>
    decreases t.len(),
{
    if t.len() == 0 {
        seq![x]
    } else if diag_le(t.last(), x) {
        t.push(x)
    } else {
        insert_sorted(t.drop_last(), x).push(t.last())
    }
}

/// The stable sort of `s` by `diag_le`: each element in turn put after the
/// sorted ones that are no later than it.
pub open spec fn sort_diags(s: Seq<DiagnosticView>) -> Seq<DiagnosticView>
    decreases s.len(),
{
    if s.len() == 0 {
        Seq::empty()
    } else {
        insert_sorted(sort_diags(s.drop_last()), s.last())
    }
}

/// Whether `s` is in report order.
pub open spec fn is_sorted(s: Seq<DiagnosticView>) -> bool {
    forall|i: int, j: int| 0 <= i < j < s.len() ==> diag_le(#[trigger] s[i], #[trigger] s[j])
}

/// Inserting puts `x` at position `p`, where every later element is later
/// than `x` and the one before (if any) is not.
proof fn lemma_insert_at(t: Seq<DiagnosticView>, x: DiagnosticView, p: int)
    requires
        0 <= p <= t.len(),
        forall|j: int| p <= j < t.len() ==> !diag_le(#[trigger] t[j], x),
        p > 0 ==> diag_le(t[p - 1], x),
    ensures
        insert_sorted(t, x) == t.take(p) + seq![x] + t.skip(p),
    decreases t.len(),
{
    if t.len() == 0 {
        assert(t.take(p) + seq![x] + t.skip(p) =~= seq![x]);
    } else if p == t.len() {
        assert(t.take(p) + seq![x] + t.skip(p) =~= t.push(x));
    } else {
        let u = t.drop_last();
        assert forall|j: int| p <= j < u.len() implies !diag_le(#[trigger] u[j], x) by {
            assert(u[j] == t[j]);
        }
        lemma_insert_at(u, x, p);
        assert(t.take(p) + seq![x] + t.skip(p) =~= (u.take(p) + seq![x] + u.skip(p)).push(t.last()));
    }
}

/// Inserting into a sorted sequence keeps it sorted and adds `x` once.
proof fn lemma_insert_sorted(t: Seq<DiagnosticView>, x: DiagnosticView)
    requires
        is_sorted(t),
    ensures
        is_sorted(insert_sorted(t, x)),
        insert_sorted(t, x).to_multiset() == t.to_multiset().insert(x),
    decreases t.len(),
{
    broadcast use vstd::seq_lib::group_to_multiset_ensures;
    if t.len() == 0 {
        assert(seq![x] =~= Seq::<DiagnosticView>::empty().push(x));
    } else if diag_le(t.last(), x) {
        let r = t.push(x);
        assert forall|i: int, j: int| 0 <= i < j < r.len() implies diag_le(#[trigger] r[i], #[trigger] r[j]) by {
            if j == t.len() {
                if i < t.len() - 1 {
                    lemma_diag_le_preorder(t[i], t.last(), x);
                } else {
                    assert(r[i] == t.last());
                }
            } else {
                assert(r[i] == t[i] && r[j] == t[j]);
            }
        }
    } else {
        let u = t.drop_last();
        assert(is_sorted(u)) by {
            assert forall|i: int, j: int| 0 <= i < j < u.len() implies diag_le(#[trigger] u[i], #[trigger] u[j]) by {
                assert(u[i] == t[i] && u[j] == t[j]);
            }
        }
        lemma_insert_sorted(u, x);
        let v = insert_sorted(u, x);
        let r = v.push(t.last());
        assert(t =~= u.push(t.last()));
        assert forall|i: int, j: int| 0 <= i < j < r.len() implies diag_le(#[trigger] r[i], #[trigger] r[j]) by {
            if j == v.len() {
                // every element of v is u's or x; all are no later than t.last()
                lemma_diag_le_preorder(t.last(), x, x);
                assert(v.to_multiset().count(r[i]) > 0);
                assert(v.to_multiset() == u.to_multiset().insert(x));
                if r[i] == x {
                } else {
                    assert(u.to_multiset().count(r[i]) > 0);
                    assert(u.contains(r[i]));
                    let k = choose|k: int| 0 <= k < u.len() && u[k] == r[i];
                    assert(t[k] == u[k]);
                    assert(diag_le(t[k], t[t.len() - 1]));
                }
            } else {
                assert(r[i] == v[i] && r[j] == v[j]);
            }
        }
    }
}

/// The sort puts `s` in report order and keeps each element as often as it
/// occurs.
pub proof fn law_sort_diags(s: Seq<DiagnosticView>)
    ensures
        is_sorted(sort_diags(s)),
        sort_diags(s).to_multiset() == s.to_multiset(),
    decreases s.len(),
{
    broadcast use vstd::seq_lib::group_to_multiset_ensures;
    if s.len() == 0 {
    } else {
        law_sort_diags(s.drop_last());
        lemma_insert_sorted(sort_diags(s.drop_last()), s.last());
        assert(s =~= s.drop_last().push(s.last()));
    }
}


/// The key of one component.
fn component_key_exec(c: &Vec<char>) -> (k: Vec<u32>)
    ensures
        k@ == component_key(c@),
{
    let mut k: Vec<u32> = Vec::new();
    if c.len() == 1 && c[0] == '.' {
        assert(c@ =~= seq!['.']);
        k.push(2);
        k.push(0);
        assert(k@ =~= seq![2u32, 0u32]);
    } else if c.len() == 2 && c[0] == '.' && c[1] == '.' {
        assert(c@ =~= seq!['.', '.']);
        assert(c@ != seq!['.']);
        k.push(3);
        k.push(0);
        assert(k@ =~= seq![3u32, 0u32]);
    } else {
        assert(c@ != seq!['.']) by {
            if c@ == seq!['.'] {
                assert(c@.len() == 1 && c@[0] == '.');
            }
        }
        assert(c@ != seq!['.', '.']) by {
            if c@ == seq!['.', '.'] {
                assert(c@.len() == 2 && c@[0] == '.' && c@[1] == '.');
            }
        }
        k.push(4);
        let mut i: usize = 0;
        while i < c.len()
            invariant
                i <= c.len(),
                k@ == seq![4u32] + c@.take(i as int).map_values(|ch: char| (ch as u32 + 1) as u32),
            decreases c.len() - i,
        {
            let ch = c[i];
            proof {
                vstd::utf8::char_is_scalar(ch);
            }
            let n: u32 = ch as u32;
            k.push(n + 1);
            assert(c@.take(i + 1).map_values(|ch: char| (ch as u32 + 1) as u32)
                =~= c@.take(i as int).map_values(|ch: char| (ch as u32 + 1) as u32).push((ch as u32 + 1) as u32));
            i += 1;
        }
        assert(c@.take(c.len() as int) =~= c@);
        k.push(0);
        assert(k@ =~= seq![4u32] + c@.map_values(|ch: char| (ch as u32 + 1) as u32) + seq![0u32]);
    }
    k
}

/// The key of a path.
pub fn path_key_exec(p: &str) -> (k: Vec<u32>)
    ensures
        k@ == path_key(p@),
{
    let cs = chars_of(p);
    let parts = components_of(cs.as_slice());
    let mut k: Vec<u32> = Vec::new();
    if is_absolute_exec(cs.as_slice()) {
        k.push(1);
        k.push(0);
    }
    let ghost start = k@;
    assert(start == (if is_absolute(p@) { seq![1u32, 0u32] } else { Seq::<u32>::empty() }));
    let mut i: usize = 0;
    assert(views(parts@).take(0) =~= Seq::<Seq<char>>::empty());
    while i < parts.len()
        invariant
            i <= parts.len(),
            views(parts@) == components(p@),
            k@ == start + components_key(views(parts@).take(i as int)),
        decreases parts.len() - i,
    {
        let ck = component_key_exec(&parts[i]);
        let mut j: usize = 0;
        let ghost before = k@;
        while j < ck.len()
            invariant
                j <= ck.len(),
                k@ == before + ck@.take(j as int),
            decreases ck.len() - j,
        {
            k.push(ck[j]);
            assert(ck@.take(j + 1) =~= ck@.take(j as int).push(ck@[j as int]));
            j += 1;
        }
        proof {
            assert(ck@.take(ck.len() as int) =~= ck@);
            let vs = views(parts@);
            assert(vs.take(i + 1).drop_last() =~= vs.take(i as int));
            assert(vs.take(i + 1).last() == parts@[i as int]@);
            assert(k@ =~= start + components_key(vs.take(i + 1)));
        }
        i += 1;
    }
    assert(views(parts@).take(parts.len() as int) =~= views(parts@));
    k
}

/// Whether `a` comes strictly before `b`.
fn seq_lt_exec(a: &Vec<u32>, b: &Vec<u32>) -> (r: bool)
    ensures
        r == seq_lt(a@, b@),
{
    let mut i: usize = 0;
    assert(a@.skip(0) =~= a@ && b@.skip(0) =~= b@);
    while i < a.len() && i < b.len() && a[i] == b[i]
        invariant
            i <= a.len(),
            i <= b.len(),
            seq_lt(a@, b@) == seq_lt(a@.skip(i as int), b@.skip(i as int)),
        decreases a.len() - i,
    {
        assert(a@.skip(i as int).drop_first() =~= a@.skip(i + 1));
        assert(b@.skip(i as int).drop_first() =~= b@.skip(i + 1));
        i += 1;
    }
    if i == a.len() {
        i < b.len()
    } else if i == b.len() {
        false
    } else {
        a[i] < b[i]
    }
}

/// Whether the diagnostic keyed `ka` is reported no later than the one keyed `kb`.
fn diag_le_exec(ka: &Vec<u32>, a: &Diagnostic, kb: &Vec<u32>, b: &Diagnostic) -> (r: bool)
    requires
        ka@ == path_key(a.file@),
        kb@ == path_key(b.file@),
    ensures
        r == diag_le(a@, b@),
{
    if seq_lt_exec(ka, kb) {
        true
    } else if seq_lt_exec(kb, ka) {
        false
    } else {
        proof {
            lemma_seq_lt_order(ka@, kb@, kb@);
        }
        a.line < b.line || (a.line == b.line && a.col <= b.col)
    }
}

/// The diagnostics in report order: by file path, then line, then column,
/// equal ones in the order given.
pub fn sort_diagnostics(ds: Vec<Diagnostic>) -> (r: Vec<Diagnostic>)
    ensures
        diag_views(r@) == sort_diags(diag_views(ds@)),
{
    let ghost orig = diag_views(ds@);
    let mut rest = ds;
    let mut out: Vec<Diagnostic> = Vec::new();
    let mut keys: Vec<Vec<u32>> = Vec::new();
    let ghost mut done: int = 0;
    while rest.len() > 0
        invariant
            0 <= done <= orig.len(),
            diag_views(rest@) == orig.skip(done),
            diag_views(out@) == sort_diags(orig.take(done)),
            keys.len() == out.len(),
            forall|j: int| 0 <= j < out.len() ==> (#[trigger] keys@[j])@ == path_key(out@[j].file@),
        decreases rest.len(),
    {
        let ghost rest0 = rest@;
        assert(diag_views(rest0).len() == rest0.len());
        let d = rest.remove(0);
        let kd = path_key_exec(d.file.as_str());
        let ghost t = diag_views(out@);
        let mut p: usize = out.len();
        while p > 0 && !diag_le_exec(&keys[p - 1], &out[p - 1], &kd, &d)
            invariant
                p <= out.len(),
                keys.len() == out.len(),
                forall|j: int| 0 <= j < out.len() ==> (#[trigger] keys@[j])@ == path_key(out@[j].file@),
                kd@ == path_key(d.file@),
                t == diag_views(out@),
                forall|j: int| p <= j < out.len() ==> !diag_le(#[trigger] t[j], d@),
            decreases p,
        {
            p -= 1;
        }
        proof {
            lemma_insert_at(t, d@, p as int);
            assert(orig.take(done + 1).drop_last() =~= orig.take(done));
            assert(orig.take(done + 1).last() == orig[done]);
            assert(orig[done] == diag_views(rest0)[0]);
            assert(rest@ =~= rest0.skip(1));
            assert forall|j: int| 0 <= j < rest@.len() implies diag_views(rest@)[j] == orig.skip(done + 1)[j] by {
                assert(diag_views(rest0)[j + 1] == orig.skip(done)[j + 1]);
            }
            assert(diag_views(rest@) =~= orig.skip(done + 1));
        }
        let ghost keys0 = keys@;
        let ghost out0 = out@;
        out.insert(p, d);
        keys.insert(p, kd);
        proof {
            assert(diag_views(out@) =~= t.take(p as int) + seq![d@] + t.skip(p as int));
            done = done + 1;
            assert forall|j: int| 0 <= j < out.len() implies (#[trigger] keys@[j])@ == path_key(out@[j].file@) by {
                if j < p {
                    assert(keys@[j] == keys0[j] && out@[j] == out0[j]);
                } else if j > p {
                    assert(keys@[j] == keys0[j - 1] && out@[j] == out0[j - 1]);
                }
            }
        }
    }
    assert(orig.take(done) =~= orig) by {
        assert(orig.skip(done).len() == 0);
    }
    out
}

} // verus!
