//! The workspace: its markdown files, every known path, and the lookups that
//! link resolution reads.

use vstd::prelude::*;
use crate::file::{MarkdownFile, fm_view};
use crate::frontmatter::aliases_of;
use crate::config::strs_view;
use crate::paths::{
    file_stem, file_stem_exec, same_path, same_path_exec, is_absolute, join, join_exec, file_name,
    file_name_exec, last_index_of, lemma_last_index_of,
};
use crate::text::{chars_of, lowercase, to_lowercase, string_of};

verus! {

/// The markdown files and known paths of a workspace, with lowercase keys
/// for case-insensitive lookups.
#[derive(Debug)]
pub struct Workspace {
    pub root: String,
    pub files: Vec<MarkdownFile>,
    /// Per file: its lowercased basename (file name without extension)
    pub basename_keys: Vec<String>,
    /// Per file: its lowercased frontmatter aliases
    pub alias_keys: Vec<Vec<String>>,
    /// All known file paths (markdown or not)
    pub known_paths: Vec<String>,
    /// Per known path: its lowercased text
    pub path_case_keys: Vec<String>,
}

/// The file stem of a path, or nothing.
pub open spec fn stem_or_empty(p: Seq<char>) -> Seq<char> {
    match file_stem(p) {
        Some(s) => s,
        None => Seq::empty(),
    }
}

/// The aliases a file's frontmatter declares.
pub open spec fn file_aliases(f: MarkdownFile) -> Seq<Seq<char>> {
    match fm_view(f.frontmatter) {
        Some(fields) => aliases_of(fields),
        None => Seq::empty(),
    }
}

/// Each string lowercased.
pub open spec fn lower_all(v: Seq<Seq<char>>) -> Seq<Seq<char>> {
    v.map_values(|s: Seq<char>| lowercase(s))
}

/// How many times `key` occurs in `v`.
pub open spec fn count_of(v: Seq<Seq<char>>, key: Seq<char>) -> nat
    decreases v.len(),
{
    if v.len() == 0 {
        0
    } else {
        count_of(v.drop_last(), key) + if v.last() == key { 1nat } else { 0nat }
    }
}

/// The indices of the first `k` files whose basename key is `key`, ascending.
pub open spec fn basename_hits(keys: Seq<Seq<char>>, key: Seq<char>, k: int) -> Seq<usize>
    decreases k,
{
    if k <= 0 {
        Seq::empty()
    } else {
        basename_hits(keys, key, k - 1) + if keys[k - 1] == key {
            seq![(k - 1) as usize]
        } else {
            Seq::empty()
        }
    }
}

/// The index of each of the first `k` files once for each of its alias keys
/// equal to `key`, ascending.
pub open spec fn alias_hits(akeys: Seq<Seq<Seq<char>>>, key: Seq<char>, k: int) -> Seq<usize>
    decreases k,
{
    if k <= 0 {
        Seq::empty()
    } else {
        alias_hits(akeys, key, k - 1) + Seq::new(count_of(akeys[k - 1], key), |_i: int| (k - 1) as usize)
    }
}

/// Basename hits name files among the first `k`.
pub proof fn lemma_basename_hits_bound(keys: Seq<Seq<char>>, key: Seq<char>, k: int)
    requires
        0 <= k <= keys.len(),
    ensures
        forall|j: int| 0 <= j < basename_hits(keys, key, k).len() ==> #[trigger] basename_hits(keys, key, k)[j] < k,
    decreases k,
{
    if k > 0 {
        lemma_basename_hits_bound(keys, key, k - 1);
        let a = basename_hits(keys, key, k - 1);
        assert forall|j: int| 0 <= j < basename_hits(keys, key, k).len() implies #[trigger] basename_hits(keys, key, k)[j] < k by {
            if j < a.len() {
                assert(basename_hits(keys, key, k)[j] == a[j]);
            }
        }
    }
}

/// Alias hits name files among the first `k`.
pub proof fn lemma_alias_hits_bound(akeys: Seq<Seq<Seq<char>>>, key: Seq<char>, k: int)
    requires
        0 <= k <= akeys.len(),
    ensures
        forall|j: int| 0 <= j < alias_hits(akeys, key, k).len() ==> #[trigger] alias_hits(akeys, key, k)[j] < k,
    decreases k,
{
    if k > 0 {
        lemma_alias_hits_bound(akeys, key, k - 1);
        let a = alias_hits(akeys, key, k - 1);
        assert forall|j: int| 0 <= j < alias_hits(akeys, key, k).len() implies #[trigger] alias_hits(akeys, key, k)[j] < k by {
            if j < a.len() {
                assert(alias_hits(akeys, key, k)[j] == a[j]);
            }
        }
    }
}

/// The last of the first `k` known paths whose case key is `key`.
pub open spec fn case_hit(keys: Seq<Seq<char>>, paths: Seq<Seq<char>>, key: Seq<char>, k: int) -> Option<Seq<char>>
    decreases k,
{
    if k <= 0 {
        None
    } else if keys[k - 1] == key {
        Some(paths[k - 1])
    } else {
        case_hit(keys, paths, key, k - 1)
    }
}

/// Basename hits are exactly the files among the first `k` with that key, ascending.
proof fn lemma_basename_hits(keys: Seq<Seq<char>>, key: Seq<char>, k: int)
    requires
        0 <= k <= keys.len(),
        k <= usize::MAX,
    ensures
        forall|i: int| 0 <= i < k && keys[i] == key ==> #[trigger] basename_hits(keys, key, k).contains(i as usize),
        forall|j: int| 0 <= j < basename_hits(keys, key, k).len() ==> keys[#[trigger] basename_hits(keys, key, k)[j] as int] == key,
        forall|a: int, b: int|
            0 <= a < b < basename_hits(keys, key, k).len() ==> #[trigger] basename_hits(keys, key, k)[a] < #[trigger] basename_hits(keys, key, k)[b],
    decreases k,
{
    lemma_basename_hits_bound(keys, key, k);
    if k > 0 {
        lemma_basename_hits(keys, key, k - 1);
        lemma_basename_hits_bound(keys, key, k - 1);
        let h0 = basename_hits(keys, key, k - 1);
        let h = basename_hits(keys, key, k);
        assert(h == h0 + if keys[k - 1] == key { seq![(k - 1) as usize] } else { Seq::<usize>::empty() });
        assert forall|i: int| 0 <= i < k && keys[i] == key implies #[trigger] h.contains(i as usize) by {
            if i < k - 1 {
                assert(h0.contains(i as usize));
                let q = choose|q: int| 0 <= q < h0.len() && h0[q] == i as usize;
                assert(h[q] == h0[q]);
            } else {
                assert(h[h.len() - 1] == i as usize);
            }
        }
        assert forall|j: int| 0 <= j < h.len() implies keys[#[trigger] h[j] as int] == key by {
            if j < h0.len() {
                assert(h[j] == h0[j]);
            }
        }
        assert forall|a: int, b: int| 0 <= a < b < h.len() implies #[trigger] h[a] < #[trigger] h[b] by {
            if b < h0.len() {
                assert(h[a] == h0[a] && h[b] == h0[b]);
            } else {
                assert(h[a] == h0[a]);
            }
        }
    }
}

/// A key occurs in a list exactly when it is counted there.
proof fn lemma_count_of(v: Seq<Seq<char>>, key: Seq<char>)
    ensures
        v.contains(key) ==> count_of(v, key) > 0,
        count_of(v, key) > 0 ==> v.contains(key),
    decreases v.len(),
{
    if v.len() > 0 {
        lemma_count_of(v.drop_last(), key);
        if v.contains(key) && v.last() != key {
            let q = choose|q: int| 0 <= q < v.len() && v[q] == key;
            assert(v.drop_last()[q] == key);
        }
        if count_of(v, key) > 0 && v.last() != key {
            let q = choose|q: int| 0 <= q < v.drop_last().len() && v.drop_last()[q] == key;
            assert(v[q] == key);
        }
    }
}

/// Alias hits hold each of the first `k` files that has the key, only such
/// files, in ascending order.
proof fn lemma_alias_hits(akeys: Seq<Seq<Seq<char>>>, key: Seq<char>, k: int)
    requires
        0 <= k <= akeys.len(),
        k <= usize::MAX,
    ensures
        forall|i: int| 0 <= i < k && akeys[i].contains(key) ==> #[trigger] alias_hits(akeys, key, k).contains(i as usize),
        forall|j: int| 0 <= j < alias_hits(akeys, key, k).len() ==> akeys[#[trigger] alias_hits(akeys, key, k)[j] as int].contains(key),
        forall|a: int, b: int|
            0 <= a <= b < alias_hits(akeys, key, k).len() ==> #[trigger] alias_hits(akeys, key, k)[a] <= #[trigger] alias_hits(akeys, key, k)[b],
    decreases k,
{
    lemma_alias_hits_bound(akeys, key, k);
    if k > 0 {
        lemma_alias_hits(akeys, key, k - 1);
        lemma_alias_hits_bound(akeys, key, k - 1);
        lemma_count_of(akeys[k - 1], key);
        let h0 = alias_hits(akeys, key, k - 1);
        let t = Seq::new(count_of(akeys[k - 1], key), |_i: int| (k - 1) as usize);
        let h = alias_hits(akeys, key, k);
        assert(h == h0 + t);
        assert forall|i: int| 0 <= i < k && akeys[i].contains(key) implies #[trigger] h.contains(i as usize) by {
            if i < k - 1 {
                assert(h0.contains(i as usize));
                let q = choose|q: int| 0 <= q < h0.len() && h0[q] == i as usize;
                assert(h[q] == h0[q]);
            } else {
                assert(h[h0.len() as int] == t[0]);
            }
        }
        assert forall|j: int| 0 <= j < h.len() implies akeys[#[trigger] h[j] as int].contains(key) by {
            if j < h0.len() {
                assert(h[j] == h0[j]);
            } else {
                assert(h[j] == t[j - h0.len()]);
                assert(count_of(akeys[k - 1], key) > 0);
            }
        }
        assert forall|a: int, b: int| 0 <= a <= b < h.len() implies #[trigger] h[a] <= #[trigger] h[b] by {
            if b < h0.len() {
                assert(h[a] == h0[a] && h[b] == h0[b]);
            } else if a < h0.len() {
                assert(h[a] == h0[a] && h[b] == t[b - h0.len()]);
            } else {
                assert(h[a] == t[a - h0.len()] && h[b] == t[b - h0.len()]);
            }
        }
    }
}

/// The case lookup of a key among the first `k` paths finds the last path with
/// that key, when there is one.
proof fn lemma_case_hit(keys: Seq<Seq<char>>, paths: Seq<Seq<char>>, key: Seq<char>, k: int)
    requires
        0 <= k <= keys.len(),
        keys.len() == paths.len(),
    ensures
        (exists|i: int| 0 <= i < k && keys[i] == key) ==> case_hit(keys, paths, key, k) is Some,
        case_hit(keys, paths, key, k) matches Some(q) ==> exists|i: int| 0 <= i < k && keys[i] == key && paths[i] == q,
    decreases k,
{
    if k > 0 && keys[k - 1] != key {
        lemma_case_hit(keys, paths, key, k - 1);
        if exists|i: int| 0 <= i < k && keys[i] == key {
            let i = choose|i: int| 0 <= i < k && keys[i] == key;
            assert(i < k - 1);
        }
    }
}

/// The extension of a path: what follows the last `.` of its file name, when
/// that `.` is not the name's first character.
pub open spec fn extension(p: Seq<char>) -> Option<Seq<char>> {
    match file_name(p) {
        Some(n) => {
            let k = last_index_of(n, '.');
            if k > 0 {
                Some(n.skip(k + 1))
            } else {
                None
            }
        },
        None => None,
    }
}

/// A path whose extension is `md`.
pub open spec fn is_md_path(p: Seq<char>) -> bool {
    extension(p) == Some("md"@)
}

impl Workspace {
    /// The lowercase keys agree with the files and known paths.
    pub open spec fn wf(&self) -> bool {
        &&& self.basename_keys.len() == self.files.len()
        &&& self.alias_keys.len() == self.files.len()
        &&& self.path_case_keys.len() == self.known_paths.len()
        &&& forall|i: int|
            0 <= i < self.files.len() ==> #[trigger] self.basename_keys@[i]@ == lowercase(
                stem_or_empty(self.files@[i].path@),
            )
        &&& forall|i: int|
            0 <= i < self.files.len() ==> strs_view(#[trigger] self.alias_keys@[i]@) == lower_all(
                file_aliases(self.files@[i]),
            )
        &&& forall|j: int|
            0 <= j < self.known_paths.len() ==> #[trigger] self.path_case_keys@[j]@ == lowercase(
                self.known_paths@[j]@,
            )
    }

    /// The known paths.
    pub open spec fn known(&self) -> Seq<Seq<char>> {
        strs_view(self.known_paths@)
    }

    /// Whether `p` is a known path.
    pub open spec fn is_known(&self, p: Seq<char>) -> bool {
        exists|j: int| 0 <= j < self.known_paths.len() && same_path(#[trigger] self.known_paths@[j]@, p)
    }

    /// The files whose lowercased basename is `key`.
    pub open spec fn basename_index(&self, key: Seq<char>) -> Seq<usize> {
        basename_hits(strs_view(self.basename_keys@), key, self.files.len() as int)
    }

    /// The files with an alias whose lowercase form is `key`.
    pub open spec fn alias_index(&self, key: Seq<char>) -> Seq<usize> {
        alias_hits(self.alias_keys@.map_values(|v: Vec<String>| strs_view(v@)), key, self.files.len() as int)
    }

    /// The last known path whose lowercase text is `key`.
    pub open spec fn path_case_index(&self, key: Seq<char>) -> Option<Seq<char>> {
        case_hit(strs_view(self.path_case_keys@), self.known(), key, self.known_paths.len() as int)
    }

    /// The files a lookup gives are files of the workspace.
    pub proof fn lemma_index_bounds(&self, key: Seq<char>)
        requires
            self.wf(),
        ensures
            forall|j: int| 0 <= j < self.basename_index(key).len() ==> #[trigger] self.basename_index(key)[j] < self.files.len(),
            forall|j: int| 0 <= j < self.alias_index(key).len() ==> #[trigger] self.alias_index(key)[j] < self.files.len(),
    {
        lemma_basename_hits_bound(strs_view(self.basename_keys@), key, self.files.len() as int);
        lemma_alias_hits_bound(self.alias_keys@.map_values(|v: Vec<String>| strs_view(v@)), key, self.files.len() as int);
    }

    /// The last file at path `p`, if any.
    pub open spec fn file_at(&self, p: Seq<char>) -> Option<int> {
        last_file_at(self.files@, p, self.files.len() as int)
    }
}

/// The last of the first `k` files at path `p`.
pub open spec fn last_file_at(files: Seq<MarkdownFile>, p: Seq<char>, k: int) -> Option<int>
    decreases k,
{
    if k <= 0 {
        None
    } else if same_path(files[k - 1].path@, p) {
        Some(k - 1)
    } else {
        last_file_at(files, p, k - 1)
    }
}

/// `last_file_at` finds a file at the path.
pub proof fn lemma_last_file_at(files: Seq<MarkdownFile>, p: Seq<char>, k: int)
    requires
        k <= files.len(),
    ensures
        match last_file_at(files, p, k) {
            Some(i) => 0 <= i < k && same_path(files[i].path@, p),
            None => true,
        },
    decreases k,
{
    if k > 0 && !same_path(files[k - 1].path@, p) {
        lemma_last_file_at(files, p, k - 1);
    }
}

/// A file of the list is found at its own path.
proof fn lemma_file_at_own_path(files: Seq<MarkdownFile>, i: int, k: int)
    requires
        0 <= i < k <= files.len(),
    ensures
        last_file_at(files, files[i].path@, k) is Some,
    decreases k,
{
    if k - 1 != i && !same_path(files[k - 1].path@, files[i].path@) {
        lemma_file_at_own_path(files, i, k - 1);
    }
}

impl Workspace {
    /// What the indexes of a well-formed workspace hold: each file is listed
    /// under its lowercased basename and under each of its lowercased aliases;
    /// each list holds only such files, in order of the files; each file is
    /// found (for its headings) at its own path, as a file at that path; and
    /// each known path is found case-insensitively, as a known path with the
    /// same lowercase text.
    pub proof fn law_indexes(&self)
        requires
            self.wf(),
        ensures
            forall|i: int|
                0 <= i < self.files.len() ==> self.basename_index(lowercase(stem_or_empty(self.files@[i].path@))).contains(
                    i as usize,
                ),
            forall|key: Seq<char>, j: int|
                0 <= j < self.basename_index(key).len() ==> {
                    let f = #[trigger] self.basename_index(key)[j] as int;
                    0 <= f < self.files.len() && lowercase(stem_or_empty(self.files@[f].path@)) == key
                },
            forall|key: Seq<char>, a: int, b: int|
                0 <= a < b < self.basename_index(key).len() ==> #[trigger] self.basename_index(key)[a]
                    < #[trigger] self.basename_index(key)[b],
            forall|i: int, m: int|
                0 <= i < self.files.len() && 0 <= m < file_aliases(self.files@[i]).len() ==> self.alias_index(
                    lowercase(#[trigger] file_aliases(self.files@[i])[m]),
                ).contains(i as usize),
            forall|key: Seq<char>, j: int|
                0 <= j < self.alias_index(key).len() ==> {
                    let f = #[trigger] self.alias_index(key)[j] as int;
                    0 <= f < self.files.len() && lower_all(file_aliases(self.files@[f])).contains(key)
                },
            forall|key: Seq<char>, a: int, b: int|
                0 <= a <= b < self.alias_index(key).len() ==> #[trigger] self.alias_index(key)[a]
                    <= #[trigger] self.alias_index(key)[b],
            forall|i: int|
                0 <= i < self.files.len() ==> ((#[trigger] self.file_at(self.files@[i].path@)) matches Some(k)
                    && 0 <= k < self.files.len() && same_path(self.files@[k].path@, self.files@[i].path@)),
            forall|j: int|
                0 <= j < self.known_paths.len() ==> ((#[trigger] self.path_case_index(lowercase(self.known_paths@[j]@)))
                    matches Some(q) && self.known().contains(q) && lowercase(q) == lowercase(self.known_paths@[j]@)),
    {
        let n = self.files.len() as int;
        let bkeys = strs_view(self.basename_keys@);
        let akeys = self.alias_keys@.map_values(|v: Vec<String>| strs_view(v@));
        assert forall|i: int| 0 <= i < n implies self.basename_index(lowercase(stem_or_empty(self.files@[i].path@))).contains(
            i as usize,
        ) by {
            let key = lowercase(stem_or_empty(self.files@[i].path@));
            lemma_basename_hits(bkeys, key, n);
            assert(bkeys[i] == self.basename_keys@[i]@);
        }
        assert forall|key: Seq<char>, j: int| 0 <= j < self.basename_index(key).len() implies {
            let f = #[trigger] self.basename_index(key)[j] as int;
            0 <= f < self.files.len() && lowercase(stem_or_empty(self.files@[f].path@)) == key
        } by {
            lemma_basename_hits(bkeys, key, n);
            lemma_basename_hits_bound(bkeys, key, n);
            let f = self.basename_index(key)[j] as int;
            assert(bkeys[f] == self.basename_keys@[f]@);
        }
        assert forall|key: Seq<char>, a: int, b: int| 0 <= a < b < self.basename_index(key).len() implies #[trigger] self.basename_index(key)[a]
            < #[trigger] self.basename_index(key)[b] by {
            lemma_basename_hits(bkeys, key, n);
        }
        assert forall|i: int, m: int| 0 <= i < n && 0 <= m < file_aliases(self.files@[i]).len() implies self.alias_index(
            lowercase(#[trigger] file_aliases(self.files@[i])[m]),
        ).contains(i as usize) by {
            let key = lowercase(file_aliases(self.files@[i])[m]);
            lemma_alias_hits(akeys, key, n);
            assert(akeys[i] == strs_view(self.alias_keys@[i]@));
            assert(akeys[i][m] == key);
        }
        assert forall|key: Seq<char>, j: int| 0 <= j < self.alias_index(key).len() implies {
            let f = #[trigger] self.alias_index(key)[j] as int;
            0 <= f < self.files.len() && lower_all(file_aliases(self.files@[f])).contains(key)
        } by {
            lemma_alias_hits(akeys, key, n);
            lemma_alias_hits_bound(akeys, key, n);
            let f = self.alias_index(key)[j] as int;
            assert(akeys[f] == strs_view(self.alias_keys@[f]@));
        }
        assert forall|key: Seq<char>, a: int, b: int| 0 <= a <= b < self.alias_index(key).len() implies #[trigger] self.alias_index(key)[a]
            <= #[trigger] self.alias_index(key)[b] by {
            lemma_alias_hits(akeys, key, n);
        }
        assert forall|i: int| 0 <= i < n implies (#[trigger] self.file_at(self.files@[i].path@)) matches Some(k)
            && 0 <= k < self.files.len() && same_path(self.files@[k].path@, self.files@[i].path@) by {
            lemma_file_at_own_path(self.files@, i, n);
            lemma_last_file_at(self.files@, self.files@[i].path@, n);
        }
        let ckeys = strs_view(self.path_case_keys@);
        assert forall|j: int| 0 <= j < self.known_paths.len() implies (#[trigger] self.path_case_index(lowercase(self.known_paths@[j]@)))
            matches Some(q) && self.known().contains(q) && lowercase(q) == lowercase(self.known_paths@[j]@) by {
            let key = lowercase(self.known_paths@[j]@);
            lemma_case_hit(ckeys, self.known(), key, self.known_paths.len() as int);
            assert(ckeys[j] == self.path_case_keys@[j]@);
            let i = choose|i: int| 0 <= i < self.known_paths.len() && ckeys[i] == key && self.known()[i] == self.path_case_index(key)->0;
            assert(ckeys[i] == self.path_case_keys@[i]@);
        }
    }
}

fn lower_string(s: &String) -> (r: String)
    ensures
        r@ == lowercase(s@),
{
    to_lowercase(s.as_str())
}

fn basename_key(path: &String) -> (r: String)
    ensures
        r@ == lowercase(stem_or_empty(path@)),
{
    let p = chars_of(path.as_str());
    match file_stem_exec(p.as_slice()) {
        Some(stem) => {
            let s = string_of(stem.as_slice());
            to_lowercase(s.as_str())
        },
        None => {
            let s = String::new();
            to_lowercase(s.as_str())
        },
    }
}

fn lower_strings(v: &Vec<String>) -> (r: Vec<String>)
    ensures
        strs_view(r@) == lower_all(strs_view(v@)),
{
    let mut r: Vec<String> = Vec::new();
    let mut i: usize = 0;
    while i < v.len()
        invariant
            i <= v.len(),
            strs_view(r@) == lower_all(strs_view(v@)).take(i as int),
        decreases v.len() - i,
    {
        let ghost before = strs_view(r@);
        assert(lower_all(strs_view(v@))[i as int] == lowercase(v@[i as int]@));
        let l = lower_string(&v[i]);
        r.push(l);
        assert(strs_view(r@) =~= before.push(l@));
        assert(strs_view(r@) =~= lower_all(strs_view(v@)).take(i + 1));
        i += 1;
    }
    assert(lower_all(strs_view(v@)).take(v.len() as int) =~= lower_all(strs_view(v@)));
    r
}

fn file_alias_keys(f: &MarkdownFile) -> (r: Vec<String>)
    ensures
        strs_view(r@) == lower_all(file_aliases(*f)),
{
    match &f.frontmatter {
        Some(fm) => {
            let aliases = fm.aliases();
            assert(strs_view(aliases@) == aliases_of(crate::frontmatter::fields_view(fm.fields@)));
            lower_strings(&aliases)
        },
        None => {
            let r: Vec<String> = Vec::new();
            assert(strs_view(r@) =~= lower_all(Seq::<Seq<char>>::empty()));
            r
        },
    }
}

impl Workspace {
    /// The workspace of `files` below `root`, where `all_paths` are every file
    /// found (markdown or not).
    pub fn build(root: String, files: Vec<MarkdownFile>, all_paths: Vec<String>) -> (ws: Workspace)
        ensures
            ws.wf(),
            ws.root@ == root@,
            ws.files@ == files@,
            ws.known() == strs_view(all_paths@),
    {
        let mut basename_keys: Vec<String> = Vec::new();
        let mut alias_keys: Vec<Vec<String>> = Vec::new();
        let mut i: usize = 0;
        while i < files.len()
            invariant
                i <= files.len(),
                basename_keys.len() == i,
                alias_keys.len() == i,
                forall|k: int| 0 <= k < i ==> #[trigger] basename_keys@[k]@ == lowercase(stem_or_empty(files@[k].path@)),
                forall|k: int| 0 <= k < i ==> strs_view(#[trigger] alias_keys@[k]@) == lower_all(file_aliases(files@[k])),
            decreases files.len() - i,
        {
            basename_keys.push(basename_key(&files[i].path));
            alias_keys.push(file_alias_keys(&files[i]));
            i += 1;
        }
        let mut path_case_keys: Vec<String> = Vec::new();
        let mut j: usize = 0;
        while j < all_paths.len()
            invariant
                j <= all_paths.len(),
                path_case_keys.len() == j,
                forall|k: int| 0 <= k < j ==> #[trigger] path_case_keys@[k]@ == lowercase(all_paths@[k]@),
            decreases all_paths.len() - j,
        {
            path_case_keys.push(lower_string(&all_paths[j]));
            j += 1;
        }
        Workspace { root, files, basename_keys, alias_keys, known_paths: all_paths, path_case_keys }
    }

    /// Whether `p` is a known path.
    pub fn knows(&self, p: &[char]) -> (b: bool)
        ensures
            b == self.is_known(p@),
    {
        let mut j: usize = 0;
        while j < self.known_paths.len()
            invariant
                j <= self.known_paths.len(),
                forall|k: int| 0 <= k < j ==> !same_path(#[trigger] self.known_paths@[k]@, p@),
            decreases self.known_paths.len() - j,
        {
            let q = chars_of(self.known_paths[j].as_str());
            if same_path_exec(q.as_slice(), p) {
                return true;
            }
            j += 1;
        }
        false
    }

    /// The files whose lowercased basename is `key`.
    pub fn basename_lookup(&self, key: &str) -> (r: Vec<usize>)
        requires
            self.wf(),
        ensures
            r@ == self.basename_index(key@),
    {
        let ghost keys = strs_view(self.basename_keys@);
        let mut r: Vec<usize> = Vec::new();
        let mut i: usize = 0;
        while i < self.files.len()
            invariant
                self.wf(),
                keys == strs_view(self.basename_keys@),
                i <= self.files.len(),
                r@ == basename_hits(keys, key@, i as int),
            decreases self.files.len() - i,
        {
            if crate::paths::chars_eq_str(self.basename_keys[i].as_str(), key) {
                r.push(i);
            }
            i += 1;
        }
        r
    }

    /// The files with an alias whose lowercase form is `key`.
    pub fn alias_lookup(&self, key: &str) -> (r: Vec<usize>)
        requires
            self.wf(),
        ensures
            r@ == self.alias_index(key@),
    {
        let ghost akeys = self.alias_keys@.map_values(|v: Vec<String>| strs_view(v@));
        let mut r: Vec<usize> = Vec::new();
        let mut i: usize = 0;
        while i < self.files.len()
            invariant
                self.wf(),
                akeys == self.alias_keys@.map_values(|v: Vec<String>| strs_view(v@)),
                i <= self.files.len(),
                r@ == alias_hits(akeys, key@, i as int),
            decreases self.files.len() - i,
        {
            let ks = &self.alias_keys[i];
            let ghost kv = strs_view(ks@);
            assert(akeys[i as int] == kv);
            let ghost r0 = r@;
            let mut k: usize = 0;
            assert(kv.take(0) =~= Seq::<Seq<char>>::empty());
            while k < ks.len()
                invariant
                    kv == strs_view(ks@),
                    k <= ks.len(),
                    r@ == r0 + Seq::new(count_of(kv.take(k as int), key@), |_j: int| i),
                decreases ks.len() - k,
            {
                assert(kv.take(k + 1).drop_last() =~= kv.take(k as int));
                let ghost before = r@;
                if crate::paths::chars_eq_str(ks[k].as_str(), key) {
                    r.push(i);
                }
                assert(r@ =~= r0 + Seq::new(count_of(kv.take(k + 1), key@), |_j: int| i));
                k += 1;
            }
            assert(kv.take(ks.len() as int) =~= kv);
            assert(r@ =~= alias_hits(akeys, key@, i + 1));
            i += 1;
        }
        r
    }

    /// The last known path whose lowercase text is `key`.
    pub fn path_case_lookup(&self, key: &str) -> (r: Option<String>)
        requires
            self.wf(),
        ensures
            match r {
                Some(p) => self.path_case_index(key@) == Some(p@),
                None => self.path_case_index(key@) is None,
            },
    {
        let ghost keys = strs_view(self.path_case_keys@);
        let mut j: usize = self.known_paths.len();
        while j > 0
            invariant
                self.wf(),
                keys == strs_view(self.path_case_keys@),
                j <= self.known_paths.len(),
                self.path_case_index(key@) == case_hit(keys, self.known(), key@, j as int),
            decreases j,
        {
            if crate::paths::chars_eq_str(self.path_case_keys[j - 1].as_str(), key) {
                return Some(self.known_paths[j - 1].clone());
            }
            j -= 1;
        }
        None
    }

    /// The index of the last file at path `p`.
    pub fn file_index_at(&self, p: &[char]) -> (r: Option<usize>)
        ensures
            match r {
                Some(i) => self.file_at(p@) == Some(i as int) && i < self.files.len(),
                None => self.file_at(p@) is None,
            },
    {
        let mut j: usize = self.files.len();
        while j > 0
            invariant
                j <= self.files.len(),
                self.file_at(p@) == last_file_at(self.files@, p@, j as int),
            decreases j,
        {
            let q = chars_of(self.files[j - 1].path.as_str());
            if same_path_exec(q.as_slice(), p) {
                return Some(j - 1);
            }
            j -= 1;
        }
        None
    }

    /// The file at `path`, if the workspace has one (the first such).
    pub fn file_by_path(&self, path: &str) -> (r: Option<&MarkdownFile>)
        ensures
            match r {
                Some(f) => exists|i: int|
                    0 <= i < self.files.len() && self.files@[i] == *f && same_path(f.path@, path@)
                        && forall|k: int| 0 <= k < i ==> !same_path(#[trigger] self.files@[k].path@, path@),
                None => forall|k: int| 0 <= k < self.files.len() ==> !same_path(#[trigger] self.files@[k].path@, path@),
            },
    {
        let p = chars_of(path);
        let mut i: usize = 0;
        while i < self.files.len()
            invariant
                p@ == path@,
                i <= self.files.len(),
                forall|k: int| 0 <= k < i ==> !same_path(#[trigger] self.files@[k].path@, path@),
            decreases self.files.len() - i,
        {
            let q = chars_of(self.files[i].path.as_str());
            if same_path_exec(q.as_slice(), p.as_slice()) {
                return Some(&self.files[i]);
            }
            i += 1;
        }
        None
    }
}

/// The extension of a path, when it has one.
pub fn extension_exec(p: &[char]) -> (r: Option<Vec<char>>)
    ensures
        match r {
            Some(e) => extension(p@) == Some(e@),
            None => extension(p@) is None,
        },
{
    match file_name_exec(p) {
        Some(n) => {
            proof {
                lemma_last_index_of(n@, '.');
            }
            match crate::paths::last_index_exec(n.as_slice(), '.') {
                Some(d) => if d > 0 {
                    Some(crate::text::slice_vec(n.as_slice(), d + 1, n.len()))
                } else {
                    None
                },
                None => None,
            }
        },
        None => None,
    }
}

/// The paths of a list of files given by name: each made absolute against
/// `root` unless it is already; the markdown ones are those with extension `md`.
pub open spec fn given_paths(root: Seq<char>, files: Seq<Seq<char>>) -> Seq<Seq<char>> {
    files.map_values(|p: Seq<char>| if is_absolute(p) { p } else { join(root, p) })
}

impl Workspace {
    /// The paths of files given by name, made absolute against `root`: all of
    /// them, and the markdown ones in order.
    pub fn given_file_paths(root: &str, files: &Vec<String>) -> (r: (Vec<String>, Vec<String>))
        ensures
            strs_view(r.1@) == given_paths(root@, strs_view(files@)),
            strs_view(r.0@) == given_paths(root@, strs_view(files@)).filter(|p: Seq<char>| is_md_path(p)),
    {
        let rt = chars_of(root);
        let ghost all = given_paths(root@, strs_view(files@));
        let md = chars_of("md");
        let mut md_paths: Vec<String> = Vec::new();
        let mut all_paths: Vec<String> = Vec::new();
        let mut i: usize = 0;
        assert(all.take(0) =~= Seq::<Seq<char>>::empty());
        while i < files.len()
            invariant
                rt@ == root@,
                md@ == "md"@,
                all == given_paths(root@, strs_view(files@)),
                i <= files.len(),
                strs_view(all_paths@) == all.take(i as int),
                strs_view(md_paths@) == all.take(i as int).filter(|p: Seq<char>| is_md_path(p)),
            decreases files.len() - i,
        {
            let p = chars_of(files[i].as_str());
            let full = if p.len() > 0 && p[0] == '/' {
                p
            } else {
                join_exec(rt.as_slice(), p.as_slice())
            };
            assert(full@ == all[i as int]);
            let ghost m0 = strs_view(md_paths@);
            let ext = extension_exec(full.as_slice());
            let is_md = match ext {
                Some(e) => crate::text::chars_eq(e.as_slice(), md.as_slice()),
                None => false,
            };
            assert(is_md == is_md_path(full@));
            if is_md {
                md_paths.push(string_of(full.as_slice()));
            }
            all_paths.push(string_of(full.as_slice()));
            proof {
                let t = all.take(i + 1);
                assert(t.drop_last() =~= all.take(i as int));
                reveal_with_fuel(Seq::filter, 1);
                assert(strs_view(md_paths@) =~= t.filter(|p: Seq<char>| is_md_path(p)));
                assert(strs_view(all_paths@) =~= t);
            }
            i += 1;
        }
        assert(all.take(files.len() as int) =~= all);
        (md_paths, all_paths)
    }
}

} // verus!
