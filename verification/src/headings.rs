//! Headings of a markdown file, their anchor slugs, and anchor matching.

use vstd::prelude::*;
use unicode_normalization::UnicodeNormalization;
use crate::file::{MdNode, MdKind, MdKindView, MdNodeView, node_views, node_text, collect_text};
use crate::text::{
    alphanumeric, chars_of, decimal, is_alphanumeric, is_prefix, lemma_decimal_injective, lowercase,
    push_decimal, to_lowercase,
};
use crate::paths::chars_eq_str;

verus! {

/// A heading of a markdown file.
#[derive(Debug, Clone)]
pub struct Heading {
    pub level: u8,
    pub text: String,
    pub slug: String,
    pub line: usize,
    pub col: usize,
}

/// The model of a `Heading`.
pub struct HeadingView {
    pub level: u8,
    pub text: Seq<char>,
    pub slug: Seq<char>,
    pub line: usize,
    pub col: usize,
}

impl View for Heading {
    type V = HeadingView;

    open spec fn view(&self) -> HeadingView {
        HeadingView {
            level: self.level,
            text: self.text@,
            slug: self.slug@,
            line: self.line,
            col: self.col,
        }
    }
}

/// The models of a list of headings.
pub open spec fn heading_views(hs: Seq<Heading>) -> Seq<HeadingView> {
    hs.map_values(|h: Heading| h@)
}

/// How anchors name headings: GitHub slugs, or the heading text itself.
#[derive(Debug, Clone, Copy, PartialEq, Eq, Structural)]
pub enum SlugMode {
    Gfm,
    Obsidian,
}

impl Default for SlugMode {
    fn default() -> (m: SlugMode)
        ensures
            m == SlugMode::Gfm,
    {
        SlugMode::Gfm
    }
}

/// The Unicode canonical composition (NFC) of a string, as
/// `unicode_normalization::UnicodeNormalization::nfc` gives it.
pub uninterp spec fn nfc(s: Seq<char>) -> Seq<char>;

/// Calls `UnicodeNormalization::nfc` on `s` and collects the characters;
/// the result is named `nfc`.
#[verifier::external_body]
fn nfc_string(s: &str) -> (r: String)
    ensures
        r@ == nfc(s@),
{
    s.nfc().collect()
}

/// What one character of the lowercased text becomes in a slug: kept when
/// alphanumeric or `-`; a space becomes `-`; anything else is dropped.
pub open spec fn slug_piece(c: char) -> Seq<char> {
    if alphanumeric(c) || c == '-' {
        seq![c]
    } else if c == ' ' {
        seq!['-']
    } else {
        Seq::empty()
    }
}

/// The slug pieces of a lowercased text, in order.
pub open spec fn slug_of_lower(t: Seq<char>) -> Seq<char>
    decreases t.len(),
{
    if t.len() == 0 {
        Seq::empty()
    } else {
        slug_of_lower(t.drop_last()) + slug_piece(t.last())
    }
}

/// The GitHub-style slug of a heading text: NFC, then lowercase, then each
/// character mapped by `slug_piece`.
pub open spec fn gfm_slug_of(text: Seq<char>) -> Seq<char> {
    slug_of_lower(lowercase(nfc(text)))
}

/// A character that may stand in a GitHub slug.
pub open spec fn slug_char(c: char) -> bool {
    alphanumeric(c) || c == '-'
}

/// Slugs hold only alphanumeric characters and `-`.
pub proof fn lemma_slug_chars(t: Seq<char>)
    ensures
        forall|i: int| 0 <= i < slug_of_lower(t).len() ==> slug_char(#[trigger] slug_of_lower(t)[i]),
    decreases t.len(),
{
    if t.len() > 0 {
        lemma_slug_chars(t.drop_last());
        let a = slug_of_lower(t.drop_last());
        let b = slug_piece(t.last());
        assert forall|i: int| 0 <= i < slug_of_lower(t).len() implies slug_char(#[trigger] slug_of_lower(t)[i]) by {
            if i >= a.len() {
                assert(slug_of_lower(t)[i] == b[i - a.len()]);
            } else {
                assert(slug_of_lower(t)[i] == a[i]);
            }
        }
    }
}

/// The GitHub-style slug of a heading text.
pub fn gfm_slug(text: &str) -> (slug: String)
    ensures
        slug@ == gfm_slug_of(text@),
        forall|i: int| 0 <= i < slug@.len() ==> slug_char(#[trigger] slug@[i]),
{
    let normalized = nfc_string(text);
    let lowered = to_lowercase(normalized.as_str());
    let cs = chars_of(lowered.as_str());
    let mut slug = String::new();
    let mut i: usize = 0;
    assert(cs@.take(0) =~= Seq::<char>::empty());
    while i < cs.len()
        invariant
            i <= cs.len(),
            slug@ == slug_of_lower(cs@.take(i as int)),
        decreases cs.len() - i,
    {
        let c = cs[i];
        let ghost before = slug@;
        if is_alphanumeric(c) || c == '-' {
            slug.push(c);
        } else if c == ' ' {
            slug.push('-');
        }
        assert(cs@.take(i + 1).drop_last() =~= cs@.take(i as int));
        assert(slug@ =~= before + slug_piece(c));
        i += 1;
    }
    assert(cs@.take(cs.len() as int) =~= cs@);
    proof {
        lemma_slug_chars(cs@);
    }
    slug
}

/// How many headings before index `i` have the slug `s`.
pub open spec fn count_slug(hs: Seq<HeadingView>, s: Seq<char>, i: int) -> nat
    decreases i,
{
    if i <= 0 {
        0
    } else {
        count_slug(hs, s, i - 1) + if hs[i - 1].slug == s { 1nat } else { 0nat }
    }
}

/// Heading `i` after duplicate slugs are told apart: the `k`-th repeat of a
/// slug (counted from 1) gets `-k` appended; the first keeps its slug.
pub open spec fn dedup_heading(hs: Seq<HeadingView>, i: int) -> HeadingView {
    let k = count_slug(hs, hs[i].slug, i);
    if k > 0 {
        HeadingView { slug: hs[i].slug + seq!['-'] + decimal(k), ..hs[i] }
    } else {
        hs[i]
    }
}

/// All headings with duplicate slugs told apart.
pub open spec fn dedup_slugs(hs: Seq<HeadingView>) -> Seq<HeadingView> {
    Seq::new(hs.len(), |i: int| dedup_heading(hs, i))
}

/// Counting a slug over more headings counts at least as many, and one more
/// past each heading that has it.
proof fn lemma_count_slug_grows(hs: Seq<HeadingView>, s: Seq<char>, i: int, j: int)
    requires
        0 <= i <= j,
    ensures
        count_slug(hs, s, i) <= count_slug(hs, s, j),
        i < j && 0 <= i < hs.len() && hs[i].slug == s ==> count_slug(hs, s, i) < count_slug(hs, s, j),
    decreases j - i,
{
    if i < j {
        lemma_count_slug_grows(hs, s, i, j - 1);
        if i < j - 1 && 0 <= i < hs.len() && hs[i].slug == s {
            lemma_count_slug_grows(hs, s, i + 1, j);
        }
    }
}

/// A slug no earlier heading has is counted zero times.
proof fn lemma_count_slug_zero(hs: Seq<HeadingView>, s: Seq<char>, i: int)
    requires
        i <= hs.len(),
        forall|j: int| 0 <= j < i ==> (#[trigger] hs[j]).slug != s,
    ensures
        count_slug(hs, s, i) == 0,
    decreases i,
{
    if i > 0 {
        lemma_count_slug_zero(hs, s, i - 1);
    }
}

/// Telling duplicate slugs apart: headings that had the same slug end with
/// different slugs; each heading keeps its level, text and position, and its
/// new slug begins with its old one; a heading whose slug no earlier heading
/// has keeps its slug unchanged.
pub proof fn law_dedup_slugs(hs: Seq<HeadingView>)
    ensures
        dedup_slugs(hs).len() == hs.len(),
        forall|i: int, j: int|
            0 <= i < j < hs.len() && hs[i].slug == hs[j].slug ==> (#[trigger] dedup_slugs(hs)[i]).slug
                != (#[trigger] dedup_slugs(hs)[j]).slug,
        forall|i: int|
            0 <= i < hs.len() ==> {
                let h = #[trigger] dedup_slugs(hs)[i];
                &&& h.level == hs[i].level
                &&& h.text == hs[i].text
                &&& h.line == hs[i].line
                &&& h.col == hs[i].col
                &&& is_prefix(hs[i].slug, h.slug)
            },
        forall|i: int|
            0 <= i < hs.len() && (forall|j: int| 0 <= j < i ==> hs[j].slug != hs[i].slug) ==> (#[trigger] dedup_slugs(
                hs,
            )[i]).slug == hs[i].slug,
{
    let out = dedup_slugs(hs);
    assert forall|i: int, j: int|
        0 <= i < j < hs.len() && hs[i].slug == hs[j].slug implies (#[trigger] out[i]).slug != (#[trigger] out[j]).slug by {
        let s = hs[j].slug;
        let ci = count_slug(hs, s, i);
        let cj = count_slug(hs, s, j);
        lemma_count_slug_grows(hs, s, i, j);
        assert(out[j].slug == s + seq!['-'] + decimal(cj));
        if ci == 0 {
            assert(out[i].slug == s);
            assert(out[j].slug.len() > s.len());
        } else {
            assert(out[i].slug == s + seq!['-'] + decimal(ci));
            if out[i].slug == out[j].slug {
                assert((s + seq!['-'] + decimal(ci)).skip(s.len() + 1int) =~= decimal(ci));
                assert((s + seq!['-'] + decimal(cj)).skip(s.len() + 1int) =~= decimal(cj));
                lemma_decimal_injective(ci, cj);
            }
        }
    }
    assert forall|i: int| 0 <= i < hs.len() implies {
        let h = #[trigger] out[i];
        &&& h.level == hs[i].level
        &&& h.text == hs[i].text
        &&& h.line == hs[i].line
        &&& h.col == hs[i].col
        &&& is_prefix(hs[i].slug, h.slug)
    } by {
        let s = hs[i].slug;
        if count_slug(hs, s, i) > 0 {
            assert((s + seq!['-'] + decimal(count_slug(hs, s, i))).subrange(0, s.len() as int) =~= s);
        } else {
            assert(s.subrange(0, s.len() as int) =~= s);
        }
    }
    assert forall|i: int|
        0 <= i < hs.len() && (forall|j: int| 0 <= j < i ==> hs[j].slug != hs[i].slug) implies (#[trigger] out[i]).slug
            == hs[i].slug by {
        lemma_count_slug_zero(hs, hs[i].slug, i);
    }
}

fn copy_string(s: &String) -> (r: String)
    ensures
        r@ == s@,
{
    s.clone()
}

/// Appends `-1`, `-2`, ... to the slugs of later headings that repeat an
/// earlier heading's slug.
pub fn deduplicate_slugs(headings: &mut Vec<Heading>)
    ensures
        heading_views(final(headings)@) == dedup_slugs(heading_views(old(headings)@)),
{
    let ghost hs = heading_views(headings@);
    let n = headings.len();
    let mut out: Vec<Heading> = Vec::new();
    let mut i: usize = 0;
    while i < n
        invariant
            n == headings.len(),
            hs == heading_views(headings@),
            hs == heading_views(old(headings)@),
            i <= n,
            out.len() == i,
            forall|j: int| 0 <= j < i ==> #[trigger] out@[j]@ == dedup_heading(hs, j),
        decreases n - i,
    {
        let mut count: usize = 0;
        let mut j: usize = 0;
        while j < i
            invariant
                n == headings.len(),
                hs == heading_views(headings@),
                j <= i < n,
                count == count_slug(hs, hs[i as int].slug, j as int),
                count <= j,
            decreases i - j,
        {
            if chars_eq_str(headings[j].slug.as_str(), headings[i].slug.as_str()) {
                count += 1;
            }
            j += 1;
        }
        let h = &headings[i];
        let mut slug = copy_string(&h.slug);
        if count > 0 {
            slug.push('-');
            push_decimal(&mut slug, count);
            assert(slug@ =~= h.slug@ + seq!['-'] + decimal(count as nat));
        }
        out.push(Heading { level: h.level, text: copy_string(&h.text), slug, line: h.line, col: h.col });
        i += 1;
    }
    *headings = out;
    assert(heading_views(headings@) =~= dedup_slugs(hs));
}

/// Whether an anchor names a heading: equal to its slug, or (Obsidian) to its
/// text up to case, both lowercased.
pub open spec fn slug_matches_spec(h: HeadingView, anchor: Seq<char>, mode: SlugMode) -> bool {
    match mode {
        SlugMode::Gfm => h.slug == anchor,
        SlugMode::Obsidian => lowercase(h.text) == lowercase(anchor),
    }
}

/// Whether `anchor` names `heading`.
pub fn slug_matches(heading: &Heading, anchor: &str, mode: SlugMode) -> (b: bool)
    ensures
        b == slug_matches_spec(heading@, anchor@, mode),
{
    match mode {
        SlugMode::Gfm => chars_eq_str(heading.slug.as_str(), anchor),
        SlugMode::Obsidian => {
            let t = to_lowercase(heading.text.as_str());
            let a = to_lowercase(anchor);
            chars_eq_str(t.as_str(), a.as_str())
        },
    }
}

/// The heading that node `i` (a heading node) gives before slugs are told apart.
pub open spec fn heading_of_node(nodes: Seq<MdNodeView>, i: int, level: u8, mode: SlugMode) -> HeadingView {
    let text = node_text(nodes, i);
    HeadingView {
        level,
        text,
        slug: match mode {
            SlugMode::Gfm => gfm_slug_of(text),
            SlugMode::Obsidian => text,
        },
        line: nodes[i].start_line,
        col: nodes[i].start_col,
    }
}

/// The headings among the first `k` nodes, in document order.
pub open spec fn raw_headings(nodes: Seq<MdNodeView>, mode: SlugMode, k: int) -> Seq<HeadingView>
    decreases k,
{
    if k <= 0 {
        Seq::empty()
    } else {
        raw_headings(nodes, mode, k - 1) + match nodes[k - 1].kind {
            MdKindView::Heading(level) => seq![heading_of_node(nodes, k - 1, level, mode)],
            _ => Seq::empty(),
        }
    }
}

/// The headings of a markdown tree, slugs told apart.
pub open spec fn headings_of(nodes: Seq<MdNodeView>, mode: SlugMode) -> Seq<HeadingView> {
    dedup_slugs(raw_headings(nodes, mode, nodes.len() as int))
}

/// All headings of a markdown tree, in document order, with their slugs.
pub fn extract_headings(nodes: &Vec<MdNode>, mode: SlugMode) -> (hs: Vec<Heading>)
    ensures
        heading_views(hs@) == headings_of(node_views(nodes@), mode),
{
    let ghost nv = node_views(nodes@);
    let mut hs: Vec<Heading> = Vec::new();
    let mut i: usize = 0;
    while i < nodes.len()
        invariant
            nv == node_views(nodes@),
            i <= nodes.len(),
            heading_views(hs@) == raw_headings(nv, mode, i as int),
        decreases nodes.len() - i,
    {
        let ghost before = heading_views(hs@);
        if let MdKind::Heading(level) = &nodes[i].kind {
            let text = collect_text(nodes, i);
            let slug = match mode {
                SlugMode::Gfm => gfm_slug(text.as_str()),
                SlugMode::Obsidian => copy_string(&text),
            };
            hs.push(Heading { level: *level, text, slug, line: nodes[i].start_line, col: nodes[i].start_col });
            assert(heading_views(hs@) =~= before + seq![heading_of_node(nv, i as int, *level, mode)]);
        } else {
            assert(heading_views(hs@) =~= before + Seq::<HeadingView>::empty());
        }
        i += 1;
    }
    deduplicate_slugs(&mut hs);
    hs
}

} // verus!
