//! Links of a markdown file: standard links, wikilinks and images.

use vstd::prelude::*;
use vstd::utf8::encode_utf8;
use percent_encoding::percent_decode_str;
use crate::file::{MdNode, MdKind, MdKindView, MdNodeView, node_views, node_text, collect_text};
use crate::text::{
    chars_of, find_char, index_of, is_prefix, lemma_index_from, slice_vec, starts_with, string_of,
    substring,
};

verus! {

/// What kind of link.
#[derive(Debug, Clone, Copy, PartialEq, Eq, Structural)]
pub enum LinkKind {
    /// `[text](path.md)` or `[text](path.md#anchor)`
    Standard,
    /// `[[page]]` or `[[page|alias]]` or `[[page#heading]]`
    WikiLink,
    /// `![alt](image.png)`
    Image,
}

/// A link found in a markdown file.
#[derive(Debug, Clone)]
pub struct Link {
    pub kind: LinkKind,
    pub raw_target: String,
    pub file_target: Option<String>,
    pub anchor: Option<String>,
    pub display_text: String,
    pub line: usize,
    pub col: usize,
    /// Byte offset in source for diagnostic spans
    pub start_offset: usize,
    pub len: usize,
}

/// The model of an optional string.
pub open spec fn opt_view(o: Option<String>) -> Option<Seq<char>> {
    match o {
        Some(s) => Some(s@),
        None => None,
    }
}

/// The model of a `Link`.
pub struct LinkView {
    pub kind: LinkKind,
    pub raw_target: Seq<char>,
    pub file_target: Option<Seq<char>>,
    pub anchor: Option<Seq<char>>,
    pub display_text: Seq<char>,
    pub line: usize,
    pub col: usize,
    pub start_offset: usize,
    pub len: usize,
}

impl View for Link {
    type V = LinkView;

    open spec fn view(&self) -> LinkView {
        LinkView {
            kind: self.kind,
            raw_target: self.raw_target@,
            file_target: opt_view(self.file_target),
            anchor: opt_view(self.anchor),
            display_text: self.display_text@,
            line: self.line,
            col: self.col,
            start_offset: self.start_offset,
            len: self.len,
        }
    }
}

/// The models of a list of links.
pub open spec fn link_views(ls: Seq<Link>) -> Seq<LinkView> {
    ls.map_values(|l: Link| l@)
}

/// A target that is an external URL (http, https, mailto, tel).
pub open spec fn external_target(t: Seq<char>) -> bool {
    ||| is_prefix("http://"@, t)
    ||| is_prefix("https://"@, t)
    ||| is_prefix("mailto:"@, t)
    ||| is_prefix("tel:"@, t)
}

/// Whether a target is an external URL.
pub fn is_external_target(t: &str) -> (b: bool)
    ensures
        b == external_target(t@),
{
    let cs = chars_of(t);
    let s = cs.as_slice();
    starts_with(s, chars_of("http://").as_slice()) || starts_with(s, chars_of("https://").as_slice())
        || starts_with(s, chars_of("mailto:").as_slice()) || starts_with(s, chars_of("tel:").as_slice())
}

/// An ASCII letter.
pub open spec fn ascii_alpha(c: char) -> bool {
    ('a' <= c && c <= 'z') || ('A' <= c && c <= 'Z')
}

/// A character that may follow the first one of a URI scheme.
pub open spec fn scheme_char(c: char) -> bool {
    ascii_alpha(c) || ('0' <= c && c <= '9') || c == '+' || c == '-' || c == '.'
}

/// A target that starts with a URI scheme and `:` (such as `ftp:`, `data:` or
/// the `custom:tag` of an autolink `<custom:tag>`).
pub open spec fn has_scheme(t: Seq<char>) -> bool {
    let h = index_of(t, ':');
    h >= 1 && ascii_alpha(t[0]) && forall|j: int| 1 <= j < h ==> scheme_char(#[trigger] t[j])
}

fn scheme_prefix(t: &[char]) -> (b: bool)
    ensures
        b == has_scheme(t@),
{
    proof {
        lemma_index_from(t@, ':', 0);
    }
    match find_char(t, ':') {
        Some(h) => {
            if h < 1 {
                return false;
            }
            let c0 = t[0];
            if !(('a' <= c0 && c0 <= 'z') || ('A' <= c0 && c0 <= 'Z')) {
                return false;
            }
            let mut j: usize = 1;
            while j < h
                invariant
                    1 <= j <= h,
                    h < t.len(),
                    index_of(t@, ':') == h,
                    forall|k: int| 1 <= k < j ==> scheme_char(#[trigger] t@[k]),
                decreases h - j,
            {
                let c = t[j];
                if !(('a' <= c && c <= 'z') || ('A' <= c && c <= 'Z') || ('0' <= c && c <= '9') || c == '+'
                    || c == '-' || c == '.') {
                    assert(!scheme_char(t@[j as int]));
                    return false;
                }
                j += 1;
            }
            true
        },
        None => false,
    }
}

impl Link {
    /// Whether this is an external URL (http, https, mailto, tel).
    pub fn is_external(&self) -> (b: bool)
        ensures
            b == external_target(self.raw_target@),
    {
        is_external_target(self.raw_target.as_str())
    }

    /// Whether the link names no file of the workspace at all: a standard link
    /// or image whose target starts with a URI scheme (an autolink such as
    /// `<custom:tag>`, or `ftp:`, `data:`, ...).
    pub fn should_skip(&self) -> (b: bool)
        ensures
            b == (self.kind != LinkKind::WikiLink && has_scheme(self.raw_target@)),
    {
        match self.kind {
            LinkKind::WikiLink => false,
            _ => {
                let t = chars_of(self.raw_target.as_str());
                scheme_prefix(t.as_slice())
            },
        }
    }

    /// Decoded file target path (percent-decoded).
    pub fn decoded_file_target(&self) -> (r: Option<String>)
        ensures
            opt_view(r) == match opt_view(self.file_target) {
                Some(t) => Some(percent_decoded(t)),
                None => None,
            },
    {
        match &self.file_target {
            Some(t) => Some(percent_decode(t.as_str())),
            None => None,
        }
    }
}

/// A target with its `%XX` sequences decoded, invalid UTF-8 replaced, as
/// `percent_decode_str(..).decode_utf8_lossy()` gives it.
pub uninterp spec fn percent_decoded(s: Seq<char>) -> Seq<char>;

/// Calls `percent_encoding::percent_decode_str` and `decode_utf8_lossy`; the
/// result is named `percent_decoded`. A string without `%` comes back
/// unchanged (the decoder borrows its input when it decodes nothing).
#[verifier::external_body]
pub(crate) fn percent_decode(s: &str) -> (r: String)
    ensures
        r@ == percent_decoded(s@),
        !s@.contains('%') ==> r@ == s@,
{
    percent_decode_str(s).decode_utf8_lossy().into_owned()
}

/// A standard URL split into file path and anchor: external URLs whole;
/// otherwise the parts before and after the first `#`, each dropped when empty.
pub open spec fn split_url_anchor_spec(url: Seq<char>) -> (Option<Seq<char>>, Option<Seq<char>>) {
    if external_target(url) {
        (Some(url), None)
    } else {
        let h = index_of(url, '#');
        if h >= 0 {
            let path = url.take(h);
            let anchor = url.skip(h + 1);
            (
                if path.len() == 0 { None } else { Some(path) },
                if anchor.len() == 0 { None } else { Some(anchor) },
            )
        } else if url.len() == 0 {
            (None, None)
        } else {
            (Some(url), None)
        }
    }
}

fn nonempty(cs: &[char], from: usize, to: usize) -> (r: Option<String>)
    requires
        from <= to <= cs.len(),
    ensures
        opt_view(r) == if to == from { None } else { Some(cs@.subrange(from as int, to as int)) },
{
    if to == from {
        None
    } else {
        Some(substring(cs, from, to))
    }
}

/// Split a standard markdown URL into file path and anchor.
/// `path.md#heading` -> (Some("path.md"), Some("heading"))
/// `#heading` -> (None, Some("heading"))
/// `path.md` -> (Some("path.md"), None)
pub fn split_url_anchor(url: &str) -> (r: (Option<String>, Option<String>))
    ensures
        (opt_view(r.0), opt_view(r.1)) == split_url_anchor_spec(url@),
{
    if is_external_target(url) {
        return (Some(String::from_str(url)), None);
    }
    let cs = chars_of(url);
    proof {
        lemma_index_from(cs@, '#', 0);
    }
    let sl = cs.as_slice();
    let found = find_char(sl, '#');
    assert(sl@ == cs@);
    match found {
        Some(h) => {
            assert(index_of(cs@, '#') == h as int);
            let path = nonempty(cs.as_slice(), 0, h);
            let anchor = nonempty(cs.as_slice(), h + 1, cs.len());
            assert(url@.take(h as int) =~= cs@.subrange(0, h as int));
            assert(url@.skip(h + 1) =~= cs@.subrange(h + 1, cs.len() as int));
            (path, anchor)
        },
        None => {
            if cs.len() == 0 {
                (None, None)
            } else {
                (Some(String::from_str(url)), None)
            }
        },
    }
}

/// A wikilink target split into page and anchor at the first `#`; an empty
/// anchor is dropped.
pub open spec fn split_wikilink_spec(url: Seq<char>) -> (Seq<char>, Option<Seq<char>>) {
    let h = index_of(url, '#');
    if h >= 0 {
        let anchor = url.skip(h + 1);
        (url.take(h), if anchor.len() == 0 { None } else { Some(anchor) })
    } else {
        (url, None)
    }
}

/// Split a wikilink target: `page#heading` -> ("page", Some("heading"))
pub fn split_wikilink(url: &str) -> (r: (String, Option<String>))
    ensures
        (r.0@, opt_view(r.1)) == split_wikilink_spec(url@),
{
    let cs = chars_of(url);
    proof {
        lemma_index_from(cs@, '#', 0);
    }
    match find_char(cs.as_slice(), '#') {
        Some(h) => {
            let page = substring(cs.as_slice(), 0, h);
            let anchor = nonempty(cs.as_slice(), h + 1, cs.len());
            assert(url@.skip(h + 1) =~= cs@.subrange(h + 1, cs.len() as int));
            (page, anchor)
        },
        None => (String::from_str(url), None),
    }
}

/// The URL put back together from its file path and anchor.
pub open spec fn rejoin_url(parts: (Option<Seq<char>>, Option<Seq<char>>)) -> Seq<char> {
    let f = match parts.0 {
        Some(p) => p,
        None => Seq::empty(),
    };
    match parts.1 {
        Some(a) => f + seq!['#'] + a,
        None => f,
    }
}

/// Splitting a URL loses nothing but an empty anchor: putting the parts back
/// together gives the URL, unless its first `#` is its last character.
pub proof fn law_split_url_anchor_rejoins(url: Seq<char>)
    requires
        !(index_of(url, '#') >= 0 && index_of(url, '#') == url.len() - 1) || external_target(url),
    ensures
        rejoin_url(split_url_anchor_spec(url)) == url,
{
    lemma_index_from(url, '#', 0);
    let h = index_of(url, '#');
    if !external_target(url) && h >= 0 {
        assert(url =~= url.take(h) + seq!['#'] + url.skip(h + 1));
    }
}

/// Splitting a wikilink target loses nothing but an empty anchor.
pub proof fn law_split_wikilink_rejoins(url: Seq<char>)
    requires
        !(index_of(url, '#') >= 0 && index_of(url, '#') == url.len() - 1),
    ensures
        ({
            let (page, anchor) = split_wikilink_spec(url);
            rejoin_url((Some(page), anchor)) == url
        }),
{
    lemma_index_from(url, '#', 0);
    let h = index_of(url, '#');
    if h >= 0 {
        assert(url =~= url.take(h) + seq!['#'] + url.skip(h + 1));
    }
}


/// The number of UTF-8 bytes of a character sequence.
pub open spec fn byte_len(s: Seq<char>) -> nat {
    encode_utf8(s).len()
}

/// UTF-8 encoding distributes over concatenation.
pub proof fn lemma_encode_concat(a: Seq<char>, b: Seq<char>)
    ensures
        encode_utf8(a + b) == encode_utf8(a) + encode_utf8(b),
    decreases a.len(),
{
    if a.len() > 0 {
        assert((a + b).drop_first() =~= a.drop_first() + b);
        lemma_encode_concat(a.drop_first(), b);
        assert(encode_utf8(a + b) =~= vstd::utf8::encode_scalar(a[0] as u32) + encode_utf8(
            a.drop_first() + b,
        ));
    } else {
        assert(a + b =~= b);
        assert(encode_utf8(a) =~= Seq::<u8>::empty());
    }
}

/// The number of UTF-8 bytes of one character.
pub open spec fn char_width(c: char) -> nat {
    vstd::utf8::encode_scalar(c as u32).len()
}

/// Adding a character adds its width.
pub proof fn lemma_byte_len_push(s: Seq<char>, c: char)
    ensures
        byte_len(s.push(c)) == byte_len(s) + char_width(c),
        1 <= char_width(c) <= 4,
{
    lemma_encode_concat(s, seq![c]);
    assert(s.push(c) =~= s + seq![c]);
    assert(seq![c].drop_first() =~= Seq::<char>::empty());
    assert(encode_utf8(seq![c]) =~= vstd::utf8::encode_scalar(c as u32) + encode_utf8(Seq::<char>::empty()));
}

/// A prefix has no more bytes than the whole.
pub proof fn lemma_byte_len_prefix(s: Seq<char>, k: int)
    requires
        0 <= k <= s.len(),
    ensures
        byte_len(s.take(k)) <= byte_len(s),
{
    lemma_encode_concat(s.take(k), s.skip(k));
    assert(s.take(k) + s.skip(k) =~= s);
}

pub fn width_of(c: char) -> (w: usize)
    ensures
        w == char_width(c),
{
    let v = c as u32;
    proof {
        vstd::utf8::char_is_scalar(c);
    }
    if v <= 0x7F {
        1
    } else if v <= 0x7FF {
        2
    } else if v <= 0xFFFF {
        3
    } else {
        4
    }
}

/// The number of UTF-8 bytes of `s`.
pub fn utf8_len(s: &str) -> (n: usize)
    ensures
        n == byte_len(s@),
{
    s.as_bytes().len()
}

/// The byte offset reached by scanning `s` from character `k`, at line `cur`,
/// for 1-based `line` and `col`: on reaching the line, its start plus
/// `col - 1`, at most the length; the length when the line is never reached.
pub open spec fn lc_scan(s: Seq<char>, k: int, cur: int, line: int, col: int) -> int
    decreases s.len() - k,
{
    if k < 0 || k >= s.len() {
        byte_len(s) as int
    } else if cur == line {
        let o = byte_len(s.take(k)) + if col >= 1 { col - 1 } else { 0 };
        if o < byte_len(s) { o } else { byte_len(s) as int }
    } else {
        lc_scan(s, k + 1, if s[k] == '\n' { cur + 1 } else { cur }, line, col)
    }
}

/// The byte offset of a 1-based line and column in `s`.
pub open spec fn line_col_offset(s: Seq<char>, line: int, col: int) -> int {
    lc_scan(s, 0, 1, line, col)
}

/// Convert a 1-based line and column to a byte offset in source.
pub fn line_col_to_offset(source: &str, line: usize, col: usize) -> (r: usize)
    ensures
        r == line_col_offset(source@, line as int, col as int),
        r <= byte_len(source@),
{
    let total = utf8_len(source);
    let cs = chars_of(source);
    let ghost s = source@;
    let mut newlines: usize = 0;
    let mut offset: usize = 0;
    let mut k: usize = 0;
    let ghost mut cur: int = 1;
    assert(s.take(0) =~= Seq::<char>::empty());
    assert(encode_utf8(Seq::<char>::empty()) =~= Seq::<u8>::empty());
    while k < cs.len()
        invariant
            cs@ == s,
            s == source@,
            total == byte_len(s),
            k <= cs.len(),
            offset == byte_len(s.take(k as int)),
            line == 0 ==> cur >= 1,
            line != 0 ==> cur == newlines + 1 && newlines < line,
            line_col_offset(s, line as int, col as int) == lc_scan(s, k as int, cur, line as int, col as int),
        decreases cs.len() - k,
    {
        proof {
            lemma_byte_len_prefix(s, k as int);
            lemma_byte_len_prefix(s, k + 1);
            assert(s.take(k + 1) =~= s.take(k as int).push(s[k as int]));
            lemma_byte_len_push(s.take(k as int), s[k as int]);
        }
        if line != 0 && newlines + 1 == line {
            let c1 = if col >= 1 { col - 1 } else { 0 };
            if c1 < total - offset {
                assert(cur == line);
                assert(lc_scan(s, k as int, cur, line as int, col as int) == offset + c1);
                return offset + c1;
            } else {
                return total;
            }
        }
        let ch = cs[k];
        if ch == '\n' && line != 0 {
            newlines += 1;
        }
        proof {
            if ch == '\n' {
                cur = cur + 1;
            }
        }
        offset = offset + width_of(ch);
        k += 1;
    }
    total
}


/// The span length of a node: end offset minus start offset, at least 1.
pub open spec fn span_len(start: int, end: int) -> int {
    if end - start >= 1 { end - start } else { 1 }
}

/// The link that node `i` is, if it is one.
pub open spec fn link_of_node(nodes: Seq<MdNodeView>, i: int, source: Seq<char>) -> Seq<LinkView> {
    let n = nodes[i];
    let so = line_col_offset(source, n.start_line as int, n.start_col as int);
    let eo = line_col_offset(source, n.end_line as int, n.end_col as int);
    let base = LinkView {
        kind: LinkKind::Standard,
        raw_target: Seq::empty(),
        file_target: None,
        anchor: None,
        display_text: node_text(nodes, i),
        line: n.start_line,
        col: n.start_col,
        start_offset: so as usize,
        len: span_len(so, eo) as usize,
    };
    match n.kind {
        MdKindView::Link(url) => seq![
            LinkView {
                raw_target: url,
                file_target: split_url_anchor_spec(url).0,
                anchor: split_url_anchor_spec(url).1,
                ..base
            },
        ],
        MdKindView::Image(url) => seq![
            LinkView {
                kind: LinkKind::Image,
                raw_target: url,
                file_target: split_url_anchor_spec(url).0,
                ..base
            },
        ],
        MdKindView::WikiLink(url) => seq![
            LinkView {
                kind: LinkKind::WikiLink,
                raw_target: url,
                file_target: Some(split_wikilink_spec(url).0),
                anchor: split_wikilink_spec(url).1,
                ..base
            },
        ],
        _ => Seq::empty(),
    }
}

/// The links among the first `k` nodes, in document order.
pub open spec fn links_upto(nodes: Seq<MdNodeView>, source: Seq<char>, k: int) -> Seq<LinkView>
    decreases k,
{
    if k <= 0 {
        Seq::empty()
    } else {
        links_upto(nodes, source, k - 1) + link_of_node(nodes, k - 1, source)
    }
}

/// The links of a markdown tree whose text is `source`.
pub open spec fn links_of(nodes: Seq<MdNodeView>, source: Seq<char>) -> Seq<LinkView> {
    links_upto(nodes, source, nodes.len() as int)
}

fn copy_str(s: &String) -> (r: String)
    ensures
        r@ == s@,
{
    s.clone()
}

/// Extract all links from a markdown tree whose text is `source`.
pub fn extract_links(nodes: &Vec<MdNode>, source: &str) -> (links: Vec<Link>)
    ensures
        link_views(links@) == links_of(node_views(nodes@), source@),
{
    let ghost nv = node_views(nodes@);
    let mut links: Vec<Link> = Vec::new();
    let mut i: usize = 0;
    while i < nodes.len()
        invariant
            nv == node_views(nodes@),
            i <= nodes.len(),
            link_views(links@) == links_upto(nv, source@, i as int),
        decreases nodes.len() - i,
    {
        let ghost before = link_views(links@);
        let n = &nodes[i];
        let so = line_col_to_offset(source, n.start_line, n.start_col);
        let eo = line_col_to_offset(source, n.end_line, n.end_col);
        let len = if eo > so && eo - so >= 1 { eo - so } else { 1 };
        match &n.kind {
            MdKind::Link(url) => {
                let (file_target, anchor) = split_url_anchor(url.as_str());
                links.push(Link {
                    kind: LinkKind::Standard,
                    raw_target: copy_str(url),
                    file_target,
                    anchor,
                    display_text: collect_text(nodes, i),
                    line: n.start_line,
                    col: n.start_col,
                    start_offset: so,
                    len,
                });
                assert(link_views(links@) =~= before + link_of_node(nv, i as int, source@));
            },
            MdKind::Image(url) => {
                let (file_target, _anchor) = split_url_anchor(url.as_str());
                links.push(Link {
                    kind: LinkKind::Image,
                    raw_target: copy_str(url),
                    file_target,
                    anchor: None,
                    display_text: collect_text(nodes, i),
                    line: n.start_line,
                    col: n.start_col,
                    start_offset: so,
                    len,
                });
                assert(link_views(links@) =~= before + link_of_node(nv, i as int, source@));
            },
            MdKind::WikiLink(url) => {
                let (page, anchor) = split_wikilink(url.as_str());
                links.push(Link {
                    kind: LinkKind::WikiLink,
                    raw_target: copy_str(url),
                    file_target: Some(page),
                    anchor,
                    display_text: collect_text(nodes, i),
                    line: n.start_line,
                    col: n.start_col,
                    start_offset: so,
                    len,
                });
                assert(link_views(links@) =~= before + link_of_node(nv, i as int, source@));
            },
            _ => {
                assert(link_views(links@) =~= before + link_of_node(nv, i as int, source@));
            },
        }
        i += 1;
    }
    links
}

} // verus!
