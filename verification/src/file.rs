//! Markdown files: the parse tree as plain nodes, and what a file holds.

use vstd::prelude::*;
use comrak::nodes::NodeValue;
use crate::frontmatter::{Frontmatter, FieldValueView, fields_view, frontmatter_of, parse_frontmatter};
use crate::headings::{Heading, SlugMode, heading_views, headings_of, extract_headings};
use crate::links::{Link, link_views, links_of, extract_links};
use crate::paths::{strip_prefix, strip_prefix_exec};
use crate::text::{chars_of, string_of};

verus! {

#[verifier::external_type_specification]
#[verifier::external_body]
pub struct ExNodeValue(NodeValue);

/// What a node of the markdown tree is, as far as the linter reads it.
pub enum MdKind {
    Heading(u8),
    Link(String),
    Image(String),
    WikiLink(String),
    Text(String),
    Code(String),
    SoftBreak,
    LineBreak,
    FrontMatter(String),
    Other,
}

/// The model of `MdKind`.
pub enum MdKindView {
    Heading(u8),
    Link(Seq<char>),
    Image(Seq<char>),
    WikiLink(Seq<char>),
    Text(Seq<char>),
    Code(Seq<char>),
    SoftBreak,
    LineBreak,
    FrontMatter(Seq<char>),
    Other,
}

impl View for MdKind {
    type V = MdKindView;

    open spec fn view(&self) -> MdKindView {
        match self {
            MdKind::Heading(l) => MdKindView::Heading(*l),
            MdKind::Link(u) => MdKindView::Link(u@),
            MdKind::Image(u) => MdKindView::Image(u@),
            MdKind::WikiLink(u) => MdKindView::WikiLink(u@),
            MdKind::Text(t) => MdKindView::Text(t@),
            MdKind::Code(t) => MdKindView::Code(t@),
            MdKind::SoftBreak => MdKindView::SoftBreak,
            MdKind::LineBreak => MdKindView::LineBreak,
            MdKind::FrontMatter(f) => MdKindView::FrontMatter(f@),
            MdKind::Other => MdKindView::Other,
        }
    }
}

/// One node of the markdown tree, listed in document order: a node's
/// descendants follow it, each deeper than it. Its depth counts the nodes
/// from the root down to it, both included: the root is at depth 1, its
/// children at depth 2.
pub struct MdNode {
    pub depth: usize,
    pub kind: MdKind,
    pub start_line: usize,
    pub start_col: usize,
    pub end_line: usize,
    pub end_col: usize,
}

/// The model of `MdNode`.
pub struct MdNodeView {
    pub depth: usize,
    pub kind: MdKindView,
    pub start_line: usize,
    pub start_col: usize,
    pub end_line: usize,
    pub end_col: usize,
}

impl View for MdNode {
    type V = MdNodeView;

    open spec fn view(&self) -> MdNodeView {
        MdNodeView {
            depth: self.depth,
            kind: self.kind@,
            start_line: self.start_line,
            start_col: self.start_col,
            end_line: self.end_line,
            end_col: self.end_col,
        }
    }
}

/// The models of a list of nodes.
pub open spec fn node_views(nodes: Seq<MdNode>) -> Seq<MdNodeView> {
    nodes.map_values(|n: MdNode| n@)
}

/// The text a node adds to the text of the node that holds it.
pub open spec fn text_piece(n: MdNodeView) -> Seq<char> {
    match n.kind {
        MdKindView::Text(t) => t,
        MdKindView::Code(t) => t,
        MdKindView::SoftBreak => seq![' '],
        MdKindView::LineBreak => seq![' '],
        _ => Seq::empty(),
    }
}

/// The text of the nodes from `j` on that lie deeper than `depth`, up to the
/// first one that does not.
pub open spec fn text_below(nodes: Seq<MdNodeView>, depth: int, j: int) -> Seq<char>
    decreases nodes.len() - j,
{
    if j < 0 || j >= nodes.len() || nodes[j].depth <= depth {
        Seq::empty()
    } else {
        text_piece(nodes[j]) + text_below(nodes, depth, j + 1)
    }
}

/// The plain text inside node `i`: the text of its descendants in order.
pub open spec fn node_text(nodes: Seq<MdNodeView>, i: int) -> Seq<char> {
    text_below(nodes, nodes[i].depth as int, i + 1)
}

fn append_piece(buf: &mut String, n: &MdNode)
    ensures
        final(buf)@ == old(buf)@ + text_piece(n@),
{
    match &n.kind {
        MdKind::Text(t) => buf.append(t.as_str()),
        MdKind::Code(t) => buf.append(t.as_str()),
        MdKind::SoftBreak => {
            buf.push(' ');
            assert(old(buf)@.push(' ') =~= old(buf)@ + seq![' ']);
        },
        MdKind::LineBreak => {
            buf.push(' ');
            assert(old(buf)@.push(' ') =~= old(buf)@ + seq![' ']);
        },
        _ => {
            assert(old(buf)@ + Seq::<char>::empty() =~= old(buf)@);
        },
    }
}

/// The plain text inside node `i`.
pub fn collect_text(nodes: &Vec<MdNode>, i: usize) -> (t: String)
    requires
        i < nodes.len(),
    ensures
        t@ == node_text(node_views(nodes@), i as int),
{
    let ghost nv = node_views(nodes@);
    let d = nodes[i].depth;
    let mut buf = String::new();
    let mut j = i + 1;
    while j < nodes.len() && nodes[j].depth > d
        invariant
            nv == node_views(nodes@),
            i < j <= nodes.len(),
            d == nv[i as int].depth,
            node_text(nv, i as int) == buf@ + text_below(nv, d as int, j as int),
        decreases nodes.len() - j,
    {
        let ghost b0 = buf@;
        append_piece(&mut buf, &nodes[j]);
        assert(b0 + text_below(nv, d as int, j as int) =~= buf@ + text_below(nv, d as int, j + 1));
        j += 1;
    }
    assert(buf@ + text_below(nv, d as int, j as int) =~= buf@);
    buf
}


/// The markdown tree that comrak's parse gives for `text`, as plain nodes.
pub uninterp spec fn markdown_tree(text: Seq<char>) -> Seq<MdNodeView>;

/// Calls `comrak::parse_document` on `text` with the options markdown is read
/// with here (wikilinks with the title after the pipe, `---` front matter,
/// tables, strikethrough, task lists, footnotes), and lists the nodes of the
/// tree in document order (`Node::descendants`), each with its depth (the
/// count of `Node::ancestors`, itself included), what it is (`node_kind`) and its `sourcepos`.
/// The result is named `markdown_tree`.
#[verifier::external_body]
fn comrak_nodes(text: &str) -> (r: Vec<MdNode>)
    ensures
        node_views(r@) == markdown_tree(text@),
{
    let arena = comrak::Arena::new();
    let mut options = comrak::Options::default();
    options.extension.wikilinks_title_after_pipe = true;
    options.extension.front_matter_delimiter = Some("---".to_string());
    options.extension.table = true;
    options.extension.strikethrough = true;
    options.extension.tasklist = true;
    options.extension.footnotes = true;
    let root = comrak::parse_document(&arena, text, &options);
    root.descendants().map(|n| {
        let p = n.data().sourcepos;
        MdNode { depth: n.ancestors().count(), kind: node_kind(&n.data().value), start_line: p.start.line, start_col: p.start.column, end_line: p.end.line, end_col: p.end.column }
    }).collect()
}

/// Tells comrak's `NodeValue` variants apart, moving out the fields the
/// linter reads (heading level, link and image URL, wikilink URL, text and
/// inline code, front matter). Nothing is stated here: `NodeValue` is opaque
/// to Verus; `comrak_nodes`, which calls it, names what comes out.
#[verifier::external_body]
fn node_kind(value: &NodeValue) -> MdKind {
    match value {
        NodeValue::Heading(h) => MdKind::Heading(h.level),
        NodeValue::Link(l) => MdKind::Link(l.url.clone()),
        NodeValue::Image(l) => MdKind::Image(l.url.clone()),
        NodeValue::WikiLink(w) => MdKind::WikiLink(w.url.clone()),
        NodeValue::Text(t) => MdKind::Text(t.to_string()),
        NodeValue::Code(c) => MdKind::Code(c.literal.clone()),
        NodeValue::SoftBreak => MdKind::SoftBreak,
        NodeValue::LineBreak => MdKind::LineBreak,
        NodeValue::FrontMatter(f) => MdKind::FrontMatter(f.clone()),
        _ => MdKind::Other,
    }
}

/// The raw frontmatter of the first child of the root (depth 2) from node `i`
/// on that is frontmatter.
pub open spec fn frontmatter_node(nodes: Seq<MdNodeView>, i: int) -> Option<Seq<char>>
    decreases nodes.len() - i,
{
    if i < 0 || i >= nodes.len() {
        None
    } else {
        match nodes[i].kind {
            MdKindView::FrontMatter(raw) if nodes[i].depth == 2 => Some(raw),
            _ => frontmatter_node(nodes, i + 1),
        }
    }
}

/// The model of an optional frontmatter: its fields.
pub open spec fn fm_view(fm: Option<Frontmatter>) -> Option<Seq<(Seq<char>, FieldValueView)>> {
    match fm {
        Some(f) => Some(fields_view(f.fields@)),
        None => None,
    }
}

/// The frontmatter of a markdown tree: the first frontmatter child of the
/// root, parsed.
pub open spec fn frontmatter_of_nodes(nodes: Seq<MdNodeView>) -> Option<Seq<(Seq<char>, FieldValueView)>> {
    match frontmatter_node(nodes, 0) {
        Some(raw) => frontmatter_of(raw),
        None => None,
    }
}

/// The frontmatter of a markdown tree.
pub fn extract_frontmatter(nodes: &Vec<MdNode>) -> (fm: Option<Frontmatter>)
    ensures
        fm_view(fm) == frontmatter_of_nodes(node_views(nodes@)),
{
    let ghost nv = node_views(nodes@);
    let mut i: usize = 0;
    while i < nodes.len()
        invariant
            nv == node_views(nodes@),
            i <= nodes.len(),
            frontmatter_node(nv, 0) == frontmatter_node(nv, i as int),
        decreases nodes.len() - i,
    {
        if nodes[i].depth == 2 {
            if let MdKind::FrontMatter(raw) = &nodes[i].kind {
                return parse_frontmatter(raw.as_str());
            }
        }
        i += 1;
    }
    None
}

/// A markdown file of the workspace.
#[derive(Debug)]
pub struct MarkdownFile {
    pub path: String,
    pub relative_path: String,
    pub content: String,
    pub headings: Vec<Heading>,
    pub links: Vec<Link>,
    pub frontmatter: Option<Frontmatter>,
}

/// The path relative to the root, or the path itself when it is not below it.
pub open spec fn relative_to(path: Seq<char>, root: Seq<char>) -> Seq<char> {
    match strip_prefix(path, root) {
        Some(r) => r,
        None => path,
    }
}

/// `f` is the file at `path` below `root` with text `content` whose markdown
/// tree is `nodes`.
pub open spec fn file_from(
    f: MarkdownFile,
    path: Seq<char>,
    root: Seq<char>,
    content: Seq<char>,
    nodes: Seq<MdNodeView>,
    mode: SlugMode,
) -> bool {
    &&& f.path@ == path
    &&& f.relative_path@ == relative_to(path, root)
    &&& f.content@ == content
    &&& heading_views(f.headings@) == headings_of(nodes, mode)
    &&& link_views(f.links@) == links_of(nodes, content)
    &&& fm_view(f.frontmatter) == frontmatter_of_nodes(nodes)
}

impl MarkdownFile {
    /// The file at `path` below `root_dir` with text `content`, whose markdown
    /// tree is `nodes`.
    pub fn from_nodes(path: &str, root_dir: &str, content: String, nodes: &Vec<MdNode>, slug_mode: SlugMode) -> (f: MarkdownFile)
        ensures
            file_from(f, path@, root_dir@, content@, node_views(nodes@), slug_mode),
    {
        let p = chars_of(path);
        let r = chars_of(root_dir);
        let relative_path = match strip_prefix_exec(p.as_slice(), r.as_slice()) {
            Some(rel) => string_of(rel.as_slice()),
            None => String::from_str(path),
        };
        let headings = extract_headings(nodes, slug_mode);
        let links = extract_links(nodes, content.as_str());
        let frontmatter = extract_frontmatter(nodes);
        MarkdownFile { path: String::from_str(path), relative_path, content, headings, links, frontmatter }
    }

    /// Parses the text of the file at `path` below `root_dir`.
    pub fn parse(path: &str, root_dir: &str, content: String, slug_mode: SlugMode) -> (f: MarkdownFile)
        ensures
            file_from(f, path@, root_dir@, content@, markdown_tree(content@), slug_mode),
    {
        let nodes = comrak_nodes(content.as_str());
        MarkdownFile::from_nodes(path, root_dir, content, &nodes, slug_mode)
    }
}

} // verus!
