//! Resolving a link to the file (and heading) it names.

use vstd::prelude::*;
use crate::config::{Config, LinkConfig, WikilinkResolution, strs_view};
use crate::headings::{heading_views, slug_matches, slug_matches_spec};
use crate::links::{Link, LinkKind, LinkView, external_target, percent_decode, percent_decoded};
use crate::paths::{join, join_exec, parent, parent_exec, with_md_extension, with_md_extension_exec};
use crate::text::{chars_of, ends_with, is_suffix, lowercase, string_of, to_lowercase};
use crate::workspace::{Workspace, file_aliases, lower_all, stem_or_empty};

verus! {

/// Why a link does not resolve.
#[derive(Debug)]
pub enum ResolveError {
    FileNotFound { target: String },
    AnchorNotFound { file: String, anchor: String },
    AmbiguousWikilink { target: String, candidates: Vec<String> },
    CaseMismatch { target: String, actual: String },
}

/// The model of a `ResolveError`.
pub enum ResolveErrorView {
    FileNotFound { target: Seq<char> },
    AnchorNotFound { file: Seq<char>, anchor: Seq<char> },
    AmbiguousWikilink { target: Seq<char>, candidates: Seq<Seq<char>> },
    CaseMismatch { target: Seq<char>, actual: Seq<char> },
}

impl View for ResolveError {
    type V = ResolveErrorView;

    open spec fn view(&self) -> ResolveErrorView {
        match self {
            ResolveError::FileNotFound { target } => ResolveErrorView::FileNotFound { target: target@ },
            ResolveError::AnchorNotFound { file, anchor } => ResolveErrorView::AnchorNotFound {
                file: file@,
                anchor: anchor@,
            },
            ResolveError::AmbiguousWikilink { target, candidates } => ResolveErrorView::AmbiguousWikilink {
                target: target@,
                candidates: strs_view(candidates@),
            },
            ResolveError::CaseMismatch { target, actual } => ResolveErrorView::CaseMismatch {
                target: target@,
                actual: actual@,
            },
        }
    }
}

/// The model of a resolution result.
pub open spec fn outcome_view(r: Result<Option<String>, ResolveError>) -> Result<Option<Seq<char>>, ResolveErrorView> {
    match r {
        Ok(Some(p)) => Ok(Some(p@)),
        Ok(None) => Ok(None),
        Err(e) => Err(e@),
    }
}

/// The model of a path result.
pub open spec fn path_view(r: Result<String, ResolveError>) -> Result<Seq<char>, ResolveErrorView> {
    match r {
        Ok(p) => Ok(p@),
        Err(e) => Err(e@),
    }
}

/// An anchor holds in a file unless the workspace has headings for the file
/// and none of them matches it.
pub open spec fn anchor_holds(ws: Workspace, file: Seq<char>, anchor: Seq<char>, mode: crate::headings::SlugMode) -> bool {
    match ws.file_at(file) {
        Some(i) => exists|h: int|
            0 <= h < ws.files@[i].headings.len() && slug_matches_spec(
                #[trigger] ws.files@[i].headings@[h]@,
                anchor,
                mode,
            ),
        None => true,
    }
}

/// The result of checking an anchor in a file.
pub open spec fn check_anchor_spec(ws: Workspace, file: Seq<char>, anchor: Seq<char>, mode: crate::headings::SlugMode) -> Result<(), ResolveErrorView> {
    if anchor_holds(ws, file, anchor, mode) {
        Ok(())
    } else {
        Err(ResolveErrorView::AnchorNotFound { file, anchor })
    }
}

/// The directory a link in `source` is relative to.
pub open spec fn base_dir(source: Seq<char>) -> Seq<char> {
    match parent(source) {
        Some(b) => b,
        None => "."@,
    }
}

/// A target resolved relative to the linking file: the decoded target joined
/// to its directory if known; else with `.md` added (unless the target ends
/// with `.md`); else either of them found case-insensitively.
pub open spec fn resolve_relative_spec(ws: Workspace, target: Seq<char>, source: Seq<char>) -> Result<Seq<char>, ResolveErrorView> {
    let resolved = join(base_dir(source), percent_decoded(target));
    let with_ext = with_md_extension(resolved);
    let no_ext = !is_suffix(".md"@, target);
    if ws.is_known(resolved) {
        Ok(resolved)
    } else if no_ext && ws.is_known(with_ext) {
        Ok(with_ext)
    } else {
        match ws.path_case_index(lowercase(resolved)) {
            Some(actual) => Ok(actual),
            None => if no_ext {
                match ws.path_case_index(lowercase(with_ext)) {
                    Some(actual) => Ok(actual),
                    None => Err(ResolveErrorView::FileNotFound { target }),
                }
            } else {
                Err(ResolveErrorView::FileNotFound { target })
            },
        }
    }
}

/// The paths of the given files.
pub open spec fn paths_of(ws: Workspace, idx: Seq<usize>) -> Seq<Seq<char>> {
    idx.map_values(|i: usize| ws.files@[i as int].path@)
}

/// A wikilink target resolved by shortest path: a unique file with that
/// basename (up to case; a case difference is reported when configured), else
/// a unique file with that alias, else the target (with `.md` added unless it
/// ends with it, in any case) below the root; several matches are ambiguous.
pub open spec fn resolve_shortest_spec(ws: Workspace, cfg: LinkConfig, target: Seq<char>) -> Result<Seq<char>, ResolveErrorView> {
    let tl = lowercase(target);
    let b = ws.basename_index(tl);
    let a = ws.alias_index(tl);
    if b.len() == 1 {
        let path = ws.files@[b[0] as int].path@;
        let stem = stem_or_empty(path);
        if cfg.warn_case_mismatch && stem != target && lowercase(stem) == tl {
            Err(ResolveErrorView::CaseMismatch { target, actual: path })
        } else {
            Ok(path)
        }
    } else if b.len() > 1 {
        Err(ResolveErrorView::AmbiguousWikilink { target, candidates: paths_of(ws, b) })
    } else if a.len() == 1 {
        Ok(ws.files@[a[0] as int].path@)
    } else if a.len() > 1 {
        Err(ResolveErrorView::AmbiguousWikilink { target, candidates: paths_of(ws, a) })
    } else {
        let with_ext = if !is_suffix(".md"@, tl) { target + ".md"@ } else { target };
        let candidate = join(ws.root@, with_ext);
        if ws.is_known(candidate) {
            Ok(candidate)
        } else {
            Err(ResolveErrorView::FileNotFound { target })
        }
    }
}

/// A resolved path checked against the link's anchor, if any.
pub open spec fn with_anchor(ws: Workspace, cfg: LinkConfig, resolved: Seq<char>, anchor: Option<Seq<char>>) -> Result<Option<Seq<char>>, ResolveErrorView> {
    match anchor {
        Some(a) => match check_anchor_spec(ws, resolved, a, cfg.slug_mode) {
            Ok(()) => Ok(Some(resolved)),
            Err(e) => Err(e),
        },
        None => Ok(Some(resolved)),
    }
}

/// A wikilink resolved: without a page, the linking file itself (anchor
/// checked there); else by the configured resolution, anchor checked.
pub open spec fn resolve_wikilink_spec(link: LinkView, source: Seq<char>, ws: Workspace, cfg: LinkConfig) -> Result<Option<Seq<char>>, ResolveErrorView> {
    let target = match link.file_target {
        Some(t) => t,
        None => Seq::empty(),
    };
    if target.len() == 0 {
        with_anchor(ws, cfg, source, link.anchor)
    } else {
        let r = match cfg.wikilink_resolution {
            WikilinkResolution::ShortestPath => resolve_shortest_spec(ws, cfg, target),
            WikilinkResolution::Relative => resolve_relative_spec(ws, target, source),
        };
        match r {
            Ok(resolved) => with_anchor(ws, cfg, resolved, link.anchor),
            Err(e) => Err(e),
        }
    }
}

/// A standard link or image resolved: without a file target, the linking
/// file itself (anchor checked there); else relative to it, anchor checked.
pub open spec fn resolve_standard_spec(link: LinkView, source: Seq<char>, ws: Workspace, cfg: LinkConfig) -> Result<Option<Seq<char>>, ResolveErrorView> {
    match link.file_target {
        None => with_anchor(ws, cfg, source, link.anchor),
        Some(t) => match resolve_relative_spec(ws, t, source) {
            Ok(resolved) => with_anchor(ws, cfg, resolved, link.anchor),
            Err(e) => Err(e),
        },
    }
}

/// A link resolved within the workspace: external URLs resolve to nothing;
/// wikilinks and other links as above.
pub open spec fn resolve_link_spec(link: LinkView, source: Seq<char>, ws: Workspace, cfg: LinkConfig) -> Result<Option<Seq<char>>, ResolveErrorView> {
    if external_target(link.raw_target) {
        Ok(None)
    } else {
        match link.kind {
            LinkKind::WikiLink => resolve_wikilink_spec(link, source, ws, cfg),
            _ => resolve_standard_spec(link, source, ws, cfg),
        }
    }
}

/// Checks that `anchor` names a heading of the file at `file_path`; files the
/// workspace has no headings for pass.
pub fn check_anchor(file_path: &str, anchor: &str, workspace: &Workspace, config: &LinkConfig) -> (r: Result<(), ResolveError>)
    ensures
        match r {
            Ok(()) => check_anchor_spec(*workspace, file_path@, anchor@, config.slug_mode) is Ok,
            Err(e) => check_anchor_spec(*workspace, file_path@, anchor@, config.slug_mode) == Err::<(), ResolveErrorView>(e@),
        },
{
    let p = chars_of(file_path);
    match workspace.file_index_at(p.as_slice()) {
        None => Ok(()),
        Some(i) => {
            let headings = &workspace.files[i].headings;
            let mut h: usize = 0;
            while h < headings.len()
                invariant
                    i < workspace.files.len(),
                    workspace.file_at(file_path@) == Some(i as int),
                    h <= headings.len(),
                    headings == workspace.files@[i as int].headings,
                    forall|k: int| 0 <= k < h ==> !slug_matches_spec(#[trigger] headings@[k]@, anchor@, config.slug_mode),
                decreases headings.len() - h,
            {
                if slug_matches(&headings[h], anchor, config.slug_mode) {
                    assert(slug_matches_spec(workspace.files@[i as int].headings@[h as int]@, anchor@, config.slug_mode));
                    return Ok(());
                }
                h += 1;
            }
            Err(ResolveError::AnchorNotFound { file: String::from_str(file_path), anchor: String::from_str(anchor) })
        },
    }
}

fn base_dir_exec(source: &[char]) -> (r: Vec<char>)
    ensures
        r@ == base_dir(source@),
{
    match parent_exec(source) {
        Some(b) => b,
        None => chars_of("."),
    }
}

/// Resolves `target` relative to the directory of `source_file`.
pub fn resolve_relative(target: &str, source_file: &str, workspace: &Workspace) -> (r: Result<String, ResolveError>)
    requires
        workspace.wf(),
    ensures
        path_view(r) == resolve_relative_spec(*workspace, target@, source_file@),
{
    let decoded = percent_decode(target);
    let d = chars_of(decoded.as_str());
    let s = chars_of(source_file);
    let base = base_dir_exec(s.as_slice());
    let resolved = join_exec(base.as_slice(), d.as_slice());
    if workspace.knows(resolved.as_slice()) {
        return Ok(string_of(resolved.as_slice()));
    }
    let t = chars_of(target);
    let md = chars_of(".md");
    let no_ext = !ends_with(t.as_slice(), md.as_slice());
    let with_ext = with_md_extension_exec(resolved.as_slice());
    if no_ext && workspace.knows(with_ext.as_slice()) {
        return Ok(string_of(with_ext.as_slice()));
    }
    let lower_key = to_lowercase(string_of(resolved.as_slice()).as_str());
    if let Some(actual) = workspace.path_case_lookup(lower_key.as_str()) {
        return Ok(actual);
    }
    if no_ext {
        let lower_ext_key = to_lowercase(string_of(with_ext.as_slice()).as_str());
        if let Some(actual) = workspace.path_case_lookup(lower_ext_key.as_str()) {
            return Ok(actual);
        }
    }
    Err(ResolveError::FileNotFound { target: String::from_str(target) })
}

fn candidate_paths(workspace: &Workspace, idx: &Vec<usize>) -> (r: Vec<String>)
    requires
        forall|k: int| 0 <= k < idx.len() ==> #[trigger] idx@[k] < workspace.files.len(),
    ensures
        strs_view(r@) == paths_of(*workspace, idx@),
{
    let mut r: Vec<String> = Vec::new();
    let mut k: usize = 0;
    while k < idx.len()
        invariant
            k <= idx.len(),
            forall|j: int| 0 <= j < idx.len() ==> #[trigger] idx@[j] < workspace.files.len(),
            strs_view(r@) == paths_of(*workspace, idx@).take(k as int),
        decreases idx.len() - k,
    {
        let ghost before = strs_view(r@);
        let p = workspace.files[idx[k]].path.clone();
        r.push(p);
        assert(strs_view(r@) =~= before.push(p@));
        assert(strs_view(r@) =~= paths_of(*workspace, idx@).take(k + 1));
        k += 1;
    }
    assert(paths_of(*workspace, idx@).take(idx.len() as int) =~= paths_of(*workspace, idx@));
    r
}


/// Resolves a wikilink target by shortest path.
pub fn resolve_wikilink_shortest(target: &str, workspace: &Workspace, config: &LinkConfig) -> (r: Result<String, ResolveError>)
    requires
        workspace.wf(),
    ensures
        path_view(r) == resolve_shortest_spec(*workspace, *config, target@),
{
    let target_lower = to_lowercase(target);
    proof {
        workspace.lemma_index_bounds(target_lower@);
    }
    let b = workspace.basename_lookup(target_lower.as_str());
    if b.len() == 1 {
        let path = &workspace.files[b[0]].path;
        if config.warn_case_mismatch {
            let pc = chars_of(path.as_str());
            let stem = match crate::paths::file_stem_exec(pc.as_slice()) {
                Some(s) => string_of(s.as_slice()),
                None => String::new(),
            };
            if !crate::paths::chars_eq_str(stem.as_str(), target)
                && crate::paths::chars_eq_str(to_lowercase(stem.as_str()).as_str(), target_lower.as_str()) {
                return Err(ResolveError::CaseMismatch { target: String::from_str(target), actual: path.clone() });
            }
        }
        return Ok(path.clone());
    } else if b.len() > 1 {
        let candidates = candidate_paths(workspace, &b);
        return Err(ResolveError::AmbiguousWikilink { target: String::from_str(target), candidates });
    }
    let a = workspace.alias_lookup(target_lower.as_str());
    if a.len() == 1 {
        return Ok(workspace.files[a[0]].path.clone());
    } else if a.len() > 1 {
        let candidates = candidate_paths(workspace, &a);
        return Err(ResolveError::AmbiguousWikilink { target: String::from_str(target), candidates });
    }
    let tl = chars_of(target_lower.as_str());
    let md = chars_of(".md");
    let with_ext = if !ends_with(tl.as_slice(), md.as_slice()) {
        crate::text::concat(target, ".md")
    } else {
        String::from_str(target)
    };
    let root = chars_of(workspace.root.as_str());
    let w = chars_of(with_ext.as_str());
    let candidate = join_exec(root.as_slice(), w.as_slice());
    if workspace.knows(candidate.as_slice()) {
        return Ok(string_of(candidate.as_slice()));
    }
    Err(ResolveError::FileNotFound { target: String::from_str(target) })
}

fn check_with_anchor(
    resolved: String,
    anchor: &Option<String>,
    workspace: &Workspace,
    config: &LinkConfig,
) -> (r: Result<Option<String>, ResolveError>)
    ensures
        outcome_view(r) == with_anchor(*workspace, *config, resolved@, crate::links::opt_view(*anchor)),
{
    match anchor {
        Some(a) => match check_anchor(resolved.as_str(), a.as_str(), workspace, config) {
            Ok(()) => Ok(Some(resolved)),
            Err(e) => Err(e),
        },
        None => Ok(Some(resolved)),
    }
}

/// Resolves a wikilink.
pub fn resolve_wikilink(link: &Link, source_file: &str, workspace: &Workspace, config: &LinkConfig) -> (r: Result<Option<String>, ResolveError>)
    requires
        workspace.wf(),
    ensures
        outcome_view(r) == resolve_wikilink_spec(link@, source_file@, *workspace, *config),
{
    let empty = String::new();
    let target = match &link.file_target {
        Some(t) => t,
        None => &empty,
    };
    if target.as_str().is_empty() {
        return check_with_anchor(String::from_str(source_file), &link.anchor, workspace, config);
    }
    let resolved = match config.wikilink_resolution {
        WikilinkResolution::ShortestPath => resolve_wikilink_shortest(target.as_str(), workspace, config),
        WikilinkResolution::Relative => resolve_relative(target.as_str(), source_file, workspace),
    };
    match resolved {
        Ok(p) => check_with_anchor(p, &link.anchor, workspace, config),
        Err(e) => Err(e),
    }
}

/// Resolves a standard link or image.
pub fn resolve_standard_link(link: &Link, source_file: &str, workspace: &Workspace, config: &LinkConfig) -> (r: Result<Option<String>, ResolveError>)
    requires
        workspace.wf(),
    ensures
        outcome_view(r) == resolve_standard_spec(link@, source_file@, *workspace, *config),
{
    match &link.file_target {
        None => check_with_anchor(String::from_str(source_file), &link.anchor, workspace, config),
        Some(t) => match resolve_relative(t.as_str(), source_file, workspace) {
            Ok(p) => check_with_anchor(p, &link.anchor, workspace, config),
            Err(e) => Err(e),
        },
    }
}

/// Resolve a link within the workspace. Returns Ok(resolved path) or Err(reason).
pub fn resolve_link(link: &Link, source_file: &str, workspace: &Workspace, config: &Config) -> (r: Result<Option<String>, ResolveError>)
    requires
        workspace.wf(),
    ensures
        outcome_view(r) == resolve_link_spec(link@, source_file@, *workspace, config.links),
{
    if link.is_external() {
        return Ok(None);
    }
    match link.kind {
        LinkKind::WikiLink => resolve_wikilink(link, source_file, workspace, &config.links),
        _ => resolve_standard_link(link, source_file, workspace, &config.links),
    }
}

/// A standard link or image is reported missing only when no file it could
/// mean is known: neither its decoded target taken from the linking file's
/// directory, nor that path with `.md` (for a target without it).
pub proof fn law_missing_only_when_unknown(
    link: LinkView,
    source: Seq<char>,
    ws: Workspace,
    cfg: LinkConfig,
    target: Seq<char>,
)
    requires
        link.kind != LinkKind::WikiLink,
        resolve_link_spec(link, source, ws, cfg) == Err::<Option<Seq<char>>, ResolveErrorView>(
            ResolveErrorView::FileNotFound { target },
        ),
    ensures
        link.file_target == Some(target),
        !ws.is_known(join(base_dir(source), percent_decoded(target))),
        !is_suffix(".md"@, target) ==> !ws.is_known(with_md_extension(join(base_dir(source), percent_decoded(target)))),
{
}

/// An anchor is reported missing only for a file of the workspace none of
/// whose headings matches it.
pub proof fn law_anchor_missing_only_when_unmatched(
    link: LinkView,
    source: Seq<char>,
    ws: Workspace,
    cfg: LinkConfig,
    file: Seq<char>,
    anchor: Seq<char>,
)
    requires
        resolve_link_spec(link, source, ws, cfg) == Err::<Option<Seq<char>>, ResolveErrorView>(
            ResolveErrorView::AnchorNotFound { file, anchor },
        ),
    ensures
        link.anchor == Some(anchor),
        ws.file_at(file) is Some,
        forall|h: int|
            0 <= h < ws.files@[ws.file_at(file)->0].headings.len() ==> !slug_matches_spec(
                #[trigger] ws.files@[ws.file_at(file)->0].headings@[h]@,
                anchor,
                cfg.slug_mode,
            ),
{
}

/// Under shortest-path resolution, a wikilink whose target no file has as
/// basename or alias (up to case) names a path below the workspace root: the
/// target with `.md` added (unless it already ends in `.md`). When that path
/// is known, the link resolves to it.
pub proof fn law_wikilink_below_root(ws: Workspace, link: LinkView, source: Seq<char>, cfg: LinkConfig, t: Seq<char>)
    requires
        ws.wf(),
        link.kind == LinkKind::WikiLink,
        !external_target(link.raw_target),
        link.file_target == Some(t),
        t.len() > 0,
        link.anchor is None,
        cfg.wikilink_resolution == WikilinkResolution::ShortestPath,
        forall|i: int| 0 <= i < ws.files.len() ==> lowercase(stem_or_empty(#[trigger] ws.files@[i].path@)) != lowercase(t),
        forall|i: int| 0 <= i < ws.files.len() ==> !lower_all(file_aliases(#[trigger] ws.files@[i])).contains(lowercase(t)),
        ws.is_known(join(ws.root@, if is_suffix(".md"@, lowercase(t)) { t } else { t + ".md"@ })),
    ensures
        resolve_link_spec(link, source, ws, cfg) == Ok::<Option<Seq<char>>, ResolveErrorView>(
            Some(join(ws.root@, if is_suffix(".md"@, lowercase(t)) { t } else { t + ".md"@ })),
        ),
{
    let tl = lowercase(t);
    ws.law_indexes();
    if ws.basename_index(tl).len() > 0 {
        let f = ws.basename_index(tl)[0] as int;
        assert(lowercase(stem_or_empty(ws.files@[f].path@)) == tl);
    }
    if ws.alias_index(tl).len() > 0 {
        let f = ws.alias_index(tl)[0] as int;
        assert(lower_all(file_aliases(ws.files@[f])).contains(tl));
    }
}

} // verus!
