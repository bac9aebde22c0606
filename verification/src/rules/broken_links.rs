//! Every internal link, wikilink, heading anchor and image must resolve.

use vstd::prelude::*;
use crate::config::{Config, strs_view};
use crate::file::MarkdownFile;
use crate::links::{LinkKind, LinkView, external_target, has_scheme};
use crate::paths::{file_stem, file_stem_exec, parent, parent_exec, strip_prefix, strip_prefix_exec};
use crate::resolve::{ResolveError, ResolveErrorView, resolve_link, resolve_link_spec};
use crate::text::{chars_of, join_strings, join_with, string_of};
use crate::workspace::Workspace;
use super::{Diagnostic, DiagnosticView, Severity, WorkspaceRule, all_of_rule, diag_in, diag_views, lemma_all_of_rule_add, make_diag};

verus! {

/// Validates that all internal links, wikilinks, heading anchors, and image
/// references resolve to existing targets.
pub struct BrokenLinks;

/// Whether the rule checks a link: not one that names no file (a URI
/// scheme), and not an external URL unless external links are checked.
pub open spec fn link_is_checked(l: LinkView, config: Config) -> bool {
    &&& !(l.kind != LinkKind::WikiLink && has_scheme(l.raw_target))
    &&& !(external_target(l.raw_target) && !config.links.check_external)
}

/// A path shown relative to the root when it is below it.
pub open spec fn shown_relative(p: Seq<char>, root: Seq<char>) -> Seq<char> {
    match strip_prefix(p, root) {
        Some(r) => r,
        None => p,
    }
}

/// The directory of a relative path as a help text shows it: ending in `/`
/// (empty when the file lies at the top), or the path itself when it has no
/// directory.
pub open spec fn shown_dir(p: Seq<char>) -> Seq<char> {
    match parent(p) {
        Some(d) => if d.len() == 0 {
            Seq::empty()
        } else if d.last() == '/' {
            d
        } else {
            d + "/"@
        },
        None => p,
    }
}

/// The name a case mismatch shows for the actual file.
pub open spec fn stem_or_unknown(p: Seq<char>) -> Seq<char> {
    match file_stem(p) {
        Some(s) => s,
        None => "?"@,
    }
}

/// The diagnostic for a link of `f` that does not resolve.
pub open spec fn unresolved_diag(ws: Workspace, f: MarkdownFile, l: LinkView, e: ResolveErrorView) -> DiagnosticView {
    match e {
        ResolveErrorView::FileNotFound { target } => diag_in(
            f,
            "broken-links"@,
            Severity::Error,
            "link target not found: "@ + target,
            l.line,
            l.col,
            l.start_offset,
            l.len,
            Some("file `"@ + target + "` does not exist relative to `"@ + shown_dir(f.relative_path@) + "`"@),
        ),
        ResolveErrorView::AnchorNotFound { file, anchor } => diag_in(
            f,
            "broken-links"@,
            Severity::Error,
            "heading anchor not found: #"@ + anchor,
            l.line,
            l.col,
            l.start_offset,
            l.len,
            Some("no heading matching `#"@ + anchor + "` in `"@ + shown_relative(file, ws.root@) + "`"@),
        ),
        ResolveErrorView::AmbiguousWikilink { target, candidates } => diag_in(
            f,
            "broken-links"@,
            Severity::Warning,
            "ambiguous wikilink: [["@ + target + "]]"@,
            l.line,
            l.col,
            l.start_offset,
            l.len,
            Some(
                "multiple files match: "@ + join_with(
                    candidates.map_values(|c: Seq<char>| shown_relative(c, ws.root@)),
                    ", "@,
                ),
            ),
        ),
        ResolveErrorView::CaseMismatch { target, actual } => diag_in(
            f,
            "broken-links"@,
            Severity::Warning,
            "case mismatch: `"@ + target + "` vs `"@ + stem_or_unknown(actual) + "`"@,
            l.line,
            l.col,
            l.start_offset,
            l.len,
            Some(
                "link uses `"@ + target + "` but file is `"@ + stem_or_unknown(actual)
                    + "` (may break on case-sensitive filesystems)"@,
            ),
        ),
    }
}

/// What the rule reports for one link of `f`.
pub open spec fn link_diags(ws: Workspace, config: Config, f: MarkdownFile, l: LinkView) -> Seq<DiagnosticView> {
    if !link_is_checked(l, config) {
        Seq::empty()
    } else {
        match resolve_link_spec(l, f.path@, ws, config.links) {
            Ok(_) => Seq::empty(),
            Err(e) => seq![unresolved_diag(ws, f, l, e)],
        }
    }
}

/// What the rule reports for the first `k` links of `f`.
pub open spec fn file_link_diags(ws: Workspace, config: Config, f: MarkdownFile, k: int) -> Seq<DiagnosticView>
    decreases k,
{
    if k <= 0 {
        Seq::empty()
    } else {
        file_link_diags(ws, config, f, k - 1) + link_diags(ws, config, f, f.links@[k - 1]@)
    }
}

/// What the rule reports for the first `i` files.
pub open spec fn broken_links_upto(ws: Workspace, config: Config, i: int) -> Seq<DiagnosticView>
    decreases i,
{
    if i <= 0 {
        Seq::empty()
    } else {
        broken_links_upto(ws, config, i - 1) + file_link_diags(
            ws,
            config,
            ws.files@[i - 1],
            ws.files@[i - 1].links.len() as int,
        )
    }
}

/// The diagnostics of the broken-links rule.
pub open spec fn broken_links_spec(ws: Workspace, config: Config) -> Seq<DiagnosticView> {
    broken_links_upto(ws, config, ws.files.len() as int)
}

fn shown_relative_exec(p: &String, root: &String) -> (r: String)
    ensures
        r@ == shown_relative(p@, root@),
{
    let pc = chars_of(p.as_str());
    let rc = chars_of(root.as_str());
    match strip_prefix_exec(pc.as_slice(), rc.as_slice()) {
        Some(rel) => string_of(rel.as_slice()),
        None => p.clone(),
    }
}

fn stem_or_unknown_exec(p: &String) -> (r: String)
    ensures
        r@ == stem_or_unknown(p@),
{
    let pc = chars_of(p.as_str());
    match file_stem_exec(pc.as_slice()) {
        Some(s) => string_of(s.as_slice()),
        None => String::from_str("?"),
    }
}

fn shown_dir_exec(rel: &Vec<char>, p: &String) -> (r: String)
    requires
        rel@ == p@,
    ensures
        r@ == shown_dir(p@),
{
    match parent_exec(rel.as_slice()) {
        Some(d) => {
            if d.len() == 0 {
                String::new()
            } else if d[d.len() - 1] == '/' {
                string_of(d.as_slice())
            } else {
                let mut r = string_of(d.as_slice());
                r.append("/");
                r
            }
        },
        None => p.clone(),
    }
}

/// `a` + `b` + `c`.
fn cat3(a: &str, b: &str, c: &str) -> (r: String)
    ensures
        r@ == a@ + b@ + c@,
{
    let mut r = String::from_str(a);
    r.append(b);
    r.append(c);
    r
}

fn unresolved(workspace: &Workspace, file: &MarkdownFile, link: &crate::links::Link, e: ResolveError) -> (d: Diagnostic)
    ensures
        d@ == unresolved_diag(*workspace, *file, link@, e@),
{
    match e {
        ResolveError::FileNotFound { target } => {
            let message = crate::text::concat("link target not found: ", target.as_str());
            let rel = chars_of(file.relative_path.as_str());
            let dir = shown_dir_exec(&rel, &file.relative_path);
            let mut help = cat3("file `", target.as_str(), "` does not exist relative to `");
            help.append(dir.as_str());
            help.append("`");
            make_diag(file, "broken-links", Severity::Error, message, link.line, link.col, link.start_offset, link.len, Some(help))
        },
        ResolveError::AnchorNotFound { file: target_file, anchor } => {
            let message = crate::text::concat("heading anchor not found: #", anchor.as_str());
            let rel = shown_relative_exec(&target_file, &workspace.root);
            let mut help = cat3("no heading matching `#", anchor.as_str(), "` in `");
            help.append(rel.as_str());
            help.append("`");
            make_diag(file, "broken-links", Severity::Error, message, link.line, link.col, link.start_offset, link.len, Some(help))
        },
        ResolveError::AmbiguousWikilink { target, candidates } => {
            let ghost cv = strs_view(candidates@);
            let mut shown: Vec<String> = Vec::new();
            let mut k: usize = 0;
            while k < candidates.len()
                invariant
                    cv == strs_view(candidates@),
                    k <= candidates.len(),
                    shown@.map_values(|s: String| s@) == cv.map_values(|c: Seq<char>| shown_relative(c, workspace.root@)).take(k as int),
                decreases candidates.len() - k,
            {
                let ghost before = shown@.map_values(|s: String| s@);
                let s = shown_relative_exec(&candidates[k], &workspace.root);
                shown.push(s);
                assert(shown@.map_values(|s: String| s@) =~= before.push(s@));
                assert(shown@.map_values(|s: String| s@) =~= cv.map_values(|c: Seq<char>| shown_relative(c, workspace.root@)).take(k + 1));
                k += 1;
            }
            assert(cv.map_values(|c: Seq<char>| shown_relative(c, workspace.root@)).take(candidates.len() as int)
                =~= cv.map_values(|c: Seq<char>| shown_relative(c, workspace.root@)));
            let message = cat3("ambiguous wikilink: [[", target.as_str(), "]]");
            let help = crate::text::concat("multiple files match: ", join_strings(&shown, ", ").as_str());
            make_diag(file, "broken-links", Severity::Warning, message, link.line, link.col, link.start_offset, link.len, Some(help))
        },
        ResolveError::CaseMismatch { target, actual } => {
            let name = stem_or_unknown_exec(&actual);
            let mut message = cat3("case mismatch: `", target.as_str(), "` vs `");
            message.append(name.as_str());
            message.append("`");
            let mut help = cat3("link uses `", target.as_str(), "` but file is `");
            help.append(name.as_str());
            help.append("` (may break on case-sensitive filesystems)");
            make_diag(file, "broken-links", Severity::Warning, message, link.line, link.col, link.start_offset, link.len, Some(help))
        },
    }
}

impl WorkspaceRule for BrokenLinks {
    fn name(&self) -> (n: &str)
        ensures
            n@ == "broken-links"@,
    {
        "broken-links"
    }

    fn default_severity(&self) -> (s: Severity)
        ensures
            s == Severity::Error,
    {
        Severity::Error
    }

    fn check(&self, workspace: &Workspace, config: &Config) -> (r: Vec<Diagnostic>)
        ensures
            diag_views(r@) == broken_links_spec(*workspace, *config),
    {
        let mut diagnostics: Vec<Diagnostic> = Vec::new();
        let mut i: usize = 0;
        while i < workspace.files.len()
            invariant
                workspace.wf(),
                i <= workspace.files.len(),
                diag_views(diagnostics@) == broken_links_upto(*workspace, *config, i as int),
            decreases workspace.files.len() - i,
        {
            let file = &workspace.files[i];
            let ghost start = diag_views(diagnostics@);
            let mut j: usize = 0;
            while j < file.links.len()
                invariant
                    workspace.wf(),
                    i < workspace.files.len(),
                    *file == workspace.files@[i as int],
                    j <= file.links.len(),
                    diag_views(diagnostics@) == start + file_link_diags(*workspace, *config, *file, j as int),
                decreases file.links.len() - j,
            {
                let link = &file.links[j];
                let ghost before = diag_views(diagnostics@);
                if !link.should_skip() && !(link.is_external() && !config.links.check_external) {
                    match resolve_link(link, file.path.as_str(), workspace, config) {
                        Ok(_) => {},
                        Err(e) => {
                            let d = unresolved(workspace, file, link, e);
                            diagnostics.push(d);
                        },
                    }
                }
                assert(diag_views(diagnostics@) =~= before + link_diags(*workspace, *config, *file, link@));
                j += 1;
            }
            i += 1;
        }
        diagnostics
    }
}

/// Every diagnostic of the rule names it.
pub proof fn lemma_broken_links_rule(ws: Workspace, config: Config, i: int)
    ensures
        all_of_rule(broken_links_upto(ws, config, i), "broken-links"@),
    decreases i,
{
    if i > 0 {
        lemma_broken_links_rule(ws, config, i - 1);
        let f = ws.files@[i - 1];
        lemma_file_links_rule(ws, config, f, f.links.len() as int);
        lemma_all_of_rule_add(
            broken_links_upto(ws, config, i - 1),
            file_link_diags(ws, config, f, f.links.len() as int),
            "broken-links"@,
        );
    }
}

proof fn lemma_file_links_rule(ws: Workspace, config: Config, f: MarkdownFile, k: int)
    ensures
        all_of_rule(file_link_diags(ws, config, f, k), "broken-links"@),
    decreases k,
{
    if k > 0 {
        lemma_file_links_rule(ws, config, f, k - 1);
        let l = f.links@[k - 1]@;
        assert(all_of_rule(link_diags(ws, config, f, l), "broken-links"@)) by {
            if link_is_checked(l, config) {
                if let Err(e) = resolve_link_spec(l, f.path@, ws, config.links) {
                    assert(unresolved_diag(ws, f, l, e).rule == "broken-links"@);
                }
            }
        }
        lemma_all_of_rule_add(file_link_diags(ws, config, f, k - 1), link_diags(ws, config, f, l), "broken-links"@);
    }
}

/// Link `l` of the file at `src` is one the rule looks at (not a URI that
/// names no file, and not an external URL unless those are checked), and it
/// does not resolve.
pub open spec fn fails_to_resolve(ws: Workspace, config: Config, l: LinkView, src: Seq<char>) -> bool {
    &&& !(l.kind != LinkKind::WikiLink && has_scheme(l.raw_target))
    &&& !(external_target(l.raw_target) && !config.links.check_external)
    &&& resolve_link_spec(l, src, ws, config.links) is Err
}

/// Link `j` of file `i` fails to resolve.
pub open spec fn link_fails(ws: Workspace, config: Config, i: int, j: int) -> bool {
    fails_to_resolve(ws, config, ws.files@[i].links@[j]@, ws.files@[i].path@)
}

/// How many of the first `k` links of file `i` fail to resolve.
pub open spec fn failures_in_file(ws: Workspace, config: Config, i: int, k: int) -> nat
    decreases k,
{
    if k <= 0 {
        0
    } else {
        failures_in_file(ws, config, i, k - 1) + if link_fails(ws, config, i, k - 1) { 1nat } else { 0nat }
    }
}

/// How many links of the first `i` files fail to resolve.
pub open spec fn failures_upto(ws: Workspace, config: Config, i: int) -> nat
    decreases i,
{
    if i <= 0 {
        0
    } else {
        failures_upto(ws, config, i - 1) + failures_in_file(ws, config, i - 1, ws.files@[i - 1].links.len() as int)
    }
}

/// `d` is a broken-links finding at link `j` of file `i`.
pub open spec fn reports_link(d: DiagnosticView, ws: Workspace, i: int, j: int) -> bool {
    let l = ws.files@[i].links@[j]@;
    &&& d.rule == "broken-links"@
    &&& d.file == ws.files@[i].path@
    &&& d.line == l.line
    &&& d.col == l.col
    &&& d.start_offset == l.start_offset
    &&& d.len == l.len
}

/// `d` reports one of the first `m` links of file `i`, one that fails.
pub open spec fn reports_failure_in(d: DiagnosticView, ws: Workspace, config: Config, i: int, m: int) -> bool {
    exists|j: int| 0 <= j < m && link_fails(ws, config, i, j) && #[trigger] reports_link(d, ws, i, j)
}

/// `d` reports a failing link of one of the first `n` files.
pub open spec fn reports_some_failure(d: DiagnosticView, ws: Workspace, config: Config, n: int) -> bool {
    exists|i: int|
        0 <= i < n && #[trigger] reports_failure_in(d, ws, config, i, ws.files@[i].links.len() as int)
}

proof fn lemma_file_failures(ws: Workspace, config: Config, i: int, k: int)
    requires
        0 <= i < ws.files.len(),
        k <= ws.files@[i].links.len(),
    ensures
        file_link_diags(ws, config, ws.files@[i], k).len() == failures_in_file(ws, config, i, k),
        forall|m: int|
            0 <= m < file_link_diags(ws, config, ws.files@[i], k).len() ==> #[trigger] reports_failure_in(
                file_link_diags(ws, config, ws.files@[i], k)[m],
                ws,
                config,
                i,
                k,
            ),
        forall|j: int|
            0 <= j < k && #[trigger] link_fails(ws, config, i, j) ==> exists|m: int|
                0 <= m < file_link_diags(ws, config, ws.files@[i], k).len() && #[trigger] reports_link(
                    file_link_diags(ws, config, ws.files@[i], k)[m],
                    ws,
                    i,
                    j,
                ),
    decreases k,
{
    let f = ws.files@[i];
    if k > 0 {
        lemma_file_failures(ws, config, i, k - 1);
        let a = file_link_diags(ws, config, f, k - 1);
        let l = f.links@[k - 1]@;
        let b = link_diags(ws, config, f, l);
        let r = file_link_diags(ws, config, f, k);
        assert(r == a + b);
        assert(link_fails(ws, config, i, k - 1) <==> b.len() == 1);
        if b.len() == 1 {
            let e = resolve_link_spec(l, f.path@, ws, config.links)->Err_0;
            assert(b[0] == unresolved_diag(ws, f, l, e));
            assert(reports_link(b[0], ws, i, k - 1));
        }
        assert forall|m: int| 0 <= m < r.len() implies #[trigger] reports_failure_in(r[m], ws, config, i, k) by {
            if m < a.len() {
                assert(r[m] == a[m]);
                assert(reports_failure_in(a[m], ws, config, i, k - 1));
                let j = choose|j: int| 0 <= j < k - 1 && link_fails(ws, config, i, j) && #[trigger] reports_link(a[m], ws, i, j);
                assert(reports_link(r[m], ws, i, j));
            } else {
                assert(r[m] == b[0]);
                assert(reports_link(r[m], ws, i, k - 1));
            }
        }
        assert forall|j: int| 0 <= j < k && #[trigger] link_fails(ws, config, i, j) implies exists|m: int|
            0 <= m < r.len() && #[trigger] reports_link(r[m], ws, i, j) by {
            if j < k - 1 {
                let m = choose|m: int| 0 <= m < a.len() && #[trigger] reports_link(a[m], ws, i, j);
                assert(r[m] == a[m]);
                assert(reports_link(r[m], ws, i, j));
            } else {
                assert(r[a.len() as int] == b[0]);
                assert(reports_link(r[a.len() as int], ws, i, j));
            }
        }
    } else {
        assert(file_link_diags(ws, config, f, k).len() == 0);
    }
}

proof fn lemma_broken_links_failures(ws: Workspace, config: Config, n: int)
    requires
        0 <= n <= ws.files.len(),
    ensures
        broken_links_upto(ws, config, n).len() == failures_upto(ws, config, n),
        forall|m: int|
            0 <= m < broken_links_upto(ws, config, n).len() ==> #[trigger] reports_some_failure(
                broken_links_upto(ws, config, n)[m],
                ws,
                config,
                n,
            ),
        forall|i: int, j: int|
            0 <= i < n && 0 <= j < ws.files@[i].links.len() && #[trigger] link_fails(ws, config, i, j) ==> exists|m: int|
                0 <= m < broken_links_upto(ws, config, n).len() && #[trigger] reports_link(
                    broken_links_upto(ws, config, n)[m],
                    ws,
                    i,
                    j,
                ),
    decreases n,
{
    if n > 0 {
        lemma_broken_links_failures(ws, config, n - 1);
        let i = n - 1;
        let k = ws.files@[i].links.len() as int;
        lemma_file_failures(ws, config, i, k);
        let a = broken_links_upto(ws, config, n - 1);
        let b = file_link_diags(ws, config, ws.files@[i], k);
        let r = broken_links_upto(ws, config, n);
        assert(r == a + b);
        assert forall|m: int| 0 <= m < r.len() implies #[trigger] reports_some_failure(r[m], ws, config, n) by {
            if m < a.len() {
                assert(r[m] == a[m]);
                assert(reports_some_failure(a[m], ws, config, n - 1));
                let i0 = choose|i0: int|
                    0 <= i0 < n - 1 && #[trigger] reports_failure_in(a[m], ws, config, i0, ws.files@[i0].links.len() as int);
                assert(reports_failure_in(r[m], ws, config, i0, ws.files@[i0].links.len() as int));
            } else {
                assert(r[m] == b[m - a.len()]);
                assert(reports_failure_in(b[m - a.len()], ws, config, i, k));
                assert(reports_failure_in(r[m], ws, config, i, ws.files@[i].links.len() as int));
            }
        }
        assert forall|i1: int, j: int|
            0 <= i1 < n && 0 <= j < ws.files@[i1].links.len() && #[trigger] link_fails(ws, config, i1, j) implies exists|m: int|
            0 <= m < r.len() && #[trigger] reports_link(r[m], ws, i1, j) by {
            if i1 < n - 1 {
                let m = choose|m: int| 0 <= m < a.len() && #[trigger] reports_link(a[m], ws, i1, j);
                assert(r[m] == a[m]);
                assert(reports_link(r[m], ws, i1, j));
            } else {
                let m = choose|m: int| 0 <= m < b.len() && #[trigger] reports_link(b[m], ws, i, j);
                assert(r[a.len() + m] == b[m]);
                assert(reports_link(r[a.len() + m], ws, i1, j));
            }
        }
    } else {
        assert(broken_links_upto(ws, config, n).len() == 0);
    }
}

/// The broken-links rule reports each link that it looks at and that does
/// not resolve, once, at that link, and nothing else: as many findings as
/// such links, each at such a link, and one at every such link.
pub proof fn law_broken_links(ws: Workspace, config: Config)
    ensures
        broken_links_spec(ws, config).len() == failures_upto(ws, config, ws.files.len() as int),
        forall|m: int|
            0 <= m < broken_links_spec(ws, config).len() ==> #[trigger] reports_some_failure(
                broken_links_spec(ws, config)[m],
                ws,
                config,
                ws.files.len() as int,
            ),
        forall|i: int, j: int|
            0 <= i < ws.files.len() && 0 <= j < ws.files@[i].links.len() && #[trigger] link_fails(ws, config, i, j)
                ==> exists|m: int|
                0 <= m < broken_links_spec(ws, config).len() && #[trigger] reports_link(
                    broken_links_spec(ws, config)[m],
                    ws,
                    i,
                    j,
                ),
{
    let n = ws.files.len() as int;
    lemma_broken_links_failures(ws, config, n);
    let r = broken_links_spec(ws, config);
    assert(r == broken_links_upto(ws, config, n));
    assert forall|i: int, j: int|
        0 <= i < n && 0 <= j < ws.files@[i].links.len() && #[trigger] link_fails(ws, config, i, j) implies exists|m: int|
        0 <= m < r.len() && #[trigger] reports_link(r[m], ws, i, j) by {
        let m = choose|m: int| 0 <= m < broken_links_upto(ws, config, n).len() && #[trigger] reports_link(
            broken_links_upto(ws, config, n)[m],
            ws,
            i,
            j,
        );
        assert(reports_link(r[m], ws, i, j));
    }
}

} // verus!
