//! Pages that no other page links to.

use vstd::prelude::*;
use crate::config::{Config, LinkConfig, lookup_rule, option_strs_spec, rule_option, strs_view};
use crate::file::MarkdownFile;
use crate::links::{LinkKind, LinkView, external_target};
use crate::paths::{file_name, file_name_exec, same_path, same_path_exec};
use crate::resolve::{resolve_link, resolve_link_spec};
use crate::text::{chars_of, string_of};
use crate::workspace::Workspace;
use super::{Diagnostic, DiagnosticView, Severity, WorkspaceRule, all_of_rule, diag_in, lemma_all_of_rule_add, diag_views, make_diag, first_line_len, first_line_span};

verus! {

/// Flags markdown files that no other file links to.
pub struct OrphanPages;

impl OrphanPages {
    /// The rule is meant to be turned on by configuration.
    pub fn opt_in(&self) -> (b: bool)
        ensures
            b,
    {
        true
    }
}

/// Whether `*`-pattern `p` matches `t`, where `*` stands for any run of
/// characters other than `/`.
pub open spec fn glob(p: Seq<char>, t: Seq<char>) -> bool
    decreases p.len() + t.len(),
{
    if p.len() == 0 {
        t.len() == 0
    } else if p[0] == '*' {
        glob(p.drop_first(), t) || (t.len() > 0 && t[0] != '/' && glob(p, t.drop_first()))
    } else {
        t.len() > 0 && t[0] == p[0] && glob(p.drop_first(), t.drop_first())
    }
}

fn glob_from(p: &[char], i: usize, t: &[char], j: usize) -> (b: bool)
    requires
        i <= p.len(),
        j <= t.len(),
    ensures
        b == glob(p@.skip(i as int), t@.skip(j as int)),
    decreases p.len() - i + t.len() - j,
{
    let ghost ps = p@.skip(i as int);
    let ghost ts = t@.skip(j as int);
    if i == p.len() {
        return j == t.len();
    }
    assert(ps.drop_first() =~= p@.skip(i + 1));
    assert(j < t.len() ==> ts.drop_first() =~= t@.skip(j + 1));
    if p[i] == '*' {
        if glob_from(p, i + 1, t, j) {
            return true;
        }
        j < t.len() && t[j] != '/' && glob_from(p, i, t, j + 1)
    } else {
        j < t.len() && t[j] == p[i] && glob_from(p, i + 1, t, j + 1)
    }
}

/// Simple glob matching supporting only `*` as a wildcard for any sequence of non-`/` chars.
pub fn glob_match(pattern: &str, text: &str) -> (b: bool)
    ensures
        b == glob(pattern@, text@),
{
    let p = chars_of(pattern);
    let t = chars_of(text);
    assert(p@.skip(0) =~= p@);
    assert(t@.skip(0) =~= t@);
    glob_from(p.as_slice(), 0, t.as_slice(), 0)
}

/// A pattern without `*` matches exactly the text equal to it.
pub proof fn law_glob_literal(p: Seq<char>, t: Seq<char>)
    requires
        !p.contains('*'),
    ensures
        glob(p, t) <==> p == t,
    decreases p.len() + t.len(),
{
    if p.len() > 0 && t.len() > 0 {
        assert(p[0] != '*');
        assert(!p.drop_first().contains('*')) by {
            if p.drop_first().contains('*') {
                let k = choose|k: int| 0 <= k < p.drop_first().len() && p.drop_first()[k] == '*';
                assert(p[k + 1] == '*');
            }
        }
        law_glob_literal(p.drop_first(), t.drop_first());
        if p == t {
            assert(p.drop_first() == t.drop_first());
        }
        if t[0] == p[0] && p.drop_first() == t.drop_first() {
            assert forall|i: int| 0 <= i < p.len() implies p[i] == t[i] by {
                if i > 0 {
                    assert(p[i] == p.drop_first()[i - 1]);
                    assert(t[i] == t.drop_first()[i - 1]);
                }
            }
            assert(p =~= t);
        }
    } else if p.len() > 0 {
        assert(p[0] != '*');
    } else if t.len() == 0 {
        assert(p =~= t);
    }
}

/// `*` alone matches exactly the texts without `/`.
pub proof fn law_glob_star(t: Seq<char>)
    ensures
        glob(seq!['*'], t) <==> !t.contains('/'),
    decreases t.len(),
{
    let star = seq!['*'];
    assert(star.len() == 1 && star[0] == '*');
    assert(star.drop_first() =~= Seq::<char>::empty());
    assert(glob(star, t) == (glob(star.drop_first(), t) || (t.len() > 0 && t[0] != '/' && glob(star, t.drop_first()))));
    assert(glob(Seq::<char>::empty(), t) == (t.len() == 0));
    if t.len() > 0 {
        law_glob_star(t.drop_first());
        if t.contains('/') && t[0] != '/' {
            let k = choose|k: int| 0 <= k < t.len() && t[k] == '/';
            assert(t.drop_first()[k - 1] == '/');
        }
        if t.drop_first().contains('/') {
            let k = choose|k: int| 0 <= k < t.drop_first().len() && t.drop_first()[k] == '/';
            assert(t[k + 1] == '/');
        }
        if t[0] == '/' {
            assert(t.contains('/'));
        }
    }
}

/// Whether a link counts as a reference to a page: not external, and not an
/// anchor-only standard link.
pub open spec fn counts_as_reference(l: LinkView) -> bool {
    !external_target(l.raw_target) && !(l.file_target is None && l.kind != LinkKind::WikiLink)
}

/// The path a link of file `i` leads to, when it counts, resolves to one,
/// and that path is not file `i` itself (a page's links to itself are no
/// incoming links).
pub open spec fn reference_target(ws: Workspace, cfg: LinkConfig, i: int, j: int) -> Option<Seq<char>> {
    let l = ws.files@[i].links@[j]@;
    if counts_as_reference(l) {
        match resolve_link_spec(l, ws.files@[i].path@, ws, cfg) {
            Ok(Some(r)) => if same_path(r, ws.files@[i].path@) {
                None
            } else {
                Some(r)
            },
            _ => None,
        }
    } else {
        None
    }
}

/// Whether link `j` of file `i` leads to path `p`.
pub open spec fn leads_to(ws: Workspace, cfg: LinkConfig, i: int, j: int, p: Seq<char>) -> bool {
    match reference_target(ws, cfg, i, j) {
        Some(r) => same_path(r, p),
        None => false,
    }
}

/// Whether some counted link of the workspace resolves to `t`.
pub open spec fn from_some_link(ws: Workspace, cfg: LinkConfig, t: Seq<char>) -> bool {
    exists|a: int, b: int|
        0 <= a < ws.files.len() && 0 <= b < ws.files@[a].links.len() && #[trigger] reference_target(ws, cfg, a, b) == Some(t)
}

/// Whether some link of another file leads to path `p`.
pub open spec fn is_referenced(ws: Workspace, cfg: LinkConfig, p: Seq<char>) -> bool {
    exists|i: int, j: int|
        0 <= i < ws.files.len() && 0 <= j < ws.files@[i].links.len() && #[trigger] leads_to(ws, cfg, i, j, p)
}

/// The exclude patterns: the strings of the rule's `exclude` option when it
/// is set, else `index.md` and `README.md`.
pub open spec fn exclude_patterns(config: Config) -> Seq<Seq<char>> {
    match lookup_rule(config.rules@, "orphan-pages"@) {
        Some(rc) if rule_option(rc, "exclude"@) is Some => option_strs_spec(rc, "exclude"@),
        _ => seq!["index.md"@, "README.md"@],
    }
}

/// The file name of a relative path, or nothing.
pub open spec fn name_or_empty(p: Seq<char>) -> Seq<char> {
    match file_name(p) {
        Some(n) => n,
        None => Seq::empty(),
    }
}

/// A pattern excludes a file when it equals the file's name or relative
/// path, or (holding `*`) matches the relative path.
pub open spec fn pattern_excludes(pattern: Seq<char>, rel: Seq<char>) -> bool {
    name_or_empty(rel) == pattern || rel == pattern || (pattern.contains('*') && glob(pattern, rel))
}

/// Whether some pattern excludes the file.
pub open spec fn is_excluded(patterns: Seq<Seq<char>>, rel: Seq<char>) -> bool {
    exists|k: int| 0 <= k < patterns.len() && pattern_excludes(#[trigger] patterns[k], rel)
}

/// The diagnostic for an orphan page.
pub open spec fn orphan_diag(f: MarkdownFile) -> DiagnosticView {
    diag_in(
        f,
        "orphan-pages"@,
        Severity::Warning,
        "page has no incoming links"@,
        1,
        1,
        0,
        first_line_span(f.content@),
        Some("no other file links to `"@ + f.relative_path@ + "`"@),
    )
}

/// The orphan diagnostics of the first `i` files.
pub open spec fn orphans_upto(ws: Workspace, config: Config, i: int) -> Seq<DiagnosticView>
    decreases i,
{
    if i <= 0 {
        Seq::empty()
    } else {
        let f = ws.files@[i - 1];
        orphans_upto(ws, config, i - 1) + if !is_referenced(ws, config.links, f.path@) && !is_excluded(
            exclude_patterns(config),
            f.relative_path@,
        ) {
            seq![orphan_diag(f)]
        } else {
            Seq::empty()
        }
    }
}

/// The diagnostics of the orphan-pages rule.
pub open spec fn orphan_pages_spec(ws: Workspace, config: Config) -> Seq<DiagnosticView> {
    orphans_upto(ws, config, ws.files.len() as int)
}

fn contains_star(p: &String) -> (b: bool)
    ensures
        b == p@.contains('*'),
{
    let cs = chars_of(p.as_str());
    crate::text::contains_char(cs.as_slice(), '*')
}

fn excluded_by(patterns: &Vec<String>, rel: &String) -> (b: bool)
    ensures
        b == is_excluded(strs_view(patterns@), rel@),
{
    let rc = chars_of(rel.as_str());
    let name = match file_name_exec(rc.as_slice()) {
        Some(n) => string_of(n.as_slice()),
        None => String::new(),
    };
    let mut k: usize = 0;
    while k < patterns.len()
        invariant
            k <= patterns.len(),
            name@ == name_or_empty(rel@),
            forall|m: int| 0 <= m < k ==> !pattern_excludes(#[trigger] strs_view(patterns@)[m], rel@),
        decreases patterns.len() - k,
    {
        let pattern = &patterns[k];
        if crate::paths::chars_eq_str(name.as_str(), pattern.as_str())
            || crate::paths::chars_eq_str(rel.as_str(), pattern.as_str())
            || (contains_star(pattern) && glob_match(pattern.as_str(), rel.as_str())) {
            assert(pattern_excludes(strs_view(patterns@)[k as int], rel@));
            return true;
        }
        k += 1;
    }
    false
}

impl WorkspaceRule for OrphanPages {
    fn name(&self) -> (n: &str)
        ensures
            n@ == "orphan-pages"@,
    {
        "orphan-pages"
    }

    fn default_severity(&self) -> (s: Severity)
        ensures
            s == Severity::Warning,
    {
        Severity::Warning
    }

    fn check(&self, workspace: &Workspace, config: &Config) -> (r: Vec<Diagnostic>)
        ensures
            diag_views(r@) == orphan_pages_spec(*workspace, *config),
    {
        let configured = match config.rule_config(self.name()) {
            Some(rc) => if rc.has_option("exclude") {
                Some(rc.option_strs("exclude"))
            } else {
                None
            },
            None => None,
        };
        let exclude: Vec<String> = match configured {
            Some(v) => v,
            None => {
                let mut v: Vec<String> = Vec::new();
                v.push(String::from_str("index.md"));
                v.push(String::from_str("README.md"));
                assert(strs_view(v@) =~= seq!["index.md"@, "README.md"@]);
                v
            },
        };
        assert(strs_view(exclude@) == exclude_patterns(*config));
        let ghost cfg = config.links;
        // every path some counted link resolves to
        let mut targets: Vec<String> = Vec::new();
        let mut i: usize = 0;
        while i < workspace.files.len()
            invariant
                workspace.wf(),
                cfg == config.links,
                i <= workspace.files.len(),
                forall|m: int| 0 <= m < targets.len() ==> from_some_link(*workspace, cfg, #[trigger] strs_view(targets@)[m]),
                forall|a: int, b: int|
                    0 <= a < i && 0 <= b < workspace.files@[a].links.len() && #[trigger] reference_target(*workspace, cfg, a, b) is Some
                        ==> strs_view(targets@).contains(reference_target(*workspace, cfg, a, b)->0),
            decreases workspace.files.len() - i,
        {
            let file = &workspace.files[i];
            let mut j: usize = 0;
            while j < file.links.len()
                invariant
                    workspace.wf(),
                    cfg == config.links,
                    i < workspace.files.len(),
                    *file == workspace.files@[i as int],
                    j <= file.links.len(),
                    forall|m: int| 0 <= m < targets.len() ==> from_some_link(*workspace, cfg, #[trigger] strs_view(targets@)[m]),
                    forall|a: int, b: int|
                        ((0 <= a < i && 0 <= b < workspace.files@[a].links.len()) || (a == i && 0 <= b < j))
                            && #[trigger] reference_target(*workspace, cfg, a, b) is Some
                            ==> strs_view(targets@).contains(reference_target(*workspace, cfg, a, b)->0),
                decreases file.links.len() - j,
            {
                let link = &file.links[j];
                let ghost before = strs_view(targets@);
                let counts = !link.is_external() && !(link.file_target.is_none() && link.kind != LinkKind::WikiLink);
                if counts {
                    let mut found: Option<String> = None;
                    if let Ok(Some(resolved)) = resolve_link(link, file.path.as_str(), workspace, config) {
                        let rc = chars_of(resolved.as_str());
                        let fc = chars_of(file.path.as_str());
                        if !same_path_exec(rc.as_slice(), fc.as_slice()) {
                            found = Some(resolved);
                        } else {
                            assert(reference_target(*workspace, cfg, i as int, j as int) is None);
                        }
                    } else {
                        assert(reference_target(*workspace, cfg, i as int, j as int) is None);
                    }
                    if let Some(resolved) = found {
                        assert(reference_target(*workspace, cfg, i as int, j as int) == Some(resolved@));
                        assert(from_some_link(*workspace, cfg, resolved@));
                        targets.push(resolved);
                        assert(strs_view(targets@) =~= before.push(resolved@));
                        assert(strs_view(targets@)[targets.len() - 1] == resolved@);
                        assert forall|a: int, b: int|
                            ((0 <= a < i && 0 <= b < workspace.files@[a].links.len()) || (a == i && 0 <= b < j + 1))
                                && #[trigger] reference_target(*workspace, cfg, a, b) is Some
                                implies strs_view(targets@).contains(reference_target(*workspace, cfg, a, b)->0) by {
                            if a == i && b == j {
                                assert(strs_view(targets@)[targets.len() - 1] == reference_target(*workspace, cfg, a, b)->0);
                            } else {
                                let m = choose|m: int| 0 <= m < before.len() && before[m] == reference_target(*workspace, cfg, a, b)->0;
                                assert(strs_view(targets@)[m] == before[m]);
                            }
                        }
                    } else {
                        assert(reference_target(*workspace, cfg, i as int, j as int) is None);
                    }
                } else {
                    assert(reference_target(*workspace, cfg, i as int, j as int) is None);
                }
                j += 1;
            }
            i += 1;
        }
        let mut diagnostics: Vec<Diagnostic> = Vec::new();
        let mut k: usize = 0;
        while k < workspace.files.len()
            invariant
                workspace.wf(),
                cfg == config.links,
                strs_view(exclude@) == exclude_patterns(*config),
                k <= workspace.files.len(),
                diag_views(diagnostics@) == orphans_upto(*workspace, *config, k as int),
                forall|m: int| 0 <= m < targets.len() ==> from_some_link(*workspace, cfg, #[trigger] strs_view(targets@)[m]),
                forall|a: int, b: int|
                    0 <= a < workspace.files.len() && 0 <= b < workspace.files@[a].links.len() && #[trigger] reference_target(*workspace, cfg, a, b) is Some
                        ==> strs_view(targets@).contains(reference_target(*workspace, cfg, a, b)->0),
            decreases workspace.files.len() - k,
        {
            let file = &workspace.files[k];
            let ghost before = diag_views(diagnostics@);
            let p = chars_of(file.path.as_str());
            let mut referenced = false;
            let mut m: usize = 0;
            while m < targets.len()
                invariant
                    p@ == file.path@,
                    m <= targets.len(),
                    !referenced ==> forall|q: int| 0 <= q < m ==> !same_path(#[trigger] strs_view(targets@)[q], file.path@),
                    referenced ==> exists|q: int| 0 <= q < targets.len() && same_path(#[trigger] strs_view(targets@)[q], file.path@),
                decreases targets.len() - m,
            {
                let t = chars_of(targets[m].as_str());
                if same_path_exec(t.as_slice(), p.as_slice()) {
                    referenced = true;
                    assert(same_path(strs_view(targets@)[m as int], file.path@));
                }
                m += 1;
            }
            proof {
                if referenced {
                    let q = choose|q: int| 0 <= q < targets.len() && same_path(#[trigger] strs_view(targets@)[q], file.path@);
                    assert(from_some_link(*workspace, cfg, strs_view(targets@)[q]));
                    let (a, b) = choose|a: int, b: int|
                        0 <= a < workspace.files.len() && 0 <= b < workspace.files@[a].links.len()
                            && #[trigger] reference_target(*workspace, cfg, a, b) == Some(strs_view(targets@)[q]);
                    assert(leads_to(*workspace, cfg, a, b, file.path@));
                    assert(is_referenced(*workspace, cfg, file.path@));
                } else {
                    if is_referenced(*workspace, cfg, file.path@) {
                        let (a, b) = choose|a: int, b: int|
                            0 <= a < workspace.files.len() && 0 <= b < workspace.files@[a].links.len()
                                && #[trigger] leads_to(*workspace, cfg, a, b, file.path@);
                        assert(strs_view(targets@).contains(reference_target(*workspace, cfg, a, b)->0));
                        let q = choose|q: int| 0 <= q < strs_view(targets@).len() && strs_view(targets@)[q] == reference_target(*workspace, cfg, a, b)->0;
                        assert(same_path(strs_view(targets@)[q], file.path@));
                        assert(false);
                    }
                }
            }
            if !referenced && !excluded_by(&exclude, &file.relative_path) {
                let help = crate::text::concat("no other file links to `", file.relative_path.as_str());
                let mut help = help;
                help.append("`");
                diagnostics.push(make_diag(
                    file,
                    self.name(),
                    self.default_severity(),
                    String::from_str("page has no incoming links"),
                    1,
                    1,
                    0,
                    first_line_len(file.content.as_str()),
                    Some(help),
                ));
            }
            assert(diag_views(diagnostics@) =~= orphans_upto(*workspace, *config, k + 1));
            k += 1;
        }
        diagnostics
    }
}

/// Every diagnostic of the rule names it.
pub proof fn lemma_orphan_pages_rule(ws: Workspace, config: Config, i: int)
    ensures
        all_of_rule(orphans_upto(ws, config, i), "orphan-pages"@),
    decreases i,
{
    if i > 0 {
        lemma_orphan_pages_rule(ws, config, i - 1);
        let f = ws.files@[i - 1];
        let last = if !is_referenced(ws, config.links, f.path@) && !is_excluded(
            exclude_patterns(config),
            f.relative_path@,
        ) {
            seq![orphan_diag(f)]
        } else {
            Seq::<DiagnosticView>::empty()
        };
        lemma_all_of_rule_add(orphans_upto(ws, config, i - 1), last, "orphan-pages"@);
    }
}

/// `d` is the orphan finding of one of the first `i` files, a file no link
/// of another file leads to.
pub open spec fn is_orphan_report(d: DiagnosticView, ws: Workspace, cfg: LinkConfig, i: int) -> bool {
    exists|m: int|
        0 <= m < i && d == orphan_diag(ws.files@[m]) && !is_referenced(ws, cfg, #[trigger] ws.files@[m].path@)
}

proof fn lemma_orphans_upto(ws: Workspace, config: Config, i: int)
    requires
        i <= ws.files.len(),
    ensures
        forall|k: int|
            0 <= k < orphans_upto(ws, config, i).len() ==> #[trigger] is_orphan_report(
                orphans_upto(ws, config, i)[k],
                ws,
                config.links,
                i,
            ),
    decreases i,
{
    if i > 0 {
        lemma_orphans_upto(ws, config, i - 1);
        let f = ws.files@[i - 1];
        let a = orphans_upto(ws, config, i - 1);
        let last = if !is_referenced(ws, config.links, f.path@) && !is_excluded(
            exclude_patterns(config),
            f.relative_path@,
        ) {
            seq![orphan_diag(f)]
        } else {
            Seq::<DiagnosticView>::empty()
        };
        let r = orphans_upto(ws, config, i);
        assert(r == a + last);
        assert forall|k: int| 0 <= k < r.len() implies #[trigger] is_orphan_report(r[k], ws, config.links, i) by {
            if k < a.len() {
                assert(r[k] == a[k]);
                assert(is_orphan_report(a[k], ws, config.links, i - 1));
                let m = choose|m: int|
                    0 <= m < i - 1 && a[k] == orphan_diag(ws.files@[m]) && !is_referenced(ws, config.links, #[trigger] ws.files@[m].path@);
                assert(0 <= m < i && r[k] == orphan_diag(ws.files@[m]));
            } else {
                assert(r[k] == last[0]);
                assert(!is_referenced(ws, config.links, ws.files@[i - 1].path@));
            }
        }
    }
}

/// A page that another page links to is no orphan: when a wikilink, or a
/// link with a file target, of file `a` is not external and resolves to the
/// path of file `b`, a different file, no orphan finding names `b`.
pub proof fn law_linked_page_is_no_orphan(ws: Workspace, config: Config, a: int, j: int, b: int)
    requires
        0 <= a < ws.files.len(),
        0 <= b < ws.files.len(),
        0 <= j < ws.files@[a].links.len(),
        ws.files@[a].links@[j]@.kind == LinkKind::WikiLink || ws.files@[a].links@[j]@.file_target is Some,
        !external_target(ws.files@[a].links@[j]@.raw_target),
        resolve_link_spec(ws.files@[a].links@[j]@, ws.files@[a].path@, ws, config.links) matches Ok(Some(r))
            && same_path(r, ws.files@[b].path@),
        !same_path(ws.files@[a].path@, ws.files@[b].path@),
    ensures
        forall|k: int| 0 <= k < orphan_pages_spec(ws, config).len() ==> (#[trigger] orphan_pages_spec(ws, config)[k]).file != ws.files@[b].path@,
{
    let p = ws.files@[b].path@;
    assert(leads_to(ws, config.links, a, j, p));
    assert(is_referenced(ws, config.links, p));
    lemma_orphans_upto(ws, config, ws.files.len() as int);
    assert forall|k: int| 0 <= k < orphan_pages_spec(ws, config).len() implies (#[trigger] orphan_pages_spec(ws, config)[k]).file != p by {
        assert(orphan_pages_spec(ws, config)[k] == orphans_upto(ws, config, ws.files.len() as int)[k]);
        assert(is_orphan_report(orphan_pages_spec(ws, config)[k], ws, config.links, ws.files.len() as int));
        let m = choose|m: int|
            0 <= m < ws.files.len() && orphan_pages_spec(ws, config)[k] == orphan_diag(ws.files@[m])
                && !is_referenced(ws, config.links, #[trigger] ws.files@[m].path@);
        if ws.files@[m].path@ == p {
            assert(false);
        }
    }
}

} // verus!
