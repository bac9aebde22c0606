//! Lint rules, their diagnostics, and running them all.

pub mod broken_links;
pub mod first_heading;
pub mod heading_increment;
pub mod order;
pub mod orphan_pages;
pub mod require_frontmatter;

use vstd::prelude::*;
use crate::config::{Config, RuleConfig, RuleLevel, lookup_rule, rule_level};
use crate::file::MarkdownFile;
use crate::workspace::Workspace;
use crate::links::{opt_view, byte_len, width_of, lemma_byte_len_push, lemma_byte_len_prefix, utf8_len};
use crate::text::{chars_of, find_char, index_of, lemma_index_from};
use broken_links::{BrokenLinks, broken_links_spec, lemma_broken_links_rule};
use first_heading::{FirstHeading, first_heading_spec, lemma_first_heading_rule};
use heading_increment::{HeadingIncrement, heading_increment_spec, lemma_heading_increment_rule};
use order::{is_sorted, law_sort_diags, sort_diagnostics, sort_diags};
use orphan_pages::{OrphanPages, lemma_orphan_pages_rule, orphan_pages_spec};
use require_frontmatter::{RequireFrontmatter, lemma_require_frontmatter_rule, require_frontmatter_spec};

verus! {

/// How serious a diagnostic is.
#[derive(Debug, Clone, Copy, PartialEq, Eq, Structural)]
pub enum Severity {
    Error,
    Warning,
    Info,
}

/// The severity a rule level reports at (`Off` maps to `Info`).
pub open spec fn severity_of_level(level: RuleLevel) -> Severity {
    match level {
        RuleLevel::Error => Severity::Error,
        RuleLevel::Warning => Severity::Warning,
        RuleLevel::Info => Severity::Info,
        RuleLevel::Off => Severity::Info,
    }
}

impl Severity {
    /// The severity a rule level reports at.
    pub fn from_level(level: RuleLevel) -> (s: Severity)
        ensures
            s == severity_of_level(level),
    {
        match level {
            RuleLevel::Error => Severity::Error,
            RuleLevel::Warning => Severity::Warning,
            RuleLevel::Info => Severity::Info,
            RuleLevel::Off => Severity::Info,
        }
    }
}

impl From<RuleLevel> for Severity {
    fn from(level: RuleLevel) -> (s: Severity) {
        Severity::from_level(level)
    }
}

impl vstd::std_specs::convert::FromSpecImpl<RuleLevel> for Severity {
    open spec fn obeys_from_spec() -> bool {
        true
    }

    open spec fn from_spec(level: RuleLevel) -> Severity {
        severity_of_level(level)
    }
}

/// A finding of a rule.
#[derive(Debug, Clone)]
pub struct Diagnostic {
    pub rule: String,
    pub severity: Severity,
    pub message: String,
    pub file: String,
    pub line: usize,
    pub col: usize,
    pub source_code: String,
    pub start_offset: usize,
    pub len: usize,
    pub help: Option<String>,
}

/// The model of a `Diagnostic`.
pub struct DiagnosticView {
    pub rule: Seq<char>,
    pub severity: Severity,
    pub message: Seq<char>,
    pub file: Seq<char>,
    pub line: usize,
    pub col: usize,
    pub source_code: Seq<char>,
    pub start_offset: usize,
    pub len: usize,
    pub help: Option<Seq<char>>,
}

impl View for Diagnostic {
    type V = DiagnosticView;

    open spec fn view(&self) -> DiagnosticView {
        DiagnosticView {
            rule: self.rule@,
            severity: self.severity,
            message: self.message@,
            file: self.file@,
            line: self.line,
            col: self.col,
            source_code: self.source_code@,
            start_offset: self.start_offset,
            len: self.len,
            help: opt_view(self.help),
        }
    }
}

/// The models of a list of diagnostics.
pub open spec fn diag_views(ds: Seq<Diagnostic>) -> Seq<DiagnosticView> {
    ds.map_values(|d: Diagnostic| d@)
}

/// A diagnostic about `file` at a line and column, with the file's text as
/// its source.
pub open spec fn diag_in(
    f: MarkdownFile,
    rule: Seq<char>,
    severity: Severity,
    message: Seq<char>,
    line: usize,
    col: usize,
    start_offset: usize,
    len: usize,
    help: Option<Seq<char>>,
) -> DiagnosticView {
    DiagnosticView {
        rule,
        severity,
        message,
        file: f.path@,
        line,
        col,
        source_code: f.content@,
        start_offset,
        len,
        help,
    }
}

/// Builds a diagnostic about `file`.
pub fn make_diag(
    file: &MarkdownFile,
    rule: &str,
    severity: Severity,
    message: String,
    line: usize,
    col: usize,
    start_offset: usize,
    len: usize,
    help: Option<String>,
) -> (d: Diagnostic)
    ensures
        d@ == diag_in(*file, rule@, severity, message@, line, col, start_offset, len, opt_view(help)),
{
    Diagnostic {
        rule: String::from_str(rule),
        severity,
        message,
        file: file.path.clone(),
        line,
        col,
        source_code: file.content.clone(),
        start_offset,
        len,
        help,
    }
}

/// A rule that looks at one file at a time.
pub trait FileRule: Send + Sync {
    fn name(&self) -> &str;

    fn default_severity(&self) -> Severity;

    fn check(&self, file: &MarkdownFile, config: &Config) -> Vec<Diagnostic>;
}

/// A rule that looks at the whole workspace.
pub trait WorkspaceRule: Send + Sync {
    fn name(&self) -> &str;

    fn default_severity(&self) -> Severity;

    fn check(&self, workspace: &Workspace, config: &Config) -> Vec<Diagnostic>
        requires
            workspace.wf(),
    ;
}

/// The severity a rule reports at: none when configured off, the configured
/// level when configured, else its default.
pub open spec fn severity_for_rule_spec(name: Seq<char>, default: Severity, config: Config) -> Option<Severity> {
    match lookup_rule(config.rules@, name) {
        Some(rc) => if rule_level(rc) == RuleLevel::Off {
            None
        } else {
            Some(severity_of_level(rule_level(rc)))
        },
        None => Some(default),
    }
}

/// The severity rule `name` reports at, or none when it is off.
pub fn severity_for_rule(name: &str, default: Severity, config: &Config) -> (r: Option<Severity>)
    ensures
        r == severity_for_rule_spec(name@, default, *config),
{
    match config.rule_config(name) {
        Some(rc) => {
            if rc.is_off() {
                None
            } else {
                Some(Severity::from_level(rc.level()))
            }
        },
        None => Some(default),
    }
}


/// The span of a file's first line for diagnostics: its bytes up to the
/// first newline (or all of them), at most 40.
pub open spec fn first_line_span(content: Seq<char>) -> usize {
    let k = index_of(content, '\n');
    let n = if k >= 0 { byte_len(content.take(k)) } else { byte_len(content) };
    if n < 40 { n as usize } else { 40 }
}

/// The span of a file's first line for diagnostics.
pub fn first_line_len(content: &str) -> (n: usize)
    ensures
        n == first_line_span(content@),
{
    let total = utf8_len(content);
    let cs = chars_of(content);
    proof {
        lemma_index_from(cs@, '\n', 0);
    }
    let end = match find_char(cs.as_slice(), '\n') {
        Some(k) => k,
        None => cs.len(),
    };
    let mut bytes: usize = 0;
    let mut i: usize = 0;
    assert(cs@.take(0) =~= Seq::<char>::empty());
    assert(vstd::utf8::encode_utf8(Seq::<char>::empty()) =~= Seq::<u8>::empty());
    while i < end
        invariant
            cs@ == content@,
            total == byte_len(content@),
            end <= cs.len(),
            i <= end,
            bytes == byte_len(cs@.take(i as int)),
        decreases end - i,
    {
        proof {
            lemma_byte_len_prefix(cs@, i + 1);
            assert(cs@.take(i + 1) =~= cs@.take(i as int).push(cs@[i as int]));
            lemma_byte_len_push(cs@.take(i as int), cs@[i as int]);
        }
        bytes = bytes + width_of(cs[i]);
        i += 1;
    }
    assert(end == cs.len() ==> cs@.take(end as int) =~= cs@);
    if bytes < 40 {
        bytes
    } else {
        40
    }
}

/// The diagnostics with their severity set to `s`.
pub open spec fn with_severity(ds: Seq<DiagnosticView>, s: Severity) -> Seq<DiagnosticView> {
    ds.map_values(|d: DiagnosticView| DiagnosticView { severity: s, ..d })
}

/// What a rule named `name` contributes: its findings at the severity it
/// reports at, or nothing when it is off.
pub open spec fn when_enabled(
    name: Seq<char>,
    default: Severity,
    config: Config,
    ds: Seq<DiagnosticView>,
) -> Seq<DiagnosticView> {
    match severity_for_rule_spec(name, default, config) {
        Some(s) => with_severity(ds, s),
        None => Seq::empty(),
    }
}

/// The findings of the file rules on one file, rule by rule.
pub open spec fn file_rules_spec(f: MarkdownFile, config: Config) -> Seq<DiagnosticView> {
    when_enabled("heading-increment"@, Severity::Warning, config, heading_increment_spec(f))
        + when_enabled("require-frontmatter"@, Severity::Error, config, require_frontmatter_spec(f, config))
        + when_enabled("first-heading"@, Severity::Warning, config, first_heading_spec(f, config))
}

/// The findings of the file rules on the first `k` files, file by file.
pub open spec fn file_rules_upto(ws: Workspace, config: Config, k: int) -> Seq<DiagnosticView>
    decreases k,
{
    if k <= 0 {
        Seq::empty()
    } else {
        file_rules_upto(ws, config, k - 1) + file_rules_spec(ws.files@[k - 1], config)
    }
}

/// The findings of every rule, before ordering: the file rules on each file,
/// then the workspace rules.
pub open spec fn all_findings(ws: Workspace, config: Config) -> Seq<DiagnosticView> {
    file_rules_upto(ws, config, ws.files.len() as int)
        + when_enabled("broken-links"@, Severity::Error, config, broken_links_spec(ws, config))
        + when_enabled("orphan-pages"@, Severity::Warning, config, orphan_pages_spec(ws, config))
}

/// What `run_all` reports.
pub open spec fn run_all_spec(ws: Workspace, config: Config) -> Seq<DiagnosticView> {
    sort_diags(all_findings(ws, config))
}

/// The diagnostics with their severity set to `s`.
fn set_severity(ds: Vec<Diagnostic>, s: Severity) -> (r: Vec<Diagnostic>)
    ensures
        diag_views(r@) == with_severity(diag_views(ds@), s),
{
    let ghost orig = diag_views(ds@);
    let mut rest = ds;
    let mut out: Vec<Diagnostic> = Vec::new();
    let ghost mut k: int = 0;
    while rest.len() > 0
        invariant
            0 <= k <= orig.len(),
            diag_views(rest@) == orig.skip(k),
            diag_views(out@) == with_severity(orig.take(k), s),
        decreases rest.len(),
    {
        let ghost rest0 = rest@;
        assert(diag_views(rest0).len() == rest0.len());
        let mut d = rest.remove(0);
        let ghost d0 = d@;
        d.severity = s;
        let ghost out0 = out@;
        out.push(d);
        proof {
            assert(d@ == DiagnosticView { severity: s, ..d0 });
            assert(diag_views(out@) =~= diag_views(out0).push(d@));
            assert(diag_views(rest0)[0] == orig[k]);
            assert(rest@ =~= rest0.skip(1));
            assert forall|j: int| 0 <= j < rest@.len() implies diag_views(rest@)[j] == orig.skip(k + 1)[j] by {
                assert(diag_views(rest0)[j + 1] == orig.skip(k)[j + 1]);
            }
            assert(diag_views(rest@) =~= orig.skip(k + 1));
            assert(orig.take(k + 1) =~= orig.take(k).push(orig[k]));
            assert(diag_views(out@) =~= with_severity(orig.take(k + 1), s));
            k = k + 1;
        }
    }
    assert(orig.take(k) =~= orig) by {
        assert(orig.skip(k).len() == 0);
    }
    out
}

/// `more` added after `out`.
fn extend_diags(out: &mut Vec<Diagnostic>, more: Vec<Diagnostic>)
    ensures
        diag_views(final(out)@) == diag_views(old(out)@) + diag_views(more@),
{
    let ghost added = more@;
    let mut more = more;
    out.append(&mut more);
    assert(out@ =~= old(out)@ + added);
    assert(diag_views(out@) =~= diag_views(old(out)@) + diag_views(added));
}

/// The findings of the file rules on one file, rule by rule.
fn file_rules(file: &MarkdownFile, config: &Config) -> (r: Vec<Diagnostic>)
    ensures
        diag_views(r@) == file_rules_spec(*file, *config),
{
    let mut diagnostics: Vec<Diagnostic> = Vec::new();
    let hi = HeadingIncrement;
    let ghost a = when_enabled("heading-increment"@, Severity::Warning, *config, heading_increment_spec(*file));
    if let Some(s) = severity_for_rule(hi.name(), hi.default_severity(), config) {
        let ds = set_severity(hi.check(file, config), s);
        extend_diags(&mut diagnostics, ds);
    }
    assert(diag_views(diagnostics@) =~= a);
    let rf = RequireFrontmatter;
    let ghost b = when_enabled("require-frontmatter"@, Severity::Error, *config, require_frontmatter_spec(*file, *config));
    if let Some(s) = severity_for_rule(rf.name(), rf.default_severity(), config) {
        let ds = set_severity(rf.check(file, config), s);
        extend_diags(&mut diagnostics, ds);
    }
    assert(diag_views(diagnostics@) =~= a + b);
    let fh = FirstHeading;
    let ghost c = when_enabled("first-heading"@, Severity::Warning, *config, first_heading_spec(*file, *config));
    if let Some(s) = severity_for_rule(fh.name(), fh.default_severity(), config) {
        let ds = set_severity(fh.check(file, config), s);
        extend_diags(&mut diagnostics, ds);
    }
    assert(diag_views(diagnostics@) =~= a + b + c);
    diagnostics
}

/// Runs every rule that is not configured off, each at the severity it
/// reports at, and returns the findings ordered by file path, line and
/// column.
pub fn run_all(workspace: &Workspace, config: &Config) -> (r: Vec<Diagnostic>)
    requires
        workspace.wf(),
    ensures
        diag_views(r@) == run_all_spec(*workspace, *config),
{
    let mut diagnostics: Vec<Diagnostic> = Vec::new();
    let mut i: usize = 0;
    while i < workspace.files.len()
        invariant
            i <= workspace.files.len(),
            diag_views(diagnostics@) == file_rules_upto(*workspace, *config, i as int),
        decreases workspace.files.len() - i,
    {
        let ds = file_rules(&workspace.files[i], config);
        extend_diags(&mut diagnostics, ds);
        i += 1;
    }
    let ghost files_part = diag_views(diagnostics@);
    let bl = BrokenLinks;
    let ghost d = when_enabled("broken-links"@, Severity::Error, *config, broken_links_spec(*workspace, *config));
    if let Some(s) = severity_for_rule(bl.name(), bl.default_severity(), config) {
        let ds = set_severity(bl.check(workspace, config), s);
        extend_diags(&mut diagnostics, ds);
    }
    assert(diag_views(diagnostics@) =~= files_part + d);
    let op = OrphanPages;
    let ghost e = when_enabled("orphan-pages"@, Severity::Warning, *config, orphan_pages_spec(*workspace, *config));
    if let Some(s) = severity_for_rule(op.name(), op.default_severity(), config) {
        let ds = set_severity(op.check(workspace, config), s);
        extend_diags(&mut diagnostics, ds);
    }
    assert(diag_views(diagnostics@) =~= all_findings(*workspace, *config));
    sort_diagnostics(diagnostics)
}

/// Every diagnostic of `ds` is of rule `name`.
pub open spec fn all_of_rule(ds: Seq<DiagnosticView>, name: Seq<char>) -> bool {
    forall|i: int| 0 <= i < ds.len() ==> (#[trigger] ds[i]).rule == name
}

/// Joining two lists of one rule's diagnostics gives one of that rule.
pub proof fn lemma_all_of_rule_add(a: Seq<DiagnosticView>, b: Seq<DiagnosticView>, name: Seq<char>)
    requires
        all_of_rule(a, name),
        all_of_rule(b, name),
    ensures
        all_of_rule(a + b, name),
{
    assert forall|i: int| 0 <= i < (a + b).len() implies (#[trigger] (a + b)[i]).rule == name by {
        if i < a.len() {
            assert((a + b)[i] == a[i]);
        } else {
            assert((a + b)[i] == b[i - a.len()]);
        }
    }
}

/// The severity a rule reports at when the configuration does not say:
/// errors for broken links and missing frontmatter, warnings otherwise.
pub open spec fn rule_default(name: Seq<char>) -> Severity {
    if name == "broken-links"@ || name == "require-frontmatter"@ {
        Severity::Error
    } else {
        Severity::Warning
    }
}

/// The rules this linter runs.
pub open spec fn is_rule_name(name: Seq<char>) -> bool {
    ||| name == "heading-increment"@
    ||| name == "require-frontmatter"@
    ||| name == "first-heading"@
    ||| name == "broken-links"@
    ||| name == "orphan-pages"@
}

/// Every diagnostic that a rule contributes names a rule of the linter and
/// carries the severity that rule reports at.
pub open spec fn at_rule_severity(d: DiagnosticView, config: Config) -> bool {
    is_rule_name(d.rule) && severity_for_rule_spec(d.rule, rule_default(d.rule), config) == Some(d.severity)
}

proof fn lemma_rule_defaults()
    ensures
        rule_default("heading-increment"@) == Severity::Warning,
        rule_default("require-frontmatter"@) == Severity::Error,
        rule_default("first-heading"@) == Severity::Warning,
        rule_default("broken-links"@) == Severity::Error,
        rule_default("orphan-pages"@) == Severity::Warning,
{
    reveal_strlit("heading-increment");
    reveal_strlit("require-frontmatter");
    reveal_strlit("first-heading");
    reveal_strlit("broken-links");
    reveal_strlit("orphan-pages");
    assert("heading-increment"@.len() == 17);
    assert("first-heading"@.len() == 13);
    assert("orphan-pages"@[0] != "broken-links"@[0]);
    assert("orphan-pages"@.len() != "require-frontmatter"@.len());
}

proof fn lemma_when_enabled(name: Seq<char>, default: Severity, config: Config, ds: Seq<DiagnosticView>)
    requires
        all_of_rule(ds, name),
        is_rule_name(name),
        rule_default(name) == default,
    ensures
        forall|i: int|
            0 <= i < when_enabled(name, default, config, ds).len() ==> at_rule_severity(
                #[trigger] when_enabled(name, default, config, ds)[i],
                config,
            ),
{
}

proof fn lemma_all_at_rule_severity_add(a: Seq<DiagnosticView>, b: Seq<DiagnosticView>, config: Config)
    requires
        forall|i: int| 0 <= i < a.len() ==> at_rule_severity(#[trigger] a[i], config),
        forall|i: int| 0 <= i < b.len() ==> at_rule_severity(#[trigger] b[i], config),
    ensures
        forall|i: int| 0 <= i < (a + b).len() ==> at_rule_severity(#[trigger] (a + b)[i], config),
{
    assert forall|i: int| 0 <= i < (a + b).len() implies at_rule_severity(#[trigger] (a + b)[i], config) by {
        if i < a.len() {
            assert((a + b)[i] == a[i]);
        } else {
            assert((a + b)[i] == b[i - a.len()]);
        }
    }
}

proof fn lemma_file_rules_at_severity(ws: Workspace, config: Config, k: int)
    ensures
        forall|i: int|
            0 <= i < file_rules_upto(ws, config, k).len() ==> at_rule_severity(
                #[trigger] file_rules_upto(ws, config, k)[i],
                config,
            ),
    decreases k,
{
    if k > 0 {
        lemma_file_rules_at_severity(ws, config, k - 1);
        let f = ws.files@[k - 1];
        lemma_rule_defaults();
        lemma_heading_increment_rule(f, f.headings.len() as int);
        lemma_require_frontmatter_rule(f, config);
        lemma_first_heading_rule(f, config);
        let a = when_enabled("heading-increment"@, Severity::Warning, config, heading_increment_spec(f));
        let b = when_enabled("require-frontmatter"@, Severity::Error, config, require_frontmatter_spec(f, config));
        let c = when_enabled("first-heading"@, Severity::Warning, config, first_heading_spec(f, config));
        lemma_when_enabled("heading-increment"@, Severity::Warning, config, heading_increment_spec(f));
        lemma_when_enabled("require-frontmatter"@, Severity::Error, config, require_frontmatter_spec(f, config));
        lemma_when_enabled("first-heading"@, Severity::Warning, config, first_heading_spec(f, config));
        lemma_all_at_rule_severity_add(a, b, config);
        lemma_all_at_rule_severity_add(a + b, c, config);
        lemma_all_at_rule_severity_add(file_rules_upto(ws, config, k - 1), a + b + c, config);
    }
}

/// What `run_all` reports is every finding of the rules, each as often as
/// it was found, in report order: by file path, then line, then column.
pub proof fn law_run_all_ordered(ws: Workspace, config: Config)
    ensures
        is_sorted(run_all_spec(ws, config)),
        run_all_spec(ws, config).to_multiset() == all_findings(ws, config).to_multiset(),
{
    law_sort_diags(all_findings(ws, config));
}

/// Every diagnostic `run_all` reports comes from one of the linter's rules,
/// a rule that is not configured off, and carries the severity that rule
/// reports at: its configured level, or its default when it has none.
pub proof fn law_reported_at_rule_severity(ws: Workspace, config: Config, d: DiagnosticView)
    requires
        run_all_spec(ws, config).contains(d),
    ensures
        is_rule_name(d.rule),
        severity_for_rule_spec(d.rule, rule_default(d.rule), config) == Some(d.severity),
{
    broadcast use vstd::seq_lib::group_to_multiset_ensures;
    let all = all_findings(ws, config);
    law_sort_diags(all);
    assert(run_all_spec(ws, config).to_multiset().count(d) > 0);
    assert(all.contains(d));
    let j = choose|j: int| 0 <= j < all.len() && all[j] == d;
    lemma_rule_defaults();
    lemma_file_rules_at_severity(ws, config, ws.files.len() as int);
    lemma_broken_links_rule(ws, config, ws.files.len() as int);
    lemma_orphan_pages_rule(ws, config, ws.files.len() as int);
    let fr = file_rules_upto(ws, config, ws.files.len() as int);
    let bl = when_enabled("broken-links"@, Severity::Error, config, broken_links_spec(ws, config));
    let op = when_enabled("orphan-pages"@, Severity::Warning, config, orphan_pages_spec(ws, config));
    lemma_when_enabled("broken-links"@, Severity::Error, config, broken_links_spec(ws, config));
    lemma_when_enabled("orphan-pages"@, Severity::Warning, config, orphan_pages_spec(ws, config));
    lemma_all_at_rule_severity_add(fr, bl, config);
    lemma_all_at_rule_severity_add(fr + bl, op, config);
    assert(at_rule_severity(all[j], config));
}

/// A rule configured `off` reports nothing.
pub proof fn law_rule_off_reports_nothing(ws: Workspace, config: Config, name: Seq<char>, d: DiagnosticView)
    requires
        lookup_rule(config.rules@, name) matches Some(rc) && rule_level(rc) == RuleLevel::Off,
        run_all_spec(ws, config).contains(d),
    ensures
        d.rule != name,
{
    law_reported_at_rule_severity(ws, config, d);
}

} // verus!
