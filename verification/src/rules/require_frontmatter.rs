//! Required frontmatter fields.

use vstd::prelude::*;
use crate::config::{Config, lookup_rule, option_strs_spec, strs_view};
use crate::file::{MarkdownFile, fm_view};
use crate::frontmatter::lookup_field;
use crate::text::{join_with, join_strings};
use super::{Diagnostic, DiagnosticView, FileRule, Severity, all_of_rule, diag_in, lemma_all_of_rule_add, diag_views, make_diag, first_line_len, first_line_span};

verus! {

/// Requires specified YAML frontmatter fields to be present.
pub struct RequireFrontmatter;

/// The fields the rule requires: its `fields` option, none when the rule is
/// not configured.
pub open spec fn fields_required(config: Config) -> Seq<Seq<char>> {
    match lookup_rule(config.rules@, "require-frontmatter"@) {
        Some(rc) => option_strs_spec(rc, "fields"@),
        None => Seq::empty(),
    }
}

/// The diagnostics for the first `k` required fields that the frontmatter
/// `fields` lacks.
pub open spec fn missing_fields_upto(
    f: MarkdownFile,
    fields: Seq<(Seq<char>, crate::frontmatter::FieldValueView)>,
    req: Seq<Seq<char>>,
    k: int,
) -> Seq<DiagnosticView>
    decreases k,
{
    if k <= 0 {
        Seq::empty()
    } else {
        missing_fields_upto(f, fields, req, k - 1) + if lookup_field(fields, req[k - 1]) is Some {
            Seq::empty()
        } else {
            seq![
                diag_in(
                    f,
                    "require-frontmatter"@,
                    Severity::Error,
                    "missing required frontmatter field: "@ + req[k - 1],
                    1,
                    1,
                    0,
                    3,
                    None,
                ),
            ]
        }
    }
}

/// The diagnostics of the require-frontmatter rule for `f`: with required
/// fields, one for a file without frontmatter, else one per missing field.
pub open spec fn require_frontmatter_spec(f: MarkdownFile, config: Config) -> Seq<DiagnosticView> {
    let req = fields_required(config);
    if req.len() == 0 {
        Seq::empty()
    } else {
        match fm_view(f.frontmatter) {
            None => seq![
                diag_in(
                    f,
                    "require-frontmatter"@,
                    Severity::Error,
                    "missing frontmatter"@,
                    1,
                    1,
                    0,
                    first_line_span(f.content@),
                    Some("required fields: "@ + join_with(req, ", "@)),
                ),
            ],
            Some(fields) => missing_fields_upto(f, fields, req, req.len() as int),
        }
    }
}

impl FileRule for RequireFrontmatter {
    fn name(&self) -> (n: &str)
        ensures
            n@ == "require-frontmatter"@,
    {
        "require-frontmatter"
    }

    fn default_severity(&self) -> (s: Severity)
        ensures
            s == Severity::Error,
    {
        Severity::Error
    }

    fn check(&self, file: &MarkdownFile, config: &Config) -> (r: Vec<Diagnostic>)
        ensures
            diag_views(r@) == require_frontmatter_spec(*file, *config),
    {
        let mut diagnostics: Vec<Diagnostic> = Vec::new();
        let required_fields = match config.rule_config(self.name()) {
            Some(rc) => rc.option_strs("fields"),
            None => {
                assert(diag_views(diagnostics@) =~= require_frontmatter_spec(*file, *config));
                return diagnostics;
            },
        };
        if required_fields.len() == 0 {
            assert(diag_views(diagnostics@) =~= require_frontmatter_spec(*file, *config));
            return diagnostics;
        }
        let ghost req = strs_view(required_fields@);
        assert(req == fields_required(*config));
        match &file.frontmatter {
            None => {
                let help = crate::text::concat("required fields: ", join_strings(&required_fields, ", ").as_str());
                assert(required_fields@.map_values(|s: String| s@) == req);
                diagnostics.push(make_diag(
                    file,
                    self.name(),
                    self.default_severity(),
                    String::from_str("missing frontmatter"),
                    1,
                    1,
                    0,
                    first_line_len(file.content.as_str()),
                    Some(help),
                ));
                assert(diag_views(diagnostics@) =~= require_frontmatter_spec(*file, *config));
            },
            Some(fm) => {
                let ghost fields = crate::frontmatter::fields_view(fm.fields@);
                let mut k: usize = 0;
                while k < required_fields.len()
                    invariant
                        req == strs_view(required_fields@),
                        fields == crate::frontmatter::fields_view(fm.fields@),
                        k <= required_fields.len(),
                        diag_views(diagnostics@) == missing_fields_upto(*file, fields, req, k as int),
                    decreases required_fields.len() - k,
                {
                    let ghost before = diag_views(diagnostics@);
                    let field = &required_fields[k];
                    if !fm.has_field(field.as_str()) {
                        let message = crate::text::concat("missing required frontmatter field: ", field.as_str());
                        diagnostics.push(make_diag(file, self.name(), self.default_severity(), message, 1, 1, 0, 3, None));
                    }
                    assert(diag_views(diagnostics@) =~= missing_fields_upto(*file, fields, req, k + 1));
                    k += 1;
                }
            },
        }
        diagnostics
    }
}

/// Every diagnostic of the rule names it.
pub proof fn lemma_require_frontmatter_rule(f: MarkdownFile, config: Config)
    ensures
        all_of_rule(require_frontmatter_spec(f, config), "require-frontmatter"@),
{
    let req = fields_required(config);
    if req.len() > 0 {
        if let Some(fields) = fm_view(f.frontmatter) {
            lemma_missing_fields_rule(f, fields, req, req.len() as int);
        }
    }
}

proof fn lemma_missing_fields_rule(
    f: MarkdownFile,
    fields: Seq<(Seq<char>, crate::frontmatter::FieldValueView)>,
    req: Seq<Seq<char>>,
    k: int,
)
    ensures
        all_of_rule(missing_fields_upto(f, fields, req, k), "require-frontmatter"@),
    decreases k,
{
    if k > 0 {
        lemma_missing_fields_rule(f, fields, req, k - 1);
        let last = if lookup_field(fields, req[k - 1]) is Some {
            Seq::<DiagnosticView>::empty()
        } else {
            seq![
                diag_in(
                    f,
                    "require-frontmatter"@,
                    Severity::Error,
                    "missing required frontmatter field: "@ + req[k - 1],
                    1,
                    1,
                    0,
                    3,
                    None,
                ),
            ]
        };
        lemma_all_of_rule_add(missing_fields_upto(f, fields, req, k - 1), last, "require-frontmatter"@);
    }
}

} // verus!
