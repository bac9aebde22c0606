//! The first heading of a file must be of a given level.

use vstd::prelude::*;
use crate::config::{Config, lookup_rule, option_u8_spec};
use crate::file::MarkdownFile;
use crate::links::{line_col_to_offset, utf8_len};
use crate::text::{decimal, push_decimal};
use super::heading_increment::heading_span;
use super::{Diagnostic, DiagnosticView, FileRule, Severity, all_of_rule, diag_in, diag_views, make_diag};

verus! {

/// First heading in a file must be a specific level (default: h1).
pub struct FirstHeading;

/// The level the first heading must have: the rule's `level` option when it
/// is set and fits in `u8`, else 1.
pub open spec fn required_level(config: Config) -> u8 {
    match lookup_rule(config.rules@, "first-heading"@) {
        Some(rc) => match option_u8_spec(rc, "level"@) {
            Some(l) => l,
            None => 1,
        },
        None => 1,
    }
}

/// The diagnostics of the first-heading rule for `f`.
pub open spec fn first_heading_spec(f: MarkdownFile, config: Config) -> Seq<DiagnosticView> {
    let required = required_level(config);
    if f.headings.len() == 0 {
        Seq::empty()
    } else {
        let h = f.headings@[0]@;
        if h.level != required {
            seq![
                diag_in(
                    f,
                    "first-heading"@,
                    Severity::Warning,
                    "first heading should be h"@ + decimal(required as nat) + ", found h"@ + decimal(h.level as nat),
                    h.line,
                    h.col,
                    heading_span(f, h).0,
                    heading_span(f, h).1,
                    None,
                ),
            ]
        } else {
            Seq::empty()
        }
    }
}

impl FileRule for FirstHeading {
    fn name(&self) -> (n: &str)
        ensures
            n@ == "first-heading"@,
    {
        "first-heading"
    }

    fn default_severity(&self) -> (s: Severity)
        ensures
            s == Severity::Warning,
    {
        Severity::Warning
    }

    fn check(&self, file: &MarkdownFile, config: &Config) -> (r: Vec<Diagnostic>)
        ensures
            diag_views(r@) == first_heading_spec(*file, *config),
    {
        let required_level: u8 = match config.rule_config(self.name()) {
            Some(rc) => match rc.option_u8("level") {
                Some(l) => l,
                None => 1,
            },
            None => 1,
        };
        let mut diagnostics: Vec<Diagnostic> = Vec::new();
        if file.headings.len() == 0 {
            assert(diag_views(diagnostics@) =~= first_heading_spec(*file, *config));
            return diagnostics;
        }
        let first = &file.headings[0];
        if first.level != required_level {
            let mut message = String::from_str("first heading should be h");
            push_decimal(&mut message, required_level as usize);
            message.append(", found h");
            push_decimal(&mut message, first.level as usize);
            let start = line_col_to_offset(file.content.as_str(), first.line, first.col);
            let len = utf8_len(first.text.as_str()).saturating_add(first.level as usize + 1);
            diagnostics.push(make_diag(
                file,
                self.name(),
                self.default_severity(),
                message,
                first.line,
                first.col,
                start,
                len,
                None,
            ));
        }
        assert(diag_views(diagnostics@) =~= first_heading_spec(*file, *config));
        diagnostics
    }
}

/// Every diagnostic of the rule names it.
pub proof fn lemma_first_heading_rule(f: MarkdownFile, config: Config)
    ensures
        all_of_rule(first_heading_spec(f, config), "first-heading"@),
{
}

} // verus!
