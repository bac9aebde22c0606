//! Heading levels must increment by one.

use vstd::prelude::*;
use crate::config::Config;
use crate::file::MarkdownFile;
use crate::headings::HeadingView;
use crate::links::{byte_len, line_col_offset, line_col_to_offset, utf8_len};
use crate::text::{decimal, push_decimal};
use super::{Diagnostic, DiagnosticView, FileRule, Severity, all_of_rule, diag_in, diag_views, lemma_all_of_rule_add, make_diag};

verus! {

/// Heading levels must increment by one (no jumping from h1 to h4).
pub struct HeadingIncrement;

/// `n`, or the largest `usize` when it is larger.
pub open spec fn capped(n: int) -> usize {
    if n <= usize::MAX {
        n as usize
    } else {
        usize::MAX
    }
}

/// The span of a heading in its file: from its position, its text's bytes
/// plus its level plus one (capped at the largest `usize`).
pub open spec fn heading_span(f: MarkdownFile, h: HeadingView) -> (usize, usize) {
    (
        line_col_offset(f.content@, h.line as int, h.col as int) as usize,
        capped(byte_len(h.text) + h.level + 1),
    )
}

/// The diagnostic for heading `i` of `f` when it skips levels after heading `i - 1`.
pub open spec fn increment_diag(f: MarkdownFile, i: int) -> Seq<DiagnosticView> {
    let prev = f.headings@[i - 1]@.level;
    let h = f.headings@[i]@;
    if h.level > prev + 1 {
        seq![
            diag_in(
                f,
                "heading-increment"@,
                Severity::Warning,
                "heading level skipped: h"@ + decimal(prev as nat) + " -> h"@ + decimal(h.level as nat),
                h.line,
                h.col,
                heading_span(f, h).0,
                heading_span(f, h).1,
                Some("expected h"@ + decimal((prev + 1) as nat) + " or lower, found h"@ + decimal(h.level as nat)),
            ),
        ]
    } else {
        Seq::empty()
    }
}

/// The diagnostics for the first `k` headings of `f`.
pub open spec fn increment_upto(f: MarkdownFile, k: int) -> Seq<DiagnosticView>
    decreases k,
{
    if k <= 1 {
        Seq::empty()
    } else {
        increment_upto(f, k - 1) + increment_diag(f, k - 1)
    }
}

/// The diagnostics of the heading-increment rule for `f`.
pub open spec fn heading_increment_spec(f: MarkdownFile) -> Seq<DiagnosticView> {
    increment_upto(f, f.headings.len() as int)
}

impl FileRule for HeadingIncrement {
    fn name(&self) -> (n: &str)
        ensures
            n@ == "heading-increment"@,
    {
        "heading-increment"
    }

    fn default_severity(&self) -> (s: Severity)
        ensures
            s == Severity::Warning,
    {
        Severity::Warning
    }

    fn check(&self, file: &MarkdownFile, _config: &Config) -> (r: Vec<Diagnostic>)
        ensures
            diag_views(r@) == heading_increment_spec(*file),
    {
        let mut diagnostics: Vec<Diagnostic> = Vec::new();
        let mut i: usize = 1;
        while i < file.headings.len()
            invariant
                1 <= i,
                i <= file.headings.len() || file.headings.len() == 0,
                i <= file.headings.len() + 1,
                diag_views(diagnostics@) == increment_upto(*file, i as int),
            decreases file.headings.len() - i,
        {
            let ghost before = diag_views(diagnostics@);
            let prev = file.headings[i - 1].level;
            let heading = &file.headings[i];
            if (heading.level as usize) > (prev as usize) + 1 {
                let mut message = String::from_str("heading level skipped: h");
                push_decimal(&mut message, prev as usize);
                message.append(" -> h");
                push_decimal(&mut message, heading.level as usize);
                let mut help = String::from_str("expected h");
                push_decimal(&mut help, (prev as usize) + 1);
                help.append(" or lower, found h");
                push_decimal(&mut help, heading.level as usize);
                let start = line_col_to_offset(file.content.as_str(), heading.line, heading.col);
                let len = utf8_len(heading.text.as_str()).saturating_add(heading.level as usize + 1);
                let d = make_diag(
                    file,
                    self.name(),
                    self.default_severity(),
                    message,
                    heading.line,
                    heading.col,
                    start,
                    len,
                    Some(help),
                );
                diagnostics.push(d);
                assert(diag_views(diagnostics@) =~= before + increment_diag(*file, i as int));
            } else {
                assert(diag_views(diagnostics@) =~= before + increment_diag(*file, i as int));
            }
            i += 1;
        }
        diagnostics
    }
}

/// Every diagnostic of the rule names it.
pub proof fn lemma_heading_increment_rule(f: MarkdownFile, k: int)
    ensures
        all_of_rule(increment_upto(f, k), "heading-increment"@),
    decreases k,
{
    if k > 1 {
        lemma_heading_increment_rule(f, k - 1);
        lemma_all_of_rule_add(increment_upto(f, k - 1), increment_diag(f, k - 1), "heading-increment"@);
    }
}

/// Heading `i` of `f` is more than one level deeper than the heading just
/// before it.
pub open spec fn skips_level(f: MarkdownFile, i: int) -> bool {
    1 <= i < f.headings.len() && f.headings@[i]@.level > f.headings@[i - 1]@.level + 1
}

/// `d` reports heading `i` of `f` as skipping levels after heading `i - 1`:
/// at that heading's line and column, naming both levels.
pub open spec fn reports_skip(d: DiagnosticView, f: MarkdownFile, i: int) -> bool {
    &&& d.rule == "heading-increment"@
    &&& d.file == f.path@
    &&& d.line == f.headings@[i]@.line
    &&& d.col == f.headings@[i]@.col
    &&& d.message == "heading level skipped: h"@ + decimal(f.headings@[i - 1]@.level as nat) + " -> h"@
        + decimal(f.headings@[i]@.level as nat)
}

/// `d` reports some heading of `f` below `m` as skipping levels.
pub open spec fn reports_some_skip(d: DiagnosticView, f: MarkdownFile, m: int) -> bool {
    exists|i: int| 1 <= i < m && skips_level(f, i) && #[trigger] reports_skip(d, f, i)
}

proof fn lemma_increment_upto(f: MarkdownFile, m: int)
    requires
        m <= f.headings.len(),
    ensures
        forall|k: int|
            0 <= k < increment_upto(f, m).len() ==> #[trigger] reports_some_skip(increment_upto(f, m)[k], f, m),
        forall|i: int|
            1 <= i < m && #[trigger] skips_level(f, i) ==> exists|k: int|
                0 <= k < increment_upto(f, m).len() && #[trigger] reports_skip(increment_upto(f, m)[k], f, i),
    decreases m,
{
    if m > 1 {
        lemma_increment_upto(f, m - 1);
        let a = increment_upto(f, m - 1);
        let b = increment_diag(f, m - 1);
        let r = increment_upto(f, m);
        assert(r == a + b);
        assert forall|k: int| 0 <= k < r.len() implies #[trigger] reports_some_skip(r[k], f, m) by {
            if k < a.len() {
                assert(r[k] == a[k]);
                assert(reports_some_skip(a[k], f, m - 1));
                let i = choose|i: int| 1 <= i < m - 1 && skips_level(f, i) && #[trigger] reports_skip(a[k], f, i);
                assert(reports_skip(r[k], f, i));
            } else {
                assert(r[k] == b[k - a.len()]);
                assert(reports_skip(r[k], f, m - 1));
            }
        }
        assert forall|i: int| 1 <= i < m && #[trigger] skips_level(f, i) implies exists|k: int|
            0 <= k < r.len() && #[trigger] reports_skip(r[k], f, i) by {
            if i < m - 1 {
                let k = choose|k: int| 0 <= k < a.len() && #[trigger] reports_skip(a[k], f, i);
                assert(r[k] == a[k]);
                assert(reports_skip(r[k], f, i));
            } else {
                assert(r[a.len() as int] == b[0]);
                assert(reports_skip(r[a.len() as int], f, i));
            }
        }
    } else {
        assert(increment_upto(f, m).len() == 0);
    }
}

/// The heading-increment rule reports, for each heading more than one level
/// deeper than the heading just before it, a finding at that heading naming
/// both levels, and nothing else: every finding is such a report. So a file
/// whose levels never rise by more than one step at a time gets no finding.
pub proof fn law_heading_increment(f: MarkdownFile)
    ensures
        forall|k: int|
            0 <= k < heading_increment_spec(f).len() ==> #[trigger] reports_some_skip(
                heading_increment_spec(f)[k],
                f,
                f.headings.len() as int,
            ),
        forall|i: int|
            #[trigger] skips_level(f, i) ==> exists|k: int|
                0 <= k < heading_increment_spec(f).len() && #[trigger] reports_skip(heading_increment_spec(f)[k], f, i),
        (forall|i: int| #![trigger f.headings@[i]] 1 <= i < f.headings.len() ==> f.headings@[i]@.level <= f.headings@[i - 1]@.level + 1)
            ==> heading_increment_spec(f).len() == 0,
{
    let n = f.headings.len() as int;
    lemma_increment_upto(f, n);
    let r = heading_increment_spec(f);
    assert(r == increment_upto(f, n));
    assert forall|i: int| #[trigger] skips_level(f, i) implies exists|k: int|
        0 <= k < r.len() && #[trigger] reports_skip(r[k], f, i) by {
        assert(1 <= i < n);
    }
    if (forall|i: int| #![trigger f.headings@[i]] 1 <= i < n ==> f.headings@[i]@.level <= f.headings@[i - 1]@.level + 1) && r.len() > 0 {
        assert(reports_some_skip(r[0], f, n));
        let i = choose|i: int| 1 <= i < n && skips_level(f, i) && #[trigger] reports_skip(r[0], f, i);
        assert(f.headings@[i]@.level <= f.headings@[i - 1]@.level + 1);
    }
}

} // verus!
