//! How diagnostics are reported: the output formats, the one-line form, the
//! closing summary, and which diagnostics are shown.

use vstd::prelude::*;
use crate::paths::{same_path, same_path_exec};
use crate::rules::{Diagnostic, DiagnosticView, Severity, diag_views};
use crate::text::{chars_eq, chars_of, decimal, push_decimal};

verus! {

/// The output formats.
#[derive(Debug, Clone, Copy, PartialEq, Eq, Structural)]
pub enum OutputFormat {
    Pretty,
    Json,
    Short,
}

/// The name of a format, as written on the command line.
pub open spec fn format_name(f: OutputFormat) -> Seq<char> {
    match f {
        OutputFormat::Pretty => "pretty"@,
        OutputFormat::Json => "json"@,
        OutputFormat::Short => "short"@,
    }
}

/// The format a name stands for.
pub open spec fn format_named(s: Seq<char>) -> Option<OutputFormat> {
    if s == "pretty"@ {
        Some(OutputFormat::Pretty)
    } else if s == "json"@ {
        Some(OutputFormat::Json)
    } else if s == "short"@ {
        Some(OutputFormat::Short)
    } else {
        None
    }
}

/// The message for a name that is no format.
pub open spec fn unknown_format_message(s: Seq<char>) -> Seq<char> {
    "unknown format: "@ + s + " (expected pretty, json, or short)"@
}

impl OutputFormat {
    /// The format's name.
    pub fn name(&self) -> (s: &'static str)
        ensures
            s@ == format_name(*self),
    {
        match self {
            OutputFormat::Pretty => "pretty",
            OutputFormat::Json => "json",
            OutputFormat::Short => "short",
        }
    }

    /// The format's name as a string.
    pub fn to_string(&self) -> (s: String)
        ensures
            s@ == format_name(*self),
    {
        String::from_str(self.name())
    }

    /// The format named `s`, or the message saying that there is none.
    pub fn parse(s: &str) -> (r: Result<OutputFormat, String>)
        ensures
            r matches Ok(f) ==> format_named(s@) == Some(f),
            r matches Err(e) ==> format_named(s@) is None && e@ == unknown_format_message(s@),
    {
        let cs = chars_of(s);
        let pretty = chars_of("pretty");
        let json = chars_of("json");
        let short = chars_of("short");
        if chars_eq(cs.as_slice(), pretty.as_slice()) {
            Ok(OutputFormat::Pretty)
        } else if chars_eq(cs.as_slice(), json.as_slice()) {
            Ok(OutputFormat::Json)
        } else if chars_eq(cs.as_slice(), short.as_slice()) {
            Ok(OutputFormat::Short)
        } else {
            let mut msg = String::from_str("unknown format: ");
            msg.append(s);
            msg.append(" (expected pretty, json, or short)");
            Err(msg)
        }
    }
}

impl std::str::FromStr for OutputFormat {
    type Err = String;

    fn from_str(s: &str) -> (r: Result<Self, Self::Err>)
        ensures
            r matches Ok(f) ==> format_named(s@) == Some(f),
            r matches Err(e) ==> format_named(s@) is None && e@ == unknown_format_message(s@),
    {
        OutputFormat::parse(s)
    }
}

/// Reading a format's name gives the format back.
pub proof fn law_format_name_parses(f: OutputFormat)
    ensures
        format_named(format_name(f)) == Some(f),
{
    reveal_strlit("pretty");
    reveal_strlit("json");
    reveal_strlit("short");
    assert("pretty"@.len() == 6 && "json"@.len() == 4 && "short"@.len() == 5);
}

/// The severity as the one-line form writes it.
pub open spec fn short_label(s: Severity) -> Seq<char> {
    match s {
        Severity::Error => "error"@,
        Severity::Warning => "warn"@,
        Severity::Info => "info"@,
    }
}

/// The severity as the machine-readable and rich forms write it.
pub open spec fn long_label(s: Severity) -> Seq<char> {
    match s {
        Severity::Error => "error"@,
        Severity::Warning => "warning"@,
        Severity::Info => "info"@,
    }
}

/// The severity as the one-line form writes it.
pub fn short_severity(s: Severity) -> (r: &'static str)
    ensures
        r@ == short_label(s),
{
    match s {
        Severity::Error => "error",
        Severity::Warning => "warn",
        Severity::Info => "info",
    }
}

/// The severity as the machine-readable and rich forms write it.
pub fn severity_label(s: Severity) -> (r: &'static str)
    ensures
        r@ == long_label(s),
{
    match s {
        Severity::Error => "error",
        Severity::Warning => "warning",
        Severity::Info => "info",
    }
}

/// The one-line form of a diagnostic: `file:line:col: severity[rule] message`.
pub open spec fn short_line_spec(d: DiagnosticView) -> Seq<char> {
    d.file + ":"@ + decimal(d.line as nat) + ":"@ + decimal(d.col as nat) + ": "@ + short_label(d.severity)
        + "["@ + d.rule + "] "@ + d.message
}

/// The one-line form of a diagnostic.
pub fn short_line(d: &Diagnostic) -> (r: String)
    ensures
        r@ == short_line_spec(d@),
{
    let mut r = d.file.clone();
    r.append(":");
    push_decimal(&mut r, d.line);
    r.append(":");
    push_decimal(&mut r, d.col);
    r.append(": ");
    r.append(short_severity(d.severity));
    r.append("[");
    r.append(d.rule.as_str());
    r.append("] ");
    r.append(d.message.as_str());
    r
}

/// How many of the diagnostics have severity `s`.
pub open spec fn count_severity(ds: Seq<DiagnosticView>, s: Severity) -> nat
    decreases ds.len(),
{
    if ds.len() == 0 {
        0
    } else {
        count_severity(ds.drop_last(), s) + if ds.last().severity == s { 1nat } else { 0nat }
    }
}

/// How many runs of diagnostics about one file the list has: a new run
/// starts wherever the file differs from the one before.
pub open spec fn file_runs(ds: Seq<DiagnosticView>) -> nat
    decreases ds.len(),
{
    if ds.len() == 0 {
        0
    } else {
        file_runs(ds.drop_last()) + if ds.len() == 1 || !same_path(ds[ds.len() - 2].file, ds.last().file) {
            1nat
        } else {
            0nat
        }
    }
}

/// The closing line of the rich form.
pub open spec fn summary_spec(ds: Seq<DiagnosticView>) -> Seq<char> {
    if ds.len() == 0 {
        "No issues found."@
    } else {
        "\nFound "@ + decimal(count_severity(ds, Severity::Error)) + " error(s), "@ + decimal(
            count_severity(ds, Severity::Warning),
        ) + " warning(s) across "@ + decimal(file_runs(ds)) + " file(s)."@
    }
}

/// The closing line of the rich form: that nothing was found, or how many
/// errors and warnings over how many files.
pub fn summary(ds: &Vec<Diagnostic>) -> (r: String)
    ensures
        r@ == summary_spec(diag_views(ds@)),
{
    let ghost v = diag_views(ds@);
    if ds.len() == 0 {
        return String::from_str("No issues found.");
    }
    let mut errors: usize = 0;
    let mut warnings: usize = 0;
    let mut files: usize = 0;
    let mut i: usize = 0;
    assert(v.take(0) =~= Seq::<DiagnosticView>::empty());
    while i < ds.len()
        invariant
            v == diag_views(ds@),
            i <= ds.len(),
            errors == count_severity(v.take(i as int), Severity::Error),
            warnings == count_severity(v.take(i as int), Severity::Warning),
            files == file_runs(v.take(i as int)),
            errors <= i && warnings <= i && files <= i,
        decreases ds.len() - i,
    {
        let ghost t = v.take(i + 1);
        assert(t.drop_last() =~= v.take(i as int));
        assert(t.last() == ds@[i as int]@);
        if ds[i].severity == Severity::Error {
            errors += 1;
        }
        if ds[i].severity == Severity::Warning {
            warnings += 1;
        }
        if i == 0 {
            files += 1;
        } else {
            let a = chars_of(ds[i - 1].file.as_str());
            let b = chars_of(ds[i].file.as_str());
            assert(t[t.len() - 2] == ds@[i - 1]@);
            if !same_path_exec(a.as_slice(), b.as_slice()) {
                files += 1;
            }
        }
        i += 1;
    }
    assert(v.take(ds.len() as int) =~= v);
    let mut r = String::from_str("\nFound ");
    push_decimal(&mut r, errors);
    r.append(" error(s), ");
    push_decimal(&mut r, warnings);
    r.append(" warning(s) across ");
    push_decimal(&mut r, files);
    r.append(" file(s).");
    r
}

/// The errors among the diagnostics, in order.
pub open spec fn errors_only_spec(ds: Seq<DiagnosticView>) -> Seq<DiagnosticView>
    decreases ds.len(),
{
    if ds.len() == 0 {
        Seq::empty()
    } else if ds.last().severity == Severity::Error {
        errors_only_spec(ds.drop_last()).push(ds.last())
    } else {
        errors_only_spec(ds.drop_last())
    }
}

/// The diagnostics to show: with `quiet`, the errors only, else all of them.
pub fn shown(ds: Vec<Diagnostic>, quiet: bool) -> (r: Vec<Diagnostic>)
    ensures
        diag_views(r@) == (if quiet { errors_only_spec(diag_views(ds@)) } else { diag_views(ds@) }),
{
    if !quiet {
        return ds;
    }
    let ghost orig = diag_views(ds@);
    let mut rest = ds;
    let mut out: Vec<Diagnostic> = Vec::new();
    let ghost mut k: int = 0;
    while rest.len() > 0
        invariant
            0 <= k <= orig.len(),
            diag_views(rest@) == orig.skip(k),
            diag_views(out@) == errors_only_spec(orig.take(k)),
        decreases rest.len(),
    {
        let ghost rest0 = rest@;
        assert(diag_views(rest0).len() == rest0.len());
        let d = rest.remove(0);
        proof {
            assert(diag_views(rest0)[0] == orig[k]);
            assert(orig.take(k + 1).drop_last() =~= orig.take(k));
            assert(orig.take(k + 1).last() == orig[k]);
        }
        let ghost out0 = out@;
        if d.severity == Severity::Error {
            out.push(d);
            assert(diag_views(out@) =~= diag_views(out0).push(orig[k]));
        }
        proof {
            assert(rest@ =~= rest0.skip(1));
            assert forall|j: int| 0 <= j < rest@.len() implies diag_views(rest@)[j] == orig.skip(k + 1)[j] by {
                assert(diag_views(rest0)[j + 1] == orig.skip(k)[j + 1]);
            }
            assert(diag_views(rest@) =~= orig.skip(k + 1));
            k = k + 1;
        }
    }
    assert(orig.take(k) =~= orig) by {
        assert(orig.skip(k).len() == 0);
    }
    out
}

/// Whether any of the diagnostics is an error; the run then fails.
pub fn has_errors(ds: &Vec<Diagnostic>) -> (b: bool)
    ensures
        b == exists|i: int| 0 <= i < ds.len() && (#[trigger] ds@[i]).severity == Severity::Error,
{
    let mut i: usize = 0;
    while i < ds.len()
        invariant
            i <= ds.len(),
            forall|j: int| 0 <= j < i ==> (#[trigger] ds@[j]).severity != Severity::Error,
        decreases ds.len() - i,
    {
        if ds[i].severity == Severity::Error {
            return true;
        }
        i += 1;
    }
    false
}

/// Whether some diagnostic is an error.
pub open spec fn any_error(ds: Seq<DiagnosticView>) -> bool {
    exists|i: int| 0 <= i < ds.len() && (#[trigger] ds[i]).severity == Severity::Error
}

/// Quiet mode shows only errors, and all of them: so it leaves whether the
/// run fails unchanged.
pub proof fn law_quiet_keeps_errors(ds: Seq<DiagnosticView>)
    ensures
        forall|i: int|
            0 <= i < errors_only_spec(ds).len() ==> (#[trigger] errors_only_spec(ds)[i]).severity == Severity::Error,
        count_severity(errors_only_spec(ds), Severity::Error) == count_severity(ds, Severity::Error),
        any_error(errors_only_spec(ds)) == any_error(ds),
    decreases ds.len(),
{
    if ds.len() > 0 {
        let init = ds.drop_last();
        law_quiet_keeps_errors(init);
        let e = errors_only_spec(init);
        if ds.last().severity == Severity::Error {
            assert(errors_only_spec(ds) == e.push(ds.last()));
            assert(e.push(ds.last()).drop_last() =~= e);
            assert(any_error(ds)) by {
                assert(ds[ds.len() - 1].severity == Severity::Error);
            }
            assert(any_error(e.push(ds.last()))) by {
                assert(e.push(ds.last())[e.len() as int] == ds.last());
            }
        } else {
            assert(errors_only_spec(ds) == e);
            assert(any_error(ds) == any_error(init)) by {
                if any_error(ds) {
                    let i = choose|i: int| 0 <= i < ds.len() && (#[trigger] ds[i]).severity == Severity::Error;
                    assert(init[i] == ds[i]);
                }
                if any_error(init) {
                    let i = choose|i: int| 0 <= i < init.len() && (#[trigger] init[i]).severity == Severity::Error;
                    assert(ds[i] == init[i]);
                }
            }
        }
    }
}

} // verus!
