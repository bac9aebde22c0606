use mdlint::config::{Config, OptionValue, RuleConfig, RuleConfigFull, RuleLevel};
use mdlint::file::MarkdownFile;
use mdlint::report::{has_errors, severity_label, short_line, shown, summary};
use mdlint::rules::{run_all, Diagnostic};
use mdlint::workspace::Workspace;

const ROOT: &str = "/vault";

/// Lints an in-memory vault below `/vault`, as the command line does for a
/// directory holding these files.
fn lint(files: &[(&str, &str)], config: &Config) -> Vec<Diagnostic> {
    let names: Vec<String> = files.iter().map(|(n, _)| n.to_string()).collect();
    let (md, all) = Workspace::given_file_paths(ROOT, &names);
    let mut parsed = Vec::new();
    for path in &md {
        let content = files
            .iter()
            .find(|(n, _)| format!("{ROOT}/{n}") == *path)
            .map(|(_, c)| c.to_string())
            .unwrap();
        parsed.push(MarkdownFile::parse(path, ROOT, content, config.links.slug_mode));
    }
    let ws = Workspace::build(ROOT.to_string(), parsed, all);
    run_all(&ws, config)
}

fn with_rule(name: &str, level: RuleLevel, options: Vec<(String, OptionValue)>) -> Config {
    let mut cfg = Config::default();
    cfg.rules.push((name.to_string(), RuleConfig::Full(RuleConfigFull { level, options })));
    cfg
}

fn strs(items: &[&str]) -> OptionValue {
    OptionValue::List(items.iter().map(|s| Some(s.to_string())).collect())
}

/// The text the rich form prints: messages, rule names and help, then the summary.
fn pretty_text(diags: &Vec<Diagnostic>) -> String {
    let mut out = String::new();
    for d in diags {
        out.push_str(&d.rule);
        out.push('\n');
        out.push_str(&d.message);
        out.push('\n');
        if let Some(h) = &d.help {
            out.push_str(h);
            out.push('\n');
        }
    }
    out.push_str(&summary(diags));
    out
}

#[test]
fn test_no_issues() {
    let diags = lint(
        &[("index.md", "# Index\n\n- [Guide](./guide.md)\n"), ("guide.md", "# Guide\n\nHello world.\n")],
        &Config::default(),
    );
    assert!(!has_errors(&diags));
    assert!(pretty_text(&diags).contains("No issues found"));
}

#[test]
fn test_broken_standard_link() {
    let diags = lint(&[("index.md", "# Index\n\n[Missing](./nope.md)\n")], &Config::default());
    assert!(has_errors(&diags));
    assert!(pretty_text(&diags).contains("link target not found: ./nope.md"));
}

#[test]
fn test_broken_wikilink() {
    let diags = lint(&[("index.md", "# Index\n\n[[nonexistent]]\n")], &Config::default());
    assert!(has_errors(&diags));
    assert!(pretty_text(&diags).contains("link target not found: nonexistent"));
}

#[test]
fn test_valid_wikilink() {
    let diags = lint(&[("index.md", "# Index\n\n[[guide]]\n"), ("guide.md", "# Guide\n")], &Config::default());
    assert!(!has_errors(&diags));
}

#[test]
fn test_broken_anchor() {
    let diags = lint(
        &[("index.md", "# Index\n\n[Link](./guide.md#nope)\n"), ("guide.md", "# Guide\n\n## Real Heading\n")],
        &Config::default(),
    );
    assert!(has_errors(&diags));
    assert!(pretty_text(&diags).contains("heading anchor not found: #nope"));
}

#[test]
fn test_valid_anchor() {
    let diags = lint(
        &[("index.md", "# Index\n\n[Link](./guide.md#real-heading)\n"), ("guide.md", "# Guide\n\n## Real Heading\n")],
        &Config::default(),
    );
    assert!(!has_errors(&diags));
}

#[test]
fn test_self_anchor() {
    let diags = lint(&[("index.md", "# Index\n\n## Section\n\n[Link](#section)\n")], &Config::default());
    assert!(!has_errors(&diags));
}

#[test]
fn test_heading_increment() {
    let diags = lint(&[("doc.md", "# Title\n\n#### Skipped\n")], &Config::default());
    assert!(pretty_text(&diags).contains("heading level skipped: h1 -> h4"));
}

#[test]
fn test_first_heading_not_h1() {
    let diags = lint(&[("doc.md", "## Not H1\n\nSome text.\n")], &Config::default());
    assert!(pretty_text(&diags).contains("first heading should be h1, found h2"));
}

#[test]
fn test_missing_image() {
    let diags = lint(&[("doc.md", "# Doc\n\n![Logo](./missing.png)\n")], &Config::default());
    assert!(has_errors(&diags));
    assert!(pretty_text(&diags).contains("link target not found: ./missing.png"));
}

#[test]
fn test_require_frontmatter_config() {
    let cfg = with_rule("require-frontmatter", RuleLevel::Error, vec![("fields".to_string(), strs(&["title"]))]);
    let diags = lint(&[("mdlint.toml", ""), ("doc.md", "# No Frontmatter\n")], &cfg);
    assert!(has_errors(&diags));
    assert!(pretty_text(&diags).contains("missing frontmatter"));
}

#[test]
fn test_frontmatter_present_passes() {
    let cfg = with_rule("require-frontmatter", RuleLevel::Error, vec![("fields".to_string(), strs(&["title"]))]);
    let diags = lint(&[("mdlint.toml", ""), ("doc.md", "---\ntitle: Hello\n---\n\n# Hello\n")], &cfg);
    assert!(!has_errors(&diags));
}

#[test]
fn test_quiet_suppresses_warnings() {
    let files = [("doc.md", "## Not H1\n\n#### Skipped H3\n")];
    let diags = lint(&files, &Config::default());
    assert!(pretty_text(&diags).contains("heading level skipped"));

    let quiet = shown(lint(&files, &Config::default()), true);
    assert!(!has_errors(&quiet));
    assert!(pretty_text(&quiet).contains("No issues found"));
}

#[test]
fn test_json_output() {
    let diags = lint(&[("doc.md", "# Doc\n\n[Missing](./nope.md)\n")], &Config::default());
    assert!(has_errors(&diags));
    let items: Vec<serde_json::Value> = diags
        .iter()
        .map(|d| {
            let mut m = serde_json::Map::new();
            m.insert("rule".to_string(), serde_json::Value::String(d.rule.clone()));
            m.insert("severity".to_string(), serde_json::Value::String(severity_label(d.severity).to_string()));
            m.insert("message".to_string(), serde_json::Value::String(d.message.clone()));
            serde_json::Value::Object(m)
        })
        .collect();
    let json = serde_json::to_string_pretty(&items).unwrap();
    assert!(json.contains("\"rule\": \"broken-links\""));
}

#[test]
fn test_short_output() {
    let diags = lint(&[("doc.md", "# Doc\n\n[Missing](./nope.md)\n")], &Config::default());
    assert!(has_errors(&diags));
    let text: Vec<String> = diags.iter().map(short_line).collect();
    assert!(text.iter().any(|l| l.contains("error[broken-links]")));
}

#[test]
fn test_external_links_skipped_by_default() {
    let diags = lint(&[("doc.md", "# Doc\n\n[Google](https://google.com)\n")], &Config::default());
    assert!(!has_errors(&diags));
}

#[test]
fn test_html_xml_tags_not_treated_as_links() {
    let diags = lint(
        &[(
            "doc.md",
            "# Doc\n\nSome text with <custom:tag>content</custom:tag> inline.\n\n<my-ns:element attr=\"val\">block</my-ns:element>\n",
        )],
        &Config::default(),
    );
    assert!(!has_errors(&diags));
    assert!(!pretty_text(&diags).contains("broken-links"));
}

#[test]
fn test_links_in_code_blocks_ignored() {
    let diags = lint(&[("doc.md", "# Doc\n\n```\n[Not a link](./fake.md)\n```\n")], &Config::default());
    assert!(!has_errors(&diags));
}

#[test]
fn test_rule_disabled_via_config() {
    let cfg = with_rule("first-heading", RuleLevel::Off, vec![]);
    let diags = lint(&[("mdlint.toml", ""), ("doc.md", "## Not H1\n")], &cfg);
    assert!(!has_errors(&diags));
    assert!(diags.iter().all(|d| d.rule != "first-heading"));
}

#[test]
fn test_wikilink_in_subdirectory() {
    let diags = lint(&[("index.md", "# Index\n\n[[sub-page]]\n"), ("sub/sub-page.md", "# Sub Page\n")], &Config::default());
    assert!(!has_errors(&diags));
}

#[test]
fn test_exit_code_zero_on_warnings_only() {
    let diags = lint(&[("doc.md", "## Not H1\n\nSome text.\n")], &Config::default());
    assert!(!diags.is_empty());
    assert!(!has_errors(&diags));
}

#[test]
fn test_orphan_page_detected() {
    let cfg = with_rule("orphan-pages", RuleLevel::Warning, vec![]);
    let diags = lint(
        &[
            ("mdlint.toml", ""),
            ("index.md", "# Index\n\n[Guide](./guide.md)\n"),
            ("guide.md", "# Guide\n"),
            ("orphan.md", "# Orphan\n\nNobody links here.\n"),
        ],
        &cfg,
    );
    assert!(pretty_text(&diags).contains("page has no incoming links"));
}

#[test]
fn test_orphan_page_index_excluded_by_default() {
    let diags = lint(&[("index.md", "# Index\n")], &Config::default());
    assert!(!pretty_text(&diags).contains("orphan"));
}

#[test]
fn test_orphan_page_custom_exclude() {
    let cfg = with_rule(
        "orphan-pages",
        RuleLevel::Warning,
        vec![("exclude".to_string(), strs(&["index.md", "changelog.md"]))],
    );
    let diags = lint(&[("mdlint.toml", ""), ("index.md", "# Index\n"), ("changelog.md", "# Changelog\n")], &cfg);
    assert!(!pretty_text(&diags).contains("orphan"));
}

#[test]
fn test_no_orphans_when_all_linked() {
    let diags = lint(
        &[
            ("index.md", "# Index\n\n[A](./a.md)\n[B](./b.md)\n"),
            ("a.md", "# A\n\n[B](./b.md)\n"),
            ("b.md", "# B\n\n[A](./a.md)\n"),
        ],
        &Config::default(),
    );
    assert!(!pretty_text(&diags).contains("orphan"));
}

#[test]
fn test_orphan_page_disabled() {
    let cfg = with_rule("orphan-pages", RuleLevel::Off, vec![]);
    let diags = lint(&[("mdlint.toml", ""), ("orphan.md", "# Orphan\n")], &cfg);
    assert!(!pretty_text(&diags).contains("orphan"));
}
