use mdlint::config::{config_candidates, find_config_file, Config, LinkConfig, OptionValue, RuleConfig, RuleConfigFull, RuleLevel, WikilinkResolution};
use mdlint::file::MarkdownFile;
use mdlint::headings::{gfm_slug, slug_matches, Heading, SlugMode};
use mdlint::links::{split_url_anchor, split_wikilink, Link, LinkKind};
use mdlint::report::{has_errors, severity_label, short_line, shown, summary, OutputFormat};
use mdlint::resolve::{resolve_link, ResolveError};
use mdlint::rules::order::sort_diagnostics;
use mdlint::rules::orphan_pages::glob_match;
use mdlint::rules::{run_all, Diagnostic, Severity};
use mdlint::workspace::Workspace;

const ROOT: &str = "/vault";

fn workspace(files: &[(&str, &str)], config: &Config) -> Workspace {
    let names: Vec<String> = files.iter().map(|(n, _)| n.to_string()).collect();
    let (md, all) = Workspace::given_file_paths(ROOT, &names);
    let mut parsed = Vec::new();
    for path in &md {
        let content = files
            .iter()
            .find(|(n, _)| format!("{ROOT}/{n}") == *path)
            .map(|(_, c)| c.to_string())
            .unwrap();
        parsed.push(MarkdownFile::parse(path, ROOT, content, config.links.slug_mode));
    }
    Workspace::build(ROOT.to_string(), parsed, all)
}

fn lint(files: &[(&str, &str)], config: &Config) -> Vec<Diagnostic> {
    run_all(&workspace(files, config), config)
}

fn with_rule(name: &str, level: RuleLevel, options: Vec<(String, OptionValue)>) -> Config {
    let mut cfg = Config::default();
    cfg.rules.push((name.to_string(), RuleConfig::Full(RuleConfigFull { level, options })));
    cfg
}

fn diag(file: &str, line: usize, col: usize, rule: &str) -> Diagnostic {
    Diagnostic {
        rule: rule.to_string(),
        severity: Severity::Warning,
        message: String::new(),
        file: file.to_string(),
        line,
        col,
        source_code: String::new(),
        start_offset: 0,
        len: 0,
        help: None,
    }
}

fn keys(ds: &[Diagnostic]) -> Vec<(String, usize, usize, String)> {
    ds.iter().map(|d| (d.file.clone(), d.line, d.col, d.rule.clone())).collect()
}

#[test]
fn report_order_follows_path_components() {
    // `/vault/a/b.md` comes before `/vault/a.md`: the component `a` is a
    // prefix of `a.md`, though `.` sorts before `/` as text.
    let diags = lint(&[("a.md", "## A\n"), ("a/b.md", "## B\n")], &Config::default());
    assert_eq!(
        keys(&diags),
        vec![
            ("/vault/a/b.md".to_string(), 1, 1, "first-heading".to_string()),
            ("/vault/a/b.md".to_string(), 1, 1, "orphan-pages".to_string()),
            ("/vault/a.md".to_string(), 1, 1, "first-heading".to_string()),
            ("/vault/a.md".to_string(), 1, 1, "orphan-pages".to_string()),
        ]
    );
}

#[test]
fn sort_is_stable_and_orders_by_line_then_column() {
    let sorted = sort_diagnostics(vec![
        diag("/x/b.md", 2, 1, "r1"),
        diag("/x/a.md", 3, 4, "r2"),
        diag("/x/a.md", 3, 2, "r3"),
        diag("/x/b.md", 1, 9, "r4"),
        diag("/x/a.md", 3, 2, "r5"),
        diag("x/a.md", 1, 1, "r6"),
        diag("/x/./a.md", 1, 1, "r7"),
    ]);
    let rules: Vec<String> = sorted.iter().map(|d| d.rule.clone()).collect();
    // Absolute paths first; `/x/./a.md` is the same place as `/x/a.md`.
    assert_eq!(rules, vec!["r7", "r3", "r5", "r2", "r4", "r1", "r6"]);
}

#[test]
fn configured_level_sets_severity() {
    let files = [("doc.md", "# T\n\n### S\n")];
    let default = lint(&files, &Config::default());
    let inc: Vec<&Diagnostic> = default.iter().filter(|d| d.rule == "heading-increment").collect();
    assert_eq!(inc.len(), 1);
    assert_eq!(inc[0].severity, Severity::Warning);

    let as_error = lint(&files, &with_rule("heading-increment", RuleLevel::Error, vec![]));
    let inc: Vec<&Diagnostic> = as_error.iter().filter(|d| d.rule == "heading-increment").collect();
    assert_eq!(inc[0].severity, Severity::Error);
    assert!(has_errors(&as_error));

    let as_info = lint(&files, &with_rule("heading-increment", RuleLevel::Info, vec![]));
    let inc: Vec<&Diagnostic> = as_info.iter().filter(|d| d.rule == "heading-increment").collect();
    assert_eq!(inc[0].severity, Severity::Info);
}

#[test]
fn rule_level_given_alone_applies() {
    let mut cfg = Config::default();
    cfg.rules.push(("first-heading".to_string(), RuleConfig::Level(RuleLevel::Error)));
    let diags = lint(&[("doc.md", "## Two\n")], &cfg);
    let fh: Vec<&Diagnostic> = diags.iter().filter(|d| d.rule == "first-heading").collect();
    assert_eq!(fh.len(), 1);
    assert_eq!(fh[0].severity, Severity::Error);
}

#[test]
fn off_rule_reports_nothing() {
    let files = [("doc.md", "## A\n\n#### B\n")];
    for name in ["heading-increment", "first-heading", "orphan-pages"] {
        let diags = lint(&files, &with_rule(name, RuleLevel::Off, vec![]));
        assert!(diags.iter().all(|d| d.rule != name), "{name}");
    }
}

#[test]
fn broken_link_error_is_reported_exactly() {
    let diags = lint(&[("index.md", "# Index\n\n[Missing](./nope.md)\n")], &Config::default());
    let bl: Vec<&Diagnostic> = diags.iter().filter(|d| d.rule == "broken-links").collect();
    assert_eq!(bl.len(), 1);
    assert_eq!(bl[0].message, "link target not found: ./nope.md");
    assert_eq!(bl[0].help.as_deref(), Some("file `./nope.md` does not exist relative to ``"));
    assert_eq!((bl[0].line, bl[0].col), (3, 1));
    assert_eq!(bl[0].file, "/vault/index.md");
    assert_eq!(bl[0].severity, Severity::Error);
    assert_eq!(short_line(bl[0]), "/vault/index.md:3:1: error[broken-links] link target not found: ./nope.md");
}

#[test]
fn anchor_not_found_names_the_file() {
    let diags = lint(
        &[("index.md", "# Index\n\n[Link](./guide.md#nope)\n"), ("guide.md", "# Guide\n\n## Real Heading\n")],
        &Config::default(),
    );
    let bl: Vec<&Diagnostic> = diags.iter().filter(|d| d.rule == "broken-links").collect();
    assert_eq!(bl.len(), 1);
    assert_eq!(bl[0].message, "heading anchor not found: #nope");
    assert_eq!(bl[0].help.as_deref(), Some("no heading matching `#nope` in `guide.md`"));
}

#[test]
fn ambiguous_wikilink_lists_candidates() {
    let diags = lint(
        &[("index.md", "# Index\n\n[[x]]\n"), ("a/x.md", "# X\n"), ("b/x.md", "# X\n")],
        &Config::default(),
    );
    let bl: Vec<&Diagnostic> = diags.iter().filter(|d| d.rule == "broken-links").collect();
    assert_eq!(bl.len(), 1);
    assert_eq!(bl[0].message, "ambiguous wikilink: [[x]]");
    assert_eq!(bl[0].help.as_deref(), Some("multiple files match: a/x.md, b/x.md"));
    // The rule's severity overrides the finding's own.
    assert_eq!(bl[0].severity, Severity::Error);
}

#[test]
fn case_mismatch_is_reported() {
    let files = [("index.md", "# Index\n\n[[Guide]]\n"), ("guide.md", "# Guide\n")];
    let diags = lint(&files, &Config::default());
    let bl: Vec<&Diagnostic> = diags.iter().filter(|d| d.rule == "broken-links").collect();
    assert_eq!(bl.len(), 1);
    assert_eq!(bl[0].message, "case mismatch: `Guide` vs `guide`");
    assert_eq!(
        bl[0].help.as_deref(),
        Some("link uses `Guide` but file is `guide` (may break on case-sensitive filesystems)")
    );

    let mut cfg = Config::default();
    cfg.links.warn_case_mismatch = false;
    let quiet = lint(&files, &cfg);
    assert!(quiet.iter().all(|d| d.rule != "broken-links"));
}

#[test]
fn resolve_errors_by_variant() {
    let cfg = Config::default();
    let ws = workspace(&[("index.md", "# Index\n"), ("guide.md", "# Guide\n"), ("a/x.md", "# X\n"), ("b/x.md", "# X\n")], &cfg);
    let link = |kind: LinkKind, target: Option<&str>, anchor: Option<&str>| Link {
        kind,
        raw_target: target.unwrap_or("").to_string(),
        file_target: target.map(String::from),
        anchor: anchor.map(String::from),
        display_text: String::new(),
        line: 1,
        col: 1,
        start_offset: 0,
        len: 0,
    };
    let src = "/vault/index.md";
    match resolve_link(&link(LinkKind::Standard, Some("./nope.md"), None), src, &ws, &cfg) {
        Err(ResolveError::FileNotFound { target }) => assert_eq!(target, "./nope.md"),
        other => panic!("{other:?}"),
    }
    match resolve_link(&link(LinkKind::Standard, Some("./guide.md"), Some("missing")), src, &ws, &cfg) {
        Err(ResolveError::AnchorNotFound { file, anchor }) => {
            // The joined path, as `Path::join` writes it.
            assert_eq!(file, "/vault/./guide.md");
            assert_eq!(anchor, "missing");
        }
        other => panic!("{other:?}"),
    }
    match resolve_link(&link(LinkKind::WikiLink, Some("x"), None), src, &ws, &cfg) {
        Err(ResolveError::AmbiguousWikilink { target, candidates }) => {
            assert_eq!(target, "x");
            assert_eq!(candidates, vec!["/vault/a/x.md", "/vault/b/x.md"]);
        }
        other => panic!("{other:?}"),
    }
    match resolve_link(&link(LinkKind::WikiLink, Some("GUIDE"), None), src, &ws, &cfg) {
        Err(ResolveError::CaseMismatch { target, actual }) => {
            assert_eq!(target, "GUIDE");
            assert_eq!(actual, "/vault/guide.md");
        }
        other => panic!("{other:?}"),
    }
    assert_eq!(
        resolve_link(&link(LinkKind::Standard, Some("./guide.md"), Some("guide")), src, &ws, &cfg).unwrap(),
        Some("/vault/./guide.md".to_string())
    );
    assert_eq!(resolve_link(&link(LinkKind::Standard, Some("https://example.com"), None), src, &ws, &cfg).unwrap(), None);
    assert_eq!(
        resolve_link(&link(LinkKind::WikiLink, Some("guide"), None), src, &ws, &cfg).unwrap(),
        Some("/vault/guide.md".to_string())
    );
}

#[test]
fn percent_encoded_targets_are_decoded() {
    let diags = lint(&[("index.md", "# Index\n\n[S](./my%20page.md)\n"), ("my page.md", "# P\n")], &Config::default());
    assert!(diags.iter().all(|d| d.rule != "broken-links"));
}

#[test]
fn relative_wikilink_resolution() {
    let mut cfg = Config::default();
    cfg.links.wikilink_resolution = WikilinkResolution::Relative;
    let files = [("sub/index.md", "# I\n\n[[page]]\n[[other]]\n"), ("sub/page.md", "# P\n")];
    let diags = lint(&files, &cfg);
    let bl: Vec<&Diagnostic> = diags.iter().filter(|d| d.rule == "broken-links").collect();
    assert_eq!(bl.len(), 1);
    assert_eq!(bl[0].message, "link target not found: other");
}

#[test]
fn alias_resolves_wikilink() {
    let files = [("index.md", "# I\n\n[[Nick]]\n"), ("person.md", "---\naliases:\n  - nick\n---\n# Person\n")];
    let diags = lint(&files, &Config::default());
    assert!(diags.iter().all(|d| d.rule != "broken-links"));
}

#[test]
fn obsidian_anchor_matches_heading_text() {
    let mut cfg = Config::default();
    cfg.links.slug_mode = SlugMode::Obsidian;
    let diags = lint(&[("index.md", "# Index\n\n## Some Part\n\n[[index#some part]]\n")], &cfg);
    assert!(diags.iter().all(|d| d.rule != "broken-links"));
}

#[test]
fn slug_matching_by_mode() {
    let h = Heading { level: 2, text: "Hello World".to_string(), slug: "hello-world".to_string(), line: 1, col: 1 };
    assert!(slug_matches(&h, "hello-world", SlugMode::Gfm));
    assert!(!slug_matches(&h, "Hello World", SlugMode::Gfm));
    assert!(slug_matches(&h, "hello world", SlugMode::Obsidian));
    assert!(!slug_matches(&h, "hello-world", SlugMode::Obsidian));
    let u = Heading { level: 1, text: "Über".to_string(), slug: "Über".to_string(), line: 1, col: 1 };
    assert!(slug_matches(&u, "über", SlugMode::Obsidian));
    assert!(slug_matches(&u, "ÜBER", SlugMode::Obsidian));
    assert!(!slug_matches(&u, "uber", SlugMode::Obsidian));
}

#[test]
fn gfm_slug_keeps_only_slug_characters() {
    for text in ["A -- B", "Ünïcödé Title", "snake_case here", "  padded  "] {
        let s = gfm_slug(text);
        assert!(s.chars().all(|c| c.is_alphanumeric() || c == '-'), "{s}");
    }
    assert_eq!(gfm_slug("snake_case here"), "snakecase-here");
}

#[test]
fn split_rejoins_to_the_input() {
    for url in ["path.md#heading", "#heading", "path.md", "a#b#c"] {
        let (f, a) = split_url_anchor(url);
        let mut joined = f.unwrap_or_default();
        if let Some(a) = a {
            joined.push('#');
            joined.push_str(&a);
        }
        assert_eq!(joined, url);
    }
    assert_eq!(split_url_anchor("a#b#c"), (Some("a".into()), Some("b#c".into())));
    assert_eq!(split_url_anchor("a.md#"), (Some("a.md".into()), None));
    assert_eq!(split_url_anchor(""), (None, None));
    assert_eq!(split_url_anchor("mailto:x@y.z#q"), (Some("mailto:x@y.z#q".into()), None));
    for url in ["page#heading", "page", "#only"] {
        let (p, a) = split_wikilink(url);
        let joined = match a {
            Some(a) => format!("{p}#{a}"),
            None => p,
        };
        assert_eq!(joined, url);
    }
}

#[test]
fn output_format_names_read_back() {
    for f in [OutputFormat::Pretty, OutputFormat::Json, OutputFormat::Short] {
        assert_eq!(OutputFormat::parse(f.name()), Ok(f));
        assert_eq!(f.to_string().parse::<OutputFormat>(), Ok(f));
    }
    assert_eq!(OutputFormat::Json.to_string(), "json");
    assert_eq!(
        OutputFormat::parse("xml"),
        Err("unknown format: xml (expected pretty, json, or short)".to_string())
    );
}

#[test]
fn glob_patterns() {
    assert!(glob_match("*.md", "notes.md"));
    assert!(!glob_match("*.md", "dir/notes.md"));
    assert!(glob_match("drafts/*", "drafts/x.md"));
    assert!(glob_match("a*b", "abab"));
    assert!(glob_match("index.md", "index.md"));
    assert!(!glob_match("index.md", "index.mdx"));
    assert!(glob_match("*", "anything"));
    assert!(!glob_match("*", "a/b"));
}

#[test]
fn orphan_glob_exclude() {
    let cfg = with_rule(
        "orphan-pages",
        RuleLevel::Warning,
        vec![("exclude".to_string(), OptionValue::List(vec![Some("drafts/*".to_string())]))],
    );
    let diags = lint(&[("drafts/one.md", "# One\n"), ("kept.md", "# Kept\n")], &cfg);
    let orphans: Vec<&str> = diags.iter().filter(|d| d.rule == "orphan-pages").map(|d| d.file.as_str()).collect();
    assert_eq!(orphans, vec!["/vault/kept.md"]);
}

#[test]
fn first_heading_level_option() {
    let cfg = with_rule("first-heading", RuleLevel::Warning, vec![("level".to_string(), OptionValue::Integer(2))]);
    let ok = lint(&[("doc.md", "## Two\n")], &cfg);
    assert!(ok.iter().all(|d| d.rule != "first-heading"));
    let bad = lint(&[("doc.md", "# One\n")], &cfg);
    let fh: Vec<&Diagnostic> = bad.iter().filter(|d| d.rule == "first-heading").collect();
    assert_eq!(fh[0].message, "first heading should be h2, found h1");
}

#[test]
fn missing_frontmatter_fields() {
    let cfg = with_rule(
        "require-frontmatter",
        RuleLevel::Error,
        vec![("fields".to_string(), OptionValue::List(vec![Some("title".to_string()), Some("date".to_string())]))],
    );
    let diags = lint(&[("doc.md", "---\ntitle: T\n---\n# T\n"), ("bare.md", "# Bare\nmore\n")], &cfg);
    let rf: Vec<(String, String, Option<String>)> = diags
        .iter()
        .filter(|d| d.rule == "require-frontmatter")
        .map(|d| (d.file.clone(), d.message.clone(), d.help.clone()))
        .collect();
    assert_eq!(
        rf,
        vec![
            ("/vault/bare.md".to_string(), "missing frontmatter".to_string(), Some("required fields: title, date".to_string())),
            ("/vault/doc.md".to_string(), "missing required frontmatter field: date".to_string(), None),
        ]
    );
    let bare = diags.iter().find(|d| d.file == "/vault/bare.md" && d.rule == "require-frontmatter").unwrap();
    assert_eq!(bare.len, 6);
}

#[test]
fn heading_increment_span_and_help() {
    let diags = lint(&[("doc.md", "# Title\n\n#### Deep\n")], &Config::default());
    let d = diags.iter().find(|d| d.rule == "heading-increment").unwrap();
    assert_eq!(d.help.as_deref(), Some("expected h2 or lower, found h4"));
    assert_eq!((d.line, d.col, d.start_offset, d.len), (3, 1, 9, 9));
}

#[test]
fn summary_counts_errors_warnings_and_files() {
    let diags = lint(
        &[("a.md", "## A\n\n[x](./none.md)\n"), ("index.md", "# I\n\n[a](./a.md)\n")],
        &Config::default(),
    );
    // a.md: a broken link (error) and first-heading (warning); index.md: nothing.
    assert_eq!(summary(&diags), "\nFound 1 error(s), 1 warning(s) across 1 file(s).");
    assert_eq!(summary(&Vec::new()), "No issues found.");
}

#[test]
fn quiet_keeps_errors_only() {
    let diags = lint(&[("a.md", "## A\n\n[x](./none.md)\n")], &Config::default());
    let n_errors = diags.iter().filter(|d| d.severity == Severity::Error).count();
    let q = shown(diags, true);
    assert_eq!(q.len(), n_errors);
    assert!(q.iter().all(|d| d.severity == Severity::Error));
    assert_eq!(severity_label(Severity::Warning), "warning");
}

#[test]
fn config_search_goes_upward() {
    let cands = config_candidates("/home/u/docs");
    assert_eq!(cands, vec!["/home/u/docs/mdlint.toml", "/home/u/mdlint.toml", "/home/mdlint.toml", "/mdlint.toml"]);
    assert_eq!(find_config_file(&cands, &vec![false, true, true, false]), Some("/home/u/mdlint.toml".to_string()));
    assert_eq!(find_config_file(&cands, &vec![false, false, false, false]), None);
}

#[test]
fn files_given_by_name() {
    let (md, all) = Workspace::given_file_paths("/root", &vec!["a.md".to_string(), "/abs/b.md".to_string(), "img.png".to_string()]);
    assert_eq!(all, vec!["/root/a.md", "/abs/b.md", "/root/img.png"]);
    assert_eq!(md, vec!["/root/a.md", "/abs/b.md"]);
}

#[test]
fn external_links_checked_when_configured() {
    let mut cfg = Config::default();
    cfg.links = LinkConfig { check_external: true, ..LinkConfig::default() };
    let diags = lint(&[("doc.md", "# Doc\n\n[G](https://google.com)\n")], &cfg);
    assert!(diags.iter().all(|d| d.rule != "broken-links"));
}

#[test]
fn parsed_file_holds_headings_links_and_frontmatter() {
    let f = MarkdownFile::parse(
        "/vault/sub/n.md",
        "/vault",
        "---\ntitle: N\n---\n# Top *x*\n\n## Top x\n\nSee [a](b.md#c) and [[w|W]] and ![i](p.png).\n".to_string(),
        SlugMode::Gfm,
    );
    assert_eq!(f.relative_path, "sub/n.md");
    let hs: Vec<(u8, String, String)> = f.headings.iter().map(|h| (h.level, h.text.clone(), h.slug.clone())).collect();
    assert_eq!(hs, vec![(1, "Top x".to_string(), "top-x".to_string()), (2, "Top x".to_string(), "top-x-1".to_string())]);
    let ls: Vec<(LinkKind, Option<String>, Option<String>)> =
        f.links.iter().map(|l| (l.kind, l.file_target.clone(), l.anchor.clone())).collect();
    assert_eq!(
        ls,
        vec![
            (LinkKind::Standard, Some("b.md".to_string()), Some("c".to_string())),
            (LinkKind::WikiLink, Some("w".to_string()), None),
            (LinkKind::Image, Some("p.png".to_string()), None),
        ]
    );
    assert_eq!(f.frontmatter.as_ref().and_then(|fm| fm.title()), Some("N"));
}

#[test]
fn gfm_slug_composes_before_filtering() {
    // `e` followed by a combining acute accent composes to `é`, which is kept.
    assert_eq!(gfm_slug("Cafe\u{301} Menu"), "caf\u{e9}-menu");
}

#[test]
fn frontmatter_that_is_not_a_mapping_is_rejected() {
    assert!(mdlint::frontmatter::parse_frontmatter("- a\n- b").is_none());
    let fm = mdlint::frontmatter::parse_frontmatter("aliases: solo").unwrap();
    assert_eq!(fm.aliases(), vec!["solo"]);
    assert_eq!(fm.title(), None);
}

#[test]
fn rule_option_link_and_workspace_accessors() {
    let rc = RuleConfig::Full(RuleConfigFull {
        level: RuleLevel::Warning,
        options: vec![
            ("style".to_string(), OptionValue::Text("atx".to_string())),
            ("level".to_string(), OptionValue::Integer(300)),
        ],
    });
    assert_eq!(rc.option_str("style"), Some("atx"));
    assert_eq!(rc.option_str("level"), None);
    assert_eq!(rc.option_u8("level"), None);
    assert!(RuleConfig::Level(RuleLevel::Off).is_off());
    assert_eq!(RuleConfig::Level(RuleLevel::Info).option_str("style"), None);

    let l = Link {
        kind: LinkKind::Standard,
        raw_target: "my%20page.md".to_string(),
        file_target: Some("my%20page.md".to_string()),
        anchor: None,
        display_text: String::new(),
        line: 1,
        col: 1,
        start_offset: 0,
        len: 0,
    };
    assert_eq!(l.decoded_file_target(), Some("my page.md".to_string()));
    assert!(!l.is_external());

    let ws = workspace(&[("a.md", "# A\n"), ("b.md", "# B\n")], &Config::default());
    assert_eq!(ws.file_by_path("/vault/b.md").map(|f| f.relative_path.as_str()), Some("b.md"));
    assert!(ws.file_by_path("/vault/c.md").is_none());
    assert!(mdlint::rules::orphan_pages::OrphanPages.opt_in());
}

#[test]
fn orphan_default_exclude_applies_when_exclude_is_not_set() {
    let cfg = with_rule("orphan-pages", RuleLevel::Warning, vec![]);
    let diags = lint(&[("index.md", "# Index\n"), ("README.md", "# Read\n"), ("lost.md", "# Lost\n")], &cfg);
    let orphans: Vec<&str> = diags.iter().filter(|d| d.rule == "orphan-pages").map(|d| d.file.as_str()).collect();
    assert_eq!(orphans, vec!["/vault/lost.md"]);

    let cfg = with_rule("orphan-pages", RuleLevel::Warning, vec![("exclude".to_string(), OptionValue::List(vec![]))]);
    let diags = lint(&[("index.md", "# Index\n")], &cfg);
    assert_eq!(diags.iter().filter(|d| d.rule == "orphan-pages").count(), 1);
}

#[test]
fn missing_file_help_names_the_directory_with_a_slash() {
    let diags = lint(&[("docs/index.md", "# Index\n\n[M](./missing.md)\n")], &Config::default());
    let bl: Vec<&Diagnostic> = diags.iter().filter(|d| d.rule == "broken-links").collect();
    assert_eq!(bl.len(), 1);
    assert_eq!(bl[0].help.as_deref(), Some("file `./missing.md` does not exist relative to `docs/`"));
}

#[test]
fn a_link_to_itself_is_no_incoming_link() {
    let diags = lint(&[("a.md", "# A\n\n[me](./a.md)\n")], &Config::default());
    let orphans: Vec<&str> = diags.iter().filter(|d| d.rule == "orphan-pages").map(|d| d.file.as_str()).collect();
    assert_eq!(orphans, vec!["/vault/a.md"]);
    let diags = lint(&[("a.md", "# A\n\n[b](./b.md)\n"), ("b.md", "# B\n\n[a](./a.md)\n")], &Config::default());
    assert!(diags.iter().all(|d| d.rule != "orphan-pages"));
}

#[test]
fn relative_paths_keep_their_text() {
    let f = MarkdownFile::parse("/vault//sub//n.md", "/vault", "# N\n".to_string(), SlugMode::Gfm);
    assert_eq!(f.relative_path, "sub//n.md");
    let f = MarkdownFile::parse("/vault/sub/./n.md/", "/vault/", "# N\n".to_string(), SlugMode::Gfm);
    assert_eq!(f.relative_path, "sub/./n.md");
    let f = MarkdownFile::parse("/elsewhere/n.md", "/vault", "# N\n".to_string(), SlugMode::Gfm);
    assert_eq!(f.relative_path, "/elsewhere/n.md");
    let diags = lint(&[("docs//index.md", "# I\n\n[M](./gone.md)\n")], &Config::default());
    let bl: Vec<&Diagnostic> = diags.iter().filter(|d| d.rule == "broken-links").collect();
    assert_eq!(bl[0].help.as_deref(), Some("file `./gone.md` does not exist relative to `docs/`"));
}

#[test]
fn trimming_uses_the_white_space_set_of_std() {
    for c in (0u32..=0x10FFFF).filter_map(char::from_u32) {
        let raw = format!("{c}x{c}");
        let got: String = mdlint::frontmatter::strip_delimiters(&raw).into_iter().collect();
        let want = if c.is_whitespace() { "x".to_string() } else { raw.clone() };
        assert_eq!(got, want, "{:?}", c);
    }
}
