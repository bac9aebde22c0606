use mdlint::config::{Config, LinkConfig, OptionValue, RuleConfig, RuleConfigFull, RuleLevel, WikilinkResolution, WorkspaceConfig};
use mdlint::frontmatter::parse_frontmatter;
use mdlint::headings::{deduplicate_slugs, gfm_slug, Heading, SlugMode};
use mdlint::links::{line_col_to_offset, split_url_anchor, split_wikilink};

fn full_rule(level: RuleLevel, options: Vec<(String, OptionValue)>) -> RuleConfig {
    RuleConfig::Full(RuleConfigFull { level, options })
}

#[test]
fn test_default_config() {
    let cfg = Config::default();
    assert_eq!(cfg.links.slug_mode, SlugMode::Gfm);
    assert!(!cfg.links.check_external);
    assert!(cfg.links.warn_case_mismatch);
}

#[test]
fn test_parse_config() {
    // [links] slug_mode = "obsidian", check_external = true;
    // [rules.broken-links] level = "error";
    // [rules.require-frontmatter] level = "warning", fields = ["title", "date"]
    let cfg = Config {
        workspace: WorkspaceConfig::default(),
        links: LinkConfig {
            slug_mode: SlugMode::Obsidian,
            wikilink_resolution: WikilinkResolution::ShortestPath,
            check_external: true,
            warn_case_mismatch: true,
        },
        rules: vec![
            ("broken-links".to_string(), full_rule(RuleLevel::Error, vec![])),
            (
                "require-frontmatter".to_string(),
                full_rule(
                    RuleLevel::Warning,
                    vec![(
                        "fields".to_string(),
                        OptionValue::List(vec![Some("title".to_string()), Some("date".to_string())]),
                    )],
                ),
            ),
        ],
    };
    assert_eq!(cfg.links.slug_mode, SlugMode::Obsidian);
    assert!(cfg.links.check_external);
    assert!(cfg.rule_is_enabled("broken-links"));

    let fm_rule = cfg.rule_config("require-frontmatter").unwrap();
    assert_eq!(fm_rule.level(), RuleLevel::Warning);
    assert_eq!(fm_rule.option_strs("fields"), vec!["title", "date"]);
}

#[test]
fn test_rule_off() {
    // [rules.heading-increment] level = "off"
    let mut cfg = Config::default();
    cfg.rules.push(("heading-increment".to_string(), full_rule(RuleLevel::Off, vec![])));
    assert!(!cfg.rule_is_enabled("heading-increment"));
}

#[test]
fn test_parse_frontmatter() {
    let raw = "title: Hello\ntags:\n  - rust\n  - markdown";
    let fm = parse_frontmatter(raw).unwrap();
    assert_eq!(fm.title(), Some("Hello"));
    assert!(fm.has_field("tags"));
}

#[test]
fn test_aliases() {
    let raw = "aliases:\n  - foo\n  - bar";
    let fm = parse_frontmatter(raw).unwrap();
    assert_eq!(fm.aliases(), vec!["foo", "bar"]);
}

#[test]
fn test_empty_frontmatter() {
    let fm = parse_frontmatter("").unwrap();
    assert!(fm.fields.is_empty());
}

#[test]
fn test_comrak_frontmatter_with_delimiters() {
    let raw = "---\ntitle: Hello\ntags:\n  - rust\n---\n";
    let fm = parse_frontmatter(raw).unwrap();
    assert_eq!(fm.title(), Some("Hello"));
}

#[test]
fn test_gfm_slug_basic() {
    assert_eq!(gfm_slug("Hello World"), "hello-world");
    assert_eq!(gfm_slug("Hello, World!"), "hello-world");
    assert_eq!(gfm_slug("C++ Programming"), "c-programming");
    assert_eq!(gfm_slug("What's New?"), "whats-new");
}

#[test]
fn test_gfm_slug_unicode() {
    assert_eq!(gfm_slug("Hllo Wrld"), "hllo-wrld");
}

#[test]
fn test_gfm_slug_numbers() {
    assert_eq!(gfm_slug("2024 Updates"), "2024-updates");
}

#[test]
fn test_deduplicate_slugs() {
    let mut headings = vec![
        Heading { level: 2, text: "Foo".into(), slug: "foo".into(), line: 1, col: 1 },
        Heading { level: 2, text: "Foo".into(), slug: "foo".into(), line: 5, col: 1 },
        Heading { level: 2, text: "Foo".into(), slug: "foo".into(), line: 9, col: 1 },
    ];
    deduplicate_slugs(&mut headings);
    assert_eq!(headings[0].slug, "foo");
    assert_eq!(headings[1].slug, "foo-1");
    assert_eq!(headings[2].slug, "foo-2");
}

#[test]
fn test_split_url_anchor() {
    assert_eq!(split_url_anchor("path.md#heading"), (Some("path.md".into()), Some("heading".into())));
    assert_eq!(split_url_anchor("#heading"), (None, Some("heading".into())));
    assert_eq!(split_url_anchor("path.md"), (Some("path.md".into()), None));
    assert_eq!(split_url_anchor("https://example.com"), (Some("https://example.com".into()), None));
}

#[test]
fn test_split_wikilink() {
    assert_eq!(split_wikilink("page#heading"), ("page".into(), Some("heading".into())));
    assert_eq!(split_wikilink("page"), ("page".into(), None));
}

#[test]
fn test_line_col_to_offset() {
    let source = "line1\nline2\nline3";
    assert_eq!(line_col_to_offset(source, 1, 1), 0);
    assert_eq!(line_col_to_offset(source, 2, 1), 6);
    assert_eq!(line_col_to_offset(source, 3, 1), 12);
    assert_eq!(line_col_to_offset(source, 2, 3), 8);
}
