//! Configuration: workspace globs, link resolution settings and rule levels.

use vstd::prelude::*;
use crate::headings::SlugMode;
use crate::paths::{chars_eq_str, components, components_of, is_absolute, join, path_from, views};
use crate::links::opt_view;
use crate::text::{chars_of, string_of};

verus! {

/// Which files belong to the workspace.
#[derive(Debug)]
pub struct WorkspaceConfig {
    pub included: Vec<String>,
    pub exclude: Vec<String>,
}

/// The models of a list of strings.
pub open spec fn strs_view(v: Seq<String>) -> Seq<Seq<char>> {
    v.map_values(|s: String| s@)
}

impl Default for WorkspaceConfig {
    fn default() -> (c: WorkspaceConfig)
        ensures
            strs_view(c.included@) == seq!["**/*.md"@],
            strs_view(c.exclude@) == seq!["node_modules"@, "target"@, ".git"@],
    {
        let mut included: Vec<String> = Vec::new();
        included.push(String::from_str("**/*.md"));
        let mut exclude: Vec<String> = Vec::new();
        exclude.push(String::from_str("node_modules"));
        exclude.push(String::from_str("target"));
        exclude.push(String::from_str(".git"));
        assert(strs_view(included@) =~= seq!["**/*.md"@]);
        assert(strs_view(exclude@) =~= seq!["node_modules"@, "target"@, ".git"@]);
        WorkspaceConfig { included, exclude }
    }
}

/// How wikilinks find their file.
#[derive(Debug, Clone, Copy, PartialEq, Eq, Structural)]
pub enum WikilinkResolution {
    ShortestPath,
    Relative,
}

impl Default for WikilinkResolution {
    fn default() -> (r: WikilinkResolution)
        ensures
            r == WikilinkResolution::ShortestPath,
    {
        WikilinkResolution::ShortestPath
    }
}

/// Settings for link checking.
#[derive(Debug, Clone, Copy, PartialEq, Eq, Structural)]
pub struct LinkConfig {
    pub slug_mode: SlugMode,
    pub wikilink_resolution: WikilinkResolution,
    pub check_external: bool,
    pub warn_case_mismatch: bool,
}

impl Default for LinkConfig {
    fn default() -> (c: LinkConfig)
        ensures
            c == (LinkConfig {
                slug_mode: SlugMode::Gfm,
                wikilink_resolution: WikilinkResolution::ShortestPath,
                check_external: false,
                warn_case_mismatch: true,
            }),
    {
        LinkConfig {
            slug_mode: SlugMode::Gfm,
            wikilink_resolution: WikilinkResolution::ShortestPath,
            check_external: false,
            warn_case_mismatch: true,
        }
    }
}

/// The level a rule reports at, or off.
#[derive(Debug, Clone, Copy, PartialEq, Eq, Structural)]
pub enum RuleLevel {
    Error,
    Warning,
    Info,
    Off,
}

/// What a rule reads of an option value: a string, an integer, an array
/// (with the string items as `Some`), or anything else.
#[derive(Debug, Clone)]
pub enum OptionValue {
    Text(String),
    Integer(i64),
    List(Vec<Option<String>>),
    Other,
}

/// The model of an `OptionValue`.
pub enum OptionValueView {
    Text(Seq<char>),
    Integer(i64),
    List(Seq<Option<Seq<char>>>),
    Other,
}

impl View for OptionValue {
    type V = OptionValueView;

    open spec fn view(&self) -> OptionValueView {
        match self {
            OptionValue::Text(s) => OptionValueView::Text(s@),
            OptionValue::Integer(n) => OptionValueView::Integer(*n),
            OptionValue::List(items) => OptionValueView::List(crate::frontmatter::opt_strs_view(items@)),
            OptionValue::Other => OptionValueView::Other,
        }
    }
}

/// A rule's level with its other options.
#[derive(Debug, Clone)]
pub struct RuleConfigFull {
    pub level: RuleLevel,
    pub options: Vec<(String, OptionValue)>,
}

/// A rule's configuration: a level alone, or a level with options.
#[derive(Debug, Clone)]
pub enum RuleConfig {
    Level(RuleLevel),
    Full(RuleConfigFull),
}

/// The models of rule options.
pub open spec fn options_view(v: Seq<(String, OptionValue)>) -> Seq<(Seq<char>, OptionValueView)> {
    v.map_values(|o: (String, OptionValue)| (o.0@, o.1@))
}

/// The value of the first option named `key`.
pub open spec fn lookup_option(opts: Seq<(Seq<char>, OptionValueView)>, key: Seq<char>) -> Option<OptionValueView>
    decreases opts.len(),
{
    if opts.len() == 0 {
        None
    } else if opts[0].0 == key {
        Some(opts[0].1)
    } else {
        lookup_option(opts.drop_first(), key)
    }
}

/// The option named `key` of a rule configuration.
pub open spec fn rule_option(rc: RuleConfig, key: Seq<char>) -> Option<OptionValueView> {
    match rc {
        RuleConfig::Level(_) => None,
        RuleConfig::Full(f) => lookup_option(options_view(f.options@), key),
    }
}

/// The level of a rule configuration.
pub open spec fn rule_level(rc: RuleConfig) -> RuleLevel {
    match rc {
        RuleConfig::Level(l) => l,
        RuleConfig::Full(f) => f.level,
    }
}

/// The string items of a list option named `key`; none otherwise.
pub open spec fn option_strs_spec(rc: RuleConfig, key: Seq<char>) -> Seq<Seq<char>> {
    match rule_option(rc, key) {
        Some(OptionValueView::List(items)) => crate::frontmatter::present(items),
        _ => Seq::empty(),
    }
}

/// The value of an integer option named `key`, when it fits in `u8`.
pub open spec fn option_u8_spec(rc: RuleConfig, key: Seq<char>) -> Option<u8> {
    match rule_option(rc, key) {
        Some(OptionValueView::Integer(n)) => if 0 <= n <= 255 { Some(n as u8) } else { None },
        _ => None,
    }
}

fn find_option(opts: &Vec<(String, OptionValue)>, key: &str) -> (r: Option<usize>)
    ensures
        match r {
            Some(i) => i < opts.len() && lookup_option(options_view(opts@), key@) == Some(opts@[i as int].1@),
            None => lookup_option(options_view(opts@), key@) is None,
        },
{
    let ghost ov = options_view(opts@);
    let mut i: usize = 0;
    assert(ov.skip(0) =~= ov);
    while i < opts.len()
        invariant
            ov == options_view(opts@),
            i <= opts.len(),
            lookup_option(ov, key@) == lookup_option(ov.skip(i as int), key@),
        decreases opts.len() - i,
    {
        assert(ov.skip(i as int).drop_first() =~= ov.skip(i + 1));
        if chars_eq_str(opts[i].0.as_str(), key) {
            return Some(i);
        }
        i += 1;
    }
    None
}

impl RuleConfig {
    /// The rule's level.
    pub fn level(&self) -> (l: RuleLevel)
        ensures
            l == rule_level(*self),
    {
        match self {
            RuleConfig::Level(l) => *l,
            RuleConfig::Full(f) => f.level,
        }
    }

    /// Whether the rule is turned off.
    pub fn is_off(&self) -> (b: bool)
        ensures
            b == (rule_level(*self) == RuleLevel::Off),
    {
        self.level() == RuleLevel::Off
    }

    /// A string option.
    pub fn option_str(&self, key: &str) -> (r: Option<&str>)
        ensures
            match r {
                Some(s) => rule_option(*self, key@) == Some(OptionValueView::Text(s@)),
                None => !(rule_option(*self, key@) matches Some(OptionValueView::Text(_))),
            },
    {
        match self {
            RuleConfig::Level(_) => None,
            RuleConfig::Full(f) => match find_option(&f.options, key) {
                Some(i) => match &f.options[i].1 {
                    OptionValue::Text(s) => Some(s.as_str()),
                    _ => None,
                },
                None => None,
            },
        }
    }

    /// Whether the option `key` is set.
    pub fn has_option(&self, key: &str) -> (b: bool)
        ensures
            b == rule_option(*self, key@) is Some,
    {
        match self {
            RuleConfig::Level(_) => false,
            RuleConfig::Full(f) => find_option(&f.options, key).is_some(),
        }
    }

    /// The string items of an array option.
    pub fn option_strs(&self, key: &str) -> (r: Vec<String>)
        ensures
            crate::config::strs_view(r@) == option_strs_spec(*self, key@),
    {
        match self {
            RuleConfig::Level(_) => {
                let r: Vec<String> = Vec::new();
                assert(strs_view(r@) =~= Seq::<Seq<char>>::empty());
                r
            },
            RuleConfig::Full(f) => match find_option(&f.options, key) {
                Some(i) => match &f.options[i].1 {
                    OptionValue::List(items) => present_strings(items),
                    _ => {
                        let r: Vec<String> = Vec::new();
                        assert(strs_view(r@) =~= Seq::<Seq<char>>::empty());
                        r
                    },
                },
                None => {
                    let r: Vec<String> = Vec::new();
                    assert(strs_view(r@) =~= Seq::<Seq<char>>::empty());
                    r
                },
            },
        }
    }

    /// An integer option that fits in `u8`.
    pub fn option_u8(&self, key: &str) -> (r: Option<u8>)
        ensures
            r == option_u8_spec(*self, key@),
    {
        match self {
            RuleConfig::Level(_) => None,
            RuleConfig::Full(f) => match find_option(&f.options, key) {
                Some(i) => match &f.options[i].1 {
                    OptionValue::Integer(n) => if 0 <= *n && *n <= 255 {
                        Some(*n as u8)
                    } else {
                        None
                    },
                    _ => None,
                },
                None => None,
            },
        }
    }
}

/// The strings that are present, in order.
pub fn present_strings(items: &Vec<Option<String>>) -> (r: Vec<String>)
    ensures
        strs_view(r@) == crate::frontmatter::present(crate::frontmatter::opt_strs_view(items@)),
{
    let ghost iv = crate::frontmatter::opt_strs_view(items@);
    let mut r: Vec<String> = Vec::new();
    let mut k: usize = 0;
    while k < items.len()
        invariant
            iv == crate::frontmatter::opt_strs_view(items@),
            k <= items.len(),
            strs_view(r@) == crate::frontmatter::present(iv.take(k as int)),
        decreases items.len() - k,
    {
        let ghost before = strs_view(r@);
        assert(iv.take(k + 1).drop_last() =~= iv.take(k as int));
        match &items[k] {
            Some(s) => {
                r.push(s.clone());
                assert(strs_view(r@) =~= before + seq![s@]);
            },
            None => {
                assert(strs_view(r@) =~= before + Seq::<Seq<char>>::empty());
            },
        }
        k += 1;
    }
    assert(iv.take(items.len() as int) =~= iv);
    r
}

/// The whole configuration.
#[derive(Debug)]
pub struct Config {
    pub workspace: WorkspaceConfig,
    pub links: LinkConfig,
    pub rules: Vec<(String, RuleConfig)>,
}

impl Default for Config {
    fn default() -> (c: Config)
        ensures
            strs_view(c.workspace.included@) == seq!["**/*.md"@],
            strs_view(c.workspace.exclude@) == seq!["node_modules"@, "target"@, ".git"@],
            c.links == LinkConfig::default_spec(),
            c.rules@.len() == 0,
    {
        Config { workspace: WorkspaceConfig::default(), links: LinkConfig::default(), rules: Vec::new() }
    }
}

impl LinkConfig {
    /// The default link settings.
    pub open spec fn default_spec() -> LinkConfig {
        LinkConfig {
            slug_mode: SlugMode::Gfm,
            wikilink_resolution: WikilinkResolution::ShortestPath,
            check_external: false,
            warn_case_mismatch: true,
        }
    }
}

/// The configuration of the first rule entry named `name`.
pub open spec fn lookup_rule(rules: Seq<(String, RuleConfig)>, name: Seq<char>) -> Option<RuleConfig>
    decreases rules.len(),
{
    if rules.len() == 0 {
        None
    } else if rules[0].0@ == name {
        Some(rules[0].1)
    } else {
        lookup_rule(rules.drop_first(), name)
    }
}

/// A rule is enabled unless its configuration turns it off.
pub open spec fn rule_enabled(rules: Seq<(String, RuleConfig)>, name: Seq<char>) -> bool {
    match lookup_rule(rules, name) {
        Some(rc) => rule_level(rc) != RuleLevel::Off,
        None => true,
    }
}

impl Config {
    /// The configuration of rule `name`.
    pub fn rule_config(&self, name: &str) -> (r: Option<&RuleConfig>)
        ensures
            match r {
                Some(rc) => lookup_rule(self.rules@, name@) == Some(*rc),
                None => lookup_rule(self.rules@, name@) is None,
            },
    {
        let mut i: usize = 0;
        assert(self.rules@.skip(0) =~= self.rules@);
        while i < self.rules.len()
            invariant
                i <= self.rules.len(),
                lookup_rule(self.rules@, name@) == lookup_rule(self.rules@.skip(i as int), name@),
            decreases self.rules.len() - i,
        {
            assert(self.rules@.skip(i as int).drop_first() =~= self.rules@.skip(i + 1));
            if chars_eq_str(self.rules[i].0.as_str(), name) {
                return Some(&self.rules[i].1);
            }
            i += 1;
        }
        None
    }

    /// Whether rule `name` runs: yes unless configured off.
    pub fn rule_is_enabled(&self, name: &str) -> (b: bool)
        ensures
            b == rule_enabled(self.rules@, name@),
    {
        match self.rule_config(name) {
            Some(rc) => !rc.is_off(),
            None => true,
        }
    }
}

/// Where the configuration file is looked for, from a directory: the
/// directory itself, then each directory above it up to the root, each
/// joined with `mdlint.toml`.
pub open spec fn config_candidates_spec(dir: Seq<char>) -> Seq<Seq<char>> {
    let cs = components(dir);
    Seq::new(
        cs.len() + 1,
        |k: int| join(path_from(is_absolute(dir), cs.take(cs.len() - k)), "mdlint.toml"@),
    )
}

/// The paths where `mdlint.toml` is looked for, nearest first, from a
/// (canonical) directory.
pub fn config_candidates(dir: &str) -> (r: Vec<String>)
    ensures
        strs_view(r@) == config_candidates_spec(dir@),
{
    let d = chars_of(dir);
    let cs = components_of(d.as_slice());
    let abs = d.len() > 0 && d[0] == '/';
    let name = chars_of("mdlint.toml");
    let mut r: Vec<String> = Vec::new();
    let mut k: usize = 0;
    loop
        invariant_except_break
            views(cs@) == components(dir@),
            abs == is_absolute(dir@),
            name@ == "mdlint.toml"@,
            k <= cs.len(),
            r.len() == k,
            forall|j: int| 0 <= j < k ==> #[trigger] strs_view(r@)[j] == config_candidates_spec(dir@)[j],
        ensures
            r.len() == cs.len() + 1,
            views(cs@) == components(dir@),
            forall|j: int| 0 <= j < r.len() ==> #[trigger] strs_view(r@)[j] == config_candidates_spec(dir@)[j],
        decreases cs.len() - k,
    {
        let base = crate::paths::path_from_exec_pub(abs, &cs, cs.len() - k);
        let cand = crate::paths::join_exec(base.as_slice(), name.as_slice());
        let ghost before = strs_view(r@);
        r.push(string_of(cand.as_slice()));
        assert(strs_view(r@) =~= before.push(cand@));
        if k == cs.len() {
            break;
        }
        k += 1;
    }
    assert(strs_view(r@) =~= config_candidates_spec(dir@));
    r
}

/// The first of the candidates that is marked present, if any.
pub open spec fn first_present(cands: Seq<Seq<char>>, present: Seq<bool>) -> Option<Seq<char>>
    decreases cands.len(),
{
    if cands.len() == 0 || present.len() == 0 {
        None
    } else if present[0] {
        Some(cands[0])
    } else {
        first_present(cands.drop_first(), present.drop_first())
    }
}

/// The configuration file to use: the nearest of the candidates (see
/// `config_candidates`) that is a file, where `is_file` says which are.
pub fn find_config_file(candidates: &Vec<String>, is_file: &Vec<bool>) -> (r: Option<String>)
    ensures
        opt_view(r) == first_present(strs_view(candidates@), is_file@),
{
    let ghost cs = strs_view(candidates@);
    let mut i: usize = 0;
    assert(cs.skip(0) =~= cs && is_file@.skip(0) =~= is_file@);
    while i < candidates.len() && i < is_file.len()
        invariant
            cs == strs_view(candidates@),
            i <= candidates.len(),
            i <= is_file.len(),
            first_present(cs, is_file@) == first_present(cs.skip(i as int), is_file@.skip(i as int)),
        decreases candidates.len() - i,
    {
        assert(cs.skip(i as int).drop_first() =~= cs.skip(i + 1));
        assert(is_file@.skip(i as int).drop_first() =~= is_file@.skip(i + 1));
        if is_file[i] {
            return Some(candidates[i].clone());
        }
        i += 1;
    }
    None
}

} // verus!
