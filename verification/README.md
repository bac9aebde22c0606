# mdlint

A markdown linter for collections of markdown files (Obsidian vaults,
documentation sites, wikis): it checks standard links, wikilinks, heading
anchors and images, heading structure, required frontmatter fields and pages
no other page links to.

The library under `src/` is written in Verus: each function carries a
contract over a mathematical model of its data, and the rules' laws (the
order findings are reported in, the severity each carries, what a rule set
to `off` reports) are proved there.

- `text`, `paths`: strings as character sequences, Unix paths by components.
- `headings`, `links`, `frontmatter`, `file`: what a markdown file holds,
  read from comrak's tree as plain nodes.
- `config`, `workspace`, `resolve`: settings, the indexes of a workspace and
  how a link finds its file and anchor.
- `rules`: the five rules, running them all, and the report order.
- `report`: output formats, the one-line form, the summary, quiet mode.

`app/` is the command line: argument parsing, reading `mdlint.toml` and the
files, walking directories, and printing (rich output through miette, JSON
through serde).
