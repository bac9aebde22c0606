//! A markdown linter: link, wikilink, heading-anchor and structure checks
//! over a collection of markdown files.

pub mod config;
pub mod file;
pub mod frontmatter;
pub mod headings;
pub mod links;
pub mod paths;
pub mod report;
pub mod resolve;
pub mod rules;
pub mod text;
pub mod workspace;
