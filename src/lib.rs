//! Frontmatter handling for markdown documents: extraction of a `---`
//! delimited key/value block, `{{ page.key }}` placeholder substitution,
//! template-driven frontmatter injection, and the decisions of a file watcher.

pub mod text;
pub mod frontmatter;
pub mod inject;
pub mod error;
pub mod template;
pub mod preprocessor;
pub mod watch;
