//! Porteurbars applies parameterized project templates ("skeletons") onto a
//! target directory: it resolves a set of named values from a defaults file,
//! environment overrides and operator answers, renders both relative paths and
//! file contents against the resolved context, and, when a target file already
//! exists with different content, decides between keeping it and overwriting
//! it after presenting a line diff.
//!
//! This crate holds the decision logic of that engine, verified: the defaults
//! parser, the context resolver, the conflict resolver with its diff
//! rendering, the per-entry planning of the template walk, and the template
//! source locator grammar. The filesystem walk, terminal prompts and git
//! fetches that drive these functions live outside the library.

pub mod chars;
pub mod conflict;
pub mod context;
pub mod defaults;
pub mod diff;
pub mod errors;
pub mod git;
pub mod template;

pub use errors::Error;
pub use template::Template;
