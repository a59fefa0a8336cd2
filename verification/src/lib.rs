//! A static document generator core: templates are HTML fragments (or
//! Markdown with front matter) holding directives such as `x-if`, `x-each`,
//! `x-for`, `slot` and `:attr`, plus `{{expr}}` interpolation in text nodes.
//! The tree transformer walks a parsed document, evaluates embedded
//! expressions through a host capability, expands loops by cloning subtrees,
//! resolves named content slots across nested render sessions, and chases a
//! `layout` chain, threading variables and slot content between sessions.
//!
//! Expression evaluation, HTML parsing and serialization, Markdown
//! conversion, and file access are outside collaborators, consumed only
//! through the [`host::Host`] capability trait; every rule of the
//! transformer itself is verified.

pub mod compose;
pub mod context;
pub mod directives;
pub mod dom;
pub mod frontmatter;
pub mod host;
pub mod interp;
pub mod strutil;
pub mod transform;
pub mod value;
