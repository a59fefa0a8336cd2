//! The capability interface through which the transformer reaches its
//! outside collaborators: the expression engine (sessions, evaluation, the
//! iterator protocol), the HTML parser, the Markdown converter, front matter
//! parsing, and template file access.
//!
//! The trait's methods carry no contracts: the transformer is verified for
//! every possible behaviour of an implementation, and nothing is assumed of
//! one.  A production implementation lives outside the verified library.

use vstd::prelude::*;
use crate::dom::Node;
use crate::frontmatter::MatterType;
use crate::value::Value;

verus! {

/// Why a render was aborted.  No directive failure is locally recoverable:
/// any of these aborts the entire current file's render with no partial
/// output.
#[derive(Debug)]
pub enum RenderError {
    /// A template could not be parsed, or a source file has no known kind.
    Parse(String),
    /// An expression failed to evaluate; carries the engine's message.
    Eval(String),
    /// A referenced file is missing or unreadable; carries the path.
    Io(String),
    /// An `x-for` attribute does not match `<identifier> (in|of) <expr>`.
    Grammar(String),
    /// An iteration source does not support the iterator protocol.
    IteratorProtocol(String),
    /// The nesting or iteration guard tripped: a layout cycle, template
    /// inclusion recursion, or an iterator that never finishes.
    LimitExceeded,
}

/// A capability giving the transformer its outside collaborators.  Sessions
/// and iterators are named by plain handles chosen by the implementation.
pub trait Host {
    /// Create a fresh, isolated evaluation session with its own global
    /// scope, and return its handle.
    fn new_session(&mut self) -> u64;

    /// Bind `name` in `session`'s global scope to the global object of
    /// `target`; used for the `page`, `child` and `parent` globals.
    fn link_sessions(&mut self, session: u64, name: &str, target: u64);

    /// Bind `name` in `session`'s global scope to a plain value.
    fn set_global_value(&mut self, session: u64, name: &str, value: &Value);

    /// Bind `name` in `session`'s global scope to a number; used for the
    /// loop index binding.
    fn set_global_index(&mut self, session: u64, name: &str, value: u64);

    /// Read a global from `session`'s scope, reduced to a plain value;
    /// `Undefined` when it was never set.  Used for the reserved `layout`
    /// variable.
    fn read_global(&mut self, session: u64, name: &str) -> Value;

    /// Evaluate an expression in `session` and reduce the result to a plain
    /// value, or fail with the engine's exception message.
    fn eval(&mut self, session: u64, expr: &str) -> Result<Value, String>;

    /// Evaluate an expression in `session` and obtain an iterator over the
    /// result, or fail with a message when the value lacks the iterator
    /// protocol.
    fn iter_begin(&mut self, session: u64, expr: &str) -> Result<u64, String>;

    /// Advance the iterator: bind its next value into `session`'s global
    /// scope under `bind_name` and return `false`, or return `true` when
    /// the iterator is done (binding nothing).
    fn iter_next(&mut self, session: u64, iter: u64, bind_name: &str) -> Result<bool, String>;

    /// Parse a front matter block of the given syntax and bind each of its
    /// top-level entries into `session`'s global scope.
    fn bind_matter(&mut self, session: u64, kind: MatterType, matter: &str) -> Result<(), String>;

    /// Read a template or script file to a string, or fail with a message.
    fn read_file(&mut self, path: &str) -> Result<String, String>;

    /// Parse HTML text into a document tree.  The parser recovers from
    /// malformed input; its result ends with an `html` element whose last
    /// child is `body`, the target of content splicing.
    fn parse_html(&mut self, text: &str) -> Node;

    /// Convert Markdown text to HTML text.
    fn render_markdown(&mut self, text: &str) -> String;
}

} // verus!
