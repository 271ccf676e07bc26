//! Rendering of a tree of document nodes into Markdown text, with escaping of
//! reserved characters, code spans fenced wide enough for their content, and
//! continuation prefixes for the lines of quotes and list items.
use vstd::prelude::*;

pub mod laws;
pub mod markdown;
pub mod node;
pub mod text;

pub use markdown::{AsMarkdown, Markdown, MarkdownWritable};
pub use node::{Heading, Link, List, Node, Paragraph, Quote, RichText, Table};
pub use text::{write_escaped, write_line_prefixed, Escaping};

verus! {

} // verus!
