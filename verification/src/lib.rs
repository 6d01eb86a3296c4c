//! A converter from a small Markdown dialect to HTML.
//!
//! The text is matched against a fixed grammar, which gives a document tree,
//! and the tree is rendered. `markdown_to_html` does both; `parse_document`
//! and `render` do one each.
//!
//! - `grammar` states the grammar as mathematical functions, `bounds` what
//!   holds of every match, and `laws` what holds of the conversion of whole
//!   families of texts.
//! - `scan`, `spans`, `blocks` and `matcher` are the executable matcher.
//! - `tree` is the document tree, `render` the renderer, `error` the errors.

pub mod blocks;
pub mod bounds;
pub mod bytes;
pub mod convert;
pub mod digits;
pub mod error;
pub mod grammar;
pub mod laws;
pub mod matcher;
pub mod render;
pub mod scan;
pub mod spans;
pub mod tree;

pub use convert::markdown_to_html;
pub use error::{GrammarError, ParserError};
pub use grammar::Rule;
pub use matcher::{match_rule, parse_document};
pub use render::render;
pub use tree::{Block, Document, Inline};
