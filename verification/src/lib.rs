//! A Markdown-to-rich-text document model with verified offset arithmetic.
//!
//! The crate turns a Markdown syntax tree into a tree of block nodes whose
//! paragraphs carry style marks over character ranges, classifies inline-code
//! tokens as URLs or file references, partitions styled text into paint runs,
//! and derives character-level selections from pixel bounds.
//!
//! Text is modeled at the character level: a `&str` or `String` is viewed as
//! its `Seq<char>`, and every offset or range in this crate counts characters,
//! except source spans, which pass through the positions the grammar parser
//! reports.

pub mod ast;
pub mod builder;
pub mod chars;
pub mod geometry;
pub mod node;
pub mod segment;
pub mod token;
pub mod utils;
