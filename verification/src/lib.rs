//! A parser for an embedded tag-based markup mini-language.
//!
//! The input is a flat sequence of lexical tokens (identifiers, literals,
//! punctuation, delimited groups). Parsing happens in two stages: a markup
//! tokenizer recognizes tag boundaries and attribute syntax, and a structural
//! parser assembles a properly nested tree with an explicit stack, matching
//! open and close tags and enforcing a single root.

pub mod laws;
pub mod parser;
pub mod render;
pub mod token;
pub mod tokenizer;
pub mod tree;

pub use parser::ParseError;
pub use parser::parse;
pub use token::Delimiter;
pub use token::Token;
pub use tree::SnaxAttribute;
pub use tree::SnaxItem;
pub use tree::SnaxSelfClosingTag;
pub use tree::SnaxTag;
