//! A verified parser for a restricted subset of XML.
//!
//! One call turns a complete text buffer into a document tree, or fails.
//! The grammar is hand-written recursive descent over an immutable input
//! with a cursor; every parsing function is specified against a purely
//! mathematical model of the grammar and proved to implement it.

pub mod chars;
pub mod grammar;
pub mod parser;
pub mod query;
pub mod strip;
pub mod tree;

pub use query::QuerySupport;

pub use parser::Parser;
pub use parser::char_data;
pub use parser::char_data_into_node;
pub use strip::strip_whitespace;

pub use grammar::ParseError;

pub use tree::Document;
pub use tree::Element;
pub use tree::Node;
