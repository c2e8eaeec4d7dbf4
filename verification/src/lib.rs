//! Parser, query engine and session logic for Clausewitz-style save files.
//!
//! The library decodes the single-byte code page used by the format, parses
//! the `name = value` grammar into a document tree, recovers repeated fields
//! from the raw bytes, and answers queries against the parsed document.

pub mod error;
pub mod encoding;
pub mod laws;
pub mod parser;
pub mod query;
pub mod rawtext;
pub mod search;
pub mod session;
pub mod serializer;
pub mod token;
pub mod value;
