//! Strict parser for UUID string literals.
//!
//! The parser accepts the simple (32 hex digits), hyphenated (8-4-4-4-12),
//! braced and URN-prefixed textual forms of a UUID and decodes them into the
//! canonical 16-byte value. On malformed input it reports a structured error
//! that pins down exactly which characters are wrong, so that an embedding
//! layer can highlight the offending span of the original text.

pub mod error;
pub mod lemmas;
pub mod parser;

pub use error::ParseError;
pub use parser::try_parse;
