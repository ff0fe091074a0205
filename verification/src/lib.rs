//! An incremental parser-combinator engine.
//!
//! Parsers are pure functions from an [`input::Input`] view to a three-way
//! [`result::ParseResult`]: success with a remainder, failure with a
//! diagnostic and a consumed-byte count, or a request for more data.
//! Repetition combinators are built on one bounded engine ([`bounded`]),
//! and a streaming driver ([`stream`]) grows a buffer and retries a parser
//! until a terminal outcome is reached.

pub mod bounded;
pub mod combinators;
pub mod input;
pub mod laws;
pub mod parser;
pub mod parsers;
pub mod result;
pub mod stream;
