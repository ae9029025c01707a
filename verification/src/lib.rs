//! A verified lexical analyzer for a small statically-flavoured systems
//! scripting language (classes, enums, visibility modifiers, `unsafe` blocks,
//! memory-location specifiers and C-like operators).
//!
//! The crate is organised leaf-first:
//! - [`recogniser`] holds the stateless character and keyword predicates;
//! - [`types`] holds the token data model;
//! - [`model`] holds the mathematical description of the lexer: what the next
//!   token of a character sequence is, stated as spec functions;
//! - [`tokeniser`] holds the engine, a cursor over the decoded character
//!   buffer whose `next_token` operation is proved to produce exactly the
//!   token that [`model`] describes.

pub mod model;
pub mod recogniser;
pub mod tokeniser;
pub mod types;
