//! Converts a minimal uncompressed 24-bit bitmap into a flat text document of
//! colored rectangular platforms for a level-editing tool.
//!
//! The crate decodes a raw byte buffer into a pixel grid ([`bitmap_parser`]),
//! renders each pixel's entity as a text token ([`goose_parser`]), and drives
//! the row-ordered, optionally filtered concatenation of those tokens into the
//! final document ([`export`]). File selection, console prompts, and writing
//! the finished document to disk are left to the surrounding application.

pub mod bitmap_parser;
pub mod export;
pub mod goose_parser;
