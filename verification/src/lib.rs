//! A lexical scanner for a small scripting language.
//!
//! The scanner turns source text into a sequence of [`lexer::Token`]s and a
//! sequence of [`errors::LoxError`]s. A malformed character never stops the
//! scan; an unterminated string literal ends the current scan call, but the
//! token stream is still closed off with an end-of-input marker.

pub mod errors;
pub mod lexer;
