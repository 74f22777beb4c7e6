//! A minimal text-to-code generator paired with a generic text lexer.
//!
//! The template matcher recognizes the one command shape
//! `create function <name>` and emits a fixed nine-token function skeleton.
//! The lexer splits arbitrary text into a lossless sequence of lexemes:
//! every whitespace scalar and every one of `{`, `}`, `(`, `)` stands alone,
//! and maximal runs of other scalars stay whole. The renderer concatenates
//! a token sequence back into a string; rendering a lexed string always
//! reproduces the input exactly.

pub mod lexer;
pub mod render;
pub mod template;
pub mod token;
