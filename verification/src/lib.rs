//! A streaming, lenient JSON tokenizer.
//!
//! Given a text buffer, a [`JsonTextReader`] lazily produces a sequence of
//! lexical tokens (structural markers, literals, strings, numbers) while
//! tolerating a deliberately widened grammar: single- and double-quoted
//! strings, `//`, `#`, and `/* ... */` comments, unquoted scalars, and
//! alternate delimiters (`;` in place of `,`, `=`/`=>` in place of `:`).
//!
//! Every emitted token's text is an exact, contiguous substring of the input
//! buffer, and the whole token sequence is a mathematical function of the
//! source text alone: both facts are stated in the contracts of
//! [`JsonTextReader::next_token`] and in the lemmas of the [`laws`] module.

pub mod classify;
pub mod laws;
pub mod model;
pub mod reader;
pub mod token;

pub use reader::JsonTextReader;

pub use token::JsonToken;
pub use token::JsonTokenKind;
pub use token::SyntaxError;
