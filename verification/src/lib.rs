//! A lexical analyzer for Lua-like source text.
//!
//! The lexer turns a byte buffer into a sequence of typed tokens, each with the
//! span of input it was read from and, for literals, identifiers and comments,
//! a value. It never rejects an input: what fits no rule of the grammar comes
//! out as a token of its own (`Unidentified`, `UnclosedStringLiteral`,
//! `UnterminatedComment`), and lexing goes on behind it.
//!
//! # How the crate is laid out
//!
//! * [`classes`]: the byte classes and maximal runs of bytes of one class.
//! * [`token`]: token kinds, token values and the keyword table.
//! * [`tokenizer`]: the scanner, a byte buffer with a cursor and bounds-checked
//!   lookahead.
//! * [`number`], [`strings`], [`comment`]: the three sub-grammars.
//! * [`lexer`]: the dispatch on the leading bytes, [`lexer::next_token`] and
//!   [`lexer::tokenize`].
//! * [`laws`]: what holds of the token sequence of every input.
//!
//! Every grammar is written down twice: as a specification function over
//! `Seq<u8>` that says which token starts at an offset of the input, and as
//! executable code that is proved to compute exactly that token. No function
//! of the crate panics, and every loop is proved to end.
//!
//! # Points of the grammar worth knowing
//!
//! * Lookahead past the end of the input yields the byte `0x03`. The string
//!   scanner tells the end of the input by that byte, so a byte `0x03` in the
//!   input ends a string too, as unclosed. In comments it is a byte of the
//!   body: a block comment ends at the first `]]` or where the input ends.
//! * Newline, carriage return, tab, backslash, NUL and DEL are skipped like
//!   whitespace wherever they stand outside strings and comments.
//! * The two bytes `==` are a `Concat` token; no input gives an `Equal` token.
//! * Escapes in strings are kept as they are written.
//! * A float literal is carried as its text, checked against the grammar of
//!   decimal floating literals. The crate itself holds no floating-point
//!   number; whoever needs the number converts the text.
//! * Text values are byte strings, since the input need not be UTF-8.

pub mod classes;
pub mod comment;
pub mod laws;
pub mod lexer;
pub mod number;
pub mod strings;
pub mod token;
pub mod tokenizer;
