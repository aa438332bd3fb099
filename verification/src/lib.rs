//! A lossless front end for HOCON documents.
//!
//! The crate turns a source text into a sequence of tokens and then into a
//! concrete syntax tree that keeps every byte of the input, together with a
//! list of positioned diagnostics. Malformed input never stops the parse: it
//! is kept in the tree as `Error` leaves.
//!
//! Every function is verified against a contract. The tree itself is built
//! and stored by `rowan`; the few calls into it are the only statements that
//! are believed rather than proved, and they are gathered in [`tree`].
//!
//! - [`syntax`]: the kinds of tokens and nodes
//! - [`scan`]: the lexical rules, one by one
//! - [`lexer`]: which rule wins, the tokens of a text, and a cursor over them
//! - [`grammar`]: the tree that a token sequence stands for
//! - [`parser`]: the parser, proved to build that tree
//! - [`laws`]: what holds of every text
//! - [`tree`]: the green tree and its builder
//! - [`error`], [`span`]: diagnostics and byte ranges
//! - [`boundary`]: character boundaries in UTF-8 text

pub mod boundary;
pub mod error;
pub mod grammar;
pub mod laws;
pub mod lexer;
pub mod parser;
pub mod scan;
pub mod span;
pub mod syntax;
pub mod tree;
