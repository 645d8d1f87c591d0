//! A compiler front end: a scanner that turns source text into tokens, and a
//! type-checking automaton over a stream of IR instructions.
pub mod pos;
pub mod tokens;
pub mod lexer;
pub mod lexer_laws;
pub mod hir;
pub mod notices;
pub mod typeck;
