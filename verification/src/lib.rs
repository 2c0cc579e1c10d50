//! Front end of a small interpreted language: a lexer that turns source text
//! into tokens and a recursive-descent parser that turns tokens into syntax
//! trees.
//!
//! Every executable function carries a contract over a mathematical model of
//! its data: a buffer is a `Seq<char>`, a token is a [`lexer::TokenView`], a
//! syntax tree is a [`grammar::Ast`].
//!
//! - [`lexer`]: tokens, and scanning them from a buffer.
//! - [`grammar`]: what parsing means, as functions on sequences of tokens.
//! - [`parser`]: syntax trees, and the parser that builds them.
//! - [`layout`]: the lines of a syntax tree drawn as an indented tree.
//! - [`serializer`]: the canonical tokens of a syntax tree, and their text.
//! - [`canonical`]: the canonical form of a source text.
//! - [`source`]: the text of tokens, and what scanning makes of it.
//! - [`spelled`]: the texts in parsed trees, and in their canonical tokens.
//! - [`transparency`]: line numbers decide nothing in the parser.
//! - [`shape`], [`reading`], [`roundtrip`]: parsing the canonical tokens of a
//!   parsed tree gives the tree again.

pub mod canonical;
pub mod grammar;
pub mod layout;
pub mod lexer;
pub mod parser;
pub mod reading;
pub mod roundtrip;
pub mod serializer;
pub mod shape;
pub mod source;
pub mod spelled;
pub mod transparency;
