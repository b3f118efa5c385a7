//! Front end of a structured pseudocode language: a scanner that turns source
//! text into tokens, and a recursive-descent parser that turns tokens into an
//! abstract syntax tree.
//!
//! [`scanner`] and [`parser`] hold the code that runs. [`lexis`] and
//! [`grammar`] say, as functions on sequences of characters and of tokens,
//! what that code must answer, and the code is proved to answer just that.
//! [`sessions`] proves what follows for every parse.

pub mod ast;
pub mod chars;
pub mod grammar;
pub mod lexis;
pub mod number;
pub mod parser;
pub mod scanner;
pub mod sessions;
pub mod text;
