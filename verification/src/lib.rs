//! A lexical scanner for a small dynamically-typed scripting language,
//! together with an expression tree and a visitor that renders expressions
//! in a parenthesized prefix notation.

pub mod expr;
pub mod scanner;
pub mod token;
