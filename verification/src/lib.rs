//! A stepwise calculator for arithmetic expressions typed as text.
//!
//! The pipeline is: [`lexer::lex`] turns the text into tokens,
//! [`validate::validate`] checks the token sequence for structural
//! well-formedness, [`postfix::to_postfix`] reorders it into postfix
//! (Reverse Polish) order, and [`eval::evaluate`] reduces it one
//! operator at a time, rendering every intermediate state back to a
//! fully parenthesized infix string through [`render::render`].
//!
//! The numeric work itself (adding, dividing, taking a square root of
//! the decimal numerals the tokens carry) is handed to an implementation
//! of [`eval::Arith`] supplied by the caller; everything the library
//! proves holds whatever numbers such an implementation hands back.

pub mod eval;
pub mod laws;
pub mod lexer;
pub mod postfix;
pub mod render;
pub mod token;
pub mod validate;
