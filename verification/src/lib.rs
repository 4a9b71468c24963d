//! A verified interpreter for a small line-oriented scripting language:
//! variable declarations with explicit types, literal and arithmetic
//! assignment, and a single output statement. The front end is a
//! hand-written tokenizer with source-location tracking, an
//! operator-precedence expression evaluator (shunting-yard to postfix,
//! then postfix evaluation over exact rationals), and a typed variable
//! store consulted and mutated by the statement dispatcher.

pub mod enums;
pub mod errors;
pub mod expr;
pub mod laws;
pub mod lexer;
pub mod lexspec;
pub mod numfmt;
pub mod parser;
pub mod parsespec;
pub mod rat;
pub mod stack;
pub mod token;
