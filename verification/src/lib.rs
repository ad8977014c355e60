//! An evaluator for infix arithmetic expressions over signed integers.
//!
//! The pipeline has three verified stages: the tokenizer turns a string into
//! a token sequence, the shunting-yard parser reorders it into postfix form
//! honoring precedence and parentheses, and the postfix evaluator reduces it
//! to a single `isize` with an operand stack. Every error — an invalid
//! character, a numeric overflow, unbalanced parentheses, a missing operand,
//! a division by zero — is returned as a typed `EvalError`, never a panic.

pub mod token;
pub mod tokenizer;
pub mod parser;
pub mod evaluator;
pub mod pipeline;

pub use token::ArithmeticError;
pub use token::EvalError;
pub use token::LexError;
pub use token::Op;
pub use token::Token;
pub use token::spec_precedence;
pub use tokenizer::tokenize_str;
pub use parser::RPNStack;
pub use parser::parse_shunting_yard;
pub use evaluator::evaluate_shunting_yard;
pub use pipeline::eval_expression;
