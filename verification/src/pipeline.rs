//! The single entry point: tokenize, parse, and evaluate an expression
//! string in one call.

use vstd::prelude::*;

use crate::token::EvalError;
use crate::tokenizer::spec_tokenize;
use crate::tokenizer::tokenize_str;
use crate::parser::parse_shunting_yard;
use crate::parser::spec_parse;
use crate::evaluator::evaluate_shunting_yard;
use crate::evaluator::spec_evaluate;

verus! {

/// The value an expression string evaluates to: its tokens in postfix order
/// reduced by the evaluator, or the first error of the first stage that
/// fails.
pub open spec fn spec_eval_expression(s: Seq<char>) -> Result<isize, EvalError> {
    match spec_tokenize(s) {
        Ok(toks) => match spec_parse(toks) {
            Ok(rpn) => spec_evaluate(rpn),
            Err(e) => Err(e),
        },
        Err(e) => Err(e),
    }
}

/// Evaluates an infix expression string to a single integer: tokenizes it,
/// reorders the tokens into postfix form, and reduces them. Returns the
/// first error of the first stage that fails.
pub fn eval_expression(input: &str) -> (r: Result<isize, EvalError>)
    ensures
        r == spec_eval_expression(input@),
{
    let tokens = match tokenize_str(input) {
        Ok(t) => t,
        Err(e) => {
            return Err(e);
        },
    };
    let rpn = match parse_shunting_yard(tokens) {
        Ok(t) => t,
        Err(e) => {
            return Err(e);
        },
    };
    evaluate_shunting_yard(rpn)
}

} // verus!
