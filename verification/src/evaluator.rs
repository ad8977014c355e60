//! The postfix evaluator: walks a postfix token sequence with an operand
//! stack. A number is pushed; an operator pops its right operand off the top
//! and its left operand from below it, applies, and pushes the result. The
//! value left on top at the end is the result. Missing operands or a missing
//! result are a malformed expression; a parenthesis is an internal-invariant
//! violation, since the parser never emits one; division by zero and results
//! outside `isize` are arithmetic errors.

use vstd::prelude::*;

use crate::token::ArithmeticError;
use crate::token::EvalError;
use crate::token::Op;
use crate::token::Token;
use crate::parser::RPNStack;

verus! {

/// Integer division truncated toward zero, as the `/` operator of the
/// hardware behaves: the quotient of the magnitudes, with the sign of the
/// exact quotient.
pub open spec fn trunc_div(x: int, d: int) -> int
    recommends
        d != 0,
{
    if x == 0 {
        0
    } else if x > 0 && d > 0 {
        x / d
    } else if x < 0 && d < 0 {
        (x * -1) / (d * -1)
    } else if x < 0 {
        ((x * -1) / d) * -1
    } else {
        (x / (d * -1)) * -1
    }
}

/// The result if it fits in `isize`, an arithmetic overflow error if not.
pub open spec fn fit_isize(v: int) -> Result<isize, EvalError> {
    if isize::MIN <= v <= isize::MAX {
        Ok(v as isize)
    } else {
        Err(EvalError::Arithmetic(ArithmeticError::Overflow))
    }
}

/// Applies `op` to left operand `b` and right operand `a`: the mathematical
/// result if it fits in `isize`, an overflow error if not, and a
/// division-by-zero error when `op` divides by zero. Division truncates
/// toward zero.
pub open spec fn spec_apply_op(op: Op, b: isize, a: isize) -> Result<isize, EvalError> {
    match op {
        Op::Plus => fit_isize(b + a),
        Op::Minus => fit_isize(b - a),
        Op::Multiply => fit_isize(b * a),
        Op::Divide => if a == 0 {
            Err(EvalError::Arithmetic(ArithmeticError::DivisionByZero))
        } else {
            fit_isize(trunc_div(b as int, a as int))
        },
    }
}

/// The evaluator's state after processing `rpn` up to index `i` with operand
/// stack `stack`: the value left on top at the end, or the first error.
pub open spec fn spec_eval_from(rpn: Seq<Token>, i: int, stack: Seq<isize>) -> Result<
    isize,
    EvalError,
>
    decreases rpn.len() - i,
{
    if !(0 <= i < rpn.len()) {
        if stack.len() == 0 {
            Err(EvalError::MalformedExpression)
        } else {
            Ok(stack.last())
        }
    } else {
        match rpn[i] {
            Token::Num(v) => spec_eval_from(rpn, i + 1, stack.push(v)),
            Token::Op(op) => {
                if stack.len() < 2 {
                    Err(EvalError::MalformedExpression)
                } else {
                    let a = stack.last();
                    let b = stack[stack.len() - 2];
                    match spec_apply_op(op, b, a) {
                        Ok(v) => spec_eval_from(rpn, i + 1, stack.drop_last().drop_last().push(v)),
                        Err(e) => Err(e),
                    }
                }
            },
            _ => Err(EvalError::InternalInvariant),
        }
    }
}

/// The value a postfix token sequence evaluates to, or the first error.
pub open spec fn spec_evaluate(rpn: Seq<Token>) -> Result<isize, EvalError> {
    spec_eval_from(rpn, 0, Seq::empty())
}

/// Applies `op` to left operand `b` and right operand `a` with overflow and
/// division-by-zero checks.
fn apply_op(op: Op, b: isize, a: isize) -> (r: Result<isize, EvalError>)
    ensures
        r == spec_apply_op(op, b, a),
{
    match op {
        Op::Plus => match b.checked_add(a) {
            Some(v) => Ok(v),
            None => Err(EvalError::Arithmetic(ArithmeticError::Overflow)),
        },
        Op::Minus => match b.checked_sub(a) {
            Some(v) => Ok(v),
            None => Err(EvalError::Arithmetic(ArithmeticError::Overflow)),
        },
        Op::Multiply => match b.checked_mul(a) {
            Some(v) => Ok(v),
            None => Err(EvalError::Arithmetic(ArithmeticError::Overflow)),
        },
        Op::Divide => {
            if a == 0 {
                Err(EvalError::Arithmetic(ArithmeticError::DivisionByZero))
            } else {
                match b.checked_div(a) {
                    Some(v) => Ok(v),
                    None => Err(EvalError::Arithmetic(ArithmeticError::Overflow)),
                }
            }
        },
    }
}

/// Reduces a postfix token sequence to its value with an operand stack:
/// numbers are pushed, an operator replaces the two topmost values — the
/// deeper one its left operand, the top one its right — by its result, and
/// the final top of stack is returned. An operator with fewer than two
/// operands, or an empty stack at the end, is a malformed expression; a
/// parenthesis is an internal-invariant violation; division by zero and
/// results outside `isize` are arithmetic errors.
#[verifier::loop_isolation(false)]
pub fn evaluate_shunting_yard(rpn: RPNStack) -> (r: Result<isize, EvalError>)
    ensures
        r == spec_evaluate(rpn@),
{
    let ghost toks = rpn@;
    let n = rpn.len();
    let mut stack: Vec<isize> = Vec::new();
    let mut i: usize = 0;
    while i < n
        invariant
            i <= n,
            spec_evaluate(toks) == spec_eval_from(toks, i as int, stack@),
        decreases n - i,
    {
        let t = rpn[i];
        match t {
            Token::Num(v) => {
                stack.push(v);
            },
            Token::Op(op) => {
                if stack.len() < 2 {
                    return Err(EvalError::MalformedExpression);
                }
                let a = stack.pop().unwrap();
                let b = stack.pop().unwrap();
                match apply_op(op, b, a) {
                    Ok(v) => {
                        stack.push(v);
                    },
                    Err(e) => {
                        return Err(e);
                    },
                }
            },
            Token::LParen => {
                return Err(EvalError::InternalInvariant);
            },
            Token::RParen => {
                return Err(EvalError::InternalInvariant);
            },
        }
        i = i + 1;
    }
    if stack.len() == 0 {
        return Err(EvalError::MalformedExpression);
    }
    let result = stack.pop().unwrap();
    Ok(result)
}

} // verus!
