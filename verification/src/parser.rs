//! The shunting-yard parser: reorders a token sequence into postfix
//! (reverse-Polish) form. Numbers go straight to the output; an operator
//! first pops every stacked operator of equal or higher precedence (equal
//! precedence pops too, which makes the operators left-associative); a left
//! parenthesis is stacked; a right parenthesis pops operators until its
//! matching left parenthesis. Unbalanced parentheses — a right parenthesis
//! with no stacked left one, or a left parenthesis still stacked at the end —
//! are reported as a malformed expression.

use vstd::prelude::*;

use crate::token::EvalError;
use crate::token::Op;
use crate::token::Token;
use crate::token::spec_precedence;
use crate::tokenizer::tokens_view;

verus! {

/// A postfix token sequence, the parser's output form.
pub type RPNStack = Vec<Token>;

/// The operator stack's top is an operator of precedence at least `p`.
pub open spec fn pop_guard(ops: Seq<Token>, p: u8) -> bool {
    ops.len() > 0 && match ops.last() {
        Token::Op(top) => spec_precedence(top) >= p,
        _ => false,
    }
}

/// Pops stacked operators of precedence at least `p` onto the output, and
/// returns the new output and operator stack.
pub open spec fn pop_ge(out: Seq<Token>, ops: Seq<Token>, p: u8) -> (Seq<Token>, Seq<Token>)
    decreases ops.len(),
{
    if pop_guard(ops, p) {
        pop_ge(out.push(ops.last()), ops.drop_last(), p)
    } else {
        (out, ops)
    }
}

/// Pops stacked tokens onto the output until a left parenthesis is popped
/// and discarded; an exhausted stack means a right parenthesis had no match.
pub open spec fn pop_until_lparen(out: Seq<Token>, ops: Seq<Token>) -> Result<
    (Seq<Token>, Seq<Token>),
    EvalError,
>
    decreases ops.len(),
{
    if ops.len() == 0 {
        Err(EvalError::MalformedExpression)
    } else if ops.last() == Token::LParen {
        Ok((out, ops.drop_last()))
    } else {
        pop_until_lparen(out.push(ops.last()), ops.drop_last())
    }
}

/// Drains the operator stack onto the output in last-in-first-out order; a
/// left parenthesis still on the stack means its match never came.
pub open spec fn drain_ops(out: Seq<Token>, ops: Seq<Token>) -> Result<Seq<Token>, EvalError>
    decreases ops.len(),
{
    if ops.len() == 0 {
        Ok(out)
    } else if ops.last() == Token::LParen {
        Err(EvalError::MalformedExpression)
    } else {
        drain_ops(out.push(ops.last()), ops.drop_last())
    }
}

/// One shunting-yard state: tokens from `i` on are still to be processed,
/// `out` is the output so far, `ops` the operator stack.
pub open spec fn spec_parse_from(
    toks: Seq<Token>,
    i: int,
    out: Seq<Token>,
    ops: Seq<Token>,
) -> Result<Seq<Token>, EvalError>
    decreases toks.len() - i,
{
    if !(0 <= i < toks.len()) {
        drain_ops(out, ops)
    } else {
        match toks[i] {
            Token::Num(_) => spec_parse_from(toks, i + 1, out.push(toks[i]), ops),
            Token::Op(o) => {
                let popped = pop_ge(out, ops, spec_precedence(o));
                spec_parse_from(toks, i + 1, popped.0, popped.1.push(toks[i]))
            },
            Token::LParen => spec_parse_from(toks, i + 1, out, ops.push(toks[i])),
            Token::RParen => match pop_until_lparen(out, ops) {
                Ok(popped) => spec_parse_from(toks, i + 1, popped.0, popped.1),
                Err(e) => Err(e),
            },
        }
    }
}

/// The postfix form of `toks`, or a malformed-expression error on
/// unbalanced parentheses.
pub open spec fn spec_parse(toks: Seq<Token>) -> Result<Seq<Token>, EvalError> {
    spec_parse_from(toks, 0, Seq::empty(), Seq::empty())
}

/// Number of `Num` tokens in `toks` from index `i` on.
pub open spec fn count_num_from(toks: Seq<Token>, i: int) -> nat
    decreases toks.len() - i,
{
    if !(0 <= i < toks.len()) {
        0
    } else {
        (match toks[i] {
            Token::Num(_) => 1 as nat,
            _ => 0 as nat,
        }) + count_num_from(toks, i + 1)
    }
}

/// Number of operator tokens in `toks` from index `i` on.
pub open spec fn count_op_from(toks: Seq<Token>, i: int) -> nat
    decreases toks.len() - i,
{
    if !(0 <= i < toks.len()) {
        0
    } else {
        (match toks[i] {
            Token::Op(_) => 1 as nat,
            _ => 0 as nat,
        }) + count_op_from(toks, i + 1)
    }
}

/// Number of `Num` tokens in `toks`.
pub open spec fn count_num(toks: Seq<Token>) -> nat {
    count_num_from(toks, 0)
}

/// Number of operator tokens in `toks`.
pub open spec fn count_op(toks: Seq<Token>) -> nat {
    count_op_from(toks, 0)
}

/// Number of stacked tokens that are not a left parenthesis.
spec fn non_lparen_count(ops: Seq<Token>) -> nat
    decreases ops.len(),
{
    if ops.len() == 0 {
        0
    } else {
        non_lparen_count(ops.drop_last()) + (if ops.last() == Token::LParen {
            0 as nat
        } else {
            1 as nat
        })
    }
}

/// Number of left parentheses on the operator stack.
spec fn lparen_count(ops: Seq<Token>) -> nat
    decreases ops.len(),
{
    if ops.len() == 0 {
        0
    } else {
        lparen_count(ops.drop_last()) + (if ops.last() == Token::LParen {
            1 as nat
        } else {
            0 as nat
        })
    }
}

proof fn lemma_count_push(ops: Seq<Token>, t: Token)
    ensures
        lparen_count(ops.push(t)) == lparen_count(ops) + (if t == Token::LParen {
            1 as nat
        } else {
            0 as nat
        }),
        non_lparen_count(ops.push(t)) == non_lparen_count(ops) + (if t == Token::LParen {
            0 as nat
        } else {
            1 as nat
        }),
{
    assert(ops.push(t).drop_last() =~= ops);
    assert(ops.push(t).last() == t);
}

proof fn lemma_pop_ge_counts(out: Seq<Token>, ops: Seq<Token>, p: u8)
    ensures
        pop_ge(out, ops, p).0.len() + non_lparen_count(pop_ge(out, ops, p).1) == out.len()
            + non_lparen_count(ops),
        lparen_count(pop_ge(out, ops, p).1) == lparen_count(ops),
    decreases ops.len(),
{
    if pop_guard(ops, p) {
        lemma_pop_ge_counts(out.push(ops.last()), ops.drop_last(), p);
    }
}

proof fn lemma_pop_until_lparen_counts(out: Seq<Token>, ops: Seq<Token>)
    ensures
        pop_until_lparen(out, ops) matches Ok(popped) ==> popped.0.len() + non_lparen_count(
            popped.1,
        ) == out.len() + non_lparen_count(ops),
        pop_until_lparen(out, ops) matches Ok(popped) ==> lparen_count(popped.1) + 1
            == lparen_count(ops),
        (pop_until_lparen(out, ops) matches Ok(_)) <==> lparen_count(ops) > 0,
    decreases ops.len(),
{
    if ops.len() == 0 {
    } else if ops.last() == Token::LParen {
    } else {
        lemma_pop_until_lparen_counts(out.push(ops.last()), ops.drop_last());
    }
}

proof fn lemma_drain_ops_counts(out: Seq<Token>, ops: Seq<Token>)
    ensures
        drain_ops(out, ops) matches Ok(r) ==> r.len() == out.len() + non_lparen_count(ops),
        (drain_ops(out, ops) matches Ok(_)) <==> lparen_count(ops) == 0,
    decreases ops.len(),
{
    if ops.len() == 0 {
    } else if ops.last() == Token::LParen {
    } else {
        lemma_drain_ops_counts(out.push(ops.last()), ops.drop_last());
    }
}

proof fn lemma_parse_from_length(toks: Seq<Token>, i: int, out: Seq<Token>, ops: Seq<Token>)
    requires
        0 <= i <= toks.len(),
    ensures
        spec_parse_from(toks, i, out, ops) matches Ok(r) ==> r.len() == out.len()
            + non_lparen_count(ops) + count_num_from(toks, i) + count_op_from(toks, i),
    decreases toks.len() - i,
{
    if i < toks.len() {
        match toks[i] {
            Token::Num(_) => {
                lemma_parse_from_length(toks, i + 1, out.push(toks[i]), ops);
            },
            Token::Op(o) => {
                let popped = pop_ge(out, ops, spec_precedence(o));
                lemma_pop_ge_counts(out, ops, spec_precedence(o));
                lemma_count_push(popped.1, toks[i]);
                lemma_parse_from_length(toks, i + 1, popped.0, popped.1.push(toks[i]));
            },
            Token::LParen => {
                lemma_count_push(ops, toks[i]);
                lemma_parse_from_length(toks, i + 1, out, ops.push(toks[i]));
            },
            Token::RParen => {
                lemma_pop_until_lparen_counts(out, ops);
                match pop_until_lparen(out, ops) {
                    Ok(popped) => {
                        lemma_parse_from_length(toks, i + 1, popped.0, popped.1);
                    },
                    Err(_) => {},
                }
            },
        }
    } else {
        lemma_drain_ops_counts(out, ops);
    }
}

/// A successful parse emits exactly one token for each number and each
/// operator of the input; parentheses are consumed, never forwarded.
pub proof fn lemma_parse_postfix_length(toks: Seq<Token>)
    ensures
        spec_parse(toks) matches Ok(out) ==> out.len() == count_num(toks) + count_op(toks),
{
    lemma_parse_from_length(toks, 0, Seq::empty(), Seq::empty());
}

/// The parenthesis tokens of `toks` from index `i` on nest properly around
/// `depth` left parentheses that are already open.
pub open spec fn balanced_from(toks: Seq<Token>, i: int, depth: int) -> bool
    decreases toks.len() - i,
{
    if !(0 <= i < toks.len()) {
        depth == 0
    } else {
        match toks[i] {
            Token::LParen => balanced_from(toks, i + 1, depth + 1),
            Token::RParen => depth > 0 && balanced_from(toks, i + 1, depth - 1),
            _ => balanced_from(toks, i + 1, depth),
        }
    }
}

/// The parenthesis tokens of `toks` are balanced: every right parenthesis
/// closes an open left one, and every left parenthesis is closed.
pub open spec fn balanced(toks: Seq<Token>) -> bool {
    balanced_from(toks, 0, 0)
}

proof fn lemma_parse_from_ok_iff_balanced(
    toks: Seq<Token>,
    i: int,
    out: Seq<Token>,
    ops: Seq<Token>,
)
    requires
        0 <= i <= toks.len(),
    ensures
        (spec_parse_from(toks, i, out, ops) matches Ok(_)) <==> balanced_from(
            toks,
            i,
            lparen_count(ops) as int,
        ),
    decreases toks.len() - i,
{
    if i < toks.len() {
        match toks[i] {
            Token::Num(_) => {
                lemma_parse_from_ok_iff_balanced(toks, i + 1, out.push(toks[i]), ops);
            },
            Token::Op(o) => {
                let popped = pop_ge(out, ops, spec_precedence(o));
                lemma_pop_ge_counts(out, ops, spec_precedence(o));
                lemma_count_push(popped.1, toks[i]);
                lemma_parse_from_ok_iff_balanced(toks, i + 1, popped.0, popped.1.push(toks[i]));
            },
            Token::LParen => {
                lemma_count_push(ops, toks[i]);
                lemma_parse_from_ok_iff_balanced(toks, i + 1, out, ops.push(toks[i]));
            },
            Token::RParen => {
                lemma_pop_until_lparen_counts(out, ops);
                match pop_until_lparen(out, ops) {
                    Ok(popped) => {
                        lemma_parse_from_ok_iff_balanced(toks, i + 1, popped.0, popped.1);
                    },
                    Err(_) => {},
                }
            },
        }
    } else {
        lemma_drain_ops_counts(out, ops);
    }
}

/// A parse succeeds exactly when the input's parentheses are balanced.
pub proof fn lemma_parse_ok_iff_balanced(toks: Seq<Token>)
    ensures
        (spec_parse(toks) matches Ok(_)) <==> balanced(toks),
{
    lemma_parse_from_ok_iff_balanced(toks, 0, Seq::empty(), Seq::empty());
}

/// The operator stack's top is a left parenthesis.
fn top_is_lparen(ops: &Vec<Token>) -> (r: bool)
    requires
        ops@.len() > 0,
    ensures
        r == (ops@.last() == Token::LParen),
{
    matches!(ops[ops.len() - 1], Token::LParen)
}

/// The operator stack's top is an operator of precedence at least `p`.
fn top_is_ge(ops: &Vec<Token>, p: u8) -> (r: bool)
    ensures
        r == pop_guard(ops@, p),
{
    if ops.len() == 0 {
        false
    } else {
        match ops[ops.len() - 1] {
            Token::Op(top) => top.presedence() >= p,
            _ => false,
        }
    }
}

/// Reorders `tokens` into postfix form with the shunting-yard algorithm:
/// numbers pass through in order; each operator first flushes the stacked
/// operators of equal or higher precedence; parentheses group and are
/// consumed. Returns a malformed-expression error exactly when the
/// parentheses are unbalanced; a successful result holds one token for each
/// number and operator of the input and no parentheses.
#[verifier::loop_isolation(false)]
pub fn parse_shunting_yard(tokens: Vec<Token>) -> (r: Result<RPNStack, EvalError>)
    ensures
        tokens_view(r) == spec_parse(tokens@),
        r matches Ok(out) ==> out@.len() == count_num(tokens@) + count_op(tokens@),
        (r matches Ok(_)) <==> balanced(tokens@),
{
    proof {
        lemma_parse_postfix_length(tokens@);
        lemma_parse_ok_iff_balanced(tokens@);
    }
    let ghost toks = tokens@;
    let n = tokens.len();
    let mut output: Vec<Token> = Vec::new();
    let mut ops: Vec<Token> = Vec::new();
    let mut i: usize = 0;
    while i < n
        invariant
            n == toks.len(),
            toks == tokens@,
            i <= n,
            spec_parse(toks) == spec_parse_from(toks, i as int, output@, ops@),
        decreases n - i,
    {
        let t = tokens[i];
        match t {
            Token::Num(_) => {
                output.push(t);
            },
            Token::Op(current_op) => {
                let p = current_op.presedence();
                let ghost out0 = output@;
                let ghost ops0 = ops@;
                while top_is_ge(&ops, p)
                    invariant
                        pop_ge(out0, ops0, p) == pop_ge(output@, ops@, p),
                    decreases ops@.len(),
                {
                    let top = ops.pop().unwrap();
                    output.push(top);
                }
                ops.push(t);
            },
            Token::LParen => {
                ops.push(t);
            },
            Token::RParen => {
                let ghost out0 = output@;
                let ghost ops0 = ops@;
                while ops.len() > 0 && !top_is_lparen(&ops)
                    invariant
                        pop_until_lparen(out0, ops0) == pop_until_lparen(output@, ops@),
                    decreases ops@.len(),
                {
                    let top = ops.pop().unwrap();
                    output.push(top);
                }
                if ops.len() == 0 {
                    return Err(EvalError::MalformedExpression);
                }
                let _lparen = ops.pop().unwrap();
            },
        }
        i = i + 1;
    }
    while ops.len() > 0
        invariant
            spec_parse(toks) == drain_ops(output@, ops@),
        decreases ops@.len(),
    {
        let top = ops.pop().unwrap();
        if matches!(top, Token::LParen) {
            return Err(EvalError::MalformedExpression);
        }
        output.push(top);
    }
    Ok(output)
}

} // verus!
