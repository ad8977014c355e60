use shunting_yard::ArithmeticError;
use shunting_yard::EvalError;
use shunting_yard::Op;
use shunting_yard::Token;
use shunting_yard::evaluate_shunting_yard;

#[test]
fn evaluate_single_number() {
    assert_eq!(evaluate_shunting_yard(vec![Token::Num(42)]), Ok(42));
}

#[test]
fn evaluate_subtraction_operand_order() {
    // 8 3 - : the deeper value is the left operand.
    assert_eq!(
        evaluate_shunting_yard(vec![Token::Num(8), Token::Num(3), Token::Op(Op::Minus)]),
        Ok(5)
    );
}

#[test]
fn evaluate_division_operand_order() {
    // 7 2 / : 7 divided by 2, truncated.
    assert_eq!(
        evaluate_shunting_yard(vec![Token::Num(7), Token::Num(2), Token::Op(Op::Divide)]),
        Ok(3)
    );
}

#[test]
fn evaluate_division_by_zero() {
    assert_eq!(
        evaluate_shunting_yard(vec![Token::Num(1), Token::Num(0), Token::Op(Op::Divide)]),
        Err(EvalError::Arithmetic(ArithmeticError::DivisionByZero))
    );
}

#[test]
fn evaluate_empty_input_is_malformed() {
    assert_eq!(
        evaluate_shunting_yard(vec![]),
        Err(EvalError::MalformedExpression)
    );
}

#[test]
fn evaluate_operator_without_operands_is_malformed() {
    assert_eq!(
        evaluate_shunting_yard(vec![Token::Op(Op::Plus)]),
        Err(EvalError::MalformedExpression)
    );
    assert_eq!(
        evaluate_shunting_yard(vec![Token::Num(1), Token::Op(Op::Plus)]),
        Err(EvalError::MalformedExpression)
    );
}

#[test]
fn evaluate_extra_operands_returns_top() {
    // The evaluator takes the top of the stack and ignores values below it.
    assert_eq!(
        evaluate_shunting_yard(vec![Token::Num(1), Token::Num(2)]),
        Ok(2)
    );
}

#[test]
fn evaluate_rejects_parenthesis_token() {
    assert_eq!(
        evaluate_shunting_yard(vec![Token::LParen]),
        Err(EvalError::InternalInvariant)
    );
    assert_eq!(
        evaluate_shunting_yard(vec![Token::Num(1), Token::RParen]),
        Err(EvalError::InternalInvariant)
    );
}

#[test]
fn evaluate_addition_overflow() {
    assert_eq!(
        evaluate_shunting_yard(vec![
            Token::Num(isize::MAX),
            Token::Num(1),
            Token::Op(Op::Plus),
        ]),
        Err(EvalError::Arithmetic(ArithmeticError::Overflow))
    );
}

#[test]
fn evaluate_multiplication_overflow() {
    assert_eq!(
        evaluate_shunting_yard(vec![
            Token::Num(isize::MAX),
            Token::Num(2),
            Token::Op(Op::Multiply),
        ]),
        Err(EvalError::Arithmetic(ArithmeticError::Overflow))
    );
}

#[test]
fn evaluate_division_overflow() {
    // isize::MIN / -1 does not fit in isize.
    assert_eq!(
        evaluate_shunting_yard(vec![
            Token::Num(isize::MIN),
            Token::Num(0),
            Token::Num(1),
            Token::Op(Op::Minus),
            Token::Op(Op::Divide),
        ]),
        Err(EvalError::Arithmetic(ArithmeticError::Overflow))
    );
}

#[test]
fn evaluate_negative_division_truncates_toward_zero() {
    // (3 - 10) / 2 = -7 / 2 = -3 under truncation, not -4.
    assert_eq!(
        evaluate_shunting_yard(vec![
            Token::Num(3),
            Token::Num(10),
            Token::Op(Op::Minus),
            Token::Num(2),
            Token::Op(Op::Divide),
        ]),
        Ok(-3)
    );
}
