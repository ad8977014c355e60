use shunting_yard::EvalError;
use shunting_yard::Op;
use shunting_yard::Token;
use shunting_yard::parse_shunting_yard;
use shunting_yard::tokenize_str;

#[test]
fn parse_number_passes_through() {
    assert_eq!(
        parse_shunting_yard(vec![Token::Num(7)]),
        Ok(vec![Token::Num(7)])
    );
}

#[test]
fn parse_lower_precedence_keeps_higher_on_top() {
    // 2 + 3 * 4 becomes 2 3 4 * +
    let tokens = tokenize_str("2 + 3 * 4").unwrap();
    assert_eq!(
        parse_shunting_yard(tokens),
        Ok(vec![
            Token::Num(2),
            Token::Num(3),
            Token::Num(4),
            Token::Op(Op::Multiply),
            Token::Op(Op::Plus),
        ])
    );
}

#[test]
fn parse_equal_precedence_pops_left_to_right() {
    // 8 - 3 - 2 becomes 8 3 - 2 -
    let tokens = tokenize_str("8 - 3 - 2").unwrap();
    assert_eq!(
        parse_shunting_yard(tokens),
        Ok(vec![
            Token::Num(8),
            Token::Num(3),
            Token::Op(Op::Minus),
            Token::Num(2),
            Token::Op(Op::Minus),
        ])
    );
}

#[test]
fn parse_parentheses_group_first() {
    // (2 + 3) * 4 becomes 2 3 + 4 *
    let tokens = tokenize_str("(2 + 3) * 4").unwrap();
    assert_eq!(
        parse_shunting_yard(tokens),
        Ok(vec![
            Token::Num(2),
            Token::Num(3),
            Token::Op(Op::Plus),
            Token::Num(4),
            Token::Op(Op::Multiply),
        ])
    );
}

#[test]
fn parse_output_length_drops_parens() {
    // 2 parentheses, 3 numbers, 2 operators: the output holds 3 + 2 tokens.
    let tokens = tokenize_str("(1 + 2) * 3").unwrap();
    assert_eq!(tokens.len(), 7);
    let rpn = parse_shunting_yard(tokens).unwrap();
    assert_eq!(rpn.len(), 5);
    assert!(rpn.iter().all(|t| !matches!(t, Token::LParen | Token::RParen)));
}

#[test]
fn parse_empty_input_yields_empty_output() {
    assert_eq!(parse_shunting_yard(vec![]), Ok(vec![]));
}

#[test]
fn parse_rejects_unmatched_right_paren() {
    let tokens = tokenize_str("1 + 2)").unwrap();
    assert_eq!(
        parse_shunting_yard(tokens),
        Err(EvalError::MalformedExpression)
    );
}

#[test]
fn parse_rejects_unmatched_left_paren() {
    let tokens = tokenize_str("(1 + 2").unwrap();
    assert_eq!(
        parse_shunting_yard(tokens),
        Err(EvalError::MalformedExpression)
    );
}

#[test]
fn parse_nested_parens() {
    // ((1 + 2)) becomes 1 2 +
    let tokens = tokenize_str("((1 + 2))").unwrap();
    assert_eq!(
        parse_shunting_yard(tokens),
        Ok(vec![Token::Num(1), Token::Num(2), Token::Op(Op::Plus)])
    );
}
