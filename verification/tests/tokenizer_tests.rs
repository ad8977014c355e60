use shunting_yard::EvalError;
use shunting_yard::LexError;
use shunting_yard::Op;
use shunting_yard::Token;
use shunting_yard::tokenize_str;

#[test]
fn tokenize_single_number() {
    assert_eq!(tokenize_str("7"), Ok(vec![Token::Num(7)]));
}

#[test]
fn tokenize_digit_run_is_maximal() {
    assert_eq!(tokenize_str("123"), Ok(vec![Token::Num(123)]));
}

#[test]
fn tokenize_is_deterministic() {
    let first = tokenize_str("12 + (34 * 5) / 6 - 7");
    let second = tokenize_str("12 + (34 * 5) / 6 - 7");
    assert_eq!(first, second);
}

#[test]
fn tokenize_ignores_whitespace_between_tokens() {
    assert_eq!(tokenize_str("1+2"), tokenize_str(" 1 + 2 "));
    assert_eq!(
        tokenize_str("1+2"),
        Ok(vec![Token::Num(1), Token::Op(Op::Plus), Token::Num(2)])
    );
}

#[test]
fn tokenize_accepts_unicode_whitespace() {
    assert_eq!(
        tokenize_str("1\u{2003}+\t2\u{00A0}*\n3"),
        Ok(vec![
            Token::Num(1),
            Token::Op(Op::Plus),
            Token::Num(2),
            Token::Op(Op::Multiply),
            Token::Num(3),
        ])
    );
}

#[test]
fn tokenize_all_token_kinds() {
    assert_eq!(
        tokenize_str("(8 - 3) / 2 * 5"),
        Ok(vec![
            Token::LParen,
            Token::Num(8),
            Token::Op(Op::Minus),
            Token::Num(3),
            Token::RParen,
            Token::Op(Op::Divide),
            Token::Num(2),
            Token::Op(Op::Multiply),
            Token::Num(5),
        ])
    );
}

#[test]
fn tokenize_empty_input_yields_empty_sequence() {
    assert_eq!(tokenize_str(""), Ok(vec![]));
}

#[test]
fn tokenize_whitespace_only_yields_empty_sequence() {
    assert_eq!(tokenize_str(" \t\n "), Ok(vec![]));
}

#[test]
fn tokenize_rejects_invalid_character() {
    assert_eq!(
        tokenize_str("2 & 2"),
        Err(EvalError::Lex(LexError::InvalidChar { ch: '&', pos: 2 }))
    );
}

#[test]
fn tokenize_rejects_letter_with_position() {
    assert_eq!(
        tokenize_str("1 + x"),
        Err(EvalError::Lex(LexError::InvalidChar { ch: 'x', pos: 4 }))
    );
}

#[test]
fn tokenize_rejects_overflowing_number() {
    assert_eq!(
        tokenize_str("9223372036854775808"),
        Err(EvalError::Lex(LexError::Overflow { pos: 0 }))
    );
}

#[test]
fn tokenize_accepts_isize_max() {
    assert_eq!(
        tokenize_str("9223372036854775807"),
        Ok(vec![Token::Num(isize::MAX)])
    );
}

#[test]
fn tokenize_overflow_position_is_run_start() {
    assert_eq!(
        tokenize_str("1 + 99999999999999999999"),
        Err(EvalError::Lex(LexError::Overflow { pos: 4 }))
    );
}

#[test]
fn precedence_ranks() {
    assert_eq!(Op::Plus.presedence(), 1);
    assert_eq!(Op::Minus.presedence(), 1);
    assert_eq!(Op::Multiply.presedence(), 2);
    assert_eq!(Op::Divide.presedence(), 2);
}

#[test]
fn token_equality_is_structural() {
    assert_eq!(Token::Num(5), Token::Num(5));
    assert_ne!(Token::Num(5), Token::Num(6));
    assert_ne!(Token::Op(Op::Plus), Token::Op(Op::Minus));
    assert_eq!(Token::LParen, Token::LParen);
    assert_ne!(Token::LParen, Token::RParen);
}
