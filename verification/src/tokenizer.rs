//! The tokenizer: a left-to-right scan of the input characters that skips
//! whitespace, maps the operator and parenthesis characters to their tokens,
//! collects maximal runs of decimal digits into `Num` tokens, and rejects
//! every other character.

use vstd::prelude::*;

use crate::token::EvalError;
use crate::token::LexError;
use crate::token::Op;
use crate::token::Token;

verus! {

/// `c` has the Unicode `White_Space` property.
pub open spec fn is_whitespace_char(c: char) -> bool {
    let u = c as u32;
    u == 0x09 || u == 0x0A || u == 0x0B || u == 0x0C || u == 0x0D || u == 0x20 || u == 0x85
        || u == 0xA0 || u == 0x1680 || (0x2000 <= u && u <= 0x200A) || u == 0x2028 || u == 0x2029
        || u == 0x202F || u == 0x205F || u == 0x3000
}

/// `c` is a decimal digit.
pub open spec fn is_digit_char(c: char) -> bool {
    48 <= c as u32 && c as u32 <= 57
}

/// Numeric value of a decimal digit.
pub open spec fn digit_value(c: char) -> int {
    c as u32 - 48
}

/// `c` is one of the four operator characters.
pub open spec fn is_op_char(c: char) -> bool {
    c == '+' || c == '-' || c == '*' || c == '/'
}

/// The operator a character stands for.
pub open spec fn op_of_char(c: char) -> Op {
    if c == '+' {
        Op::Plus
    } else if c == '-' {
        Op::Minus
    } else if c == '*' {
        Op::Multiply
    } else {
        Op::Divide
    }
}

/// Length of the run of consecutive decimal digits starting at index `i`.
pub open spec fn digit_run_len(s: Seq<char>, i: int) -> nat
    decreases s.len() - i,
{
    if 0 <= i < s.len() && is_digit_char(s[i]) {
        1 + digit_run_len(s, i + 1)
    } else {
        0
    }
}

/// Base-10 value of the digit characters `s[i..j]`.
pub open spec fn digits_value(s: Seq<char>, i: int, j: int) -> int
    decreases j - i,
{
    if i >= j {
        0
    } else {
        digits_value(s, i, j - 1) * 10 + digit_value(s[j - 1])
    }
}

/// Prefixes the token sequence of a successful tokenization; an error passes
/// through unchanged.
pub open spec fn prepend_tokens(ts: Seq<Token>, r: Result<Seq<Token>, EvalError>) -> Result<
    Seq<Token>,
    EvalError,
> {
    match r {
        Ok(rest) => Ok(ts + rest),
        Err(e) => Err(e),
    }
}

/// The tokens of `s` from character index `i` on: whitespace produces
/// nothing, an operator or parenthesis character produces its token, a digit
/// starts a maximal digit run that produces one `Num` token, and any other
/// character is an error. A digit run whose value exceeds `isize::MAX`
/// is an overflow error.
pub open spec fn spec_tokenize_from(s: Seq<char>, i: int) -> Result<Seq<Token>, EvalError>
    decreases s.len() - i,
    via spec_tokenize_from_decreases
{
    if !(0 <= i < s.len()) {
        Ok(Seq::empty())
    } else {
        let c = s[i];
        if is_whitespace_char(c) {
            spec_tokenize_from(s, i + 1)
        } else if is_op_char(c) {
            prepend_tokens(seq![Token::Op(op_of_char(c))], spec_tokenize_from(s, i + 1))
        } else if c == '(' {
            prepend_tokens(seq![Token::LParen], spec_tokenize_from(s, i + 1))
        } else if c == ')' {
            prepend_tokens(seq![Token::RParen], spec_tokenize_from(s, i + 1))
        } else if is_digit_char(c) {
            let j = i + digit_run_len(s, i);
            let v = digits_value(s, i, j);
            if v > isize::MAX {
                Err(EvalError::Lex(LexError::Overflow { pos: i as usize }))
            } else {
                prepend_tokens(seq![Token::Num(v as isize)], spec_tokenize_from(s, j))
            }
        } else {
            Err(EvalError::Lex(LexError::InvalidChar { ch: c, pos: i as usize }))
        }
    }
}

#[via_fn]
proof fn spec_tokenize_from_decreases(s: Seq<char>, i: int) {
    if 0 <= i < s.len() && is_digit_char(s[i]) {
        lemma_digit_run_in_bounds(s, i);
        assert(digit_run_len(s, i) >= 1);
    }
}

/// The token sequence of the whole input, or the first lexical error.
pub open spec fn spec_tokenize(s: Seq<char>) -> Result<Seq<Token>, EvalError> {
    spec_tokenize_from(s, 0)
}

/// The view of a produced token vector, with an error passed through.
pub open spec fn tokens_view(r: Result<Vec<Token>, EvalError>) -> Result<Seq<Token>, EvalError> {
    match r {
        Ok(v) => Ok(v@),
        Err(e) => Err(e),
    }
}

fn char_is_whitespace(c: char) -> (r: bool)
    ensures
        r == is_whitespace_char(c),
{
    let u = c as u32;
    u == 0x09 || u == 0x0A || u == 0x0B || u == 0x0C || u == 0x0D || u == 0x20 || u == 0x85
        || u == 0xA0 || u == 0x1680 || (0x2000 <= u && u <= 0x200A) || u == 0x2028 || u == 0x2029
        || u == 0x202F || u == 0x205F || u == 0x3000
}

fn char_is_digit(c: char) -> (r: bool)
    ensures
        r == is_digit_char(c),
{
    let u = c as u32;
    48 <= u && u <= 57
}

/// Every character of the digit run starting at `i` is a digit, and the run
/// ends within the sequence.
proof fn lemma_digit_run_in_bounds(s: Seq<char>, i: int)
    requires
        0 <= i <= s.len(),
    ensures
        i + digit_run_len(s, i) <= s.len(),
        forall|m: int| i <= m < i + digit_run_len(s, i) ==> is_digit_char(s[m]),
    decreases s.len() - i,
{
    if i < s.len() && is_digit_char(s[i]) {
        lemma_digit_run_in_bounds(s, i + 1);
    }
}

/// A digit run extends at least as far as any prefix of consecutive digits.
proof fn lemma_digit_run_at_least(s: Seq<char>, i: int, k: int)
    requires
        0 <= i <= k <= s.len(),
        forall|m: int| i <= m < k ==> is_digit_char(s[m]),
    ensures
        i + digit_run_len(s, i) >= k,
    decreases k - i,
{
    if i < k {
        lemma_digit_run_at_least(s, i + 1, k);
    }
}

/// A run of digits that is followed by the end of the input or a non-digit
/// is exactly the digit run.
proof fn lemma_digit_run_exact(s: Seq<char>, i: int, k: int)
    requires
        0 <= i <= k <= s.len(),
        forall|m: int| i <= m < k ==> is_digit_char(s[m]),
        k == s.len() || !is_digit_char(s[k]),
    ensures
        i + digit_run_len(s, i) == k,
    decreases k - i,
{
    if i < k {
        lemma_digit_run_exact(s, i + 1, k);
    }
}

/// The value of a digit run is nonnegative.
proof fn lemma_digits_value_nonneg(s: Seq<char>, i: int, j: int)
    requires
        forall|m: int| i <= m < j ==> is_digit_char(s[m]),
    ensures
        digits_value(s, i, j) >= 0,
    decreases j - i,
{
    if i < j {
        lemma_digits_value_nonneg(s, i, j - 1);
        assert(is_digit_char(s[j - 1]));
        assert(digit_value(s[j - 1]) >= 0);
    }
}

/// Extending a digit run never decreases its value.
proof fn lemma_digits_value_mono(s: Seq<char>, i: int, j: int, k: int)
    requires
        i <= j <= k,
        forall|m: int| i <= m < k ==> is_digit_char(s[m]),
    ensures
        digits_value(s, i, j) <= digits_value(s, i, k),
    decreases k - j,
{
    if j < k {
        lemma_digits_value_mono(s, i, j, k - 1);
        lemma_digits_value_nonneg(s, i, k - 1);
        assert(digit_value(s[k - 1]) >= 0);
    }
}

/// Prefixing no tokens changes nothing.
proof fn lemma_prepend_empty(r: Result<Seq<Token>, EvalError>)
    ensures
        prepend_tokens(Seq::empty(), r) == r,
{
    match r {
        Ok(rest) => {
            assert(Seq::<Token>::empty() + rest =~= rest);
        },
        Err(_) => {},
    }
}

/// Prefixing tokens one at a time agrees with prefixing them in one step.
proof fn lemma_prepend_push(ts: Seq<Token>, t: Token, r: Result<Seq<Token>, EvalError>)
    ensures
        prepend_tokens(ts, prepend_tokens(seq![t], r)) == prepend_tokens(ts.push(t), r),
{
    match r {
        Ok(rest) => {
            assert(ts + (seq![t] + rest) =~= ts.push(t) + rest);
        },
        Err(_) => {},
    }
}

/// Scans `input` left to right into its token sequence: whitespace is
/// skipped, `+ - * /` and the parentheses map to their tokens, and a maximal
/// run of decimal digits becomes a single `Num` token. The first character
/// that fits none of these is reported as an invalid-character error, and a
/// digit run whose value exceeds `isize::MAX` as an overflow error, each
/// with its character index.
pub fn tokenize_str(input: &str) -> (r: Result<Vec<Token>, EvalError>)
    ensures
        tokens_view(r) == spec_tokenize(input@),
{
    let ghost s = input@;
    let n = input.unicode_len();
    let mut cursor: usize = 0;
    let mut tokens: Vec<Token> = Vec::new();
    proof {
        lemma_prepend_empty(spec_tokenize_from(s, 0));
    }
    while cursor < n
        invariant
            n == s.len(),
            s == input@,
            cursor <= n,
            spec_tokenize(s) == prepend_tokens(tokens@, spec_tokenize_from(s, cursor as int)),
        decreases n - cursor,
    {
        let c = input.get_char(cursor);
        if char_is_whitespace(c) {
            // produces no token
        } else if c == '+' {
            proof {
                lemma_prepend_push(tokens@, Token::Op(Op::Plus), spec_tokenize_from(s, cursor + 1));
            }
            tokens.push(Token::Op(Op::Plus));
        } else if c == '-' {
            proof {
                lemma_prepend_push(
                    tokens@,
                    Token::Op(Op::Minus),
                    spec_tokenize_from(s, cursor + 1),
                );
            }
            tokens.push(Token::Op(Op::Minus));
        } else if c == '*' {
            proof {
                lemma_prepend_push(
                    tokens@,
                    Token::Op(Op::Multiply),
                    spec_tokenize_from(s, cursor + 1),
                );
            }
            tokens.push(Token::Op(Op::Multiply));
        } else if c == '/' {
            proof {
                lemma_prepend_push(
                    tokens@,
                    Token::Op(Op::Divide),
                    spec_tokenize_from(s, cursor + 1),
                );
            }
            tokens.push(Token::Op(Op::Divide));
        } else if c == '(' {
            proof {
                lemma_prepend_push(tokens@, Token::LParen, spec_tokenize_from(s, cursor + 1));
            }
            tokens.push(Token::LParen);
        } else if c == ')' {
            proof {
                lemma_prepend_push(tokens@, Token::RParen, spec_tokenize_from(s, cursor + 1));
            }
            tokens.push(Token::RParen);
        } else if char_is_digit(c) {
            let start_pos: usize = cursor;
            let ghost start = cursor as int;
            let ghost j = start + digit_run_len(s, start);
            proof {
                lemma_digit_run_in_bounds(s, start);
                assert(digits_value(s, start, start) == 0);
            }
            let mut value: isize = (c as u32 - 48) as isize;
            assert(value == digits_value(s, start, start + 1));
            while cursor + 1 < n && char_is_digit(input.get_char(cursor + 1))
                invariant
                    n == s.len(),
                    s == input@,
                    0 <= start <= cursor < n,
                    cursor + 1 <= j <= n,
                    start == start_pos,
                    j == start + digit_run_len(s, start),
                    spec_tokenize(s) == prepend_tokens(tokens@, spec_tokenize_from(s, start)),
                    forall|m: int| start <= m < j ==> is_digit_char(s[m]),
                    forall|m: int| start <= m <= cursor ==> is_digit_char(s[m]),
                    value == digits_value(s, start, cursor + 1),
                    value >= 0,
                decreases n - cursor,
            {
                let d = input.get_char(cursor + 1);
                proof {
                    lemma_digit_run_at_least(s, start, cursor + 2);
                    assert(digits_value(s, start, cursor + 2) == digits_value(s, start, cursor + 1)
                        * 10 + digit_value(s[cursor + 1]));
                }
                let dv: isize = (d as u32 - 48) as isize;
                assert(dv == digit_value(s[cursor + 1]));
                let scaled = match value.checked_mul(10) {
                    Some(v) => v,
                    None => {
                        proof {
                            lemma_digits_value_mono(s, start, cursor + 2, j);
                        }
                        return Err(EvalError::Lex(LexError::Overflow { pos: start_pos }));
                    },
                };
                value = match scaled.checked_add(dv) {
                    Some(v) => v,
                    None => {
                        proof {
                            lemma_digits_value_mono(s, start, cursor + 2, j);
                        }
                        return Err(EvalError::Lex(LexError::Overflow { pos: start_pos }));
                    },
                };
                cursor = cursor + 1;
            }
            proof {
                lemma_digit_run_exact(s, start, cursor + 1);
                lemma_prepend_push(tokens@, Token::Num(value), spec_tokenize_from(s, j));
            }
            tokens.push(Token::Num(value));
        } else {
            return Err(EvalError::Lex(LexError::InvalidChar { ch: c, pos: cursor }));
        }
        cursor = cursor + 1;
    }
    assert(spec_tokenize_from(s, cursor as int) == Ok::<Seq<Token>, EvalError>(Seq::empty()));
    assert(tokens@ + Seq::<Token>::empty() =~= tokens@);
    Ok(tokens)
}

} // verus!
