use calcul::error::CalcError;
use calcul::token::{parse_identifier, parse_number, tokenize, Token};

fn chars(s: &str) -> Vec<char> {
    s.chars().collect()
}

fn num(s: &str) -> Token {
    Token::Number(chars(s))
}

#[test]
fn tokenize_sum_and_product() {
    let t = tokenize("2 + 3 * 4").unwrap();
    assert_eq!(t, vec![num("2"), Token::Plus, num("3"), Token::Multiply, num("4")]);
}

#[test]
fn tokenize_every_operator() {
    let t = tokenize("sqrt(1)%2^3/4-5").unwrap();
    assert_eq!(
        t,
        vec![
            Token::Sqrt,
            Token::LParen,
            num("1"),
            Token::RParen,
            Token::Modulo,
            num("2"),
            Token::Power,
            num("3"),
            Token::Divide,
            num("4"),
            Token::Minus,
            num("5"),
        ]
    );
}

#[test]
fn tokenize_skips_unicode_whitespace() {
    let t = tokenize("\t1\u{a0}+\n2\u{3000}").unwrap();
    assert_eq!(t, vec![num("1"), Token::Plus, num("2")]);
}

#[test]
fn tokenize_decimal_literals() {
    let t = tokenize(".5 + 12.25").unwrap();
    assert_eq!(t, vec![num(".5"), Token::Plus, num("12.25")]);
}

#[test]
fn tokenize_second_point_starts_new_literal() {
    let t = tokenize("1.2.3").unwrap();
    assert_eq!(t, vec![num("1.2"), num(".3")]);
}

#[test]
fn tokenize_literal_ending_in_point() {
    assert_eq!(tokenize("5. + 1"), Err(CalcError::InvalidNumber));
}

#[test]
fn tokenize_lone_point() {
    assert_eq!(tokenize("."), Err(CalcError::InvalidNumber));
}

#[test]
fn tokenize_unknown_function() {
    assert_eq!(tokenize("cos(1)"), Err(CalcError::UnknownFunction));
    assert_eq!(tokenize("sqrt2(4)"), Err(CalcError::UnknownFunction));
}

#[test]
fn tokenize_invalid_character() {
    assert_eq!(tokenize("2 $ 3"), Err(CalcError::InvalidCharacter));
    assert_eq!(tokenize("_x"), Err(CalcError::InvalidCharacter));
}

#[test]
fn tokenize_without_number() {
    assert_eq!(tokenize("()"), Err(CalcError::NoOperand));
    assert_eq!(tokenize("sqrt"), Err(CalcError::NoOperand));
    assert_eq!(tokenize(""), Err(CalcError::NoOperand));
    assert_eq!(tokenize("   "), Err(CalcError::NoOperand));
}

#[test]
fn tokenize_first_error_wins() {
    assert_eq!(tokenize("$ cos"), Err(CalcError::InvalidCharacter));
    assert_eq!(tokenize("cos $"), Err(CalcError::UnknownFunction));
}

#[test]
fn parse_number_reads_longest_run() {
    let c = chars("3.25.1");
    let mut pos: usize = 0;
    assert_eq!(parse_number(&c, &mut pos), Ok(chars("3.25")));
    assert_eq!(pos, 4);
    assert_eq!(parse_number(&c, &mut pos), Ok(chars(".1")));
    assert_eq!(pos, 6);
}

#[test]
fn parse_number_rejects_trailing_point_and_empty_run() {
    let c = chars("7.+");
    let mut pos: usize = 0;
    assert_eq!(parse_number(&c, &mut pos), Err(CalcError::InvalidNumber));
    assert_eq!(pos, 2);
    assert_eq!(parse_number(&c, &mut pos), Err(CalcError::InvalidNumber));
    assert_eq!(pos, 2);
}

#[test]
fn parse_identifier_reads_word() {
    let c = chars("sqrt_2(");
    let mut pos: usize = 0;
    assert_eq!(parse_identifier(&c, &mut pos), Ok(chars("sqrt_2")));
    assert_eq!(pos, 6);
    assert_eq!(parse_identifier(&c, &mut pos), Err(CalcError::InvalidCharacter));
    assert_eq!(pos, 6);
}

#[test]
fn error_messages() {
    assert_eq!(CalcError::DivideByZero.message(), "Cannot divide by ZERO");
    assert_eq!(CalcError::UnclosedParenthesis.message(), "Unclosed parenthesis: expected ')'");
}
