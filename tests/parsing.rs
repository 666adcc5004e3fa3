use calcul::error::CalcError;
use calcul::format::shorten;
use calcul::parser::{Parser, Step};
use calcul::plan::{compile, parse, Plan};
use calcul::token::{tokenize, Token};

/// Performs the steps of a plan in floating point, stopping at the first failure.
fn run(plan: &Plan) -> Result<f64, CalcError> {
    let mut values: Vec<f64> = Vec::new();
    for step in &plan.steps {
        let v = match *step {
            Step::Number(i) => match &plan.tokens[i] {
                Token::Number(d) => d.iter().collect::<String>().parse::<f64>().unwrap(),
                _ => panic!("step names a token that is no number"),
            },
            Step::Negate(a) => -values[a],
            Step::Add(a, b) => values[a] + values[b],
            Step::Subtract(a, b) => values[a] - values[b],
            Step::Multiply(a, b) => values[a] * values[b],
            Step::Divide(a, b) => {
                if values[b] == 0.0 {
                    return Err(CalcError::DivideByZero);
                }
                values[a] / values[b]
            }
            Step::Modulo(a, b) => {
                if values[b] == 0.0 {
                    return Err(CalcError::DivideByZero);
                }
                values[a] % values[b]
            }
            Step::Power(a, b) => values[a].powf(values[b]),
            Step::Sqrt(a) => {
                if values[a] < 0.0 {
                    return Err(CalcError::NegativeSqrt);
                }
                values[a].sqrt()
            }
        };
        values.push(v);
    }
    plan.outcome.map(|i| values[i])
}

fn eval(s: &str) -> Result<f64, CalcError> {
    run(&compile(s))
}

fn render(value: f64) -> String {
    let rounded = (value * 1e10).round() / 1e10;
    if (rounded - rounded.round()).abs() < 1e-10 {
        return format!("{}", rounded.round() as i64);
    }
    let wide: Vec<char> = format!("{:.15}", rounded).chars().collect();
    let narrow: Vec<char> = format!("{:.10}", rounded).chars().collect();
    shorten(&wide, &narrow).into_iter().collect()
}

#[test]
fn plan_of_sum_and_product() {
    let p = compile("2 + 3 * 4");
    assert_eq!(
        p.steps,
        vec![Step::Number(0), Step::Number(2), Step::Number(4), Step::Multiply(1, 2), Step::Add(0, 3)]
    );
    assert_eq!(p.outcome, Ok(4));
}

#[test]
fn plan_of_power_groups_right() {
    let p = compile("2 ^ 3 ^ 2");
    assert_eq!(
        p.steps,
        vec![Step::Number(0), Step::Number(2), Step::Number(4), Step::Power(1, 2), Step::Power(0, 3)]
    );
    assert_eq!(p.outcome, Ok(4));
}

#[test]
fn plan_of_subtraction_groups_left() {
    let p = compile("8 - 3 - 2");
    assert_eq!(
        p.steps,
        vec![Step::Number(0), Step::Number(2), Step::Subtract(0, 1), Step::Number(4), Step::Subtract(2, 3)]
    );
}

#[test]
fn plan_of_unary_signs() {
    let p = compile("-+-2");
    assert_eq!(p.steps, vec![Step::Number(3), Step::Negate(0), Step::Negate(1)]);
    assert_eq!(p.outcome, Ok(2));
}

#[test]
fn plan_of_lexical_error_is_empty() {
    let p = compile("2 # 2");
    assert!(p.steps.is_empty());
    assert!(p.tokens.is_empty());
    assert_eq!(p.outcome, Err(CalcError::InvalidCharacter));
}

#[test]
fn parser_peek_and_expression() {
    let mut parser = Parser::new(tokenize("(1)").unwrap());
    assert_eq!(parser.peek(), Token::LParen);
    assert_eq!(parser.parse_expression(), Ok(0));
    assert_eq!(parser.peek(), Token::EOF);
    assert!(parser.at_end());
    let (tokens, steps) = parser.into_parts();
    assert_eq!(tokens.len(), 3);
    assert_eq!(steps, vec![Step::Number(1)]);
}

#[test]
fn parser_stops_before_close_paren() {
    let mut parser = Parser::new(tokenize("1 + 2) * 3").unwrap());
    assert_eq!(parser.parse_expression(), Ok(2));
    assert_eq!(parser.peek(), Token::RParen);
    assert!(!parser.at_end());
}

#[test]
fn parse_rejects_trailing_tokens() {
    let p = parse(tokenize("(1))").unwrap());
    assert_eq!(p.outcome, Err(CalcError::TrailingTokens));
    assert_eq!(eval("1 + 2)"), Err(CalcError::TrailingTokens));
}

#[test]
fn evaluates_sum_and_product() {
    assert_eq!(eval("2 + 3 * 4"), Ok(14.0));
}

#[test]
fn evaluates_right_associative_power() {
    assert_eq!(eval("2 ^ 3 ^ 2"), Ok(512.0));
}

#[test]
fn evaluates_sqrt_plus_one() {
    assert_eq!(eval("sqrt(16) + 1"), Ok(5.0));
}

#[test]
fn divide_by_zero_fails() {
    assert_eq!(eval("10 / 0"), Err(CalcError::DivideByZero));
    assert_eq!(eval("1/(5-5)"), Err(CalcError::DivideByZero));
    assert_eq!(eval("10%0"), Err(CalcError::DivideByZero));
    assert_eq!(eval("(1/0"), Err(CalcError::DivideByZero));
}

#[test]
fn unclosed_parenthesis_fails() {
    assert_eq!(eval("(1 + 2"), Err(CalcError::UnclosedParenthesis));
    assert_eq!(eval("sqrt(4"), Err(CalcError::UnclosedParenthesis));
}

#[test]
fn wrong_token_inside_parentheses() {
    assert_eq!(eval("(1 2"), Err(CalcError::UnexpectedToken));
    assert_eq!(eval("sqrt(4 5)"), Err(CalcError::UnexpectedToken));
}

#[test]
fn close_paren_without_open() {
    assert_eq!(eval(")1"), Err(CalcError::UnmatchedCloseParen));
    assert_eq!(eval("1 * )"), Err(CalcError::UnmatchedCloseParen));
}

#[test]
fn other_syntax_errors() {
    assert_eq!(eval("1 2"), Err(CalcError::UnexpectedToken));
    assert_eq!(eval("sqrt 4"), Err(CalcError::ExpectedOpenParen));
    assert_eq!(eval("1 +"), Err(CalcError::UnexpectedEnd));
    assert_eq!(eval("1 + * 2"), Err(CalcError::ExpectedFactorToken));
}

#[test]
fn negative_sqrt_fails() {
    assert_eq!(eval("sqrt(0 - 4)"), Err(CalcError::NegativeSqrt));
    assert_eq!(eval("sqrt(-1)"), Err(CalcError::NegativeSqrt));
}

#[test]
fn sqrt_squares_back() {
    for arg in ["2", "0", "10.5", "1"] {
        let a: f64 = arg.parse().unwrap();
        let v = eval(&format!("sqrt({})", arg)).unwrap();
        assert!((v * v - a).abs() < 1e-9);
    }
}

#[test]
fn deep_nesting_is_refused() {
    let deep = format!("{}1{}", "(".repeat(300), ")".repeat(300));
    assert_eq!(eval(&deep), Err(CalcError::NestingTooDeep));
    let signs = format!("{}1", "-".repeat(300));
    assert_eq!(eval(&signs), Err(CalcError::NestingTooDeep));
    let shallow = format!("{}1{}", "(".repeat(100), ")".repeat(100));
    assert_eq!(eval(&shallow), Ok(1.0));
}

#[test]
fn precedence_and_associativity() {
    assert_eq!(eval("2 * 3 + 4 * 5 - 6 / 3"), Ok(24.0));
    assert_eq!(eval("-2 ^ 2"), Ok(4.0));
    assert_eq!(eval("7 % 4 * 2"), Ok(6.0));
    assert_eq!(eval("100 / 10 / 5"), Ok(2.0));
    assert_eq!(eval("(2 + 3) * 4"), Ok(20.0));
}

#[test]
fn point_one_plus_point_two_renders_cleanly() {
    assert_eq!(render(eval("0.1 + 0.2").unwrap()), "0.3");
}

#[test]
fn rendered_result_reads_back() {
    for e in ["1/3", "2/7", "0.1 + 0.2", "sqrt(2)", "10/4"] {
        let v = eval(e).unwrap();
        let again = eval(&render(v)).unwrap();
        assert!((again - v).abs() < 1e-9);
    }
}

#[test]
fn rendering_of_fractions() {
    assert_eq!(render(2.5), "2.5");
    assert_eq!(render(1.0 / 3.0), "0.3333333333");
    assert_eq!(render(4.0), "4");
}

#[test]
fn trim_number_strips_zeros_then_point() {
    let c: Vec<char> = "3.140000000000000".chars().collect();
    let r: String = calcul::format::trim_number(&c).into_iter().collect();
    assert_eq!(r, "3.14");
    let c: Vec<char> = "12.000".chars().collect();
    let r: String = calcul::format::trim_number(&c).into_iter().collect();
    assert_eq!(r, "12");
}

#[test]
fn shorten_caps_fraction_digits() {
    let wide: Vec<char> = "0.123456789012345".chars().collect();
    let narrow: Vec<char> = "0.1234567890".chars().collect();
    let r: String = shorten(&wide, &narrow).into_iter().collect();
    assert_eq!(r, "0.123456789");
    let wide: Vec<char> = "0.250000000000000".chars().collect();
    let narrow: Vec<char> = "0.2500000000".chars().collect();
    let r: String = shorten(&wide, &narrow).into_iter().collect();
    assert_eq!(r, "0.25");
}

#[test]
fn unbalanced_parentheses_never_evaluate() {
    for e in ["((1)", "(1))", ")(1", "sqrt((4)", "(1 + (2 * 3)", "1) + (2"] {
        assert!(compile(e).outcome.is_err(), "{}", e);
        assert!(eval(e).is_err(), "{}", e);
    }
    assert_eq!(eval("((1)"), Err(CalcError::UnclosedParenthesis));
    assert_eq!(eval("(1))"), Err(CalcError::TrailingTokens));
    assert_eq!(eval(")(1"), Err(CalcError::UnmatchedCloseParen));
}

#[test]
fn steps_only_use_earlier_steps() {
    let p = compile("-(1 + 2) * sqrt(9) ^ 2 % 5 - 3 / +4");
    for (j, step) in p.steps.iter().enumerate() {
        match *step {
            Step::Number(i) => assert!(matches!(p.tokens[i], Token::Number(_))),
            Step::Negate(a) | Step::Sqrt(a) => assert!(a < j),
            Step::Add(a, b)
            | Step::Subtract(a, b)
            | Step::Multiply(a, b)
            | Step::Divide(a, b)
            | Step::Modulo(a, b)
            | Step::Power(a, b) => assert!(a < j && b < j),
        }
    }
    assert_eq!(p.outcome, Ok(p.steps.len() - 1));
    let v = run(&p).unwrap();
    assert_eq!(v, -2.75);
}
