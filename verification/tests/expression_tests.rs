use rcalc::dec::Dec;
use rcalc::eval::{evaluate_expression, evaluate_postfix};
use rcalc::postfix::infix_to_postfix;
use rcalc::token::{Error, Token};
use rcalc::tokenizer::tokenize;
use rust_decimal::Decimal;

fn to_decimal(d: Dec) -> Decimal {
    Decimal::from_i128_with_scale(d.mant, d.scale)
}

fn eval_value(expr: &str) -> Decimal {
    to_decimal(evaluate_expression(expr).unwrap())
}

fn dec(s: &str) -> Decimal {
    s.parse::<Decimal>().unwrap()
}

fn num(s: &str) -> Token {
    let d = dec(s);
    Token::Number(Dec { mant: d.mantissa(), scale: d.scale() })
}

#[test]
fn exact_integer_arithmetic() {
    assert_eq!(eval_value("(2+3)*4"), dec("20"));
    assert_eq!(eval_value("10/4"), dec("2.5"));
    assert_eq!(eval_value("((1+2)*(3+4))"), dec("21"));
    assert_eq!(eval_value("100-42"), dec("58"));
    assert_eq!(eval_value("(7*8)/(2*2)"), dec("14"));
}

#[test]
fn precedence_binds_tighter() {
    assert_eq!(eval_value("1+2*3"), dec("7"));
    assert_eq!(eval_value("10-4/2"), dec("8"));
    assert_eq!(eval_value("2*3+4*5"), dec("26"));
}

#[test]
fn division_by_zero() {
    assert_eq!(evaluate_expression("1/0"), Err(Error::DivisionByZero));
}

#[test]
fn modulo_by_zero() {
    assert_eq!(evaluate_expression("1%0"), Err(Error::ModuloByZero));
}

#[test]
fn power_basic() {
    assert_eq!(eval_value("2**3"), dec("8"));
}

#[test]
fn power_left_associative() {
    assert_eq!(eval_value("2**3**2"), dec("64"));
}

#[test]
fn cjk_brackets_interchangeable() {
    assert_eq!(eval_value("\u{FF08}1+2\u{FF09}*3"), dec("9"));
    assert_eq!(eval_value("(1+2)*3"), dec("9"));
    assert_eq!(
        evaluate_expression("\u{FF08}1+2\u{FF09}*3"),
        evaluate_expression("(1+2)*3")
    );
}

#[test]
fn unknown_character_named() {
    assert_eq!(evaluate_expression("3&4"), Err(Error::UnknownCharacter('&')));
}

#[test]
fn malformed_number_two_dots() {
    assert_eq!(evaluate_expression("1.2.3+1"), Err(Error::InvalidNumber));
}

#[test]
fn evaluation_is_idempotent() {
    for expr in ["(2+3)*4", "10/4", "2**3**2", "1/0", "3&4", "2**0.5"] {
        assert_eq!(evaluate_expression(expr), evaluate_expression(expr));
    }
}

#[test]
fn tokenize_round_trip() {
    let first = tokenize("(1+2)*3.5-4/5%6**7").unwrap();
    let rebuilt = "(1+2)*3.5-4/5%6**7".to_string();
    let second = tokenize(&rebuilt).unwrap();
    assert_eq!(first, second);
}

#[test]
fn tokenize_ignores_whitespace() {
    assert_eq!(tokenize(" 1 +\t2 \r\n").unwrap(), tokenize("1+2").unwrap());
}

#[test]
fn whitespace_tolerance() {
    assert_eq!(eval_value(" 1 +  2 "), dec("3"));
    assert_eq!(evaluate_expression(" 1 +  2 "), evaluate_expression("1+2"));
}

#[test]
fn decimal_literals() {
    assert_eq!(eval_value("1.5+2.25"), dec("3.75"));
    assert_eq!(eval_value(".5*2"), dec("1"));
    assert_eq!(eval_value("7.5%2"), dec("1.5"));
}

#[test]
fn unmatched_left_paren_rejected() {
    assert_eq!(evaluate_expression("(1+2"), Err(Error::UnmatchedParentheses));
}

#[test]
fn unmatched_right_paren_tolerated() {
    assert_eq!(eval_value("1+2)"), dec("3"));
}

#[test]
fn empty_and_underflow_are_invalid() {
    assert_eq!(evaluate_expression(""), Err(Error::InvalidExpression));
    assert_eq!(evaluate_expression("   "), Err(Error::InvalidExpression));
    assert_eq!(evaluate_expression("+"), Err(Error::InvalidExpression));
    assert_eq!(evaluate_expression("1+"), Err(Error::InvalidExpression));
}

#[test]
fn whitespace_does_not_split_literals() {
    assert_eq!(eval_value("1 2"), dec("12"));
}

#[test]
fn leftover_operands_return_top() {
    let r = evaluate_postfix(vec![num("1"), num("2")]).unwrap();
    assert_eq!(to_decimal(r), dec("2"));
}

#[test]
fn addition_overflow_reported() {
    assert_eq!(
        evaluate_expression("79228162514264337593543950335+1"),
        Err(Error::Overflow)
    );
}

#[test]
fn power_out_of_range() {
    assert_eq!(evaluate_expression("10**100"), Err(Error::PowerConversionFailed));
}

#[test]
fn tokenize_streams() {
    assert_eq!(
        tokenize("2**3").unwrap(),
        vec![num("2"), Token::Power, num("3")]
    );
    assert_eq!(
        tokenize("(1.5-2)%3").unwrap(),
        vec![
            Token::LeftParen,
            num("1.5"),
            Token::Subtract,
            num("2"),
            Token::RightParen,
            Token::Modulo,
            num("3")
        ]
    );
}

#[test]
fn tokenize_lone_star_is_multiply() {
    assert_eq!(
        tokenize("2*3").unwrap(),
        vec![num("2"), Token::Multiply, num("3")]
    );
}

#[test]
fn postfix_conversion() {
    let toks = tokenize("1+2*3").unwrap();
    assert_eq!(
        infix_to_postfix(toks).unwrap(),
        vec![num("1"), num("2"), num("3"), Token::Multiply, Token::Add]
    );
    let toks = tokenize("2**3**2").unwrap();
    assert_eq!(
        infix_to_postfix(toks).unwrap(),
        vec![num("2"), num("3"), Token::Power, num("2"), Token::Power]
    );
}

#[test]
fn postfix_evaluation() {
    let r = evaluate_postfix(vec![num("1"), num("2"), Token::Add]).unwrap();
    assert_eq!(to_decimal(r), dec("3"));
    assert_eq!(
        evaluate_postfix(vec![num("1"), Token::Add]),
        Err(Error::InvalidExpression)
    );
    assert_eq!(evaluate_postfix(vec![]), Err(Error::InvalidExpression));
}

#[test]
fn precedence_ranks() {
    assert_eq!(Token::Add.precedence(), 1);
    assert_eq!(Token::Subtract.precedence(), 1);
    assert_eq!(Token::Multiply.precedence(), 2);
    assert_eq!(Token::Divide.precedence(), 2);
    assert_eq!(Token::Modulo.precedence(), 2);
    assert_eq!(Token::Power.precedence(), 3);
    assert_eq!(Token::LeftParen.precedence(), 0);
    assert_eq!(num("1").precedence(), 0);
}

#[test]
fn negative_results_from_subtraction() {
    assert_eq!(eval_value("2-5"), dec("-3"));
    assert_eq!(eval_value("(2-5)*2"), dec("-6"));
}
