use lib::error::{ParserError, RuntimeError};
use lib::interpreter::{
    binary_step, constant_binary_step, constant_unary_step, is_equal, is_truthy, unary_step,
    BinaryStep, ConstantUnaryStep, LoxValue, NumberOp, UnaryStep,
};
use lib::lexer::{Token, TokenType};

type Value = LoxValue<f64>;

fn op(t: TokenType, text: &str) -> Token {
    Token::new(t, text.to_string(), 7)
}

fn type_error(r: RuntimeError) -> (usize, String) {
    match r {
        RuntimeError::TypeError { line, msg } => (line, msg),
        other => panic!("unexpected {:?}", other),
    }
}

#[test]
fn truthiness() {
    assert!(!is_truthy(&Value::Nil));
    assert!(!is_truthy(&Value::Bool(false)));
    assert!(is_truthy(&Value::Bool(true)));
    assert!(is_truthy(&Value::Number(0.0)));
    assert!(is_truthy(&Value::String(String::new())));
}

#[test]
fn equality_of_values() {
    assert_eq!(is_equal(&Value::Nil, &Value::Nil), Some(true));
    assert_eq!(is_equal(&Value::String("a".into()), &Value::String("a".into())), Some(true));
    assert_eq!(is_equal(&Value::String("a".into()), &Value::String("b".into())), Some(false));
    assert_eq!(is_equal(&Value::Bool(true), &Value::Nil), Some(false));
    assert_eq!(is_equal(&Value::Number(1.0), &Value::String("1".into())), Some(false));
    assert_eq!(is_equal(&Value::Number(1.0), &Value::Number(1.0)), None);
}

#[test]
fn plus_adds_numbers_and_joins_strings() {
    let plus = op(TokenType::Plus, "+");
    match binary_step(&plus, &Value::Number(1.5), &Value::Number(2.0)) {
        Ok(BinaryStep::Numbers(NumberOp::Add, a, b)) => assert_eq!((a, b), (1.5, 2.0)),
        other => panic!("unexpected {:?}", other),
    }
    match binary_step(&plus, &Value::String("ab".into()), &Value::String("cd".into())) {
        Ok(BinaryStep::Value(v)) => assert_eq!(v, Value::String("abcd".into())),
        other => panic!("unexpected {:?}", other),
    }
    let (line, msg) = type_error(binary_step(&plus, &Value::Number(1.0), &Value::Nil).unwrap_err());
    assert_eq!(line, 7);
    assert_eq!(msg, "Operands must be two numbers or two strings.");
}

#[test]
fn numeric_operators_need_numbers() {
    let cases = [
        (TokenType::Minus, NumberOp::Subtract),
        (TokenType::Star, NumberOp::Multiply),
        (TokenType::Slash, NumberOp::Divide),
        (TokenType::Greater, NumberOp::Greater),
        (TokenType::GreaterEqual, NumberOp::GreaterEqual),
        (TokenType::Less, NumberOp::Less),
        (TokenType::LessEqual, NumberOp::LessEqual),
    ];
    for (t, expected) in cases {
        let o = op(t, "?");
        match binary_step(&o, &Value::Number(3.0), &Value::Number(4.0)) {
            Ok(BinaryStep::Numbers(got, a, b)) => assert_eq!((got, a, b), (expected, 3.0, 4.0)),
            other => panic!("unexpected {:?}", other),
        }
        let (_, msg) =
            type_error(binary_step(&o, &Value::String("x".into()), &Value::Number(4.0)).unwrap_err());
        assert_eq!(msg, "Operands must be numbers.");
    }
}

#[test]
fn both_equality_operators_test_equality() {
    for t in [TokenType::EqualEqual, TokenType::BangEqual] {
        let o = op(t, "==");
        match binary_step(&o, &Value::Bool(true), &Value::Bool(true)) {
            Ok(BinaryStep::Value(v)) => assert_eq!(v, Value::Bool(true)),
            other => panic!("unexpected {:?}", other),
        }
        match binary_step(&o, &Value::Number(2.0), &Value::Number(2.0)) {
            Ok(BinaryStep::Numbers(NumberOp::Equal, a, b)) => assert_eq!((a, b), (2.0, 2.0)),
            other => panic!("unexpected {:?}", other),
        }
    }
    let (_, msg) =
        type_error(binary_step(&op(TokenType::And, "and"), &Value::Nil, &Value::Nil).unwrap_err());
    assert_eq!(msg, "Unsupported operator.");
}

#[test]
fn unary_steps() {
    match unary_step(&op(TokenType::Minus, "-"), &Value::Number(2.5)) {
        Ok(UnaryStep::Negate(n)) => assert_eq!(n, 2.5),
        other => panic!("unexpected {:?}", other),
    }
    match unary_step(&op(TokenType::Bang, "!"), &Value::Bool(true)) {
        Ok(UnaryStep::Value(v)) => assert_eq!(v, Value::Bool(false)),
        other => panic!("unexpected {:?}", other),
    }
    let cases = [
        (TokenType::Minus, Value::Nil, "Operand must be a number."),
        (TokenType::Bang, Value::Nil, "Operand must be a boolean."),
        (TokenType::Plus, Value::Number(1.0), "Unexpected token."),
    ];
    for (t, v, expected) in cases {
        let (line, msg) = type_error(unary_step(&op(t, "?"), &v).unwrap_err());
        assert_eq!(line, 7);
        assert_eq!(msg, expected);
    }
}

fn invalid_operand(e: ParserError) -> (usize, Token, String) {
    match e {
        ParserError::InvalidOperand { line, token, msg } => (line, token, msg),
        other => panic!("unexpected {:?}", other),
    }
}

#[test]
fn constant_binary_steps() {
    let star = op(TokenType::Star, "*");
    match constant_binary_step(&star, &Value::Number(2.0), &Value::Number(3.0)) {
        Ok(BinaryStep::Numbers(o, a, b)) => assert_eq!((o, a, b), (NumberOp::Multiply, 2.0, 3.0)),
        other => panic!("unexpected {:?}", other),
    }
    let plus = op(TokenType::Plus, "+");
    match constant_binary_step(&plus, &Value::String("x".into()), &Value::String("y".into())) {
        Ok(BinaryStep::Value(v)) => assert_eq!(v, Value::String("xy".into())),
        other => panic!("unexpected {:?}", other),
    }
    let less = op(TokenType::Less, "<");
    let (line, token, msg) = invalid_operand(
        constant_binary_step(&less, &Value::Number(1.0), &Value::Number(2.0)).unwrap_err(),
    );
    assert_eq!((line, token, msg.as_str()), (7, less, "Invalid operand for binary operator"));
    let (_, _, msg) = invalid_operand(
        constant_binary_step(&plus, &Value::Bool(true), &Value::Nil).unwrap_err(),
    );
    assert_eq!(msg, "Invalid operand for binary operator");
}

#[test]
fn constant_unary_steps() {
    match constant_unary_step(&op(TokenType::Minus, "-"), &Value::Number(4.0)) {
        Ok(ConstantUnaryStep::Negate(n)) => assert_eq!(n, 4.0),
        other => panic!("unexpected {:?}", other),
    }
    match constant_unary_step(&op(TokenType::Print, "print"), &Value::String("hi".into())) {
        Ok(ConstantUnaryStep::Print(s)) => assert_eq!(s, "hi"),
        other => panic!("unexpected {:?}", other),
    }
    let cases = [
        (TokenType::Minus, Value::Nil, "Invalid operand for unary operator"),
        (TokenType::Print, Value::Number(1.0), "Invalid operand for print operator"),
        (TokenType::Bang, Value::Bool(true), "Invalid operand for unary operator"),
    ];
    for (t, v, expected) in cases {
        let (line, _, msg) = invalid_operand(constant_unary_step(&op(t, "?"), &v).unwrap_err());
        assert_eq!(line, 7);
        assert_eq!(msg, expected);
    }
}

#[test]
fn equality_is_symmetric_and_kind_strict() {
    let values = [
        Value::Nil,
        Value::Bool(false),
        Value::Bool(true),
        Value::Number(0.0),
        Value::String("0".into()),
        Value::String(String::new()),
    ];
    for a in &values {
        for b in &values {
            assert_eq!(is_equal(a, b), is_equal(b, a));
        }
    }
    assert_eq!(is_equal(&Value::Nil, &Value::Bool(false)), Some(false));
    assert_eq!(is_equal(&Value::Number(0.0), &Value::String("0".into())), Some(false));
}
