use lib::error::{ParserError, RuntimeError};
use lib::lexer::{Token, TokenType};

fn semicolon() -> Token {
    Token::new(TokenType::Semicolon, ";".to_string(), 3)
}

#[test]
fn parser_error_lines() {
    let e = ParserError::ExpectedExpression { line: 3, token: semicolon(), msg: "m".to_string() };
    assert_eq!(e.line(), 3);
    assert_eq!(ParserError::FunctionalityNotImplemented("x".to_string()).line(), 0);
    assert_eq!(ParserError::NoPreviousToken { line: 9, msg: String::new() }.line(), 9);
    assert_eq!(ParserError::UnexpectedEOF { line: 4, msg: String::new() }.line(), 4);
    assert_eq!(
        ParserError::InvalidAssignmentTarget { line: 5, token: semicolon(), msg: String::new() }.line(),
        5
    );
}

#[test]
fn parser_error_messages() {
    let e = ParserError::ExpectedExpression { line: 3, token: semicolon(), msg: "Expect expression.".to_string() };
    assert_eq!(
        e.message(),
        "Expected expression at line 3, token Token { token_type: Semicolon, lexeme: \";\", line: 3 }: Expect expression."
    );
    let e = ParserError::InvalidOperand { line: 10, token: semicolon(), msg: "bad".to_string() };
    assert_eq!(e.message(), format!("Invalid operand at line 10, token {:?}: bad", semicolon()));
    let e = ParserError::UnexpectedToken { line: 0, token: semicolon(), msg: "x".to_string() };
    assert_eq!(e.message(), format!("Unexpected token at line 0, token {:?}: x", semicolon()));
    let e = ParserError::InvalidAssignmentTarget { line: 2, token: semicolon(), msg: "y".to_string() };
    assert_eq!(e.message(), format!("Invalid assignment target at line 2, token {:?}: y", semicolon()));
    assert_eq!(
        ParserError::NoPreviousToken { line: 12, msg: "none".to_string() }.message(),
        "No previous token at line 12: none"
    );
    assert_eq!(
        ParserError::UnexpectedEOF { line: 7, msg: "eof".to_string() }.message(),
        "Unexpected end of file at line 7: eof"
    );
    assert_eq!(
        ParserError::FunctionalityNotImplemented("anything".to_string()).message(),
        "Functionality not implemented"
    );
}

#[test]
fn runtime_error_messages() {
    assert_eq!(
        RuntimeError::TypeError { line: 4, msg: "Operand must be a number.".to_string() }.message(),
        "ERROR at line 4: Type error: Operand must be a number."
    );
    assert_eq!(
        RuntimeError::UndefinedVariable { line: 0, name: "x".to_string() }.message(),
        "ERROR at line 0: Undefined variable 'x'"
    );
    assert_eq!(
        RuntimeError::CannotAssignToConstant { line: 1, name: "PI".to_string() }.message(),
        "ERROR at line 1: Cannot assign to constant 'PI'"
    );
    assert_eq!(
        RuntimeError::CannotAssignToNumber { line: 22, name: "3".to_string() }.message(),
        "ERROR at line 22: Cannot assign to number '3'"
    );
    assert_eq!(
        RuntimeError::CannotAssignToFunction { line: 105, name: "f".to_string() }.message(),
        "ERROR at line 105: Cannot assign to function 'f'"
    );
}

#[test]
fn parser_error_messages_name_line_and_end_with_msg() {
    let errors = vec![
        ParserError::ExpectedExpression { line: 31, token: semicolon(), msg: "m1".to_string() },
        ParserError::InvalidOperand { line: 32, token: semicolon(), msg: "m2".to_string() },
        ParserError::NoPreviousToken { line: 33, msg: "m3".to_string() },
        ParserError::UnexpectedToken { line: 34, token: semicolon(), msg: "m4".to_string() },
        ParserError::UnexpectedEOF { line: 35, msg: "m5".to_string() },
        ParserError::InvalidAssignmentTarget { line: 36, token: semicolon(), msg: "m6".to_string() },
    ];
    for (i, e) in errors.iter().enumerate() {
        let m = e.message();
        assert!(m.contains(&format!(" at line {}", e.line())));
        assert!(m.ends_with(&format!(": m{}", i + 1)));
    }
    assert_eq!(
        ParserError::FunctionalityNotImplemented(String::new()).message(),
        "Functionality not implemented"
    );
}
