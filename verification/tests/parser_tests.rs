use lib::ast::{Expression, LiteralValue, Statement};
use lib::error::ParserError;
use lib::lexer::{Lexer, Token, TokenType};
use lib::parser::Parser;

fn tokens(src: &str) -> Vec<Token> {
    Lexer::new(Some(src.to_string())).scan_tokens().unwrap()
}

fn parse(src: &str) -> Option<Result<Vec<Statement>, ParserError>> {
    Parser::new(Some(tokens(src))).try_parse()
}

fn show(src: &str) -> String {
    format!("{:?}", parse(src).unwrap().unwrap())
}

#[test]
fn print_statement() {
    let stmts = parse("print \"hi\";").unwrap().unwrap();
    assert_eq!(stmts.len(), 1);
    match &stmts[0] {
        Statement::Print(Expression::Literal { value: LiteralValue::String(s) }) => assert_eq!(s, "hi"),
        other => panic!("unexpected {:?}", other),
    }
}

#[test]
fn precedence_and_associativity() {
    let stmts = parse("1 + 2 * 3 - 4;").unwrap().unwrap();
    match &stmts[0] {
        Statement::Expr(Expression::Binary { left, operator, right }) => {
            assert_eq!(operator.token_type(), TokenType::Minus);
            assert!(matches!(**right, Expression::Literal { value: LiteralValue::Number(ref n) } if n == "4"));
            match &**left {
                Expression::Binary { left, operator, right } => {
                    assert_eq!(operator.token_type(), TokenType::Plus);
                    assert!(matches!(**left, Expression::Literal { value: LiteralValue::Number(ref n) } if n == "1"));
                    assert!(matches!(**right, Expression::Binary { .. }));
                }
                other => panic!("unexpected {:?}", other),
            }
        }
        other => panic!("unexpected {:?}", other),
    }
}

#[test]
fn comparison_and_equality() {
    let text = show("1 < 2 == 3 >= 4;");
    assert!(text.starts_with("[Expr(Binary { left: Binary { left: Literal { value: Number(\"1\") }, operator: Token { token_type: Less"));
    assert!(text.contains("EqualEqual"));
}

#[test]
fn unary_operators() {
    let stmts = parse("-!true;").unwrap().unwrap();
    match &stmts[0] {
        Statement::Expr(Expression::Unary { operator, right }) => {
            assert_eq!(operator.token_type(), TokenType::Minus);
            assert!(matches!(**right, Expression::Unary { .. }));
        }
        other => panic!("unexpected {:?}", other),
    }
}

#[test]
fn literals_and_variables() {
    let text = show("nil; false; x; 2.5;");
    assert_eq!(
        text,
        "[Expr(Literal { value: Nil }), Expr(Literal { value: Bool(false) }), Expr(Variable(\"x\")), Expr(Literal { value: Number(\"2.5\") })]"
    );
}

#[test]
fn grouping_without_closing_paren_is_accepted() {
    let text = show("(1;");
    assert_eq!(text, "[Expr(Grouped(Literal { value: Number(\"1\") }))]");
    let text = show("(1);");
    assert_eq!(text, "[Expr(Grouped(Literal { value: Number(\"1\") }))]");
}

#[test]
fn empty_block() {
    let stmts = parse("{}").unwrap().unwrap();
    assert!(matches!(&stmts[0], Statement::Block(b) if b.is_empty()));
}

#[test]
fn declaration_in_block_needs_a_name_after_the_current_token() {
    match parse("{ var x = 1; }") {
        Some(Err(ParserError::UnexpectedToken { line, token, msg })) => {
            assert_eq!(line, 1);
            assert_eq!(token.token_type(), TokenType::Var);
            assert_eq!(msg, "Expect variable name.");
        }
        other => panic!("unexpected {:?}", other),
    }
}

#[test]
fn non_declaration_in_block_is_reported_after_recovery() {
    match parse("{ print 1; }") {
        Some(Err(ParserError::UnexpectedToken { token, msg, .. })) => {
            assert_eq!(token.token_type(), TokenType::RightBrace);
            assert_eq!(msg, "Expected 'var' keyword, found }");
        }
        other => panic!("unexpected {:?}", other),
    }
}

#[test]
fn missing_expression() {
    match parse("print;") {
        Some(Err(ParserError::ExpectedExpression { line, token, msg })) => {
            assert_eq!(line, 1);
            assert_eq!(token.token_type(), TokenType::Semicolon);
            assert_eq!(msg, "Expect expression.");
        }
        other => panic!("unexpected {:?}", other),
    }
}

#[test]
fn missing_semicolon() {
    match parse("print 1 1;") {
        Some(Err(ParserError::UnexpectedToken { token, msg, .. })) => {
            assert_eq!(token.lexeme(), "1");
            assert_eq!(msg, "Expect ';' after value.");
        }
        other => panic!("unexpected {:?}", other),
    }
    match parse("1 1;") {
        Some(Err(ParserError::UnexpectedToken { msg, .. })) => {
            assert_eq!(msg, "Expect ';' after expression.")
        }
        other => panic!("unexpected {:?}", other),
    }
}

#[test]
fn empty_input_parses_to_nothing() {
    assert!(parse("").unwrap().unwrap().is_empty());
    assert!(Parser::new(None).try_parse().unwrap().unwrap().is_empty());
    assert!(Parser::new(None).parse().unwrap().is_empty());
}

#[test]
fn open_paren_at_end_is_undefined() {
    // The rule for a parenthesised expression would call itself forever.
    assert!(parse("(").is_none());
}

#[test]
fn tokens_without_end_of_file_are_undefined_where_read_past() {
    // After the last token, the rules read the token before the end again.
    let toks = vec![Token::new(TokenType::Print, "print".to_string(), 1)];
    match Parser::new(Some(toks)).try_parse() {
        Some(Err(ParserError::ExpectedExpression { token, .. })) => {
            assert_eq!(token.token_type(), TokenType::Print)
        }
        other => panic!("unexpected {:?}", other),
    }
    // Looking for the `;` past the last token is undefined.
    let toks = vec![Token::new(TokenType::Number, "1".to_string(), 1)];
    assert!(Parser::new(Some(toks)).try_parse().is_none());
}

#[test]
fn invalid_number_text_is_undefined() {
    let toks = vec![
        Token::new(TokenType::Number, "1x".to_string(), 1),
        Token::new(TokenType::Semicolon, ";".to_string(), 1),
        Token::new(TokenType::Eof, String::new(), 1),
    ];
    assert!(Parser::new(Some(toks)).try_parse().is_none());
    let toks = vec![
        Token::new(TokenType::Number, "1e3".to_string(), 1),
        Token::new(TokenType::Semicolon, ";".to_string(), 1),
        Token::new(TokenType::Eof, String::new(), 1),
    ];
    assert!(Parser::new(Some(toks)).try_parse().unwrap().is_ok());
}

#[test]
fn parser_records_no_errors() {
    let mut p = Parser::new(Some(tokens("print;")));
    let _ = p.parse();
    assert!(p.get_errors().is_empty());
}

#[test]
fn parse_matches_try_parse() {
    let a = format!("{:?}", Parser::new(Some(tokens("print 1 + 2;"))).parse());
    let b = format!("{:?}", Parser::new(Some(tokens("print 1 + 2;"))).try_parse().unwrap());
    assert_eq!(a, b);
}

#[test]
fn errors_name_an_input_token_and_its_line() {
    let toks = tokens("print 1;\nprint 2\n+ ;");
    match Parser::new(Some(toks.clone())).try_parse() {
        Some(Err(ParserError::ExpectedExpression { line, token, .. })) => {
            assert_eq!(line, 3);
            assert_eq!(token.line(), line);
            assert!(toks.contains(&token));
            assert_eq!(token.token_type(), TokenType::Semicolon);
        }
        other => panic!("unexpected {:?}", other),
    }
}

#[test]
fn cloned_statements_are_equal_copies() {
    let stmts = parse("print -(1 + 2) * x; { }").unwrap().unwrap();
    let copies: Vec<Statement> = stmts.iter().map(|s| s.clone()).collect();
    assert_eq!(format!("{:?}", stmts), format!("{:?}", copies));
    match &stmts[0] {
        Statement::Print(e) => assert_eq!(format!("{:?}", e.clone()), format!("{:?}", e)),
        other => panic!("unexpected {:?}", other),
    }
    let nested = Statement::Block(vec![
        Statement::Variable { name: "a".to_string(), initializer: None },
        Statement::Block(vec![Statement::Expr(Expression::Variable("b".to_string()))]),
    ]);
    assert_eq!(format!("{:?}", nested.clone()), format!("{:?}", nested));
}

#[test]
fn repeated_parses_record_no_errors() {
    let mut p = Parser::new(Some(tokens("print 1; print;")));
    assert!(p.parse().is_err());
    let _ = p.parse();
    let _ = p.try_parse();
    assert!(p.get_errors().is_empty());
}

#[test]
fn parsing_is_undefined_only_at_an_open_paren_before_the_end() {
    assert!(parse("(").is_none());
    assert!(parse("print 1 + (").is_none());
    assert!(parse("print (;").unwrap().is_err());
    assert!(parse("print (1;").unwrap().is_ok());
    assert!(parse("print 1 +").unwrap().is_err());
    assert!(parse("{ x ;").unwrap().is_err());
    assert!(parse("x = ;").unwrap().is_err());
}
