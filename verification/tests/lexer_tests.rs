use lib::error::LexError;
use lib::lexer::{is_white_space, Lexer, Token, TokenType};

fn scan(src: &str) -> Option<Result<Vec<Token>, LexError>> {
    let mut lexer = Lexer::new(Some(src.to_string()));
    lexer.try_scan_tokens()
}

fn kinds(tokens: &[Token]) -> Vec<TokenType> {
    tokens.iter().map(|t| t.token_type()).collect()
}

fn texts(tokens: &[Token]) -> Vec<String> {
    tokens.iter().map(|t| t.lexeme().to_string()).collect()
}

#[test]
fn single_character_tokens() {
    let tokens = scan("(){}[]-+;*").unwrap().unwrap();
    assert_eq!(
        kinds(&tokens),
        vec![
            TokenType::LeftParen,
            TokenType::RightParen,
            TokenType::LeftBrace,
            TokenType::RightBrace,
            TokenType::LeftBracket,
            TokenType::RightBracket,
            TokenType::Minus,
            TokenType::Plus,
            TokenType::Semicolon,
            TokenType::Star,
            TokenType::Eof,
        ]
    );
    assert_eq!(texts(&tokens)[0], "(");
    assert_eq!(texts(&tokens)[10], "");
}

#[test]
fn one_or_two_character_tokens() {
    let tokens = scan("! != = == < <= > >= /").unwrap().unwrap();
    assert_eq!(
        kinds(&tokens),
        vec![
            TokenType::Bang,
            TokenType::BangEqual,
            TokenType::Equal,
            TokenType::EqualEqual,
            TokenType::Less,
            TokenType::LessEqual,
            TokenType::Greater,
            TokenType::GreaterEqual,
            TokenType::Slash,
            TokenType::Eof,
        ]
    );
    assert_eq!(texts(&tokens)[1], "!=");
    assert_eq!(texts(&tokens)[7], ">=");
}

#[test]
fn empty_source_gives_only_end_of_file() {
    let tokens = scan("").unwrap().unwrap();
    assert_eq!(tokens.len(), 1);
    assert_eq!(tokens[0].token_type(), TokenType::Eof);
    assert_eq!(tokens[0].lexeme(), "");
    assert_eq!(tokens[0].line(), 1);
    let mut none = Lexer::new(None);
    let tokens = none.scan_tokens().unwrap();
    assert_eq!(kinds(&tokens), vec![TokenType::Eof]);
}

#[test]
fn keywords_and_identifiers() {
    let tokens = scan("and class else false for fun if nil or print return super this true var while foo _bar;").unwrap().unwrap();
    assert_eq!(
        kinds(&tokens),
        vec![
            TokenType::And,
            TokenType::Class,
            TokenType::Else,
            TokenType::False,
            TokenType::For,
            TokenType::Fun,
            TokenType::If,
            TokenType::Nil,
            TokenType::Or,
            TokenType::Print,
            TokenType::Return,
            TokenType::Super,
            TokenType::This,
            TokenType::True,
            TokenType::Var,
            TokenType::While,
            TokenType::Identifier,
            TokenType::Identifier,
            TokenType::Semicolon,
            TokenType::Eof,
        ]
    );
    assert_eq!(texts(&tokens)[16], "foo");
    assert_eq!(texts(&tokens)[17], "_bar");
}

#[test]
fn underscore_ends_an_identifier() {
    let tokens = scan("a_b;").unwrap().unwrap();
    assert_eq!(texts(&tokens), vec!["a", "_b", ";", ""]);
}

#[test]
fn numbers_stop_at_a_zero_digit() {
    let tokens = scan("10;").unwrap().unwrap();
    assert_eq!(kinds(&tokens), vec![TokenType::Number, TokenType::Number, TokenType::Semicolon, TokenType::Eof]);
    assert_eq!(texts(&tokens), vec!["1", "0", ";", ""]);
}

#[test]
fn numbers_with_a_fraction() {
    let tokens = scan("12.5;").unwrap().unwrap();
    assert_eq!(texts(&tokens), vec!["12.5", ";", ""]);
    let tokens = scan("3.;").unwrap().unwrap();
    assert_eq!(texts(&tokens), vec!["3.", ";", ""]);
}

#[test]
fn number_at_the_end_is_undefined() {
    assert!(scan("1").is_none());
    assert!(scan("print 12").is_none());
    assert!(scan("1.5").is_none());
}

#[test]
fn identifier_at_the_end_is_undefined() {
    assert!(scan("abc").is_none());
    assert!(scan("nil").is_none());
}

#[test]
fn strings() {
    let tokens = scan("\"hello world\";").unwrap().unwrap();
    assert_eq!(kinds(&tokens), vec![TokenType::String, TokenType::Semicolon, TokenType::Eof]);
    assert_eq!(tokens[0].lexeme(), "hello world");
}

#[test]
fn unterminated_string_is_an_error() {
    assert_eq!(scan("\"abc"), Some(Err(LexError::UnexpectedEOF(1))));
}

#[test]
fn unexpected_character_is_an_error() {
    assert_eq!(scan("#"), Some(Err(LexError::UnexpectedEOF(1))));
    assert_eq!(scan("+ ?"), Some(Err(LexError::UnexpectedEOF(1))));
    assert_eq!(scan("é"), Some(Err(LexError::UnexpectedEOF(1))));
}

#[test]
fn line_comments() {
    let tokens = scan("// note\n;").unwrap().unwrap();
    assert_eq!(kinds(&tokens), vec![TokenType::LineComment, TokenType::Semicolon, TokenType::Eof]);
    assert_eq!(tokens[0].lexeme(), "// note");
    assert_eq!(tokens[0].line(), 1);
    assert_eq!(tokens[1].line(), 2);
}

#[test]
fn block_comments() {
    let tokens = scan("/* a */;").unwrap().unwrap();
    assert_eq!(kinds(&tokens), vec![TokenType::BlockComment, TokenType::Semicolon, TokenType::Eof]);
    assert_eq!(tokens[0].lexeme(), "/* a */");
    // The comment ends at its first star.
    let tokens = scan("/* a * b */;").unwrap().unwrap();
    assert_eq!(texts(&tokens), vec!["/* a *", "b", "*", "/", ";", ""]);
    // An unterminated comment runs to the end.
    let tokens = scan("/* a").unwrap().unwrap();
    assert_eq!(texts(&tokens), vec!["/* a", ""]);
}

#[test]
fn newlines_count_lines() {
    let tokens = scan(";\n;\r\n\t;").unwrap().unwrap();
    let lines: Vec<usize> = tokens.iter().map(|t| t.line()).collect();
    assert_eq!(lines, vec![1, 2, 3, 3]);
}

#[test]
fn non_ascii_after_a_string_is_undefined() {
    // The cursor counts characters but stops at the byte length.
    assert!(scan("\"é\"").is_none());
    assert!(scan("// é").is_none());
}

#[test]
fn numeric_letters_extend_numbers() {
    // `char::is_numeric` holds of other digits than ASCII ones, so the number
    // runs into a two-byte character and its text cannot be cut out.
    assert!(scan("1\u{663};").is_none());
    // `char::is_alphanumeric` holds of accented letters likewise.
    assert!(scan("x\u{e9};").is_none());
    // An ASCII letter ends a number.
    let tokens = scan("1x;").unwrap().unwrap();
    assert_eq!(texts(&tokens), vec!["1", "x", ";", ""]);
}

#[test]
fn scanning_again_continues_from_the_end() {
    let mut lexer = Lexer::new(Some(";".to_string()));
    let first = lexer.scan_tokens().unwrap();
    assert_eq!(kinds(&first), vec![TokenType::Semicolon, TokenType::Eof]);
    let second = lexer.scan_tokens().unwrap();
    assert_eq!(kinds(&second), vec![TokenType::Semicolon, TokenType::Eof, TokenType::Eof]);
}

#[test]
fn scanning_after_an_error_continues_after_it() {
    let mut lexer = Lexer::new(Some("#;".to_string()));
    assert_eq!(lexer.scan_tokens(), Err(LexError::UnexpectedEOF(1)));
    let rest = lexer.scan_tokens().unwrap();
    assert_eq!(kinds(&rest), vec![TokenType::Semicolon, TokenType::Eof]);
}

#[test]
fn tokenize_input_splits_at_whitespace() {
    let lexer = Lexer::new(Some("  a bb\tccc\n\u{3000}d ".to_string()));
    let tokens = lexer.tokenize_input();
    assert_eq!(texts(&tokens), vec!["a", "bb", "ccc", "d"]);
    assert!(tokens.iter().all(|t| t.token_type() == TokenType::Identifier && t.line() == 1));
    let empty = Lexer::new(Some(" \t ".to_string()));
    assert!(empty.tokenize_input().is_empty());
}

#[test]
fn white_space_agrees_with_std() {
    for code in 0u32..0x3100 {
        if let Some(c) = char::from_u32(code) {
            assert_eq!(is_white_space(c), c.is_whitespace(), "{:?}", c);
        }
    }
}

#[test]
fn token_accessors() {
    let t = Token::new(TokenType::Plus, "+".to_string(), 7);
    assert_eq!(t.token_type(), TokenType::Plus);
    assert_eq!(t.lexeme(), "+");
    assert_eq!(t.line(), 7);
}

#[test]
fn token_debug_matches_derived_debug() {
    for t in [
        Token::new(TokenType::Plus, "+".to_string(), 7),
        Token::new(TokenType::String, "a \"q\"\n\té".to_string(), 12345),
        Token::new(TokenType::Eof, String::new(), 0),
    ] {
        assert_eq!(t.debug_string(), format!("{:?}", t));
    }
    assert_eq!(
        Token::new(TokenType::Semicolon, ";".to_string(), 1).debug_string(),
        "Token { token_type: Semicolon, lexeme: \";\", line: 1 }"
    );
}

#[test]
fn token_display_text() {
    let t = Token::new(TokenType::Identifier, "x".to_string(), 1);
    assert_eq!(t.to_display_string(), "Identifier x");
}

#[test]
fn token_type_names_match_debug() {
    for t in [TokenType::LeftParen, TokenType::QuestionMark, TokenType::Colon, TokenType::While, TokenType::Eof] {
        assert_eq!(t.name(), format!("{:?}", t));
    }
}

#[test]
fn ascii_statement_scans() {
    let tokens = scan("var x = 12;").unwrap().unwrap();
    assert_eq!(
        kinds(&tokens),
        vec![
            TokenType::Var,
            TokenType::Identifier,
            TokenType::Equal,
            TokenType::Number,
            TokenType::Semicolon,
            TokenType::Eof
        ]
    );
    assert_eq!(texts(&tokens)[3], "12");
}
