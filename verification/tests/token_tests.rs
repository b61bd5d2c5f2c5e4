use lox::errors::{error, report};
use lox::expr::{bool_expression, nil_expression, Expr, Literal};
use lox::text::decimal_string;
use lox::tools::ast_printer::to_string;
use lox::{Error, Token, TokenType};

#[test]
fn reserved_words_are_their_own_kinds() {
    let words = [
        "and", "class", "else", "false", "fun", "for", "if", "nil", "or", "print", "return",
        "super", "this", "true", "var", "while",
    ];
    for word in words {
        let kind = TokenType::new_identifier(word.to_string());
        assert!(!matches!(kind, TokenType::Identifier(_)), "{} is reserved", word);
        assert_eq!(kind.as_str(), word);
    }
    assert!(matches!(TokenType::new_identifier("and".to_string()), TokenType::And));
    assert!(matches!(TokenType::new_identifier("while".to_string()), TokenType::While));
}

#[test]
fn other_words_are_identifiers() {
    for word in ["andy", "An", "_", "classes", "x1"] {
        match TokenType::new_identifier(word.to_string()) {
            TokenType::Identifier(name) => assert_eq!(name, word),
            other => panic!("{} is no reserved word, got {:?}", word, other),
        }
    }
}

#[test]
fn symbols_have_their_spelling() {
    assert_eq!(TokenType::LeftParen.as_str(), "(");
    assert_eq!(TokenType::BangEqual.as_str(), "!=");
    assert_eq!(TokenType::LessEqual.as_str(), "<=");
    assert_eq!(TokenType::GreaterEqual.as_str(), ">=");
    assert_eq!(TokenType::EOF.as_str(), "eof");
}

#[test]
fn lexeme_gives_a_string_its_quotes_back() {
    assert_eq!(Token::new(TokenType::String("a b".to_string()), 1).lexeme(), "\"a b\"");
    assert_eq!(Token::new(TokenType::Number("1.5".to_string()), 1).lexeme(), "1.5");
    assert_eq!(Token::new(TokenType::Identifier("x".to_string()), 1).lexeme(), "x");
    assert_eq!(Token::new(TokenType::Semicolon, 1).lexeme(), ";");
}

#[test]
fn kinds_match_whatever_they_carry() {
    let a = Token::new(TokenType::Identifier("a".to_string()), 1);
    assert!(a.kind_matches(&TokenType::Identifier("b".to_string())));
    assert!(!a.kind_matches(&TokenType::String("a".to_string())));
    assert!(a.is_identifier());
    let plus = Token::new(TokenType::Plus, 2);
    assert!(plus.kind_matches(&TokenType::Plus));
    assert!(!plus.kind_matches(&TokenType::Minus));
    assert!(!plus.is_identifier());
    assert!(TokenType::Number("1".to_string()).kind_matches(&TokenType::Number("2".to_string())));
}

#[test]
fn duplicate_keeps_kind_and_line() {
    let token = Token::new(TokenType::String("s".to_string()), 7);
    let copy = token.duplicate();
    assert_eq!(copy.line, 7);
    assert!(matches!(copy.kind, TokenType::String(s) if s == "s"));
}

#[test]
fn decimal_string_writes_numbers() {
    assert_eq!(decimal_string(0), "0");
    assert_eq!(decimal_string(9), "9");
    assert_eq!(decimal_string(10), "10");
    assert_eq!(decimal_string(1234567890), "1234567890");
    assert_eq!(decimal_string(usize::MAX), usize::MAX.to_string());
}

#[test]
fn report_builds_a_diagnostic_line() {
    assert_eq!(report(3, " at end", "oops"), "[line 3] Error at end: oops");
    assert_eq!(error(12, "Unexpected character."), "[line 12] Error: Unexpected character.");
}

#[test]
fn each_error_has_its_line() {
    let name = Token::new(TokenType::Identifier("x".to_string()), 4);
    let end = Token::new(TokenType::EOF, 9);
    assert_eq!(Error::Scan(2, "bad".to_string()).line_display(), "[line 2] Error: bad");
    assert_eq!(
        Error::Parse(name.duplicate(), "bad".to_string()).line_display(),
        "[line 4] Error at x: bad"
    );
    assert_eq!(
        Error::Parse(end.duplicate(), "bad".to_string()).line_display(),
        "[line 9] Error at end: bad"
    );
    assert_eq!(
        Error::Resolve(name.duplicate(), "bad".to_string()).line_display(),
        "[line 4] Error at x: bad"
    );
    assert_eq!(
        Error::Runtime(end, "bad".to_string()).line_display(),
        "[line 9] Error at end: bad"
    );
    assert_eq!(Error::ParseFailed.line_display(), "parse failed");
    assert!(matches!(Error::Scan(2, "bad".to_string()).duplicate(), Error::Scan(2, m) if m == "bad"));
}

#[test]
fn nil_and_boolean_expressions() {
    assert!(matches!(*nil_expression(), Expr::Literal(Literal::Nil)));
    assert!(matches!(*bool_expression(true), Expr::Literal(Literal::Boolean(true))));
    assert!(matches!(*bool_expression(false), Expr::Literal(Literal::Boolean(false))));
}

#[test]
fn literal_of_a_token() {
    let number = Token::new(TokenType::Number("3.25".to_string()), 1);
    assert!(matches!(Literal::from_token(&number), Some(Literal::Number(d)) if d == "3.25"));
    let text = Token::new(TokenType::String("s".to_string()), 1);
    assert!(matches!(Literal::from_token(&text), Some(Literal::String(s)) if s == "s"));
    assert!(matches!(
        Literal::from_token(&Token::new(TokenType::True, 1)),
        Some(Literal::Boolean(true))
    ));
    assert!(matches!(
        Literal::from_token(&Token::new(TokenType::False, 1)),
        Some(Literal::Boolean(false))
    ));
    assert!(matches!(Literal::from_token(&Token::new(TokenType::Nil, 1)), Some(Literal::Nil)));
    assert!(Literal::from_token(&Token::new(TokenType::Identifier("x".to_string()), 1)).is_none());
    assert!(Literal::from_token(&Token::new(TokenType::Plus, 1)).is_none());
}

#[test]
fn printer_writes_prefix_form() {
    let minus = Token::new(TokenType::Minus, 1);
    let star = Token::new(TokenType::Star, 1);
    let e = Expr::Binary(
        Box::new(Expr::Unary(
            minus,
            Box::new(Expr::Literal(Literal::Number("123".to_string()))),
        )),
        star,
        Box::new(Expr::Grouping(Box::new(Expr::Literal(Literal::Number("45.67".to_string()))))),
    );
    assert_eq!(to_string(&e), "(* (- 123) (group 45.67))");
}

#[test]
fn printer_writes_calls_assignments_and_logic() {
    let f = Expr::Variable(Token::new(TokenType::Identifier("f".to_string()), 1), 0);
    let call = Expr::Call(
        Box::new(f),
        Token::new(TokenType::RightParen, 1),
        vec![
            Box::new(Expr::Literal(Literal::Boolean(false))),
            Box::new(Expr::Literal(Literal::Nil)),
            Box::new(Expr::Literal(Literal::String("s".to_string()))),
        ],
    );
    assert_eq!(to_string(&call), "(call f false nil s)");
    let assign = Expr::Assign(
        Token::new(TokenType::Identifier("a".to_string()), 1),
        Box::new(Expr::Logical(
            Box::new(Expr::Literal(Literal::Boolean(true))),
            Token::new(TokenType::Or, 1),
            Box::new(call),
        )),
        3,
    );
    assert_eq!(to_string(&assign), "(= a (or true (call f false nil s)))");
}
