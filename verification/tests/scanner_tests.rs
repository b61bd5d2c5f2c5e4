use lox::{Error, Scanner, Token, TokenType};

fn scan(source: &str) -> Result<Vec<Token>, Error> {
    let mut scanner = Scanner::new(source.to_string());
    scanner.scan_tokens()
}

fn kinds(source: &str) -> Vec<String> {
    scan(source)
        .expect("the source scans")
        .iter()
        .map(|t| format!("{:?}", t.kind))
        .collect()
}

#[test]
fn empty_source_is_one_end_token() {
    let tokens = scan("").unwrap();
    assert_eq!(tokens.len(), 1);
    assert!(matches!(tokens[0].kind, TokenType::EOF));
    assert_eq!(tokens[0].line, 1);
}

#[test]
fn punctuation_and_operators() {
    assert_eq!(
        kinds("(){},.-+;*/ ! != = == < <= > >="),
        vec![
            "LeftParen", "RightParen", "LeftBrace", "RightBrace", "Comma", "Dot", "Minus",
            "Plus", "Semicolon", "Star", "Slash", "Bang", "BangEqual", "Equal", "EqualEqual",
            "Less", "LessEqual", "Greater", "GreaterEqual", "EOF",
        ]
    );
}

#[test]
fn number_with_trailing_dot_leaves_the_dot() {
    assert_eq!(
        kinds("12.5 7. .5"),
        vec!["Number(\"12.5\")", "Number(\"7\")", "Dot", "Dot", "Number(\"5\")", "EOF"]
    );
}

#[test]
fn keywords_and_identifiers() {
    assert_eq!(
        kinds("var x_1 = nil; while fortune"),
        vec![
            "Var", "Identifier(\"x_1\")", "Equal", "Nil", "Semicolon", "While",
            "Identifier(\"fortune\")", "EOF",
        ]
    );
}

#[test]
fn strings_may_span_lines() {
    let tokens = scan("\"a\nb\" x").unwrap();
    assert!(matches!(&tokens[0].kind, TokenType::String(s) if s == "a\nb"));
    assert_eq!(tokens[0].line, 2);
    assert_eq!(tokens[1].line, 2);
    assert_eq!(tokens[0].lexeme(), "\"a\nb\"");
}

#[test]
fn comments_run_to_the_end_of_the_line() {
    let tokens = scan("1 // two three\n4").unwrap();
    assert_eq!(tokens.len(), 3);
    assert_eq!(tokens[1].line, 2);
    assert_eq!(tokens[2].line, 2);
}

#[test]
fn end_token_line_counts_newlines() {
    let tokens = scan("\n\n\n").unwrap();
    assert_eq!(tokens.len(), 1);
    assert_eq!(tokens[0].line, 4);
}

#[test]
fn unterminated_string_is_a_scan_error() {
    match scan("\"abc\ndef") {
        Err(Error::Scan(line, msg)) => {
            assert_eq!(line, 2);
            assert_eq!(msg, "Unterminated string.");
        }
        other => panic!("expected a scan error, got {:?}", other),
    }
}

#[test]
fn unknown_character_is_a_scan_error() {
    match scan("var a = 1;\n@") {
        Err(e @ Error::Scan(..)) => {
            assert_eq!(e.line_display(), "[line 2] Error: Unexpected character.");
        }
        other => panic!("expected a scan error, got {:?}", other),
    }
}

/// The lexemes of the tokens before the end token, each with a space after
/// it.
fn respell(tokens: &[Token]) -> String {
    let mut text = String::new();
    for token in &tokens[..tokens.len() - 1] {
        text.push_str(&token.lexeme());
        text.push(' ');
    }
    text
}

#[test]
fn respelled_tokens_scan_to_the_same_kinds() {
    let source = "fun f(a, b) {\n  // sum\n  return a+b*2.50 >= 1 != !true;\n}\nprint \"two\nlines\" / x_1; var nil_ = nil;";
    let tokens = scan(source).unwrap();
    let again = scan(&respell(&tokens)).unwrap();
    let first: Vec<String> = tokens.iter().map(|t| format!("{:?}", t.kind)).collect();
    let second: Vec<String> = again.iter().map(|t| format!("{:?}", t.kind)).collect();
    assert_eq!(first, second);
    assert_eq!(first.len(), 32);
}

#[test]
fn a_lexeme_alone_scans_to_its_kind() {
    let kinds = vec![
        TokenType::LeftParen,
        TokenType::RightParen,
        TokenType::LeftBrace,
        TokenType::RightBrace,
        TokenType::Comma,
        TokenType::Dot,
        TokenType::Minus,
        TokenType::Plus,
        TokenType::Semicolon,
        TokenType::Slash,
        TokenType::Star,
        TokenType::Bang,
        TokenType::BangEqual,
        TokenType::Equal,
        TokenType::EqualEqual,
        TokenType::Greater,
        TokenType::GreaterEqual,
        TokenType::Less,
        TokenType::LessEqual,
        TokenType::And,
        TokenType::Class,
        TokenType::Else,
        TokenType::False,
        TokenType::Fun,
        TokenType::For,
        TokenType::If,
        TokenType::Nil,
        TokenType::Or,
        TokenType::Print,
        TokenType::Return,
        TokenType::Super,
        TokenType::This,
        TokenType::True,
        TokenType::Var,
        TokenType::While,
        TokenType::Identifier("while_1".to_string()),
        TokenType::String("two words".to_string()),
        TokenType::Number("10.25".to_string()),
    ];
    for kind in kinds {
        let token = Token::new(kind, 1);
        let tokens = scan(&token.lexeme()).unwrap();
        assert_eq!(tokens.len(), 2, "{:?}", token.kind);
        assert_eq!(format!("{:?}", tokens[0].kind), format!("{:?}", token.kind));
        assert!(matches!(tokens[1].kind, TokenType::EOF));
    }
}
