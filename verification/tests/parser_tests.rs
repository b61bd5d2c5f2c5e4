use lox::expr::{Expr, Literal};
use lox::stmt::Stmt;
use lox::tools::ast_printer::to_string;
use lox::{Error, Parser, Scanner, Token, TokenType};

fn tokens(source: &str) -> Vec<Token> {
    Scanner::new(source.to_string()).scan_tokens().expect("the source scans")
}

fn parse(source: &str) -> Vec<Stmt> {
    let mut parser = Parser::new(tokens(source));
    parser.parse().expect("the source parses")
}

/// The messages of the parse errors of a source.
fn errors(source: &str) -> Vec<String> {
    let mut parser = Parser::new(tokens(source));
    match parser.parse() {
        Err(Error::ParseFailed) => {}
        other => panic!("expected the parse to fail, got {:?}", other),
    }
    assert!(parser.has_errors());
    parser.errors().iter().map(|e| e.line_display()).collect()
}

/// The prefix form of a source that is one expression statement.
fn shape(source: &str) -> String {
    let statements = parse(source);
    assert_eq!(statements.len(), 1);
    match &statements[0] {
        Stmt::Expression(e) => to_string(e),
        other => panic!("expected an expression statement, got {:?}", other),
    }
}

#[test]
fn empty_program_has_no_statement() {
    assert_eq!(parse("").len(), 0);
    let mut parser = Parser::new(Vec::new());
    assert_eq!(parser.parse().unwrap().len(), 0);
    assert!(!parser.has_errors());
}

#[test]
fn a_token_list_without_end_token_is_read_as_if_it_had_one() {
    let list = vec![
        Token::new(TokenType::Print, 3),
        Token::new(TokenType::Number("1".to_string()), 3),
    ];
    let mut parser = Parser::new(list);
    assert!(parser.parse().is_err());
    let messages: Vec<String> = parser.errors().iter().map(|e| e.line_display()).collect();
    assert_eq!(messages, vec!["[line 3] Error at end: Expect ';' after value."]);
}

#[test]
fn factor_binds_tighter_than_term() {
    assert_eq!(shape("1 + 2 * 3;"), "(+ 1 (* 2 3))");
    assert_eq!(shape("1 * 2 + 3;"), "(+ (* 1 2) 3)");
}

#[test]
fn binary_operators_associate_to_the_left() {
    assert_eq!(shape("1 - 2 - 3;"), "(- (- 1 2) 3)");
    assert_eq!(shape("8 / 4 / 2;"), "(/ (/ 8 4) 2)");
    assert_eq!(shape("1 < 2 == 3 > 4;"), "(== (< 1 2) (> 3 4))");
}

#[test]
fn or_binds_looser_than_and() {
    assert_eq!(shape("a or b and c;"), "(or a (and b c))");
    assert_eq!(shape("a and b or c;"), "(or (and a b) c)");
    let statements = parse("a or b;");
    assert!(matches!(&statements[0], Stmt::Expression(e) if matches!(**e, Expr::Logical(..))));
}

#[test]
fn unary_operators_nest() {
    assert_eq!(shape("!-x;"), "(! (- x))");
    assert_eq!(shape("-1 - -2;"), "(- (- 1) (- 2))");
}

#[test]
fn grouping_is_kept() {
    assert_eq!(shape("(1 + 2) * 3;"), "(* (group (+ 1 2)) 3)");
}

#[test]
fn assignment_associates_to_the_right() {
    assert_eq!(shape("a = b = 1;"), "(= a (= b 1))");
}

#[test]
fn calls_chain_and_take_arguments() {
    assert_eq!(shape("f();"), "(call f)");
    assert_eq!(shape("f(1, x)(2);"), "(call (call f 1 x) 2)");
}

#[test]
fn literals_keep_what_was_written() {
    assert_eq!(shape("12.50;"), "12.50");
    assert_eq!(shape("\"hi\";"), "hi");
    assert_eq!(shape("true;"), "true");
    assert_eq!(shape("nil;"), "nil");
}

#[test]
fn a_variable_is_identified_by_the_place_of_its_name() {
    let statements = parse("a; b = a;");
    match &statements[0] {
        Stmt::Expression(e) => assert!(matches!(**e, Expr::Variable(_, 0))),
        other => panic!("unexpected {:?}", other),
    }
    match &statements[1] {
        Stmt::Expression(e) => match &**e {
            Expr::Assign(_, value, 2) => assert!(matches!(**value, Expr::Variable(_, 4))),
            other => panic!("unexpected {:?}", other),
        },
        other => panic!("unexpected {:?}", other),
    }
}

#[test]
fn var_without_initializer_is_nil() {
    let statements = parse("var a; var b = 2;");
    match &statements[0] {
        Stmt::Var(name, init) => {
            assert_eq!(name, "a");
            assert!(matches!(**init, Expr::Literal(Literal::Nil)));
        }
        other => panic!("unexpected {:?}", other),
    }
    match &statements[1] {
        Stmt::Var(name, init) => {
            assert_eq!(name, "b");
            assert_eq!(to_string(init), "2");
        }
        other => panic!("unexpected {:?}", other),
    }
}

#[test]
fn if_without_else_gets_the_empty_statement() {
    let statements = parse("if (a) print 1; if (b) print 2; else print 3;");
    assert!(matches!(&statements[0], Stmt::If(_, t, e)
        if matches!(**t, Stmt::Print(_)) && matches!(**e, Stmt::Empty)));
    assert!(matches!(&statements[1], Stmt::If(_, t, e)
        if matches!(**t, Stmt::Print(_)) && matches!(**e, Stmt::Print(_))));
}

#[test]
fn else_belongs_to_the_nearest_if() {
    let statements = parse("if (a) if (b) print 1; else print 2;");
    match &statements[0] {
        Stmt::If(_, then_branch, else_branch) => {
            assert!(matches!(**else_branch, Stmt::Empty));
            assert!(matches!(&**then_branch, Stmt::If(_, _, e) if matches!(**e, Stmt::Print(_))));
        }
        other => panic!("unexpected {:?}", other),
    }
}

#[test]
fn for_with_all_clauses_becomes_block_and_while() {
    let statements = parse("for (var i = 0; i < 3; i = i + 1) print i;");
    assert_eq!(statements.len(), 1);
    let outer = match &statements[0] {
        Stmt::Block(list) => list,
        other => panic!("unexpected {:?}", other),
    };
    assert_eq!(outer.len(), 2);
    assert!(matches!(&outer[0], Stmt::Var(name, _) if name == "i"));
    let (cond, body) = match &outer[1] {
        Stmt::While(cond, body) => (cond, body),
        other => panic!("unexpected {:?}", other),
    };
    assert_eq!(to_string(cond), "(< i 3)");
    let inner = match &**body {
        Stmt::Block(list) => list,
        other => panic!("unexpected {:?}", other),
    };
    assert_eq!(inner.len(), 2);
    assert!(matches!(&inner[0], Stmt::Print(_)));
    assert!(matches!(&inner[1], Stmt::Expression(e) if to_string(e) == "(= i (+ i 1))"));
}

#[test]
fn for_without_clauses_becomes_while_true() {
    let statements = parse("for (;;) print 1;");
    match &statements[0] {
        Stmt::While(cond, body) => {
            assert!(matches!(**cond, Expr::Literal(Literal::Boolean(true))));
            assert!(matches!(**body, Stmt::Print(_)));
        }
        other => panic!("unexpected {:?}", other),
    }
}

#[test]
fn for_with_expression_initializer_and_no_increment() {
    let statements = parse("for (i = 0; i < 2;) print i;");
    match &statements[0] {
        Stmt::Block(list) => {
            assert!(matches!(&list[0], Stmt::Expression(_)));
            assert!(matches!(&list[1], Stmt::While(_, body) if matches!(**body, Stmt::Print(_))));
        }
        other => panic!("unexpected {:?}", other),
    }
}

#[test]
fn function_declaration_has_name_parameters_and_body() {
    let statements = parse("fun add(a, b) { return a + b; }");
    match &statements[0] {
        Stmt::Function(name, params, body) => {
            assert_eq!(name.lexeme(), "add");
            let names: Vec<String> = params.iter().map(|p| p.lexeme()).collect();
            assert_eq!(names, vec!["a", "b"]);
            assert_eq!(body.len(), 1);
            assert!(matches!(&body[0], Stmt::Return(keyword, e)
                if matches!(keyword.kind, TokenType::Return) && to_string(e) == "(+ a b)"));
        }
        other => panic!("unexpected {:?}", other),
    }
}

#[test]
fn return_without_value_returns_nil() {
    let statements = parse("fun f() { return; }");
    match &statements[0] {
        Stmt::Function(_, params, body) => {
            assert!(params.is_empty());
            assert!(matches!(&body[0], Stmt::Return(_, e)
                if matches!(**e, Expr::Literal(Literal::Nil))));
        }
        other => panic!("unexpected {:?}", other),
    }
}

#[test]
fn blocks_nest() {
    let statements = parse("{ var a; { print a; } }");
    match &statements[0] {
        Stmt::Block(list) => {
            assert_eq!(list.len(), 2);
            assert!(matches!(&list[1], Stmt::Block(inner) if inner.len() == 1));
        }
        other => panic!("unexpected {:?}", other),
    }
}

#[test]
fn missing_semicolon_is_reported_at_the_token_found() {
    assert_eq!(errors("print 1"), vec!["[line 1] Error at end: Expect ';' after value."]);
    assert_eq!(errors("print 1 2;"), vec!["[line 1] Error at 2: Expect ';' after value."]);
}

#[test]
fn missing_expression_is_reported() {
    assert_eq!(errors("print ;"), vec!["[line 1] Error at ;: expect expression, got ;"]);
    assert_eq!(errors("1 +"), vec!["[line 1] Error at end: expect expression, got eof"]);
}

#[test]
fn invalid_assignment_target_is_reported_at_the_equals_sign() {
    assert_eq!(errors("1 = 2;"), vec!["[line 1] Error at =: invalid assignment target"]);
    assert_eq!(errors("(a) = 2;"), vec!["[line 1] Error at =: invalid assignment target"]);
}

#[test]
fn each_rule_names_what_it_misses() {
    assert_eq!(errors("var 1;"), vec!["[line 1] Error at 1: Expect variable name"]);
    assert_eq!(
        errors("var a = 1"),
        vec!["[line 1] Error at end: Expect ';' after variable declaration."]
    );
    assert_eq!(errors("if a) b;"), vec!["[line 1] Error at a: Expect '(' after 'if'."]);
    assert_eq!(errors("if (a b;"), vec!["[line 1] Error at b: Expect ')' after if condition."]);
    assert_eq!(errors("while a) b;"), vec!["[line 1] Error at a: Expect '(' after 'while'."]);
    assert_eq!(
        errors("while (a b;"),
        vec!["[line 1] Error at b: Expect ')' after while condition."]
    );
    assert_eq!(errors("for a;"), vec!["[line 1] Error at a: Expect '(' after 'for'."]);
    assert_eq!(
        errors("for (;a b"),
        vec!["[line 1] Error at b: Expect ';' after loop condition."]
    );
    assert_eq!(
        errors("for (;;a b"),
        vec!["[line 1] Error at b: Expect ')' after for clauses."]
    );
    assert_eq!(errors("{ a;"), vec!["[line 1] Error at end: Expect '}' after block."]);
    assert_eq!(errors("(a;"), vec!["[line 1] Error at ;: Expect ')' after expression."]);
    assert_eq!(errors("f(a;"), vec!["[line 1] Error at ;: Expect ')' after argument list."]);
    assert_eq!(errors("return a"), vec!["[line 1] Error at end: Expect ';' after return value."]);
    assert_eq!(errors("fun (a) {}"), vec!["[line 1] Error at (: Expect function name."]);
    assert_eq!(errors("fun f a) {}"), vec!["[line 1] Error at a: Expect '(' after function name."]);
    assert_eq!(errors("fun f(1) {}"), vec!["[line 1] Error at 1: Expect parameter name."]);
    assert_eq!(errors("fun f(a, 1) {}"), vec!["[line 1] Error at 1: Expect parameter name."]);
    assert_eq!(errors("fun f(a {}"), vec!["[line 1] Error at {: Expect ')' after parameters."]);
    assert_eq!(errors("fun f(a) a;"), vec!["[line 1] Error at a: Expect '{' before function body."]);
}

#[test]
fn parsing_goes_on_after_an_error() {
    assert_eq!(
        errors("print 1 2;\nvar = 3;\nprint 4;\nprint (5;"),
        vec![
            "[line 1] Error at 2: Expect ';' after value.",
            "[line 2] Error at =: Expect variable name",
            "[line 4] Error at ;: Expect ')' after expression.",
        ]
    );
}

#[test]
fn recovery_stops_before_a_keyword_that_starts_a_declaration() {
    // After the error at `)`, the tokens up to `print` are passed over.
    assert_eq!(
        errors(") a b c print 1 2;"),
        vec![
            "[line 1] Error at ): expect expression, got )",
            "[line 1] Error at 2: Expect ';' after value.",
        ]
    );
}

#[test]
fn recovery_passes_over_at_least_one_token() {
    // The error is at `var` itself, with which a declaration may start.
    assert_eq!(
        errors("print var; print 1 1;"),
        vec![
            "[line 1] Error at var: expect expression, got var",
            "[line 1] Error at 1: Expect ';' after value.",
        ]
    );
}

fn call_with(n: usize) -> String {
    let args: Vec<String> = (0..n).map(|i| i.to_string()).collect();
    format!("f({});", args.join(", "))
}

#[test]
fn a_call_takes_255_arguments() {
    let statements = parse(&call_with(255));
    match &statements[0] {
        Stmt::Expression(e) => assert!(matches!(&**e, Expr::Call(_, _, args) if args.len() == 255)),
        other => panic!("unexpected {:?}", other),
    }
}

#[test]
fn a_call_takes_no_more_than_255_arguments() {
    assert_eq!(
        errors(&call_with(256)),
        vec!["[line 1] Error at ,: Can't have more than 255 arguments."]
    );
}

#[test]
fn a_function_takes_no_more_than_255_parameters() {
    let names: Vec<String> = (0..256).map(|i| format!("p{}", i)).collect();
    let source = format!("fun f({}) {{}}", names.join(", "));
    assert_eq!(errors(&source), vec!["[line 1] Error at ,: Can't have more than 255 parameters."]);
    let source = format!("fun f({}) {{}}", names[..255].join(", "));
    assert!(matches!(&parse(&source)[0], Stmt::Function(_, params, _) if params.len() == 255));
}

#[test]
fn parse_twice_adds_nothing() {
    let mut parser = Parser::new(tokens("print 1;"));
    assert_eq!(parser.parse().unwrap().len(), 1);
    assert_eq!(parser.parse().unwrap().len(), 0);
}

#[test]
fn synchronize_goes_on_after_a_semicolon() {
    //                               0 1 2 3 4 5
    let mut parser = Parser::new(tokens("a b ; c d ;"));
    assert_eq!(parser.cursor(), 0);
    parser.synchronize();
    assert_eq!(parser.cursor(), 3);
    parser.synchronize();
    assert_eq!(parser.cursor(), 6);
    assert!(!parser.has_errors());
}

#[test]
fn synchronize_stops_before_a_keyword_but_passes_over_the_one_it_stands_at() {
    //                               0   1 2   3 4     5 6
    let mut parser = Parser::new(tokens("var a var b while c fun"));
    parser.synchronize();
    assert_eq!(parser.cursor(), 2);
    parser.synchronize();
    assert_eq!(parser.cursor(), 4);
    parser.synchronize();
    assert_eq!(parser.cursor(), 6);
    // the end token follows: one step more, and the parser stands at it
    parser.synchronize();
    assert_eq!(parser.cursor(), 7);
    assert_eq!(parser.parse().unwrap().len(), 0);
}

#[test]
fn synchronize_stops_at_the_end() {
    let mut parser = Parser::new(tokens("a b c"));
    parser.synchronize();
    assert_eq!(parser.cursor(), 3);
}
