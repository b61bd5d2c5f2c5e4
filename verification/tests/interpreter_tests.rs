use lox::interpreter::machine::{NumberOp, Reply};
use lox::interpreter::Request;
use lox::{Error, Interpreter, Parser, Resolver, Scanner};

/// What a run of a program left behind: the lines it printed, and the
/// error it ended with, if any.
struct Outcome {
    printed: Vec<String>,
    error: Option<String>,
}

fn calculate(op: NumberOp, a: f64, b: f64) -> Reply {
    match op {
        NumberOp::Add => Reply::Number((a + b).to_bits()),
        NumberOp::Subtract => Reply::Number((a - b).to_bits()),
        NumberOp::Multiply => Reply::Number((a * b).to_bits()),
        NumberOp::Divide => Reply::Number((a / b).to_bits()),
        NumberOp::Greater => Reply::Truth(a > b),
        NumberOp::GreaterEqual => Reply::Truth(a >= b),
        NumberOp::Less => Reply::Truth(a < b),
        NumberOp::LessEqual => Reply::Truth(a <= b),
        NumberOp::Equal => Reply::Truth(a == b),
        NumberOp::NotEqual => Reply::Truth(a != b),
    }
}

fn run(source: &str) -> Outcome {
    let mut printed = Vec::new();
    let mut scanner = Scanner::new(source.to_string());
    let tokens = match scanner.scan_tokens() {
        Ok(tokens) => tokens,
        Err(e) => return Outcome { printed, error: Some(e.line_display()) },
    };
    let mut parser = Parser::new(tokens);
    let statements = match parser.parse() {
        Ok(statements) => statements,
        Err(_) => {
            let first = parser.errors()[0].line_display();
            return Outcome { printed, error: Some(first) };
        }
    };
    let mut resolver = Resolver::new();
    resolver.resolve(&statements);
    let (depths, errors) = resolver.finish();
    if let Some(e) = errors.first() {
        return Outcome { printed, error: Some(e.line_display()) };
    }
    let mut interp = Interpreter::new();
    interp.install(depths);
    interp.interpret(&statements);
    let mut reply = Reply::Nothing;
    let mut steps = 0;
    loop {
        steps += 1;
        assert!(steps < 100_000, "the program does not end");
        let request = interp.run(reply, 1000);
        reply = Reply::Nothing;
        match request {
            Request::Continue => {}
            Request::Finished => return Outcome { printed, error: None },
            Request::Failed(e) => return Outcome { printed, error: Some(e.line_display()) },
            Request::Print(text) => printed.push(text),
            Request::PrintNumber(bits) => printed.push(format!("{}", f64::from_bits(bits))),
            Request::Number(digits) => {
                reply = Reply::Number(digits.parse::<f64>().unwrap().to_bits())
            }
            Request::Negate(bits) => reply = Reply::Number((-f64::from_bits(bits)).to_bits()),
            Request::Calculate(op, a, b) => {
                reply = calculate(op, f64::from_bits(a), f64::from_bits(b))
            }
            Request::Clock => reply = Reply::Number(1234.0f64.to_bits()),
        }
    }
}

fn prints(source: &str) -> Vec<String> {
    let outcome = run(source);
    assert_eq!(outcome.error, None, "the program is expected to run without error");
    outcome.printed
}

fn fails(source: &str) -> String {
    run(source).error.expect("the program is expected to fail")
}

#[test]
fn prints_a_sum() {
    assert_eq!(prints("print 1 + 2;"), vec!["3"]);
}

#[test]
fn concatenates_strings() {
    assert_eq!(prints("print \"ab\" + \"cd\";"), vec!["abcd"]);
}

#[test]
fn inner_scope_shadows_and_outer_scope_returns() {
    assert_eq!(prints("var a = 1; { var a = 2; print a; } print a;"), vec!["2", "1"]);
}

#[test]
fn while_loop_counts() {
    assert_eq!(
        prints("var i = 0; while (i < 3) { print i; i = i + 1; }"),
        vec!["0", "1", "2"]
    );
}

#[test]
fn recursive_function_computes_fibonacci() {
    assert_eq!(
        prints("fun fib(n) { if (n < 2) return n; return fib(n-1) + fib(n-2); } print fib(7);"),
        vec!["13"]
    );
}

#[test]
fn adding_a_number_and_a_string_is_a_runtime_error() {
    assert_eq!(
        fails("print 1 + \"a\";"),
        "[line 1] Error at +: + needs either strings or numbers"
    );
}

#[test]
fn reading_a_local_in_its_own_initializer_is_a_resolve_error() {
    assert_eq!(
        fails("{ var a = a; }"),
        "[line 1] Error at a: Can't read local variable in its own initializer"
    );
}

#[test]
fn a_global_may_be_read_in_its_own_initializer_by_the_resolver() {
    assert_eq!(fails("var a = a;"), "[line 1] Error at a: undefined variable 'a'");
}

#[test]
fn for_loop_is_a_while_loop() {
    assert_eq!(
        prints("for (var i = 0; i < 3; i = i + 1) print i;"),
        vec!["0", "1", "2"]
    );
}

#[test]
fn for_loop_without_clauses_runs_until_return() {
    assert_eq!(
        prints("fun f() { var n = 0; for (;;) { n = n + 1; if (n == 4) return n; } } print f();"),
        vec!["4"]
    );
}

#[test]
fn and_short_circuits_on_a_falsy_left_operand() {
    assert_eq!(
        prints("fun loud() { print \"evaluated\"; return true; } print false and loud(); print nil and loud();"),
        vec!["false", "nil"]
    );
}

#[test]
fn and_evaluates_the_right_operand_after_a_truthy_left() {
    assert_eq!(
        prints("fun loud() { print \"evaluated\"; return 7; } print 1 and loud();"),
        vec!["evaluated", "7"]
    );
}

#[test]
fn or_short_circuits_on_a_truthy_left_operand() {
    assert_eq!(
        prints("fun loud() { print \"evaluated\"; return true; } print 1 or loud(); print nil or loud();"),
        vec!["1", "evaluated", "true"]
    );
}

#[test]
fn double_negation_tells_truthiness() {
    assert_eq!(
        prints("print !!nil; print !!false; print !!true; print !!0; print !!\"\"; print !!\"a\";"),
        vec!["false", "false", "true", "true", "true", "true"]
    );
}

#[test]
fn arithmetic_follows_precedence() {
    assert_eq!(
        prints("print 1 + 2 * 3; print (1 + 2) * 3; print 10 - 4 - 3; print 8 / 2 / 2; print -2 * 3;"),
        vec!["7", "9", "3", "2", "-6"]
    );
}

#[test]
fn division_by_zero_follows_the_number_format() {
    assert_eq!(prints("print 1 / 0; print -1 / 0;"), vec!["inf", "-inf"]);
}

#[test]
fn comparisons_give_booleans() {
    assert_eq!(
        prints("print 1 < 2; print 2 <= 2; print 1 > 2; print 2 >= 3; print 1 == 1; print 1 != 1;"),
        vec!["true", "true", "false", "false", "true", "false"]
    );
}

#[test]
fn equality_across_types() {
    assert_eq!(
        prints("print nil == nil; print nil == false; print \"a\" == \"a\"; print \"a\" == \"b\"; print 1 == \"1\"; print true != false;"),
        vec!["true", "false", "true", "false", "false", "true"]
    );
}

#[test]
fn functions_never_compare_equal() {
    assert_eq!(prints("fun f() {} print f == f; print f != f;"), vec!["false", "true"]);
}

#[test]
fn a_function_without_return_gives_nil() {
    assert_eq!(prints("fun f() { 1; } print f();"), vec!["nil"]);
}

#[test]
fn a_function_prints_as_its_name() {
    assert_eq!(prints("fun f() {} print f; print clock;"), vec!["<fn f>", "<fn clock>"]);
}

#[test]
fn clock_is_a_builtin_without_arguments() {
    assert_eq!(prints("print clock();"), vec!["1234"]);
}

#[test]
fn arguments_are_evaluated_left_to_right() {
    assert_eq!(
        prints("fun say(x) { print x; return x; } fun pair(a, b) { return a + b; } print pair(say(1), say(2));"),
        vec!["1", "2", "3"]
    );
}

#[test]
fn return_leaves_nested_blocks_and_loops() {
    assert_eq!(
        prints("fun f() { var i = 0; while (true) { { i = i + 1; if (i == 3) { return i; } } } } print f(); var g = 5; { var h = 6; print g + h; }"),
        vec!["3", "11"]
    );
}

#[test]
fn assignment_gives_the_assigned_value() {
    assert_eq!(prints("var a; var b; a = b = 3; print a; print b; print a = 4;"), vec!["3", "3", "4"]);
}

#[test]
fn variable_without_initializer_is_nil() {
    assert_eq!(prints("var a; print a;"), vec!["nil"]);
}

#[test]
fn negating_a_string_is_a_runtime_error() {
    assert_eq!(
        fails("print -\"a\";"),
        "[line 1] Error at -: unary minus only applicable to numbers"
    );
}

#[test]
fn subtracting_strings_is_a_runtime_error() {
    assert_eq!(
        fails("print \"a\" - \"b\";"),
        "[line 1] Error at -: operands must be two numbers"
    );
}

#[test]
fn comparing_a_number_with_nil_is_a_runtime_error() {
    assert_eq!(fails("print 1 < nil;"), "[line 1] Error at <: operands must be two numbers");
}

#[test]
fn calling_a_number_is_a_runtime_error() {
    assert_eq!(
        fails("var a = 1;\na();"),
        "[line 2] Error at ): can only call functions and classes"
    );
}

#[test]
fn wrong_argument_count_is_a_runtime_error() {
    assert_eq!(
        fails("fun f(a, b) {} f(1);"),
        "[line 1] Error at ): Expected 2 arguments but got 1."
    );
}

#[test]
fn undefined_variable_is_a_runtime_error() {
    assert_eq!(fails("print missing;"), "[line 1] Error at missing: undefined variable 'missing'");
}

#[test]
fn assigning_to_an_undefined_variable_is_a_runtime_error() {
    assert_eq!(fails("missing = 1;"), "[line 1] Error at missing: undefined variable 'missing'");
}

#[test]
fn return_at_top_level_is_a_runtime_error() {
    assert_eq!(
        fails("return 1;"),
        "[line 1] Error at return: can't return from top-level code"
    );
}

#[test]
fn a_runtime_error_keeps_what_was_printed_before() {
    let outcome = run("print 1; print 2 + nil; print 3;");
    assert_eq!(outcome.printed, vec!["1"]);
    assert!(outcome.error.is_some());
}

#[test]
fn a_local_function_called_from_a_deeper_block_misses_its_captured_name() {
    // Calls run in a scope over the scopes of the caller, so the depth that
    // was resolved where `g` stands does not lead to `x` from a deeper block.
    assert_eq!(
        fails("{ var x = 1; fun g() { print x; } { var y = 2; g(); } }"),
        "[line 1] Error at x: undefined variable 'x'"
    );
}

#[test]
fn a_local_function_called_at_its_own_depth_finds_its_captured_name() {
    assert_eq!(prints("{ var x = 1; fun g() { print x; } g(); }"), vec!["1"]);
}

#[test]
fn the_budget_bounds_a_run_without_ending_it() {
    let mut scanner = Scanner::new("var i = 0; while (i < 50) i = i + 1; print i;".to_string());
    let tokens = scanner.scan_tokens().unwrap();
    let mut parser = Parser::new(tokens);
    let statements = parser.parse().unwrap();
    let mut interp = Interpreter::new();
    interp.interpret(&statements);
    assert!(matches!(interp.run(Reply::Nothing, 0), Request::Continue));
    assert!(matches!(interp.run(Reply::Nothing, 2), Request::Continue));
    // the third step evaluates the literal `0` and asks the host for its number
    assert!(matches!(interp.run(Reply::Nothing, 5), Request::Number(d) if d == "0"));
}

#[test]
fn interpret_drops_what_ran_before_and_keeps_the_globals() {
    let mut scanner = Scanner::new("var a = \"kept\"; { var b = a; print b + 1; }".to_string());
    let first = Parser::new(scanner.scan_tokens().unwrap()).parse().unwrap();
    let mut scanner = Scanner::new("print a; print b;".to_string());
    let second = Parser::new(scanner.scan_tokens().unwrap()).parse().unwrap();
    let mut interp = Interpreter::new();
    interp.interpret(&first);
    let mut reply = Reply::Nothing;
    let failed = loop {
        let request = interp.run(reply, 100);
        reply = Reply::Nothing;
        match request {
            Request::Number(d) => reply = Reply::Number(d.parse::<f64>().unwrap().to_bits()),
            Request::Failed(e) => break e,
            Request::Continue => {}
            other => panic!("unexpected request {:?}", other),
        }
    };
    assert!(matches!(failed, Error::Runtime(..)));
    interp.interpret(&second);
    let mut printed = Vec::new();
    let failed = loop {
        match interp.run(Reply::Nothing, 100) {
            Request::Print(text) => printed.push(text),
            Request::Failed(e) => break e,
            Request::Continue => {}
            other => panic!("unexpected request {:?}", other),
        }
    };
    assert_eq!(printed, vec!["kept"]);
    assert_eq!(failed.line_display(), "[line 1] Error at b: undefined variable 'b'");
}

#[test]
fn a_name_without_a_recorded_depth_is_read_in_the_global_scope() {
    assert_eq!(
        prints("var a = \"global\"; { fun show() { print a; } show(); var a = \"block\"; show(); }"),
        vec!["global", "global"]
    );
}

#[test]
fn a_name_without_a_recorded_depth_is_written_in_the_global_scope() {
    assert_eq!(
        prints("var a = 1; { fun set() { a = 2; } var a = 3; set(); print a; } print a;"),
        vec!["3", "2"]
    );
}

#[test]
fn a_name_without_a_recorded_depth_is_not_found_in_a_scope_of_the_caller() {
    assert_eq!(
        fails("fun show() { print hidden; } { var hidden = 1; show(); }"),
        "[line 1] Error at hidden: undefined variable 'hidden'"
    );
    assert_eq!(
        fails("fun set() { hidden = 2; } { var hidden = 1; set(); }"),
        "[line 1] Error at hidden: undefined variable 'hidden'"
    );
}

#[test]
fn an_assignment_never_declares_a_variable() {
    // The depth that was resolved where `g` stands leads to the scope of `y`
    // when `g` is called from the deeper block; that scope does not bind `x`.
    let outcome = run("{ var x = 1; fun g() { x = 5; } { var y = 2; g(); } }");
    assert_eq!(
        outcome.error,
        Some("[line 1] Error at x: undefined variable 'x'".to_string())
    );
}
