use lox::environment::Environment;
use lox::expr::Literal;
use lox::interpreter::globals::{clock, install_in};
use lox::interpreter::machine::Reply;
use lox::interpreter::{Interpreter, Request};
use lox::scope::Scope;
use lox::value::{Callable, Dispatch, LoxValue};
use lox::{Error, Token, TokenType};

fn name(text: &str) -> Token {
    Token::new(TokenType::Identifier(text.to_string()), 1)
}

fn number(n: f64) -> LoxValue<'static> {
    LoxValue::Number(n.to_bits())
}

fn as_f64(value: &LoxValue) -> f64 {
    f64::from_bits(value.as_number())
}

#[test]
fn scope_binds_and_rebinds() {
    let mut scope: Scope<u32> = Scope::new();
    assert!(!scope.contains("a"));
    assert_eq!(scope.get("a"), None);
    scope.insert("a".to_string(), 1);
    scope.insert("b".to_string(), 2);
    scope.insert("a".to_string(), 3);
    assert!(scope.contains("a"));
    assert_eq!(scope.get("a"), Some(&3));
    assert_eq!(scope.get("b"), Some(&2));
    assert_eq!(scope.get("c"), None);
}

#[test]
fn a_new_environment_has_the_global_scope() {
    let env = Environment::new();
    assert_eq!(env.depth(), 1);
    assert!(env.get(&name("a")).is_err());
}

#[test]
fn scopes_come_and_go_last_in_first_out() {
    let mut env = Environment::new();
    env.define("a", number(1.0));
    env.push_scope();
    env.define("a", number(2.0));
    env.push_scope();
    assert_eq!(env.depth(), 3);
    assert_eq!(as_f64(&env.get(&name("a")).unwrap()), 2.0);
    env.pop_scope();
    env.pop_scope();
    assert_eq!(env.depth(), 1);
    assert_eq!(as_f64(&env.get(&name("a")).unwrap()), 1.0);
}

#[test]
fn get_walks_from_the_innermost_scope_out() {
    let mut env = Environment::new();
    env.define("g", number(1.0));
    env.push_scope();
    env.define("l", number(2.0));
    assert_eq!(as_f64(&env.get(&name("g")).unwrap()), 1.0);
    assert_eq!(as_f64(&env.get(&name("l")).unwrap()), 2.0);
    match env.get(&name("missing")) {
        Err(e @ Error::Runtime(..)) => {
            assert_eq!(e.line_display(), "[line 1] Error at missing: undefined variable 'missing'")
        }
        other => panic!("unexpected {:?}", other),
    }
}

#[test]
fn define_overwrites_in_the_innermost_scope() {
    let mut env = Environment::new();
    env.define("a", number(1.0));
    env.define("a", number(5.0));
    assert_eq!(as_f64(&env.get(&name("a")).unwrap()), 5.0);
}

#[test]
fn get_at_and_has_at_count_scopes_from_the_innermost() {
    let mut env = Environment::new();
    env.define("a", number(1.0));
    env.push_scope();
    env.define("a", number(2.0));
    env.push_scope();
    env.define("b", number(3.0));
    assert!(env.has_at(0, &name("b")));
    assert!(!env.has_at(0, &name("a")));
    assert!(env.has_at(1, &name("a")));
    assert!(env.has_at(2, &name("a")));
    assert!(!env.has_at(3, &name("a")));
    assert_eq!(as_f64(&env.get_at(1, &name("a")).unwrap()), 2.0);
    assert_eq!(as_f64(&env.get_at(2, &name("a")).unwrap()), 1.0);
    assert_eq!(as_f64(&env.get_at(0, &name("b")).unwrap()), 3.0);
}

#[test]
fn assign_changes_the_innermost_binding() {
    let mut env = Environment::new();
    env.define("a", number(1.0));
    env.push_scope();
    env.define("a", number(2.0));
    env.assign(&name("a"), number(9.0)).unwrap();
    assert_eq!(as_f64(&env.get_at(0, &name("a")).unwrap()), 9.0);
    assert_eq!(as_f64(&env.get_at(1, &name("a")).unwrap()), 1.0);
    assert!(matches!(env.assign(&name("b"), number(0.0)), Err(Error::Runtime(..))));
    assert_eq!(env.depth(), 2);
}

#[test]
fn assign_at_changes_the_binding_in_the_scope_at_that_depth() {
    let mut env = Environment::new();
    env.define("a", number(1.0));
    env.push_scope();
    env.define("a", number(2.0));
    env.define("b", number(3.0));
    env.assign_at(1, &name("a"), number(7.0)).unwrap();
    assert_eq!(as_f64(&env.get_at(1, &name("a")).unwrap()), 7.0);
    assert_eq!(as_f64(&env.get_at(0, &name("a")).unwrap()), 2.0);
    env.assign_at(0, &name("b"), number(8.0)).unwrap();
    assert_eq!(as_f64(&env.get_at(0, &name("b")).unwrap()), 8.0);
    assert!(!env.has_at(1, &name("b")));
    assert_eq!(env.depth(), 2);
}

#[test]
fn truthiness() {
    assert!(!LoxValue::Nil.is_truthy());
    assert!(!LoxValue::Boolean(false).is_truthy());
    assert!(LoxValue::Boolean(true).is_truthy());
    assert!(number(0.0).is_truthy());
    assert!(LoxValue::String(String::new()).is_truthy());
    assert!(clock().is_truthy());
}

#[test]
fn values_know_their_type() {
    assert!(number(1.0).is_number());
    assert!(!LoxValue::Nil.is_number());
    assert_eq!(as_f64(&number(2.5)), 2.5);
    assert!(clock().is_callable());
    assert!(!number(1.0).is_callable());
    assert!(number(1.0).type_matches(&number(2.0)));
    assert!(!number(1.0).type_matches(&LoxValue::Nil));
    assert!(LoxValue::Nil.type_matches(&LoxValue::Nil));
    assert!(clock().type_matches(&clock()));
}

#[test]
fn equality_of_values_that_are_not_both_numbers() {
    let a = LoxValue::String("a".to_string());
    assert_eq!(a.equals(&LoxValue::String("a".to_string())), Some(true));
    assert_eq!(a.equals(&LoxValue::String("b".to_string())), Some(false));
    assert_eq!(LoxValue::Nil.equals(&LoxValue::Nil), Some(true));
    assert_eq!(LoxValue::Nil.equals(&LoxValue::Boolean(false)), Some(false));
    assert_eq!(LoxValue::Boolean(true).equals(&LoxValue::Boolean(true)), Some(true));
    assert_eq!(number(1.0).equals(&a), Some(false));
    assert_eq!(clock().equals(&clock()), Some(false));
    assert_eq!(number(1.0).equals(&number(1.0)), None);
}

#[test]
fn display_of_values_that_are_no_numbers() {
    assert_eq!(LoxValue::Nil.display(), Some("nil".to_string()));
    assert_eq!(LoxValue::Boolean(true).display(), Some("true".to_string()));
    assert_eq!(LoxValue::Boolean(false).display(), Some("false".to_string()));
    assert_eq!(LoxValue::String("s".to_string()).display(), Some("s".to_string()));
    assert_eq!(clock().display(), Some("<fn clock>".to_string()));
    assert_eq!(number(1.0).display(), None);
}

#[test]
fn duplicate_keeps_the_value() {
    let copy = LoxValue::String("s".to_string()).duplicate();
    assert!(matches!(copy, LoxValue::String(s) if s == "s"));
    assert_eq!(as_f64(&number(4.0).duplicate()), 4.0);
    let callable = clock().as_callable().duplicate();
    assert_eq!(callable.name, "clock");
    assert_eq!(callable.arity, 0);
    assert!(matches!(callable.dispatch, Dispatch::Clock));
}

#[test]
fn builtins_are_installed_in_the_innermost_scope() {
    let mut env = Environment::new();
    env.push_scope();
    install_in(&mut env);
    assert!(env.has_at(0, &name("clock")));
    assert!(!env.has_at(1, &name("clock")));
}

#[test]
fn calling_a_callable_starts_the_call() {
    let mut interp = Interpreter::new();
    let callable = Callable::new("clock".to_string(), 0, Dispatch::Clock);
    assert!(matches!(callable.call(&mut interp, Vec::new()), Request::Clock));
    // the reply becomes the value of the call, and with no frame left the run is over
    assert!(matches!(interp.step(Reply::Number(5.0f64.to_bits())), Request::Continue));
    assert!(matches!(interp.step(Reply::Nothing), Request::Finished));
}

#[test]
fn calling_a_declared_function_binds_its_parameters() {
    let source = "fun show(a, b) { print a; print b; }".to_string();
    let tokens = lox::Scanner::new(source).scan_tokens().unwrap();
    let statements = lox::Parser::new(tokens).parse().unwrap();
    let (params, body) = match &statements[0] {
        lox::stmt::Stmt::Function(_, params, body) => (params, body),
        other => panic!("unexpected {:?}", other),
    };
    let callable = Callable::new("show".to_string(), 2, Dispatch::Declared(params, body));
    let mut interp = Interpreter::new();
    // the uses of `a` and `b` stand at the places 9 and 12 among the tokens,
    // in the scope of the call
    interp.resolve(9, 0);
    interp.resolve(12, 0);
    let args = vec![LoxValue::String("first".to_string()), LoxValue::Boolean(false)];
    assert!(matches!(callable.call(&mut interp, args), Request::Continue));
    let mut printed = Vec::new();
    loop {
        match interp.run(Reply::Nothing, 10) {
            Request::Print(text) => printed.push(text),
            Request::Finished => break,
            Request::Continue => {}
            other => panic!("unexpected {:?}", other),
        }
    }
    assert_eq!(printed, vec!["first", "false"]);
}

#[test]
fn value_of_a_literal_that_is_no_number() {
    assert!(matches!(LoxValue::from_literal(&Literal::Nil), Some(LoxValue::Nil)));
    assert!(matches!(
        LoxValue::from_literal(&Literal::Boolean(true)),
        Some(LoxValue::Boolean(true))
    ));
    assert!(matches!(
        LoxValue::from_literal(&Literal::String("s".to_string())),
        Some(LoxValue::String(s)) if s == "s"
    ));
    assert!(LoxValue::from_literal(&Literal::Number("1".to_string())).is_none());
}
