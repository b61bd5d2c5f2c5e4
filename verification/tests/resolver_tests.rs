use lox::stmt::Stmt;
use lox::{Interpreter, Parser, Resolver, Scanner};
use std::collections::HashMap;

fn parse(source: &str) -> Vec<Stmt> {
    let tokens = Scanner::new(source.to_string()).scan_tokens().expect("the source scans");
    Parser::new(tokens).parse().expect("the source parses")
}

/// The depths recorded for a source, by the place of the name among the
/// tokens, and the messages of the errors found.
fn resolve(source: &str) -> (Vec<(usize, usize)>, Vec<String>) {
    let statements = parse(source);
    let mut resolver = Resolver::new();
    resolver.resolve(&statements);
    let found = resolver.has_errors();
    let (depths, errors) = resolver.finish();
    assert_eq!(found, !errors.is_empty());
    let mut list: Vec<(usize, usize)> = depths.into_iter().collect();
    list.sort();
    (list, errors.iter().map(|e| e.line_display()).collect())
}

#[test]
fn globals_are_not_recorded() {
    //           0   1 2 3 4     5 6
    let (depths, errors) = resolve("var a = 1; print a;");
    assert!(depths.is_empty());
    assert!(errors.is_empty());
}

#[test]
fn a_local_is_found_in_its_own_scope() {
    //                              0 1   2 3 4 5 6     7 8 9
    let (depths, errors) = resolve("{ var a = 1 ; print a ; }");
    assert_eq!(depths, vec![(7, 0)]);
    assert!(errors.is_empty());
}

#[test]
fn depth_counts_the_scopes_between_use_and_declaration() {
    //                              0 1   2 3 4 5 6 7 8 9     10 11 12 13 14
    let (depths, _) = resolve("{ var a = 1 ; { { print a  ;  a  =  2 ; } } }");
    assert_eq!(depths, vec![(9, 2), (11, 2)]);
}

#[test]
fn the_innermost_declaration_wins() {
    //                         0 1   2 3 4 5   6 7 8     9 10 11 12   13 14 15
    let (depths, _) = resolve("{ var a ; { var a ; print a ;  }  print a  ;  }");
    assert_eq!(depths, vec![(9, 0), (13, 0)]);
}

#[test]
fn parameters_live_in_the_scope_of_the_function() {
    //                         0   1 2 3 4 5 6 7 8     9 10 11 12 13 14 15 16
    let (depths, _) = resolve("fun f ( a , b ) { print a +  b  ;  {  a  ;  }  }");
    assert_eq!(depths, vec![(9, 0), (11, 0), (14, 1)]);
}

#[test]
fn a_local_function_may_call_itself() {
    //                              0 1   2 3 4 5 6 7 8 9 10 11 12
    let (depths, errors) = resolve("{ fun f ( ) { f ( ) ; }  f  (  ) ; }");
    assert_eq!(depths, vec![(6, 1), (11, 0)]);
    assert!(errors.is_empty());
}

#[test]
fn reading_a_local_in_its_own_initializer_is_an_error() {
    let (_, errors) = resolve("{ var a = a; }");
    assert_eq!(
        errors,
        vec!["[line 1] Error at a: Can't read local variable in its own initializer"]
    );
}

#[test]
fn an_outer_variable_of_the_same_name_does_not_excuse_it() {
    let (_, errors) = resolve("var a = 1;\n{\n  var a = a + 1;\n}");
    assert_eq!(
        errors,
        vec!["[line 3] Error at a: Can't read local variable in its own initializer"]
    );
}

#[test]
fn every_statement_kind_is_walked() {
    let source = "{ var a; if (a) a; else a; while (a) a; for (;a;) a; return a; print !a; a(a); (a) and a; }";
    let (depths, errors) = resolve(source);
    assert!(errors.is_empty());
    assert_eq!(depths.len(), 13);
    assert!(depths.iter().all(|(_, d)| *d == 0));
}

#[test]
fn resolving_leaves_the_resolver_outside_every_scope() {
    let first = parse("{ var a; }");
    let second = parse("a;");
    let mut resolver = Resolver::new();
    resolver.resolve(&first);
    resolver.resolve(&second);
    let (depths, errors) = resolver.finish();
    assert!(depths.is_empty());
    assert!(errors.is_empty());
}

#[test]
fn an_interpreter_takes_single_depths() {
    let statements = parse("{ var a = \"in\"; { print a; } }");
    let mut interp = Interpreter::new();
    interp.install(HashMap::new());
    interp.resolve(8, 1);
    interp.interpret(&statements);
    let mut printed = Vec::new();
    loop {
        match interp.run(lox::interpreter::machine::Reply::Nothing, 50) {
            lox::interpreter::Request::Print(text) => printed.push(text),
            lox::interpreter::Request::Finished => break,
            lox::interpreter::Request::Continue => {}
            other => panic!("unexpected {:?}", other),
        }
    }
    assert_eq!(printed, vec!["in"]);
}
