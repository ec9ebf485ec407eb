use lox::parser::Parser;
use lox::resolver::{Resolution, ResolveError, ResolveErrorKind, Resolver};
use lox::scanner::Scanner;

fn check(source: &str) -> (Resolver, Result<(), ResolveError>) {
    let tokens = Scanner::new(source).scan_tokens().unwrap();
    let statements = Parser::new(tokens).parse().unwrap();
    let mut resolver = Resolver::new();
    let outcome = resolver.resolve_many(&statements);
    (resolver, outcome)
}

fn uses(source: &str) -> Vec<(String, usize, usize)> {
    let (resolver, outcome) = check(source);
    assert_eq!(outcome, Ok(()));
    resolver
        .resolutions()
        .iter()
        .map(|found| (String::from_utf8(found.name.clone()).unwrap(), found.line, found.depth))
        .collect()
}

fn wrong(source: &str) -> ResolveError {
    check(source).1.unwrap_err()
}

#[test]
fn uses_of_global_variables_are_not_noted() {
    assert!(uses("var a = 1; print a; a = 2; fun f() {} f();").is_empty());
    assert!(uses("print undeclared;").is_empty());
}

#[test]
fn uses_of_local_variables_are_noted_with_their_distance() {
    assert_eq!(uses("{ var a = 1; print a; }"), vec![("a".to_string(), 1, 0)]);
    assert_eq!(
        uses("{ var a = 1;\n{ var b = a;\n{ a = b; } } }"),
        vec![("a".to_string(), 2, 1), ("b".to_string(), 3, 1), ("a".to_string(), 3, 2)]
    );
    assert_eq!(
        uses("fun f(x) {\nprint x;\n{ print x; }\nreturn fun (y) { return x + y; };\n}"),
        vec![
            ("x".to_string(), 2, 0),
            ("x".to_string(), 3, 1),
            ("x".to_string(), 4, 1),
            ("y".to_string(), 4, 0)
        ]
    );
}

#[test]
fn the_nearest_declaration_counts() {
    assert_eq!(
        uses("{ var a = 1; { var a = 2; print a; } print a; }"),
        vec![("a".to_string(), 1, 0), ("a".to_string(), 1, 0)]
    );
    assert_eq!(uses("var a = 1; { print a; var a = 2; print a; }"), vec![("a".to_string(), 1, 0)]);
}

#[test]
fn a_function_can_use_its_own_name() {
    assert_eq!(
        uses("{ fun f(n) { return f(n); } }"),
        vec![("f".to_string(), 1, 1), ("n".to_string(), 1, 0)]
    );
}

#[test]
fn a_return_has_to_be_in_a_function() {
    assert_eq!(
        wrong("print 1;\nreturn 1;"),
        ResolveError { kind: ResolveErrorKind::ReturnOutsideFunction, line: 2 }
    );
    assert_eq!(
        wrong("{ if (true) { return; } }"),
        ResolveError { kind: ResolveErrorKind::ReturnOutsideFunction, line: 1 }
    );
    assert_eq!(
        wrong("fun f() { return 1; }\n\nreturn f;"),
        ResolveError { kind: ResolveErrorKind::ReturnOutsideFunction, line: 3 }
    );
    assert_eq!(check("fun f() { while (true) { return 1; } }").1, Ok(()));
    assert_eq!(check("var f = fun () { { return; } };").1, Ok(()));
}

#[test]
fn a_local_variable_cannot_be_read_in_its_own_initializer() {
    assert_eq!(
        wrong("var a = 1;\n{ var a = a; }"),
        ResolveError { kind: ResolveErrorKind::OwnInitializer, line: 2 }
    );
    assert_eq!(
        wrong("{ var a = 1 + (2 * a); }"),
        ResolveError { kind: ResolveErrorKind::OwnInitializer, line: 1 }
    );
    assert_eq!(check("var a = a;").1, Ok(()));
    assert_eq!(check("{ var a = 1; { var b = a; } }").1, Ok(()));
}

#[test]
fn a_name_is_declared_once_in_a_scope() {
    assert_eq!(
        wrong("{ var a = 1;\nvar a = 2; }"),
        ResolveError { kind: ResolveErrorKind::AlreadyDeclared, line: 2 }
    );
    assert_eq!(
        wrong("fun f(a, b,\na) {}"),
        ResolveError { kind: ResolveErrorKind::AlreadyDeclared, line: 2 }
    );
    assert_eq!(
        wrong("fun f(a) { var a = 1; }"),
        ResolveError { kind: ResolveErrorKind::AlreadyDeclared, line: 1 }
    );
    assert_eq!(
        wrong("{ fun f() {} var f; }"),
        ResolveError { kind: ResolveErrorKind::AlreadyDeclared, line: 1 }
    );
    assert_eq!(check("var a = 1; var a = 2; fun a() {}").1, Ok(()));
    assert_eq!(check("{ var a = 1; { var a = 2; } }").1, Ok(()));
}

#[test]
fn the_check_ends_at_the_first_thing_wrong() {
    let (resolver, outcome) = check("{ var a = 1; print a; }\nreturn;\n{ var b = 2; print b; }");
    assert_eq!(outcome, Err(ResolveError { kind: ResolveErrorKind::ReturnOutsideFunction, line: 2 }));
    assert_eq!(
        resolver.resolutions(),
        &vec![Resolution { name: b"a".to_vec(), line: 1, depth: 0 }]
    );
}
