use lox::environment::Environment;
use lox::expression::LiteralValue;
use lox::scanner::{Token, TokenType};

fn name(text: &str) -> Token {
    Token {
        token_type: TokenType::Identifier,
        lexeme: text.as_bytes().to_vec(),
        literal: None,
        line: 1,
    }
}

fn number(value: f64) -> LiteralValue {
    LiteralValue::Number(value.to_bits())
}

fn read(environment: &Environment, text: &str) -> Option<f64> {
    match environment.get(&text.as_bytes().to_vec()) {
        Some(LiteralValue::Number(bits)) => Some(f64::from_bits(bits)),
        Some(other) => panic!("no number: {:?}", other),
        None => None,
    }
}

#[test]
fn initialize_environment() {
    let _environment = Environment::new();
}

#[test]
fn a_new_environment_is_the_global_scope_alone() {
    let environment = Environment::new();
    assert_eq!(environment.len(), 1);
    assert_eq!(environment.current(), 0);
    assert_eq!(read(&environment, "x"), None);
}

#[test]
fn what_is_defined_can_be_read() {
    let mut environment = Environment::new();
    environment.define(&name("x"), number(1.0));
    environment.define(&name("y"), number(2.0));
    assert_eq!(read(&environment, "x"), Some(1.0));
    assert_eq!(read(&environment, "y"), Some(2.0));
    assert_eq!(read(&environment, "z"), None);
}

#[test]
fn defining_again_overwrites() {
    let mut environment = Environment::new();
    environment.define(&name("x"), number(1.0));
    environment.define(&name("y"), number(5.0));
    environment.define(&name("x"), number(2.0));
    assert_eq!(read(&environment, "x"), Some(2.0));
    assert_eq!(read(&environment, "y"), Some(5.0));
}

#[test]
fn the_first_binding_on_the_way_out_wins() {
    let mut environment = Environment::new();
    environment.define(&name("x"), number(1.0));
    environment.define(&name("y"), number(10.0));
    let mut inner = Environment::with_enclosing(environment);
    assert_eq!(inner.len(), 2);
    assert_eq!(inner.current(), 1);
    assert_eq!(read(&inner, "x"), Some(1.0));
    inner.define(&name("x"), number(2.0));
    assert_eq!(read(&inner, "x"), Some(2.0));
    assert_eq!(read(&inner, "y"), Some(10.0));
    inner.leave(0);
    assert_eq!(read(&inner, "x"), Some(1.0));
}

#[test]
fn assignment_writes_to_the_innermost_binding_and_makes_none() {
    let mut environment = Environment::new();
    environment.define(&name("x"), number(1.0));
    let mut inner = Environment::with_enclosing(environment);
    assert!(inner.assign(&name("x"), &number(3.0)));
    assert_eq!(read(&inner, "x"), Some(3.0));
    assert!(!inner.assign(&name("y"), &number(4.0)));
    assert_eq!(read(&inner, "y"), None);
    inner.define(&name("x"), number(5.0));
    assert!(inner.assign(&name("x"), &number(6.0)));
    assert_eq!(read(&inner, "x"), Some(6.0));
    inner.leave(0);
    assert_eq!(read(&inner, "x"), Some(3.0));
}

#[test]
fn scopes_with_one_parent_do_not_see_each_other() {
    let mut environment = Environment::new();
    environment.define(&name("shared"), number(0.0));
    environment.enter(0);
    let first = environment.current();
    environment.define(&name("mine"), number(1.0));
    environment.enter(0);
    let second = environment.current();
    assert_ne!(first, second);
    assert_eq!(read(&environment, "mine"), None);
    assert_eq!(read(&environment, "shared"), Some(0.0));
    assert!(environment.rebind(&b"shared".to_vec(), &number(7.0)));
    environment.leave(first);
    assert_eq!(read(&environment, "mine"), Some(1.0));
    assert_eq!(read(&environment, "shared"), Some(7.0));
}
