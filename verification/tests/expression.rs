use lox::callable::LoxCallable;
use lox::expression::{Constant, Expr, LiteralValue};
use lox::scanner::{Token, TokenType};
use std::rc::Rc;

fn number(value: f64) -> LiteralValue {
    LiteralValue::Number(value.to_bits())
}

fn text(value: &str) -> LiteralValue {
    LiteralValue::StringValue(value.as_bytes().to_vec())
}

fn native(name: &str, arity: usize) -> LiteralValue {
    LiteralValue::Callable(LoxCallable::NativeFunction { name: name.as_bytes().to_vec(), arity })
}

#[test]
fn pretty_print_ast() {
    let minus_token =
        Token { token_type: TokenType::Minus, lexeme: b"-".to_vec(), literal: None, line: 0 };
    let onetwothree = Expr::Literal { value: Constant::Number(b"123".to_vec()) };
    let group = Expr::Grouping {
        expression: Rc::new(Expr::Literal { value: Constant::Number(b"45.67".to_vec()) }),
    };
    let multi =
        Token { token_type: TokenType::Star, lexeme: b"*".to_vec(), literal: None, line: 0 };
    let ast = Expr::Binary {
        left: Rc::new(Expr::Unary { operator: minus_token, right: Rc::new(onetwothree) }),
        operator: multi,
        right: Rc::new(group),
    };
    let result = String::from_utf8(ast.to_text()).unwrap();
    assert_eq!(result, "(* (- 123) (group 45.67))")
}

#[test]
fn expr_is_truthy() {
    // Numbers
    let truthy_number1 = number(-1.2);
    let truthy_number2 = number(0.1);
    let truthy_number3 = number(100.1);
    let zero = number(0.0);

    assert!(truthy_number1.is_truthy());
    assert!(truthy_number2.is_truthy());
    assert!(truthy_number3.is_truthy());
    // only `false` and `nil` are falsy
    assert!(zero.is_truthy());

    // Strings
    let truthy_string = text("False");
    let empty_string = text("");

    assert!(truthy_string.is_truthy());
    assert!(empty_string.is_truthy());

    // True, False, Nil
    assert!(LiteralValue::True.is_truthy());
    assert!(!LiteralValue::False.is_truthy());
    assert!(!LiteralValue::Nil.is_truthy());
}

#[test]
fn logical_expr() {
    assert!(true);
    assert!(LiteralValue::from_bool(true).is_truthy());
    assert!(!LiteralValue::from_bool(false).is_truthy());
}

#[test]
fn functions_and_odd_numbers_are_truthy() {
    assert!(native("clock", 0).is_truthy());
    assert!(number(f64::NAN).is_truthy());
    assert!(number(-0.0).is_truthy());
}

#[test]
fn from_bool_gives_the_two_truth_values() {
    assert!(matches!(LiteralValue::from_bool(true), LiteralValue::True));
    assert!(matches!(LiteralValue::from_bool(false), LiteralValue::False));
}

#[test]
fn kinds_of_values_have_names() {
    assert_eq!(number(1.0).to_type(), "Number");
    assert_eq!(text("x").to_type(), "String");
    assert_eq!(LiteralValue::True.to_type(), "Boolean");
    assert_eq!(LiteralValue::False.to_type(), "Boolean");
    assert_eq!(LiteralValue::Nil.to_type(), "nil");
    assert_eq!(native("clock", 0).to_type(), "Callable");
}

#[test]
fn only_functions_are_callable() {
    assert!(number(1.0).as_callable().is_none());
    assert!(text("clock").as_callable().is_none());
    assert!(LiteralValue::Nil.as_callable().is_none());
    let callable = native("clock", 3).as_callable().unwrap();
    assert_eq!(callable.arity(), 3);
    assert_eq!(callable.name(), b"clock".to_vec());
}

#[test]
fn values_of_different_kinds_differ() {
    let values = vec![
        number(0.0),
        text(""),
        text("0"),
        LiteralValue::True,
        LiteralValue::False,
        LiteralValue::Nil,
        native("f", 0),
    ];
    for (i, first) in values.iter().enumerate() {
        for (j, second) in values.iter().enumerate() {
            assert_eq!(first.equals(second), i == j);
        }
    }
}

#[test]
fn numbers_are_equal_as_binary64_numbers_are() {
    assert!(number(1.5).equals(&number(1.5)));
    assert!(!number(1.5).equals(&number(-1.5)));
    assert!(number(0.0).equals(&number(-0.0)));
    assert!(!number(f64::NAN).equals(&number(f64::NAN)));
    assert!(number(f64::INFINITY).equals(&number(f64::INFINITY)));
    assert!(!number(f64::INFINITY).equals(&number(f64::NEG_INFINITY)));
}

#[test]
fn the_equality_operator_is_that_of_the_language() {
    assert!(number(1.0) == number(1.0));
    assert!(number(0.0) == number(-0.0));
    assert!(number(f64::NAN) != number(f64::NAN));
    assert!(text("a") == text("a"));
    assert!(text("a") != text("b"));
    assert!(text("1") != number(1.0));
    assert!(LiteralValue::Nil == LiteralValue::Nil);
    assert!(LiteralValue::Nil != LiteralValue::False);
    assert!(native("f", 1) == native("f", 1));
    assert!(native("f", 1) != native("f", 0));
}

#[test]
fn functions_are_equal_by_name_and_arity() {
    assert!(native("f", 1).equals(&native("f", 1)));
    assert!(!native("f", 1).equals(&native("f", 2)));
    assert!(!native("f", 1).equals(&native("g", 1)));
    let declared = LiteralValue::Callable(LoxCallable::LoxFunction {
        name: b"f".to_vec(),
        parameters: Rc::new(vec![Token {
            token_type: TokenType::Identifier,
            lexeme: b"x".to_vec(),
            literal: None,
            line: 1,
        }]),
        body: Rc::new(vec![]),
        closure: 0,
    });
    assert!(declared.equals(&native("f", 1)));
}

#[test]
fn a_copy_of_a_value_equals_it() {
    for value in [number(2.5), text("abc"), LiteralValue::True, LiteralValue::Nil, native("f", 2)] {
        assert!(value.clone().equals(&value));
    }
}

#[test]
fn constants_come_from_literal_tokens_only() {
    let token = |token_type, literal| Token { token_type, lexeme: vec![], literal, line: 1 };
    assert!(matches!(Constant::from_token(&token(TokenType::True, None)), Some(Constant::True)));
    assert!(matches!(Constant::from_token(&token(TokenType::False, None)), Some(Constant::False)));
    assert!(matches!(Constant::from_token(&token(TokenType::Nil, None)), Some(Constant::Nil)));
    let digits = lox::scanner::LiteralValue::Number(b"1.5".to_vec());
    match Constant::from_token(&token(TokenType::Number, Some(digits))) {
        Some(Constant::Number(digits)) => assert_eq!(digits, b"1.5"),
        other => panic!("no number: {:?}", other),
    }
    let bytes = lox::scanner::LiteralValue::StringValue(b"hi".to_vec());
    match Constant::from_token(&token(TokenType::StringLit, Some(bytes))) {
        Some(Constant::Text(bytes)) => assert_eq!(bytes, b"hi"),
        other => panic!("no string: {:?}", other),
    }
    assert!(Constant::from_token(&token(TokenType::Number, None)).is_none());
    assert!(Constant::from_token(&token(TokenType::StringLit, None)).is_none());
    assert!(Constant::from_token(&token(TokenType::Identifier, None)).is_none());
    assert!(Constant::from_token(&token(TokenType::Plus, None)).is_none());
}
