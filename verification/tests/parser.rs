use lox::grammar::{ParseError, ParseErrorKind, Place};
use lox::parser::Parser;
use lox::scanner::{LiteralValue, Scanner, Token, TokenType};
use lox::statement::Stmt;

fn parse(source: &str) -> Result<Vec<Stmt>, Vec<ParseError>> {
    let tokens = Scanner::new(source).scan_tokens().unwrap();
    Parser::new(tokens).parse()
}

fn printed(source: &str) -> Vec<String> {
    parse(source)
        .unwrap()
        .iter()
        .map(|statement| String::from_utf8(statement.to_text()).unwrap())
        .collect()
}

fn errors(source: &str) -> Vec<ParseError> {
    match parse(source) {
        Ok(statements) => panic!("parsed: {:?}", statements),
        Err(errors) => errors,
    }
}

fn missing(token: TokenType, place: Place, line: usize) -> ParseError {
    ParseError { kind: ParseErrorKind::Expected { token, place }, line }
}

#[test]
fn test_addition() {
    let one = Token {
        token_type: TokenType::Number,
        lexeme: b"1".to_vec(),
        literal: Some(LiteralValue::Number(b"1".to_vec())),
        line: 0,
    };
    let plus = Token { token_type: TokenType::Plus, lexeme: b"+".to_vec(), literal: None, line: 0 };
    let two = Token {
        token_type: TokenType::Number,
        lexeme: b"2".to_vec(),
        literal: Some(LiteralValue::Number(b"2".to_vec())),
        line: 0,
    };
    let semicolon =
        Token { token_type: TokenType::Semicolon, lexeme: b";".to_vec(), literal: None, line: 0 };
    let eof = Token { token_type: TokenType::Eof, lexeme: b"".to_vec(), literal: None, line: 0 };

    let tokens = vec![one, plus, two, semicolon, eof];
    let mut parser = Parser::new(tokens);

    let parsed_expr = parser.parse().unwrap();
    let string_expr = String::from_utf8(parsed_expr[0].to_text()).unwrap();

    assert_eq!(string_expr, "(+ 1 2)");
}

#[test]
fn test_comparison() {
    let source = "1 + 1 == 5 + 7;";
    let mut scanner = Scanner::new(source);
    let tokens = scanner.scan_tokens().unwrap();
    let mut parser = Parser::new(tokens);
    let parsed_expr = parser.parse().unwrap();
    let string_expr = String::from_utf8(parsed_expr[0].to_text()).unwrap();

    assert_eq!(string_expr, "(== (+ 1 1) (+ 5 7))");
}

#[test]
fn test_comparison_with_parens() {
    let source = "1 >= (3 + 4);";
    let mut scanner = Scanner::new(source);
    let tokens = scanner.scan_tokens().unwrap();
    let mut parser = Parser::new(tokens);
    let parsed_expr = parser.parse().unwrap();
    let string_expr = String::from_utf8(parsed_expr[0].to_text()).unwrap();

    assert_eq!(string_expr, "(>= 1 (group (+ 3 4)))");
}

#[test]
fn operators_bind_by_precedence_and_to_the_left() {
    assert_eq!(printed("1 + 2 * 3;"), vec!["(+ 1 (* 2 3))"]);
    assert_eq!(printed("1 * 2 + 3;"), vec!["(+ (* 1 2) 3)"]);
    assert_eq!(printed("1 - 2 - 3;"), vec!["(- (- 1 2) 3)"]);
    assert_eq!(printed("8 / 4 / 2;"), vec!["(/ (/ 8 4) 2)"]);
    assert_eq!(printed("1 < 2 == 3 > 4;"), vec!["(== (< 1 2) (> 3 4))"]);
    assert_eq!(printed("1 <= 2 != 3 >= 4;"), vec!["(!= (<= 1 2) (>= 3 4))"]);
    assert_eq!(printed("a or b and c;"), vec!["(or (var a) (and (var b) (var c)))"]);
    assert_eq!(printed("a and b or c;"), vec!["(or (and (var a) (var b)) (var c))"]);
    assert_eq!(printed("a == b and c;"), vec!["(and (== (var a) (var b)) (var c))"]);
    assert_eq!(printed("!-a * -b;"), vec!["(* (! (- (var a))) (- (var b)))"]);
    assert_eq!(printed("-f(1);"), vec!["(- (call (var f) 1))"]);
}

#[test]
fn assignment_binds_to_the_right() {
    assert_eq!(printed("a = b = 1 + 2;"), vec!["(= a (= b (+ 1 2)))"]);
    assert_eq!(printed("a = b or c;"), vec!["(= a (or (var b) (var c)))"]);
}

#[test]
fn constants_are_printed_as_written() {
    assert_eq!(
        printed("1.50; \"two words\"; true; false; nil;"),
        vec!["1.50", "two words", "true", "false", "nil"]
    );
}

#[test]
fn calls_take_arguments_and_chain() {
    assert_eq!(printed("f();"), vec!["(call (var f))"]);
    assert_eq!(printed("f(1, a + 2)(x);"), vec!["(call (call (var f) 1 (+ (var a) 2)) (var x))"]);
    assert_eq!(
        printed("(fun (a, b) { return a; })(1, 2);"),
        vec!["(call (group anon/2) 1 2)"]
    );
    assert_eq!(printed("x = fun () {}();"), vec!["(= x (call anon/0))"]);
}

#[test]
fn statements_of_every_kind() {
    assert_eq!(printed("print 1;"), vec!["(print 1)"]);
    assert_eq!(printed("var a;"), vec!["(var a)"]);
    assert_eq!(printed("var a = 1;"), vec!["(var a)"]);
    assert_eq!(printed("{ print 1; print 2; }"), vec!["(block (print 1)(print 2))"]);
    assert_eq!(printed("{}"), vec!["(block )"]);
    assert_eq!(printed("if (a) print 1;"), vec!["(if (var a) then (print 1))"]);
    assert_eq!(
        printed("if (a) print 1; else print 2;"),
        vec!["(if (var a) then (print 1) else (print 2))"]
    );
    assert_eq!(printed("while (a) a = nil;"), vec!["(while (var a) do (= a nil))"]);
    assert_eq!(printed("return;"), vec!["(-> nil)"]);
    assert_eq!(printed("return 1;"), vec!["(-> 1)"]);
    assert_eq!(
        printed("fun f(a, b) { print a; return b; }"),
        vec!["(fun f [\"a\", \"b\"] [(print (var a)), (-> (var b))])"]
    );
    assert_eq!(printed("fun f() {}"), vec!["(fun f [] [])"]);
}

#[test]
fn an_else_belongs_to_the_nearest_if() {
    assert_eq!(
        printed("if (a) if (b) print 1; else print 2;"),
        vec!["(if (var a) then (if (var b) then (print 1) else (print 2)))"]
    );
}

#[test]
fn a_for_is_the_loop_it_stands_for() {
    assert_eq!(
        printed("for (var i = 0; i < 3; i = i + 1) print i;"),
        vec!["(block (var i)(while (< (var i) 3) do (block (print (var i))(= i (+ (var i) 1)))))"]
    );
    assert_eq!(printed("for (;;) print 1;"), vec!["(while true do (print 1))"]);
    assert_eq!(printed("for (; a;) print 1;"), vec!["(while (var a) do (print 1))"]);
    assert_eq!(
        printed("for (a = 1;; a = 2) print 1;"),
        vec!["(block (= a 1)(while true do (block (print 1)(= a 2))))"]
    );
}

#[test]
fn a_variable_without_a_value_is_given_nil() {
    match &parse("var a;").unwrap()[0] {
        Stmt::Var { name, initializer } => {
            assert_eq!(name.lexeme, b"a");
            assert_eq!(initializer.to_text(), b"nil");
        }
        other => panic!("no declaration: {:?}", other),
    }
}

#[test]
fn an_empty_program_has_no_statements() {
    assert!(parse("").unwrap().is_empty());
    assert!(parse("// nothing\n").unwrap().is_empty());
    assert!(Parser::new(vec![]).parse().unwrap().is_empty());
}

#[test]
fn missing_tokens_are_reported_with_their_place() {
    let s = TokenType::Semicolon;
    let open = TokenType::LeftParen;
    let close = TokenType::RightParen;
    assert_eq!(errors("print 1"), vec![missing(s, Place::Value, 1)]);
    assert_eq!(errors("1 + 2"), vec![missing(s, Place::Value, 1)]);
    assert_eq!(errors("return 1"), vec![missing(s, Place::ReturnValue, 1)]);
    assert_eq!(errors("var a = 1"), vec![missing(s, Place::VariableDeclaration, 1)]);
    assert_eq!(errors("var a"), vec![missing(s, Place::VariableDeclaration, 1)]);
    assert_eq!(errors("var 1;"), vec![missing(TokenType::Identifier, Place::Var, 1)]);
    assert_eq!(errors("(1;"), vec![missing(close, Place::Grouping, 1)]);
    assert_eq!(errors("f(1;"), vec![missing(close, Place::Arguments, 1)]);
    assert_eq!(errors("if a) b;"), vec![missing(open, Place::If, 1)]);
    assert_eq!(errors("if (a b;"), vec![missing(close, Place::IfCondition, 1)]);
    assert_eq!(errors("while a) b;"), vec![missing(open, Place::While, 1)]);
    assert_eq!(errors("while (a b;"), vec![missing(close, Place::WhileCondition, 1)]);
    assert_eq!(errors("for a) b;"), vec![missing(open, Place::For, 1)]);
    assert_eq!(errors("for (;a) b;"), vec![missing(s, Place::LoopCondition, 1)]);
    assert_eq!(errors("for (;;a b;"), vec![missing(close, Place::ForClauses, 1)]);
    assert_eq!(errors("{ print 1;"), vec![missing(TokenType::RightBrace, Place::Block, 1)]);
    assert_eq!(errors("fun (a) {}"), vec![missing(TokenType::Identifier, Place::FunctionKeyword, 1)]);
    assert_eq!(errors("fun f a) {}"), vec![missing(open, Place::FunctionName, 1)]);
    assert_eq!(errors("fun f(a {}"), vec![missing(close, Place::Parameters, 1)]);
    assert_eq!(errors("fun f(a) print 1;"), vec![missing(TokenType::LeftBrace, Place::FunctionHeader, 1)]);
    assert_eq!(errors("fun f(1) {}"), vec![missing(TokenType::Identifier, Place::ParameterList, 1)]);
    assert_eq!(errors("fun f(a,) {}"), vec![missing(TokenType::Identifier, Place::ParameterList, 1)]);
    assert_eq!(errors("x = fun a) {};"), vec![missing(open, Place::Lambda, 1)]);
    assert_eq!(errors("x = fun (a {};"), vec![missing(close, Place::LambdaParameters, 1)]);
    assert_eq!(errors("x = fun (a) 1;"), vec![missing(TokenType::LeftBrace, Place::LambdaDeclaration, 1)]);
}

#[test]
fn other_errors_of_the_parser() {
    let error = |kind, line| ParseError { kind, line };
    assert_eq!(errors("print ;"), vec![error(ParseErrorKind::ExpectedExpression, 1)]);
    assert_eq!(errors("print"), vec![error(ParseErrorKind::ExpectedExpression, 1)]);
    assert_eq!(errors("1 + ;"), vec![error(ParseErrorKind::ExpectedExpression, 1)]);
    assert_eq!(errors("1 = 2;"), vec![error(ParseErrorKind::InvalidAssignmentTarget { line: 1 }, 1)]);
    assert_eq!(errors("(a) = 2;"), vec![error(ParseErrorKind::InvalidAssignmentTarget { line: 1 }, 1)]);
    assert_eq!(
        errors("print 1;\nprint a + b\n\n= 2;"),
        vec![error(ParseErrorKind::InvalidAssignmentTarget { line: 4 }, 2)]
    );
    let literal_without_value = vec![
        Token { token_type: TokenType::Number, lexeme: b"1".to_vec(), literal: None, line: 3 },
        Token { token_type: TokenType::Semicolon, lexeme: b";".to_vec(), literal: None, line: 3 },
        Token { token_type: TokenType::Eof, lexeme: vec![], literal: None, line: 3 },
    ];
    assert_eq!(
        Parser::new(literal_without_value).parse().unwrap_err(),
        vec![error(ParseErrorKind::MissingLiteral, 3)]
    );
}

fn names(count: usize) -> String {
    (0..count).map(|i| format!("p{}", i)).collect::<Vec<String>>().join(", ")
}

#[test]
fn parameters_are_capped_at_255() {
    assert!(parse(&format!("fun f({}) {{}}", names(255))).is_ok());
    assert_eq!(
        errors(&format!("fun f({}) {{}}", names(256))),
        vec![ParseError { kind: ParseErrorKind::TooManyParameters, line: 1 }]
    );
    assert!(parse(&format!("x = fun ({}) {{}};", names(255))).is_ok());
    assert_eq!(
        errors(&format!("x = fun ({}) {{}};", names(256))),
        vec![ParseError { kind: ParseErrorKind::TooManyParameters, line: 1 }]
    );
}

#[test]
fn arguments_are_capped_at_255() {
    assert!(parse(&format!("f({});", names(255))).is_ok());
    assert_eq!(
        errors(&format!("f({});", names(256))),
        vec![ParseError { kind: ParseErrorKind::TooManyArguments, line: 1 }]
    );
}

#[test]
fn parsing_goes_on_after_an_error() {
    let found = errors("print 1\nprint 2;\nvar = 3;\nprint (4;\nx = 5;\nfun () {}");
    assert_eq!(
        found,
        vec![
            missing(TokenType::Semicolon, Place::Value, 1),
            missing(TokenType::Identifier, Place::Var, 3),
            missing(TokenType::RightParen, Place::Grouping, 4),
            missing(TokenType::Identifier, Place::FunctionKeyword, 6),
        ]
    );
}

#[test]
fn after_an_error_parsing_starts_again_at_a_statement() {
    // the first statement is skipped up to its `;`, the second is parsed
    assert_eq!(errors("1 +; print"), vec![
        ParseError { kind: ParseErrorKind::ExpectedExpression, line: 1 },
        ParseError { kind: ParseErrorKind::ExpectedExpression, line: 1 },
    ]);
    // the tokens up to `var` are skipped
    assert_eq!(errors(") ) ) var a = 1; print"), vec![
        ParseError { kind: ParseErrorKind::ExpectedExpression, line: 1 },
        ParseError { kind: ParseErrorKind::ExpectedExpression, line: 1 },
    ]);
}
