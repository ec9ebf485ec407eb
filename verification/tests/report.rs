use lox::grammar::{ParseError, ParseErrorKind, Place};
use lox::machine::{RuntimeError, RuntimeErrorKind};
use lox::run_string;
use lox::scanner::{ScanError, ScanErrorKind, TokenType};
use lox::Error;

fn text(bytes: Vec<u8>) -> String {
    String::from_utf8(bytes).unwrap()
}

#[test]
fn errors_of_the_lexer_as_text() {
    let stray = ScanError { kind: ScanErrorKind::UnrecognizedChar { byte: b'@' }, line: 12 };
    assert_eq!(text(stray.message()), "Line 12: Unrecognized char: @");
    let open = ScanError { kind: ScanErrorKind::UnterminatedString, line: 1 };
    assert_eq!(text(open.message()), "Line 1: Unterminated string.");
}

#[test]
fn errors_of_the_parser_as_text() {
    let message = |kind| text(ParseError { kind, line: 3 }.message());
    let missing = |token, place| message(ParseErrorKind::Expected { token, place });
    let (open, close, end) = (TokenType::LeftParen, TokenType::RightParen, TokenType::Semicolon);
    let (brace, name) = (TokenType::LeftBrace, TokenType::Identifier);
    assert_eq!(missing(open, Place::For), "Line 3: Expected '(' after 'for'.");
    assert_eq!(missing(end, Place::LoopCondition), "Line 3: Expected ';' after loop condition.");
    assert_eq!(missing(close, Place::ForClauses), "Line 3: Expected ')' after for loop clauses.");
    assert_eq!(missing(open, Place::If), "Line 3: Expected '(' after 'if'.");
    assert_eq!(missing(close, Place::IfCondition), "Line 3: Expected ')' after 'if'.");
    assert_eq!(missing(end, Place::Value), "Line 3: Expected ';' after value.");
    assert_eq!(missing(end, Place::ReturnValue), "Line 3: Expected ';' after return value.");
    assert_eq!(missing(TokenType::RightBrace, Place::Block), "Line 3: Expected '}' after a block.");
    assert_eq!(missing(open, Place::Lambda), "Line 3: Expected '(' after lambda function.");
    assert_eq!(
        missing(close, Place::LambdaParameters),
        "Line 3: Expected ')' after lambda function parameters."
    );
    assert_eq!(
        missing(brace, Place::LambdaDeclaration),
        "Line 3: Expected '{' after lambda function declaration."
    );
    assert_eq!(missing(name, Place::FunctionKeyword), "Line 3: Expected function name.");
    assert_eq!(missing(open, Place::FunctionName), "Line 3: Expected '(' after function name.");
    assert_eq!(missing(close, Place::Parameters), "Line 3: Expected ')' after parameters.");
    assert_eq!(missing(brace, Place::FunctionHeader), "Line 3: Expected '{' before function body.");
    assert_eq!(missing(name, Place::ParameterList), "Line 3: Expected parameter name.");
    assert_eq!(missing(name, Place::Var), "Line 3: Expected variable name.");
    assert_eq!(
        missing(end, Place::VariableDeclaration),
        "Line 3: Expected ';' after variable declaration."
    );
    assert_eq!(missing(open, Place::While), "Line 3: Expected '(' after 'while'.");
    assert_eq!(missing(close, Place::WhileCondition), "Line 3: Expected ')' after while condition.");
    assert_eq!(missing(close, Place::Arguments), "Line 3: Expected ')' after arguments.");
    assert_eq!(missing(close, Place::Grouping), "Line 3: Expected ')'.");
    assert_eq!(message(ParseErrorKind::ExpectedExpression), "Line 3: Expected an expression.");
    assert_eq!(
        message(ParseErrorKind::InvalidAssignmentTarget { line: 5 }),
        "Line 3: Invalid assignment target before '=' on line 5."
    );
    assert_eq!(
        message(ParseErrorKind::TooManyParameters),
        "Line 3: Can't have more than 255 parameters."
    );
    assert_eq!(
        message(ParseErrorKind::TooManyArguments),
        "Line 3: Can't have more than 255 arguments."
    );
    assert_eq!(message(ParseErrorKind::MissingLiteral), "Line 3: Literal without its value.");
}

#[test]
fn errors_at_run_time_as_text() {
    let message = |kind| text(RuntimeError { kind, line: 40 }.message());
    assert_eq!(
        message(RuntimeErrorKind::UndefinedVariable),
        "Line 40: Variable has not been declared."
    );
    assert_eq!(
        message(RuntimeErrorKind::UndefinedAssignment),
        "Line 40: Assignment to a variable that has not been declared."
    );
    assert_eq!(message(RuntimeErrorKind::NotCallable), "Line 40: Only functions can be called.");
    assert_eq!(message(RuntimeErrorKind::WrongArity), "Line 40: Wrong number of arguments.");
    assert_eq!(
        message(RuntimeErrorKind::TypeMismatch),
        "Line 40: Operator is not supported for these operands."
    );
    assert_eq!(message(RuntimeErrorKind::InvalidOperator), "Line 40: Not a valid operator.");
    assert_eq!(message(RuntimeErrorKind::HostFailure), "Line 40: The host gave no number.");
}

#[test]
fn a_report_has_a_line_for_each_error() {
    match run_string("print (1;\nvar = 2;") {
        Err(error) => assert_eq!(
            text(error.message()),
            "Line 1: Expected ')'.\nLine 2: Expected variable name.\n"
        ),
        Ok(_) => panic!("no program"),
    }
    match run_string("a ? b\n\"c") {
        Err(error) => {
            assert!(matches!(error, Error::Scan(_)));
            assert_eq!(
                text(error.message()),
                "Line 1: Unrecognized char: ?\nLine 2: Unterminated string.\n"
            )
        }
        Ok(_) => panic!("no program"),
    }
}

#[test]
fn a_text_that_cannot_be_read_is_not_parsed() {
    match run_string("print 1 @\nprint ;") {
        Err(Error::Scan(errors)) => assert_eq!(
            errors,
            vec![ScanError { kind: ScanErrorKind::UnrecognizedChar { byte: b'@' }, line: 1 }]
        ),
        _ => panic!("the lexer has to fail"),
    }
}
