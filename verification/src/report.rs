//! Errors as text: one line for each, which starts with the number of the line in the
//! program that it is about.
use crate::grammar::{ParseError, ParseErrorKind, Place};
use crate::machine::{RuntimeError, RuntimeErrorKind};
use crate::scanner::{ScanError, ScanErrorKind};
use crate::text::{bytes_of, decimal, decimal_digits, join};
use crate::Error;
use vstd::prelude::*;
use vstd::string::*;

verus! {

/// What is missing at a place.
pub open spec fn missing_text(place: Place) -> Seq<u8> {
    match place {
        Place::For => "Expected '(' after 'for'.".spec_bytes(),
        Place::LoopCondition => "Expected ';' after loop condition.".spec_bytes(),
        Place::ForClauses => "Expected ')' after for loop clauses.".spec_bytes(),
        Place::If => "Expected '(' after 'if'.".spec_bytes(),
        Place::IfCondition => "Expected ')' after 'if'.".spec_bytes(),
        Place::Value => "Expected ';' after value.".spec_bytes(),
        Place::ReturnValue => "Expected ';' after return value.".spec_bytes(),
        Place::Block => "Expected '}' after a block.".spec_bytes(),
        Place::Lambda => "Expected '(' after lambda function.".spec_bytes(),
        Place::LambdaParameters => "Expected ')' after lambda function parameters.".spec_bytes(),
        Place::LambdaDeclaration => "Expected '{' after lambda function declaration.".spec_bytes(),
        Place::FunctionKeyword => "Expected function name.".spec_bytes(),
        Place::FunctionName => "Expected '(' after function name.".spec_bytes(),
        Place::Parameters => "Expected ')' after parameters.".spec_bytes(),
        Place::FunctionHeader => "Expected '{' before function body.".spec_bytes(),
        Place::ParameterList => "Expected parameter name.".spec_bytes(),
        Place::Var => "Expected variable name.".spec_bytes(),
        Place::VariableDeclaration => "Expected ';' after variable declaration.".spec_bytes(),
        Place::While => "Expected '(' after 'while'.".spec_bytes(),
        Place::WhileCondition => "Expected ')' after while condition.".spec_bytes(),
        Place::Arguments => "Expected ')' after arguments.".spec_bytes(),
        Place::Grouping => "Expected ')'.".spec_bytes(),
    }
}

/// What is wrong, for each kind of error of the parser.
pub open spec fn parse_kind_text(kind: ParseErrorKind) -> Seq<u8> {
    match kind {
        ParseErrorKind::Expected { token, place } => missing_text(place),
        ParseErrorKind::ExpectedExpression => "Expected an expression.".spec_bytes(),
        ParseErrorKind::InvalidAssignmentTarget { line } => {
            "Invalid assignment target before '=' on line ".spec_bytes() + decimal_digits(
                line as nat,
            ) + ".".spec_bytes()
        },
        ParseErrorKind::TooManyParameters => "Can't have more than 255 parameters.".spec_bytes(),
        ParseErrorKind::TooManyArguments => "Can't have more than 255 arguments.".spec_bytes(),
        ParseErrorKind::MissingLiteral => "Literal without its value.".spec_bytes(),
    }
}

/// What is wrong, for each kind of error at run time.
pub open spec fn runtime_kind_text(kind: RuntimeErrorKind) -> Seq<u8> {
    match kind {
        RuntimeErrorKind::UndefinedVariable => "Variable has not been declared.".spec_bytes(),
        RuntimeErrorKind::UndefinedAssignment => {
            "Assignment to a variable that has not been declared.".spec_bytes()
        },
        RuntimeErrorKind::NotCallable => "Only functions can be called.".spec_bytes(),
        RuntimeErrorKind::WrongArity => "Wrong number of arguments.".spec_bytes(),
        RuntimeErrorKind::TypeMismatch => {
            "Operator is not supported for these operands.".spec_bytes()
        },
        RuntimeErrorKind::InvalidOperator => "Not a valid operator.".spec_bytes(),
        RuntimeErrorKind::HostFailure => "The host gave no number.".spec_bytes(),
    }
}

/// What is wrong, for each kind of error of the lexer.
pub open spec fn scan_kind_text(kind: ScanErrorKind) -> Seq<u8> {
    match kind {
        ScanErrorKind::UnrecognizedChar { byte } => "Unrecognized char: ".spec_bytes().push(byte),
        ScanErrorKind::UnterminatedString => "Unterminated string.".spec_bytes(),
    }
}

/// A line of a report: the number of a line of the program, and what is wrong there.
pub open spec fn located(line: usize, what: Seq<u8>) -> Seq<u8> {
    "Line ".spec_bytes() + decimal_digits(line as nat) + ": ".spec_bytes() + what
}

/// The first `upto` lines of a report, each with a newline at its end.
pub open spec fn lines(messages: Seq<Seq<u8>>, upto: nat) -> Seq<u8>
    decreases upto,
{
    if upto == 0 || upto > messages.len() {
        Seq::empty()
    } else {
        lines(messages, (upto - 1) as nat) + messages[upto - 1] + "\n".spec_bytes()
    }
}

/// The report of why a text is no program.
pub open spec fn error_text(error: Error) -> Seq<u8> {
    match error {
        Error::Scan(errors) => lines(
            Seq::new(errors.len() as nat, |i: int| errors[i].message_text()),
            errors.len() as nat,
        ),
        Error::Parse(errors) => lines(
            Seq::new(errors.len() as nat, |i: int| errors[i].message_text()),
            errors.len() as nat,
        ),
    }
}

fn locate(line: usize, what: &Vec<u8>) -> (text: Vec<u8>)
    ensures
        text@ == located(line, what@),
{
    let start = join(&bytes_of("Line "), &decimal(line));
    let marked = join(&start, &bytes_of(": "));
    join(&marked, what)
}

fn missing(place: Place) -> (text: Vec<u8>)
    ensures
        text@ == missing_text(place),
{
    match place {
        Place::For => bytes_of("Expected '(' after 'for'."),
        Place::LoopCondition => bytes_of("Expected ';' after loop condition."),
        Place::ForClauses => bytes_of("Expected ')' after for loop clauses."),
        Place::If => bytes_of("Expected '(' after 'if'."),
        Place::IfCondition => bytes_of("Expected ')' after 'if'."),
        Place::Value => bytes_of("Expected ';' after value."),
        Place::ReturnValue => bytes_of("Expected ';' after return value."),
        Place::Block => bytes_of("Expected '}' after a block."),
        Place::Lambda => bytes_of("Expected '(' after lambda function."),
        Place::LambdaParameters => bytes_of("Expected ')' after lambda function parameters."),
        Place::LambdaDeclaration => bytes_of("Expected '{' after lambda function declaration."),
        Place::FunctionKeyword => bytes_of("Expected function name."),
        Place::FunctionName => bytes_of("Expected '(' after function name."),
        Place::Parameters => bytes_of("Expected ')' after parameters."),
        Place::FunctionHeader => bytes_of("Expected '{' before function body."),
        Place::ParameterList => bytes_of("Expected parameter name."),
        Place::Var => bytes_of("Expected variable name."),
        Place::VariableDeclaration => bytes_of("Expected ';' after variable declaration."),
        Place::While => bytes_of("Expected '(' after 'while'."),
        Place::WhileCondition => bytes_of("Expected ')' after while condition."),
        Place::Arguments => bytes_of("Expected ')' after arguments."),
        Place::Grouping => bytes_of("Expected ')'."),
    }
}

impl ScanError {
    /// The error as a line of a report.
    pub open spec fn message_text(self) -> Seq<u8> {
        located(self.line, scan_kind_text(self.kind))
    }

    /// The error as a line of a report.
    pub fn message(&self) -> (text: Vec<u8>)
        ensures
            text@ == self.message_text(),
    {
        let what = match self.kind {
            ScanErrorKind::UnrecognizedChar { byte } => {
                let mut what = bytes_of("Unrecognized char: ");
                what.push(byte);
                what
            },
            ScanErrorKind::UnterminatedString => bytes_of("Unterminated string."),
        };
        locate(self.line, &what)
    }
}

impl ParseError {
    /// The error as a line of a report.
    pub open spec fn message_text(self) -> Seq<u8> {
        located(self.line, parse_kind_text(self.kind))
    }

    /// The error as a line of a report.
    pub fn message(&self) -> (text: Vec<u8>)
        ensures
            text@ == self.message_text(),
    {
        let what = match self.kind {
            ParseErrorKind::Expected { token, place } => missing(place),
            ParseErrorKind::ExpectedExpression => bytes_of("Expected an expression."),
            ParseErrorKind::InvalidAssignmentTarget { line } => {
                let start = join(
                    &bytes_of("Invalid assignment target before '=' on line "),
                    &decimal(line),
                );
                join(&start, &bytes_of("."))
            },
            ParseErrorKind::TooManyParameters => bytes_of("Can't have more than 255 parameters."),
            ParseErrorKind::TooManyArguments => bytes_of("Can't have more than 255 arguments."),
            ParseErrorKind::MissingLiteral => bytes_of("Literal without its value."),
        };
        locate(self.line, &what)
    }
}

impl RuntimeError {
    /// The error as a line of a report.
    pub open spec fn message_text(self) -> Seq<u8> {
        located(self.line, runtime_kind_text(self.kind))
    }

    /// The error as a line of a report.
    pub fn message(&self) -> (text: Vec<u8>)
        ensures
            text@ == self.message_text(),
    {
        let what = match self.kind {
            RuntimeErrorKind::UndefinedVariable => bytes_of("Variable has not been declared."),
            RuntimeErrorKind::UndefinedAssignment => bytes_of(
                "Assignment to a variable that has not been declared.",
            ),
            RuntimeErrorKind::NotCallable => bytes_of("Only functions can be called."),
            RuntimeErrorKind::WrongArity => bytes_of("Wrong number of arguments."),
            RuntimeErrorKind::TypeMismatch => bytes_of(
                "Operator is not supported for these operands.",
            ),
            RuntimeErrorKind::InvalidOperator => bytes_of("Not a valid operator."),
            RuntimeErrorKind::HostFailure => bytes_of("The host gave no number."),
        };
        locate(self.line, &what)
    }
}

impl Error {
    /// The report of why a text is no program: a line for each error.
    pub fn message(&self) -> (text: Vec<u8>)
        ensures
            text@ == error_text(*self),
    {
        let mut text: Vec<u8> = Vec::new();
        let newline = bytes_of("\n");
        match self {
            Error::Scan(errors) => {
                let ghost messages = Seq::new(
                    errors.len() as nat,
                    |i: int| errors[i].message_text(),
                );
                let mut i: usize = 0;
                while i < errors.len()
                    invariant
                        i <= errors.len(),
                        newline@ == "\n".spec_bytes(),
                        messages.len() == errors.len(),
                        forall|j: int|
                            0 <= j < errors.len() ==> #[trigger] messages[j]
                                == errors[j].message_text(),
                        text@ == lines(messages, i as nat),
                    decreases errors.len() - i,
                {
                    let line = join(&errors[i].message(), &newline);
                    text = join(&text, &line);
                    i += 1;
                    assert(messages[i - 1] == errors[i - 1].message_text());
                    assert(text@ =~= lines(messages, i as nat));
                }
            },
            Error::Parse(errors) => {
                let ghost messages = Seq::new(
                    errors.len() as nat,
                    |i: int| errors[i].message_text(),
                );
                let mut i: usize = 0;
                while i < errors.len()
                    invariant
                        i <= errors.len(),
                        newline@ == "\n".spec_bytes(),
                        messages.len() == errors.len(),
                        forall|j: int|
                            0 <= j < errors.len() ==> #[trigger] messages[j]
                                == errors[j].message_text(),
                        text@ == lines(messages, i as nat),
                    decreases errors.len() - i,
                {
                    let line = join(&errors[i].message(), &newline);
                    text = join(&text, &line);
                    i += 1;
                    assert(messages[i - 1] == errors[i - 1].message_text());
                    assert(text@ =~= lines(messages, i as nat));
                }
            },
        }
        text
    }
}

} // verus!
