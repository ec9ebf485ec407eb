//! A tree-walking interpreter for a small dynamically typed language of the Lox family.
//!
//! Text is held as bytes throughout. Numbers are binary64 values, kept as their bit
//! patterns: the library decides what is computed and in which order, and hands the
//! arithmetic itself, like printing and reading the clock, to its host.
//!
//! A program goes through the lexer of `scanner` and the parser of `parser` into the
//! interpreter of `interpreter`, which the host then steps to the end of the run.
use crate::grammar::ParseError;
use crate::interpreter::Interpreter;
use crate::parser::Parser;
use crate::scanner::{ScanError, Scanner};
use vstd::prelude::*;
use vstd::string::*;

pub mod callable;
pub mod environment;
pub mod expression;
pub mod grammar;
pub mod interpreter;
pub mod machine;
pub mod number;
pub mod parser;
pub mod printer;
pub mod report;
pub mod resolver;
pub mod scanner;
pub mod statement;
pub mod text;
pub mod theorems;

verus! {

/// Why a text is no program.
#[derive(Debug)]
pub enum Error {
    /// What the lexer could not read.
    Scan(Vec<ScanError>),
    /// What the parser could not parse.
    Parse(Vec<ParseError>),
}

/// What a text is as a program.
pub enum Compiled {
    /// The statements of the program.
    Program(Seq<statement::StmtView>),
    /// What the lexer could not read. A text with such errors is not parsed.
    ScanErrors(Seq<ScanError>),
    /// What the parser could not parse.
    ParseErrors(Seq<ParseError>),
}

/// What a text is as a program: its statements, or what is wrong with it.
pub open spec fn compiled(source: Seq<u8>) -> Compiled {
    let scanned = scanner::scan(source);
    if scanned.errors.len() > 0 {
        Compiled::ScanErrors(scanned.errors)
    } else {
        let program = grammar::program(scanned.tokens);
        if program.errors.len() > 0 {
            Compiled::ParseErrors(program.errors)
        } else {
            Compiled::Program(program.statements)
        }
    }
}

/// Reads a text as a program and makes the interpreter ready to run it. Where the text
/// is no program the interpreter stays as it is.
pub fn run(interpreter: &mut Interpreter, contents: &str) -> (outcome: Result<(), Error>)
    requires
        old(interpreter).wf(),
        contents.spec_bytes().len() < usize::MAX,
    ensures
        final(interpreter).wf(),
        old(interpreter).linked() ==> final(interpreter).linked(),
        match outcome {
            Ok(_) => compiled(contents.spec_bytes()) matches Compiled::Program(statements)
                && final(interpreter)@ == old(interpreter)@.load(statements),
            Err(Error::Scan(errors)) => compiled(contents.spec_bytes()) == Compiled::ScanErrors(
                errors@,
            ) && final(interpreter)@ == old(interpreter)@,
            Err(Error::Parse(errors)) => compiled(contents.spec_bytes()) == Compiled::ParseErrors(
                errors@,
            ) && final(interpreter)@ == old(interpreter)@,
        },
{
    let mut scanner = Scanner::new(contents);
    let tokens = match scanner.scan_tokens() {
        Err(errors) => {
            return Err(Error::Scan(errors));
        },
        Ok(tokens) => tokens,
    };
    let mut parser = Parser::new(tokens);
    let statements = match parser.parse() {
        Err(errors) => {
            return Err(Error::Parse(errors));
        },
        Ok(statements) => statements,
    };
    interpreter.interpret(statements);
    Ok(())
}

/// Reads a text as a program and gives a new interpreter that is ready to run it.
pub fn run_string(contents: &str) -> (outcome: Result<Interpreter, Error>)
    requires
        contents.spec_bytes().len() < usize::MAX,
    ensures
        match outcome {
            Ok(interpreter) => {
                &&& interpreter.wf()
                &&& interpreter.linked()
                &&& compiled(contents.spec_bytes()) matches Compiled::Program(statements)
                    && interpreter@ == machine::MachineView::initial().load(statements)
            },
            Err(Error::Scan(errors)) => compiled(contents.spec_bytes()) == Compiled::ScanErrors(
                errors@,
            ),
            Err(Error::Parse(errors)) => compiled(contents.spec_bytes()) == Compiled::ParseErrors(
                errors@,
            ),
        },
{
    let mut interpreter = Interpreter::new();
    match run(&mut interpreter, contents) {
        Ok(_) => Ok(interpreter),
        Err(error) => Err(error),
    }
}

} // verus!
