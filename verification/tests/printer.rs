use lox::interpreter::{Action, Interpreter, Shown};
use lox::machine::RuntimeErrorKind;
use lox::parser::Parser;
use lox::printer::to_source;
use lox::scanner::{Scanner, TokenType};
use lox::statement::Stmt;

fn parse(source: &str) -> Vec<Stmt> {
    let tokens = Scanner::new(source).scan_tokens().unwrap();
    Parser::new(tokens).parse().unwrap()
}

fn source_of(statements: &Vec<Stmt>) -> String {
    String::from_utf8(to_source(statements)).unwrap()
}

/// What a program prints and how it ends, with a host whose clock gives 1, 2, 3 and so on.
/// The lines of a printed program are not those of the program: of a failure only the kind
/// is kept.
fn run(statements: Vec<Stmt>) -> (Vec<String>, Result<(), RuntimeErrorKind>) {
    let mut interpreter = Interpreter::new();
    interpreter.interpret(statements);
    let mut lines = Vec::new();
    let mut ticks = 0.0;
    let mut reply: Option<u64> = None;
    loop {
        match interpreter.run(reply.take(), 1000) {
            Action::Continue => {}
            Action::Number { digits } => {
                reply = Some(String::from_utf8(digits).unwrap().parse::<f64>().unwrap().to_bits());
            }
            Action::Arithmetic { operator, left, right } => {
                let (a, b) = (f64::from_bits(left), f64::from_bits(right));
                let value = match operator {
                    TokenType::Plus => a + b,
                    TokenType::Minus => a - b,
                    TokenType::Star => a * b,
                    TokenType::Slash => a / b,
                    other => panic!("no arithmetic operator: {:?}", other),
                };
                reply = Some(value.to_bits());
            }
            Action::Native { .. } => {
                ticks += 1.0;
                reply = Some(f64::to_bits(ticks));
            }
            Action::Print { output } => match output {
                Shown::Text(bytes) => lines.push(String::from_utf8(bytes).unwrap()),
                Shown::Number(bits) => lines.push(f64::from_bits(bits).to_string()),
            },
            Action::Finished => return (lines, Ok(())),
            Action::Failed { error } => return (lines, Err(error.kind)),
        }
    }
}

fn programs() -> Vec<&'static str> {
    vec![
        "print 1 + 2 * 3;",
        "print (1 + 2) * 3 - -4 / 2;",
        "print \"a\" + \"b\"; if (\"\") print \"t\"; else print \"f\";",
        "fun makeCounter() { var i = 0;\n  fun inc() { i = i + 1; return i; } return inc; }\nvar c = makeCounter(); print c(); print c(); print c();",
        "for (var i = 0; i < 3; i = i + 1) print i;",
        "fun first(n) { var i = 0;\n  while (true) { if (i == n) return i; i = i + 1; } }\nprint first(4);",
        "fun fib(n) { if (n < 2) return n;\n  return fib(n-1) + fib(n-2); }\nprint fib(10);",
        "var a; var b = a = 2; print a == 2 and b != 3 or nil; print !a; print a <= b;",
        "if (1) if (nil) print \"inner\"; else print \"else of the inner\";",
        "if (nil) { if (1) print \"inner\"; } else print \"else of the outer\";",
        "var f = fun (a, b) { return a - b; }; print f(5, 3); print fun () { return \"now\"; }();",
        "var x = \"outer\"; fun show() { print x; } { var x = \"inner\"; show(); print x; }",
        "print clock() - clock(); print clock; fun f(a, b, c) {} print f;",
        "var i = 0; while (i < 3) { for (;;) { i = i + 1; print i; if (i > 1) { print \"deep\"; } return; } }",
        "fun f() { return; } print f(); { } ; print nil or \"two words\";".trim_end_matches(';'),
        "print missing;",
        "print 1; print -\"text\";",
        "print 1.500 * 2; print 0.1 + 0.2; print 10 / 4;",
    ]
}

#[test]
fn a_printed_program_runs_like_the_program() {
    for source in programs() {
        let tokens = Scanner::new(source).scan_tokens().unwrap();
        let statements = match Parser::new(tokens).parse() {
            Ok(statements) => statements,
            Err(_) => continue,
        };
        let printed = source_of(&statements);
        let again = parse(&printed);
        assert_eq!(run(again), run(statements), "{}\nprinted as\n{}", source, printed);
    }
}

#[test]
fn printing_a_printed_program_again_changes_only_parentheses() {
    for source in programs() {
        let tokens = Scanner::new(source).scan_tokens().unwrap();
        let statements = match Parser::new(tokens).parse() {
            Ok(statements) => statements,
            Err(_) => continue,
        };
        let once = source_of(&statements);
        let twice = source_of(&parse(&once));
        let bare = |text: &str| text.replace('(', "").replace(')', "").replace("{ ", "").replace(" }", "");
        assert_eq!(bare(&once), bare(&twice));
    }
}

#[test]
fn programs_as_text() {
    assert_eq!(source_of(&parse("print 1 + 2 * 3;")), "print (1 + (2 * 3));\n");
    assert_eq!(source_of(&parse("a = -b;")), "(a = (-b));\n");
    assert_eq!(source_of(&parse("print !(a or b) == \"s\";")), "print ((!((a or b))) == \"s\");\n");
    assert_eq!(source_of(&parse("f(1, x)(2);")), "f(1, x)(2);\n");
    assert_eq!(source_of(&parse("var a; var b = nil;")), "var a = nil;\nvar b = nil;\n");
    assert_eq!(
        source_of(&parse("fun f(a, b) { print a; return b; }")),
        "fun f(a, b) { print a; return b; }\n"
    );
    assert_eq!(source_of(&parse("x = fun () {};")), "(x = (fun () { }));\n");
    assert_eq!(
        source_of(&parse("if (a) print 1; else { return; }")),
        "if (a) { print 1; } else { { return; } }\n"
    );
    assert_eq!(source_of(&parse("while (true) {}")), "while (true) { { } }\n");
    assert_eq!(
        source_of(&parse("for (var i = 0; i < 3; i = i + 1) print i;")),
        "{ var i = 0; while ((i < 3)) { { print i; (i = (i + 1)); } } }\n"
    );
    assert_eq!(source_of(&parse("")), "");
}
