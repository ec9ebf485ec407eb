use lox::environment::Environment;
use lox::expression::{Constant, Expr, LiteralValue};
use lox::interpreter::{Action, Interpreter, Shown};
use lox::machine::{RuntimeError, RuntimeErrorKind};
use lox::scanner::{Token, TokenType};
use lox::{run, run_string};
use std::rc::Rc;

/// What a run printed, how it ended, and how often it called a function of the host.
struct Run {
    lines: Vec<String>,
    end: Result<(), RuntimeError>,
    natives: usize,
}

/// Runs what the interpreter is ready for to its end, doing for it what a host does.
/// The clock of this host gives 1, 2, 3 and so on.
fn drive(interpreter: &mut Interpreter) -> Run {
    let mut lines = Vec::new();
    let mut natives = 0;
    let mut reply: Option<u64> = None;
    loop {
        match interpreter.run(reply.take(), 1000) {
            Action::Continue => {}
            Action::Number { digits } => {
                reply = String::from_utf8(digits)
                    .ok()
                    .and_then(|text| text.parse::<f64>().ok())
                    .map(f64::to_bits);
            }
            Action::Arithmetic { operator, left, right } => {
                let (a, b) = (f64::from_bits(left), f64::from_bits(right));
                let value = match operator {
                    TokenType::Plus => a + b,
                    TokenType::Minus => a - b,
                    TokenType::Star => a * b,
                    TokenType::Slash => a / b,
                    other => panic!("no arithmetic operator: {:?}", other),
                };
                reply = Some(value.to_bits());
            }
            Action::Native { name, arguments } => {
                assert_eq!(name, b"clock".to_vec());
                assert!(arguments.is_empty());
                natives += 1;
                reply = Some((natives as f64).to_bits());
            }
            Action::Print { output } => match output {
                Shown::Text(bytes) => lines.push(String::from_utf8(bytes).unwrap()),
                Shown::Number(bits) => lines.push(f64::from_bits(bits).to_string()),
            },
            Action::Finished => return Run { lines, end: Ok(()), natives },
            Action::Failed { error } => return Run { lines, end: Err(error), natives },
        }
    }
}

fn run_of(source: &str) -> (Interpreter, Run) {
    let mut interpreter = run_string(source).unwrap();
    let run = drive(&mut interpreter);
    (interpreter, run)
}

fn output_of(source: &str) -> Vec<String> {
    let (_, run) = run_of(source);
    assert_eq!(run.end, Ok(()));
    run.lines
}

fn failure_of(source: &str) -> RuntimeError {
    let (_, run) = run_of(source);
    run.end.unwrap_err()
}

fn failure(kind: RuntimeErrorKind, line: usize) -> RuntimeError {
    RuntimeError { kind, line }
}

fn token(token_type: TokenType, lexeme: &str, line: usize) -> Token {
    Token { token_type, lexeme: lexeme.as_bytes().to_vec(), literal: None, line }
}

fn constant(digits: &str) -> Rc<Expr> {
    Rc::new(Expr::Literal { value: Constant::Number(digits.as_bytes().to_vec()) })
}

#[test]
fn arithmetic_and_precedence() {
    assert_eq!(output_of("print 1 + 2 * 3;"), vec!["7"]);
}

#[test]
fn strings_and_truthiness() {
    assert_eq!(
        output_of("print \"a\" + \"b\"; if (\"\") print \"t\"; else print \"f\";"),
        vec!["ab", "t"]
    );
}

#[test]
fn lexical_closure() {
    let source = "fun makeCounter() { var i = 0;\n  fun inc() { i = i + 1; return i; } return inc; }\nvar c = makeCounter(); print c(); print c(); print c();";
    assert_eq!(output_of(source), vec!["1", "2", "3"]);
}

#[test]
fn desugared_for() {
    assert_eq!(output_of("for (var i = 0; i < 3; i = i + 1) print i;"), vec!["0", "1", "2"]);
}

#[test]
fn non_local_return() {
    let source = "fun first(n) { var i = 0;\n  while (true) { if (i == n) return i; i = i + 1; } }\nprint first(4);";
    assert_eq!(output_of(source), vec!["4"]);
}

#[test]
fn recursion() {
    let source = "fun fib(n) { if (n < 2) return n;\n  return fib(n-1) + fib(n-2); }\nprint fib(10);";
    assert_eq!(output_of(source), vec!["55"]);
}

#[test]
fn the_four_operations_on_numbers() {
    assert_eq!(
        output_of("print 7 + 2; print 7 - 2; print 7 * 2; print 7 / 2; print -7; print --7;"),
        vec!["9", "5", "14", "3.5", "-7", "7"]
    );
    assert_eq!(output_of("print (1 + 2) * (3 - 5) / 4;"), vec!["-1.5"]);
    assert_eq!(output_of("print 0.1 + 0.2;"), vec!["0.30000000000000004"]);
}

#[test]
fn division_by_zero_is_no_error() {
    assert_eq!(output_of("print 1 / 0; print -1 / 0; print 0 / 0;"), vec!["inf", "-inf", "NaN"]);
}

#[test]
fn numbers_are_compared_as_numbers() {
    assert_eq!(
        output_of("print 1 < 2; print 2 < 1; print 2 <= 2; print 3 > 4; print 4 >= 4; print 10 > 9;"),
        vec!["true", "false", "true", "false", "true", "true"]
    );
    assert_eq!(
        output_of("print -1 < 1; print -2 < -1; print -0 < 0; print -0 >= 0; print 0.5 > 0.25;"),
        vec!["true", "true", "false", "true", "true"]
    );
    assert_eq!(
        output_of("var n = 0 / 0; print n < 1; print n >= 1; print n == n; print n != n;"),
        vec!["false", "false", "false", "true"]
    );
}

#[test]
fn strings_are_compared_byte_by_byte() {
    assert_eq!(
        output_of(
            "print \"a\" < \"b\"; print \"b\" <= \"a\"; print \"abc\" > \"abd\"; print \"a\" >= \"a\"; print \"10\" < \"9\"; print \"\" < \"a\"; print \"ab\" > \"a\";"
        ),
        vec!["true", "false", "false", "true", "true", "true", "true"]
    );
}

#[test]
fn equality_is_defined_for_all_pairs() {
    assert_eq!(
        output_of(
            "print 1 == 1; print 1 == 2; print \"a\" == \"a\"; print \"a\" != \"b\"; print 1 == \"1\"; print nil == nil; print nil == false; print true == true; print true != false; print 0 == -0; print nil != 0;"
        ),
        vec![
            "true", "false", "true", "true", "false", "true", "false", "true", "true", "true",
            "true"
        ]
    );
    assert_eq!(
        output_of("fun f() {} fun g() {} print f == f; print f == g; print clock == clock; print f == 1;"),
        vec!["true", "false", "true", "false"]
    );
}

#[test]
fn logical_operators_give_the_deciding_operand() {
    assert_eq!(
        output_of(
            "print nil or \"x\"; print 1 and 2; print false and 1; print 0 or 2; print nil and 1; print false or nil; print \"\" and \"y\";"
        ),
        vec!["x", "2", "false", "0", "nil", "nil", "y"]
    );
}

#[test]
fn logical_operators_skip_what_is_not_needed() {
    let (_, run) = run_of("print true or clock(); print false and clock(); print false or clock();");
    assert_eq!(run.lines, vec!["true", "false", "1"]);
    assert_eq!(run.natives, 1);
}

#[test]
fn not_negates_truthiness() {
    assert_eq!(
        output_of("print !true; print !false; print !nil; print !0; print !\"\"; print !!nil; print !clock;"),
        vec!["false", "true", "true", "false", "false", "false", "false"]
    );
}

#[test]
fn values_are_shown_by_kind() {
    assert_eq!(
        output_of(
            "print 1; print 1.5; print \"two\nlines\"; print true; print false; print nil; print clock; fun f(a, b) {} print f; print fun (a) {};"
        ),
        vec!["1", "1.5", "two\nlines", "true", "false", "nil", "<fn clock/0>", "<fn f/2>", "<fn lambda/1>"]
    );
}

#[test]
fn strings_pass_bytes_outside_ascii_through() {
    assert_eq!(output_of("print \"gr\u{fc}n\" + \" \u{2713}\";"), vec!["gr\u{fc}n \u{2713}"]);
}

#[test]
fn blocks_have_their_own_scope() {
    assert_eq!(
        output_of("var a = 1; { var a = 2; print a; { var a = 3; print a; } print a; } print a;"),
        vec!["2", "3", "2", "1"]
    );
    assert_eq!(output_of("var a = 1; { a = 2; var b = a; print b; } print a;"), vec!["2", "2"]);
}

#[test]
fn a_variable_of_a_block_ends_with_the_block() {
    assert_eq!(
        failure_of("{ var a = 1; }\nprint a;"),
        failure(RuntimeErrorKind::UndefinedVariable, 2)
    );
}

#[test]
fn declaring_again_overwrites() {
    assert_eq!(output_of("var a = 1; var a = 2; print a; var a; print a;"), vec!["2", "nil"]);
}

#[test]
fn an_assignment_gives_the_value_assigned() {
    assert_eq!(output_of("var a; var b; print a = b = 3; print a; print b;"), vec!["3", "3", "3"]);
}

#[test]
fn while_runs_while_its_condition_is_truthy() {
    assert_eq!(
        output_of("var i = 0; while (i < 3) { print i; i = i + 1; } print \"done\";"),
        vec!["0", "1", "2", "done"]
    );
    assert_eq!(output_of("while (nil) print 1; while (false) print 2;"), Vec::<String>::new());
}

#[test]
fn a_for_keeps_its_variable_to_itself() {
    assert_eq!(
        failure_of("for (var i = 0; i < 1; i = i + 1) print i;\nprint i;"),
        failure(RuntimeErrorKind::UndefinedVariable, 2)
    );
    assert_eq!(
        output_of("var i = 9; for (i = 0; i < 2; i = i + 1) {} print i;"),
        vec!["2"]
    );
}

#[test]
fn if_takes_one_branch() {
    assert_eq!(
        output_of("if (1) print \"a\"; if (nil) print \"b\"; if (false) print \"c\"; else print \"d\";"),
        vec!["a", "d"]
    );
}

#[test]
fn a_function_without_return_gives_nil() {
    assert_eq!(
        output_of("fun f() {} print f(); fun g() { return; } print g(); fun h() { 1; } print h();"),
        vec!["nil", "nil", "nil"]
    );
}

#[test]
fn return_ends_the_function() {
    assert_eq!(
        output_of("fun f() { print 1; return 2; print 3; } print f(); print 4;"),
        vec!["1", "2", "4"]
    );
    assert_eq!(
        output_of("fun f() { { { return \"deep\"; } print 1; } print 2; } print f();"),
        vec!["deep"]
    );
    assert_eq!(
        output_of(
            "fun f() { for (var i = 0; i < 10; i = i + 1) { while (true) { if (i == 2) return i; i = i + 1; } } } print f();"
        ),
        vec!["2"]
    );
}

#[test]
fn the_return_slot_is_empty_after_every_call() {
    let (interpreter, run) = run_of("fun f() { return 1; } var a = f() + f(); print a; f();");
    assert_eq!(run.lines, vec!["2"]);
    assert!(interpreter.return_value().is_none());
    let (interpreter, _) = run_of("fun f() { { while (true) { return 1; } } } f();");
    assert!(interpreter.return_value().is_none());
}

#[test]
fn a_return_in_the_program_itself_ends_the_run() {
    let (interpreter, run) = run_of("print 1; return 5; print 2;");
    assert_eq!(run.end, Ok(()));
    assert_eq!(run.lines, vec!["1"]);
    match interpreter.return_value() {
        Some(LiteralValue::Number(bits)) => assert_eq!(f64::from_bits(bits), 5.0),
        other => panic!("nothing returned: {:?}", other),
    }
    let (interpreter, run) = run_of("{ return; } print 2;");
    assert!(run.lines.is_empty());
    assert!(matches!(interpreter.return_value(), Some(LiteralValue::Nil)));
}

#[test]
fn a_new_run_starts_with_an_empty_return_slot() {
    let mut interpreter = run_string("return 5;").unwrap();
    drive(&mut interpreter);
    assert!(interpreter.return_value().is_some());
    run(&mut interpreter, "print 1; print 2;").unwrap();
    assert!(interpreter.return_value().is_none());
    assert_eq!(drive(&mut interpreter).lines, vec!["1", "2"]);
}

#[test]
fn parameters_are_bound_to_arguments_in_order() {
    assert_eq!(
        output_of("fun f(a, b, c) { print a; print b; print c; } f(1, \"two\", nil);"),
        vec!["1", "two", "nil"]
    );
    let (_, run) = run_of("fun f(a, b) { print a; print b; } f(clock(), clock());");
    assert_eq!(run.lines, vec!["1", "2"]);
}

#[test]
fn operands_are_evaluated_from_left_to_right() {
    let (_, run) = run_of("print clock() - clock(); print clock() / clock(); print clock() < clock();");
    assert_eq!(run.lines, vec!["-1", "0.75", "true"]);
    assert_eq!(run.natives, 6);
}

#[test]
fn nothing_is_evaluated_after_an_error() {
    let (_, run) = run_of("print missing + clock();");
    assert_eq!(run.end, Err(failure(RuntimeErrorKind::UndefinedVariable, 1)));
    assert_eq!(run.natives, 0);
    let (_, run) = run_of("fun f(a, b, c) {} f(clock(), missing, clock());");
    assert_eq!(run.end, Err(failure(RuntimeErrorKind::UndefinedVariable, 1)));
    assert_eq!(run.natives, 1);
    let (_, run) = run_of("print clock() + nil; print clock();");
    assert_eq!(run.end, Err(failure(RuntimeErrorKind::TypeMismatch, 1)));
    assert_eq!(run.natives, 1);
    assert!(run.lines.is_empty());
}

#[test]
fn scoping_is_lexical() {
    let source = "var x = \"outer\";\nfun show() { print x; }\nfun caller() { var x = \"inner\"; show(); }\ncaller();";
    assert_eq!(output_of(source), vec!["outer"]);
    let source = "fun outer() { var x = \"mine\"; fun inner() { print x; } return inner; }\nvar f = outer(); var x = \"global\"; { var x = \"block\"; f(); }";
    assert_eq!(output_of(source), vec!["mine"]);
}

#[test]
fn a_name_is_looked_up_when_it_is_read() {
    let source = "var a = \"global\";\n{ fun show() { print a; } show(); var a = \"block\"; show(); }";
    assert_eq!(output_of(source), vec!["global", "block"]);
}

#[test]
fn closures_share_the_scope_they_were_made_in() {
    let source = "fun pair() { var n = 0; fun up() { n = n + 1; return n; } fun get() { return n; } print up(); print up(); print get(); }\npair(); pair();";
    assert_eq!(output_of(source), vec!["1", "2", "2", "1", "2", "2"]);
    let source = "fun make() { var i = 0; return fun () { i = i + 1; return i; }; }\nvar a = make(); var b = make(); print a(); print a(); print b(); print a();";
    assert_eq!(output_of(source), vec!["1", "2", "1", "3"]);
}

#[test]
fn a_lambda_is_a_value() {
    assert_eq!(output_of("print fun (a) { return a + 1; }(2);"), vec!["3"]);
    assert_eq!(
        output_of("fun twice(f, x) { return f(f(x)); } print twice(fun (n) { return n * 3; }, 2);"),
        vec!["18"]
    );
}

#[test]
fn functions_call_themselves_and_each_other() {
    let source = "fun even(n) { if (n == 0) return true; return odd(n - 1); }\nfun odd(n) { if (n == 0) return false; return even(n - 1); }\nprint even(10); print odd(7); print even(7);";
    assert_eq!(output_of(source), vec!["true", "true", "false"]);
    let source = "fun count(n) { if (n > 0) { count(n - 1); } print n; } count(3);";
    assert_eq!(output_of(source), vec!["0", "1", "2", "3"]);
}

#[test]
fn when_a_run_is_over_the_scope_is_the_global_one() {
    let (interpreter, run) = run_of("var a = 1; { var b = 2; { var c = 3; fun f() { { return c; } } print f(); } }");
    assert_eq!(run.lines, vec!["3"]);
    assert_eq!(interpreter.environment().current(), 0);
    let (interpreter, run) = run_of("{ { fun f() { { print missing; } } f(); } }");
    assert_eq!(run.end, Err(failure(RuntimeErrorKind::UndefinedVariable, 1)));
    assert_eq!(interpreter.environment().current(), 0);
    assert!(interpreter.return_value().is_none());
    assert!(interpreter.result().is_none());
}

#[test]
fn undeclared_names_can_be_neither_read_nor_assigned() {
    assert_eq!(
        failure_of("print 1;\nprint x;"),
        failure(RuntimeErrorKind::UndefinedVariable, 2)
    );
    assert_eq!(failure_of("x;"), failure(RuntimeErrorKind::UndefinedVariable, 1));
    assert_eq!(failure_of("\n\nx = 1;"), failure(RuntimeErrorKind::UndefinedAssignment, 3));
    assert_eq!(failure_of("var y = 1; { x = y; }"), failure(RuntimeErrorKind::UndefinedAssignment, 1));
    let (_, run) = run_of("x = clock();");
    assert_eq!(run.end, Err(failure(RuntimeErrorKind::UndefinedAssignment, 1)));
    assert_eq!(run.natives, 1);
}

#[test]
fn declared_names_can_be_read_and_assigned() {
    assert_eq!(output_of("var x = 1; print x; x = 2; print x; x = x + 1; print x;"), vec!["1", "2", "3"]);
}

#[test]
fn only_functions_can_be_called() {
    assert_eq!(failure_of("var v = 1;\nv();"), failure(RuntimeErrorKind::NotCallable, 2));
    assert_eq!(failure_of("\"s\"(1, 2);"), failure(RuntimeErrorKind::NotCallable, 1));
    assert_eq!(failure_of("nil();"), failure(RuntimeErrorKind::NotCallable, 1));
    assert_eq!(failure_of("true(nil);"), failure(RuntimeErrorKind::NotCallable, 1));
    assert_eq!(failure_of("fun f() {} f()();"), failure(RuntimeErrorKind::NotCallable, 1));
    let (_, run) = run_of("1(clock(), clock());");
    assert_eq!(run.end, Err(failure(RuntimeErrorKind::NotCallable, 1)));
    assert_eq!(run.natives, 0);
}

#[test]
fn a_call_has_to_give_as_many_arguments_as_there_are_parameters() {
    assert_eq!(failure_of("fun f(a) {}\nf();"), failure(RuntimeErrorKind::WrongArity, 2));
    assert_eq!(failure_of("fun f(a) {} f(1, 2);"), failure(RuntimeErrorKind::WrongArity, 1));
    assert_eq!(failure_of("fun f() {} f(nil);"), failure(RuntimeErrorKind::WrongArity, 1));
    assert_eq!(failure_of("clock(1);"), failure(RuntimeErrorKind::WrongArity, 1));
    let (_, run) = run_of("fun f() { print \"body\"; } f(clock());");
    assert_eq!(run.end, Err(failure(RuntimeErrorKind::WrongArity, 1)));
    assert_eq!(run.natives, 1);
    assert!(run.lines.is_empty());
}

#[test]
fn operators_reject_operands_of_the_wrong_kind() {
    let mismatch = failure(RuntimeErrorKind::TypeMismatch, 1);
    for source in [
        "1 + \"a\";",
        "\"a\" + 1;",
        "nil + nil;",
        "true + 1;",
        "\"a\" - \"b\";",
        "\"a\" * 2;",
        "nil / 2;",
        "-\"a\";",
        "-nil;",
        "-true;",
        "\"a\" < 1;",
        "1 <= \"a\";",
        "nil > nil;",
        "true >= false;",
        "clock + 1;",
        "clock < clock;",
    ] {
        assert_eq!(failure_of(source), mismatch, "{}", source);
    }
}

#[test]
fn a_token_that_is_no_operator_is_rejected() {
    let mut interpreter = Interpreter::new();
    interpreter.evaluate(Expr::Unary { operator: token(TokenType::Plus, "+", 7), right: constant("1") });
    assert_eq!(drive(&mut interpreter).end, Err(failure(RuntimeErrorKind::InvalidOperator, 7)));
    interpreter.evaluate(Expr::Binary {
        left: constant("1"),
        operator: token(TokenType::Bang, "!", 8),
        right: constant("2"),
    });
    assert_eq!(drive(&mut interpreter).end, Err(failure(RuntimeErrorKind::InvalidOperator, 8)));
}

#[test]
fn an_expression_leaves_its_value() {
    let mut interpreter = Interpreter::new();
    interpreter.evaluate(Expr::Binary {
        left: constant("1.5"),
        operator: token(TokenType::Star, "*", 1),
        right: Rc::new(Expr::Grouping { expression: constant("4") }),
    });
    assert_eq!(drive(&mut interpreter).end, Ok(()));
    match interpreter.result() {
        Some(LiteralValue::Number(bits)) => assert_eq!(f64::from_bits(bits), 6.0),
        other => panic!("no number: {:?}", other),
    }
    interpreter.evaluate(Expr::Logical {
        left: Rc::new(Expr::Literal { value: Constant::Nil }),
        operator: token(TokenType::Or, "or", 1),
        right: Rc::new(Expr::Literal { value: Constant::Text(b"else".to_vec()) }),
    });
    drive(&mut interpreter);
    match interpreter.result() {
        Some(LiteralValue::StringValue(bytes)) => assert_eq!(bytes, b"else"),
        other => panic!("no string: {:?}", other),
    }
}

#[test]
fn a_number_is_read_by_the_host() {
    let mut interpreter = run_string("print 12.50;").unwrap();
    let mut asked = None;
    let mut reply = None;
    loop {
        match interpreter.step(reply.take()) {
            Action::Number { digits } => {
                asked = Some(digits);
                reply = Some(12.5f64.to_bits());
            }
            Action::Print { output } => {
                assert!(matches!(output, Shown::Number(bits) if f64::from_bits(bits) == 12.5));
            }
            Action::Finished => break,
            Action::Continue => {}
            other => panic!("not expected: {:?}", other),
        }
    }
    assert_eq!(asked, Some(b"12.50".to_vec()));
}

#[test]
fn a_host_that_gives_no_number_fails_the_run() {
    let mut interpreter = run_string("{ print 1; }").unwrap();
    loop {
        match interpreter.step(None) {
            Action::Continue => {}
            Action::Number { .. } => break,
            other => panic!("not expected: {:?}", other),
        }
    }
    assert!(matches!(
        interpreter.step(None),
        Action::Failed { error } if error == failure(RuntimeErrorKind::HostFailure, 0)
    ));
    assert!(matches!(interpreter.step(None), Action::Finished));
    assert_eq!(interpreter.environment().current(), 0);

    let mut interpreter = run_string("\n\nprint 1 + 2;").unwrap();
    let mut reply = None;
    loop {
        match interpreter.step(reply.take()) {
            Action::Continue => {}
            Action::Number { .. } => reply = Some(1.0f64.to_bits()),
            Action::Arithmetic { operator, left, right } => {
                assert_eq!(operator, TokenType::Plus);
                assert_eq!(f64::from_bits(left), 1.0);
                assert_eq!(f64::from_bits(right), 1.0);
                break;
            }
            other => panic!("not expected: {:?}", other),
        }
    }
    assert!(matches!(
        interpreter.step(None),
        Action::Failed { error } if error == failure(RuntimeErrorKind::HostFailure, 3)
    ));
}

#[test]
fn an_answer_that_was_not_asked_for_is_ignored() {
    let mut interpreter = run_string("print \"a\";").unwrap();
    let mut lines = Vec::new();
    loop {
        match interpreter.step(Some(7.0f64.to_bits())) {
            Action::Continue => {}
            Action::Print { output: Shown::Text(bytes) } => lines.push(bytes),
            Action::Finished => break,
            other => panic!("not expected: {:?}", other),
        }
    }
    assert_eq!(lines, vec![b"a".to_vec()]);
    assert!(interpreter.result().is_none());
}

#[test]
fn a_run_can_be_taken_in_pieces() {
    let mut interpreter = run_string("while (true) {}").unwrap();
    for _ in 0..50 {
        assert!(matches!(interpreter.run(None, 10), Action::Continue));
    }
    assert!(matches!(interpreter.run(None, 0), Action::Continue));
    let mut interpreter = run_string("print \"x\";").unwrap();
    let mut steps = 0;
    loop {
        steps += 1;
        if let Action::Print { .. } = interpreter.run(None, 0) {
            break;
        }
    }
    assert!(steps > 1);
    assert!(matches!(interpreter.run(None, u64::MAX), Action::Finished));
    assert!(matches!(interpreter.run(None, u64::MAX), Action::Finished));
}

#[test]
fn what_one_run_binds_the_next_run_sees() {
    let mut interpreter = Interpreter::new();
    run(&mut interpreter, "var a = 1; fun next() { a = a + 1; return a; }").unwrap();
    assert_eq!(drive(&mut interpreter).end, Ok(()));
    run(&mut interpreter, "print next();").unwrap();
    assert_eq!(drive(&mut interpreter).lines, vec!["2"]);
    run(&mut interpreter, "print missing;").unwrap();
    assert!(drive(&mut interpreter).end.is_err());
    run(&mut interpreter, "print next() + a;").unwrap();
    assert_eq!(drive(&mut interpreter).lines, vec!["6"]);
}

#[test]
fn a_text_that_is_no_program_leaves_the_interpreter_as_it_is() {
    let mut interpreter = run_string("print 1; print 2;").unwrap();
    assert!(run(&mut interpreter, "print (;").is_err());
    assert!(run(&mut interpreter, "print @;").is_err());
    assert_eq!(drive(&mut interpreter).lines, vec!["1", "2"]);
}

#[test]
fn the_clock_is_a_function_of_the_host() {
    let (_, run) = run_of("var a = clock(); var b = clock(); print b - a; print clock;");
    assert_eq!(run.lines, vec!["1", "<fn clock/0>"]);
    assert_eq!(run.natives, 2);
    assert_eq!(output_of("var clock = 3; print clock;"), vec!["3"]);
}

#[test]
fn an_interpreter_inside_an_environment_sees_it() {
    let mut parent = Environment::new();
    parent.define(&token(TokenType::Identifier, "x", 1), LiteralValue::StringValue(b"given".to_vec()));
    let mut interpreter = Interpreter::from_env(parent);
    assert_eq!(interpreter.environment().current(), 1);
    run(&mut interpreter, "print x; var x = \"own\"; { print x; } x = missing;").unwrap();
    let run = drive(&mut interpreter);
    assert_eq!(run.lines, vec!["given", "own"]);
    assert_eq!(run.end, Err(failure(RuntimeErrorKind::UndefinedVariable, 1)));
    assert_eq!(interpreter.environment().current(), 1);
    interpreter.interpret(vec![]);
    assert!(matches!(interpreter.step(None), Action::Continue));
    assert!(matches!(interpreter.step(None), Action::Finished));
}

#[test]
fn the_host_can_call_a_function_of_the_program() {
    let (mut interpreter, _) = run_of("var n = 10; fun add(a) { n = n + a; return n; }");
    let add = interpreter.environment().get(&b"add".to_vec()).unwrap().as_callable().unwrap();
    let started = add.call(&mut interpreter, vec![LiteralValue::Number(5.0f64.to_bits())], 0);
    assert!(matches!(started, Action::Continue));
    assert_eq!(drive(&mut interpreter).end, Ok(()));
    match interpreter.result() {
        Some(LiteralValue::Number(bits)) => assert_eq!(f64::from_bits(bits), 15.0),
        other => panic!("no number: {:?}", other),
    }
    assert_eq!(interpreter.environment().current(), 0);
    assert!(matches!(
        add.call(&mut interpreter, vec![], 9),
        Action::Failed { error } if error == failure(RuntimeErrorKind::WrongArity, 9)
    ));
    let clock = interpreter.environment().get(&b"clock".to_vec()).unwrap().as_callable().unwrap();
    assert!(matches!(
        clock.call(&mut interpreter, vec![], 1),
        Action::Native { name, arguments } if name == b"clock" && arguments.is_empty()
    ));
    assert!(matches!(interpreter.step(Some(2.5f64.to_bits())), Action::Continue));
    assert!(matches!(interpreter.step(None), Action::Finished));
    match interpreter.result() {
        Some(LiteralValue::Number(bits)) => assert_eq!(f64::from_bits(bits), 2.5),
        other => panic!("no number: {:?}", other),
    }
}

#[test]
fn deep_recursion_and_long_loops() {
    let source = "fun sum(n) { if (n == 0) return 0; return n + sum(n - 1); } print sum(2000);";
    assert_eq!(output_of(source), vec!["2001000"]);
    let source = "var total = 0; for (var i = 0; i < 20000; i = i + 1) { total = total + i; } print total;";
    assert_eq!(output_of(source), vec!["199990000"]);
}
