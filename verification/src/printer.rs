//! Syntax trees as text, with every operator in front of its operands.
use crate::expression::{Constant, ConstantView, Expr, ExprView};
use crate::scanner::{Token, TokenView};
use crate::statement::{lemma_views_of_lists, stmt_views, Stmt, StmtView};
use crate::text::{bytes_of, decimal, decimal_digits};
use std::rc::Rc;
use vstd::prelude::*;
use vstd::string::*;

verus! {

/// A constant as it is written in a program, a string without its quotes.
pub open spec fn constant_text(constant: ConstantView) -> Seq<u8> {
    match constant {
        ConstantView::Number(digits) => digits,
        ConstantView::Text(bytes) => bytes,
        ConstantView::True => "true".spec_bytes(),
        ConstantView::False => "false".spec_bytes(),
        ConstantView::Nil => "nil".spec_bytes(),
    }
}

/// The first `upto` of the arguments of a call, each after a blank.
pub open spec fn arguments_text(arguments: Seq<ExprView>, upto: nat) -> Seq<u8>
    decreases arguments, upto,
{
    if upto == 0 || upto > arguments.len() {
        Seq::empty()
    } else {
        arguments_text(arguments, (upto - 1) as nat) + " ".spec_bytes() + expr_text(
            arguments[upto - 1],
        )
    }
}

/// The first `upto` of the statements of a block, one after the other.
pub open spec fn block_text(statements: Seq<StmtView>, upto: nat) -> Seq<u8>
    decreases statements, upto,
{
    if upto == 0 || upto > statements.len() {
        Seq::empty()
    } else {
        block_text(statements, (upto - 1) as nat) + stmt_text(statements[upto - 1])
    }
}

/// The first `upto` of the statements of a function body, with `, ` between them.
pub open spec fn body_text(statements: Seq<StmtView>, upto: nat) -> Seq<u8>
    decreases statements, upto,
{
    if upto == 0 || upto > statements.len() {
        Seq::empty()
    } else if upto == 1 {
        stmt_text(statements[0])
    } else {
        body_text(statements, (upto - 1) as nat) + ", ".spec_bytes() + stmt_text(
            statements[upto - 1],
        )
    }
}

/// The first `upto` of the names of parameters, each in quotes, with `, ` between them.
pub open spec fn names_text(params: Seq<TokenView>, upto: nat) -> Seq<u8>
    decreases upto,
{
    if upto == 0 || upto > params.len() {
        Seq::empty()
    } else if upto == 1 {
        "\"".spec_bytes() + params[0].lexeme + "\"".spec_bytes()
    } else {
        names_text(params, (upto - 1) as nat) + ", ".spec_bytes() + "\"".spec_bytes() + params[upto
            - 1].lexeme + "\"".spec_bytes()
    }
}

/// An operator in front of one or two operands, in parentheses.
pub open spec fn applied(operator: Seq<u8>, left: Seq<u8>, right: Option<Seq<u8>>) -> Seq<u8> {
    match right {
        Some(second) => "(".spec_bytes() + operator + " ".spec_bytes() + left + " ".spec_bytes()
            + second + ")".spec_bytes(),
        None => "(".spec_bytes() + operator + " ".spec_bytes() + left + ")".spec_bytes(),
    }
}

/// An expression as text.
pub open spec fn expr_text(e: ExprView) -> Seq<u8>
    decreases e, 0nat,
{
    match e {
        ExprView::Assign { name, value } => applied(
            "=".spec_bytes(),
            name.lexeme,
            Some(expr_text(*value)),
        ),
        ExprView::Binary { left, operator, right } => applied(
            operator.lexeme,
            expr_text(*left),
            Some(expr_text(*right)),
        ),
        ExprView::Call { callee, paren, arguments } => "(call ".spec_bytes() + expr_text(*callee)
            + arguments_text(arguments, arguments.len()) + ")".spec_bytes(),
        ExprView::Grouping { expression } => applied(
            "group".spec_bytes(),
            expr_text(*expression),
            None,
        ),
        ExprView::Lambda { paren, params, body } => "anon/".spec_bytes() + decimal_digits(
            params.len(),
        ),
        ExprView::Literal { value } => constant_text(value),
        ExprView::Logical { left, operator, right } => applied(
            operator.lexeme,
            expr_text(*left),
            Some(expr_text(*right)),
        ),
        ExprView::Unary { operator, right } => applied(operator.lexeme, expr_text(*right), None),
        ExprView::Variable { name } => applied("var".spec_bytes(), name.lexeme, None),
    }
}

/// A statement as text.
pub open spec fn stmt_text(s: StmtView) -> Seq<u8>
    decreases s, 0nat,
{
    match s {
        StmtView::Block { statements } => "(block ".spec_bytes() + block_text(
            statements,
            statements.len(),
        ) + ")".spec_bytes(),
        StmtView::Expression { expression } => expr_text(expression),
        StmtView::Function { name, params, body } => "(fun ".spec_bytes() + name.lexeme
            + " [".spec_bytes() + names_text(params, params.len()) + "] [".spec_bytes() + body_text(
            body,
            body.len(),
        ) + "])".spec_bytes(),
        StmtView::If { condition, then_stmt, else_stmt } => match else_stmt {
            Some(other) => "(if ".spec_bytes() + expr_text(condition) + " then ".spec_bytes()
                + stmt_text(*then_stmt) + " else ".spec_bytes() + stmt_text(*other)
                + ")".spec_bytes(),
            None => "(if ".spec_bytes() + expr_text(condition) + " then ".spec_bytes() + stmt_text(
                *then_stmt,
            ) + ")".spec_bytes(),
        },
        StmtView::Print { expression } => applied(
            "print".spec_bytes(),
            expr_text(expression),
            None,
        ),
        StmtView::Return { keyword, value } => match value {
            Some(result) => applied("->".spec_bytes(), expr_text(result), None),
            None => "(-> nil)".spec_bytes(),
        },
        StmtView::Var { name, initializer } => applied("var".spec_bytes(), name.lexeme, None),
        StmtView::While { condition, body } => "(while ".spec_bytes() + expr_text(condition)
            + " do ".spec_bytes() + stmt_text(*body) + ")".spec_bytes(),
    }
}

/// Writes a piece of text.
fn put(out: &mut Vec<u8>, text: &str)
    ensures
        final(out)@ == old(out)@ + text.spec_bytes(),
{
    let bytes = bytes_of(text);
    put_bytes(out, &bytes);
}

/// Writes bytes.
fn put_bytes(out: &mut Vec<u8>, bytes: &Vec<u8>)
    ensures
        final(out)@ == old(out)@ + bytes@,
{
    let mut i: usize = 0;
    while i < bytes.len()
        invariant
            i <= bytes.len(),
            out@ == old(out)@ + bytes@.subrange(0, i as int),
        decreases bytes.len() - i,
    {
        out.push(bytes[i]);
        i += 1;
        assert(out@ =~= old(out)@ + bytes@.subrange(0, i as int));
    }
    assert(bytes@.subrange(0, bytes.len() as int) =~= bytes@);
}

/// Writes an operator in front of an operand that has been written to `left`.
fn put_applied(out: &mut Vec<u8>, operator: &Vec<u8>, left: &Vec<u8>, right: Option<&Vec<u8>>)
    ensures
        final(out)@ == old(out)@ + applied(
            operator@,
            left@,
            match right {
                Some(second) => Some(second@),
                None => None,
            },
        ),
{
    put(out, "(");
    put_bytes(out, operator);
    put(out, " ");
    put_bytes(out, left);
    match right {
        Some(second) => {
            put(out, " ");
            put_bytes(out, second);
        },
        None => {},
    }
    put(out, ")");
    assert(out@ =~= old(out)@ + applied(
        operator@,
        left@,
        match right {
            Some(second) => Some(second@),
            None => None,
        },
    ));
}

impl Constant {
    /// The constant as it is written in a program, a string without its quotes.
    pub fn to_text(&self) -> (text: Vec<u8>)
        ensures
            text@ == constant_text(self@),
    {
        match self {
            Constant::Number(digits) => crate::text::copy(digits),
            Constant::Text(bytes) => crate::text::copy(bytes),
            Constant::True => bytes_of("true"),
            Constant::False => bytes_of("false"),
            Constant::Nil => bytes_of("nil"),
        }
    }
}

impl Expr {
    /// The expression as text, with every operator in front of its operands.
    pub fn to_text(&self) -> (text: Vec<u8>)
        ensures
            text@ == expr_text(self@),
        decreases self,
    {
        proof {
            lemma_views_of_lists(*self, Stmt::Return { keyword: arbitrary(), value: None });
        }
        let mut out: Vec<u8> = Vec::new();
        match self {
            Expr::Assign { name, value } => {
                let right = value.to_text();
                put_applied(&mut out, &bytes_of("="), &name.lexeme, Some(&right));
            },
            Expr::Binary { left, operator, right } => {
                let first = left.to_text();
                let second = right.to_text();
                put_applied(&mut out, &operator.lexeme, &first, Some(&second));
            },
            Expr::Call { callee, paren, arguments } => {
                put(&mut out, "(call ");
                put_bytes(&mut out, &callee.to_text());
                let ghost start = out@;
                let mut i: usize = 0;
                while i < arguments.len()
                    invariant
                        i <= arguments.len(),
                        self matches Expr::Call { arguments: held, .. } && held == arguments,
                        out@ == start + arguments_text(
                            crate::expression::expr_views(arguments@),
                            i as nat,
                        ),
                    decreases arguments.len() - i,
                {
                    let ghost before = out@;
                    put(&mut out, " ");
                    let argument = arguments[i].to_text();
                    put_bytes(&mut out, &argument);
                    i += 1;
                    assert(crate::expression::expr_views(arguments@)[i - 1] == arguments@[i - 1]@);
                    assert(out@ =~= start + arguments_text(
                        crate::expression::expr_views(arguments@),
                        i as nat,
                    ));
                }
                put(&mut out, ")");
                assert(out@ =~= expr_text(self@));
            },
            Expr::Grouping { expression } => {
                let inner = expression.to_text();
                put_applied(&mut out, &bytes_of("group"), &inner, None);
            },
            Expr::Lambda { paren, params, body } => {
                put(&mut out, "anon/");
                put_bytes(&mut out, &decimal(params.len()));
                assert(out@ =~= expr_text(self@));
            },
            Expr::Literal { value } => {
                put_bytes(&mut out, &value.to_text());
                assert(out@ =~= expr_text(self@));
            },
            Expr::Logical { left, operator, right } => {
                let first = left.to_text();
                let second = right.to_text();
                put_applied(&mut out, &operator.lexeme, &first, Some(&second));
            },
            Expr::Unary { operator, right } => {
                let inner = right.to_text();
                put_applied(&mut out, &operator.lexeme, &inner, None);
            },
            Expr::Variable { name } => {
                put_applied(&mut out, &bytes_of("var"), &name.lexeme, None);
            },
        }
        assert(out@ =~= expr_text(self@));
        out
    }
}

/// Writes the names of parameters, each in quotes, with `, ` between them.
fn put_names(out: &mut Vec<u8>, params: &Vec<Token>)
    ensures
        final(out)@ == old(out)@ + names_text(
            crate::scanner::token_views(params@),
            params.len() as nat,
        ),
{
    let mut i: usize = 0;
    while i < params.len()
        invariant
            i <= params.len(),
            out@ == old(out)@ + names_text(crate::scanner::token_views(params@), i as nat),
        decreases params.len() - i,
    {
        if i > 0 {
            put(out, ", ");
        }
        put(out, "\"");
        put_bytes(out, &params[i].lexeme);
        put(out, "\"");
        i += 1;
        assert(crate::scanner::token_views(params@)[i - 1] == params@[i - 1]@);
        assert(out@ =~= old(out)@ + names_text(crate::scanner::token_views(params@), i as nat));
    }
}

impl Stmt {
    /// The statement as text, with every operator in front of its operands.
    pub fn to_text(&self) -> (text: Vec<u8>)
        ensures
            text@ == stmt_text(self@),
        decreases self,
    {
        proof {
            lemma_views_of_lists(Expr::Literal { value: Constant::Nil }, *self);
        }
        let mut out: Vec<u8> = Vec::new();
        match self {
            Stmt::Block { statements } => {
                put(&mut out, "(block ");
                let ghost start = out@;
                let mut i: usize = 0;
                while i < statements.len()
                    invariant
                        i <= statements.len(),
                        self matches Stmt::Block { statements: held } && held == statements,
                        out@ == start + block_text(stmt_views(statements@), i as nat),
                    decreases statements.len() - i,
                {
                    let inner = statements[i].to_text();
                    put_bytes(&mut out, &inner);
                    i += 1;
                    assert(stmt_views(statements@)[i - 1] == statements@[i - 1]@);
                    assert(out@ =~= start + block_text(stmt_views(statements@), i as nat));
                }
                put(&mut out, ")");
            },
            Stmt::Expression { expression } => {
                put_bytes(&mut out, &expression.to_text());
            },
            Stmt::Function { name, params, body } => {
                put(&mut out, "(fun ");
                put_bytes(&mut out, &name.lexeme);
                put(&mut out, " [");
                put_names(&mut out, params);
                put(&mut out, "] [");
                let ghost start = out@;
                let mut i: usize = 0;
                while i < body.len()
                    invariant
                        i <= body.len(),
                        self matches Stmt::Function { body: held, .. } && held == body,
                        out@ == start + body_text(stmt_views(body@), i as nat),
                    decreases body.len() - i,
                {
                    if i > 0 {
                        put(&mut out, ", ");
                    }
                    let inner = body[i].to_text();
                    put_bytes(&mut out, &inner);
                    i += 1;
                    assert(stmt_views(body@)[i - 1] == body@[i - 1]@);
                    assert(out@ =~= start + body_text(stmt_views(body@), i as nat));
                }
                put(&mut out, "])");
            },
            Stmt::If { condition, then_stmt, else_stmt } => {
                put(&mut out, "(if ");
                put_bytes(&mut out, &condition.to_text());
                put(&mut out, " then ");
                put_bytes(&mut out, &then_stmt.to_text());
                match else_stmt {
                    Some(other) => {
                        put(&mut out, " else ");
                        put_bytes(&mut out, &other.to_text());
                    },
                    None => {},
                }
                put(&mut out, ")");
            },
            Stmt::Print { expression } => {
                let inner = expression.to_text();
                put_applied(&mut out, &bytes_of("print"), &inner, None);
            },
            Stmt::Return { keyword, value } => match value {
                Some(result) => {
                    let inner = result.to_text();
                    put_applied(&mut out, &bytes_of("->"), &inner, None);
                },
                None => {
                    put(&mut out, "(-> nil)");
                },
            },
            Stmt::Var { name, initializer } => {
                put_applied(&mut out, &bytes_of("var"), &name.lexeme, None);
            },
            Stmt::While { condition, body } => {
                put(&mut out, "(while ");
                put_bytes(&mut out, &condition.to_text());
                put(&mut out, " do ");
                put_bytes(&mut out, &body.to_text());
                put(&mut out, ")");
            },
        }
        assert(out@ =~= stmt_text(self@));
        out
    }
}

/// A constant as it is written in a program.
pub open spec fn constant_source(constant: ConstantView) -> Seq<u8> {
    match constant {
        ConstantView::Text(bytes) => "\"".spec_bytes() + bytes + "\"".spec_bytes(),
        _ => constant_text(constant),
    }
}

/// The first `upto` of the names of parameters, with `, ` between them.
pub open spec fn params_source(params: Seq<TokenView>, upto: nat) -> Seq<u8>
    decreases upto,
{
    if upto == 0 || upto > params.len() {
        Seq::empty()
    } else if upto == 1 {
        params[0].lexeme
    } else {
        params_source(params, (upto - 1) as nat) + ", ".spec_bytes() + params[upto - 1].lexeme
    }
}

/// The first `upto` of the arguments of a call as program text, with `, ` between them.
pub open spec fn arguments_source(arguments: Seq<ExprView>, upto: nat) -> Seq<u8>
    decreases arguments, upto,
{
    if upto == 0 || upto > arguments.len() {
        Seq::empty()
    } else if upto == 1 {
        expr_source(arguments[0])
    } else {
        arguments_source(arguments, (upto - 1) as nat) + ", ".spec_bytes() + expr_source(
            arguments[upto - 1],
        )
    }
}

/// The first `upto` of the statements of a block as program text, each with a blank after
/// it.
pub open spec fn block_source(statements: Seq<StmtView>, upto: nat) -> Seq<u8>
    decreases statements, upto,
{
    if upto == 0 || upto > statements.len() {
        Seq::empty()
    } else {
        block_source(statements, (upto - 1) as nat) + stmt_source(statements[upto - 1])
            + " ".spec_bytes()
    }
}

/// Parameters in their parentheses and a body in its braces.
pub open spec fn function_source(params: Seq<TokenView>, body: Seq<StmtView>) -> Seq<u8>
    decreases body, body.len() + 1,
{
    "(".spec_bytes() + params_source(params, params.len()) + ") { ".spec_bytes() + block_source(
        body,
        body.len(),
    ) + "}".spec_bytes()
}

/// An expression as program text. Every operator stands in parentheses with its operands,
/// so that the text is read as the tree is built, whatever the operators are.
pub open spec fn expr_source(e: ExprView) -> Seq<u8>
    decreases e, 0nat,
{
    match e {
        ExprView::Assign { name, value } => "(".spec_bytes() + name.lexeme + " = ".spec_bytes()
            + expr_source(*value) + ")".spec_bytes(),
        ExprView::Binary { left, operator, right } => "(".spec_bytes() + expr_source(*left)
            + " ".spec_bytes() + operator.lexeme + " ".spec_bytes() + expr_source(*right)
            + ")".spec_bytes(),
        ExprView::Call { callee, paren, arguments } => expr_source(*callee) + "(".spec_bytes()
            + arguments_source(arguments, arguments.len()) + ")".spec_bytes(),
        ExprView::Grouping { expression } => "(".spec_bytes() + expr_source(*expression)
            + ")".spec_bytes(),
        ExprView::Lambda { paren, params, body } => "(fun ".spec_bytes() + function_source(
            params,
            body,
        ) + ")".spec_bytes(),
        ExprView::Literal { value } => constant_source(value),
        ExprView::Logical { left, operator, right } => "(".spec_bytes() + expr_source(*left)
            + " ".spec_bytes() + operator.lexeme + " ".spec_bytes() + expr_source(*right)
            + ")".spec_bytes(),
        ExprView::Unary { operator, right } => "(".spec_bytes() + operator.lexeme + expr_source(
            *right,
        ) + ")".spec_bytes(),
        ExprView::Variable { name } => name.lexeme,
    }
}

/// A statement in braces of its own.
pub open spec fn braced(s: StmtView) -> Seq<u8>
    decreases s, 1nat,
{
    "{ ".spec_bytes() + stmt_source(s) + " }".spec_bytes()
}

/// A statement as program text. The statements that `if` and `while` govern stand in
/// braces, so that every `else` is read with the `if` it belongs to.
pub open spec fn stmt_source(s: StmtView) -> Seq<u8>
    decreases s, 0nat,
{
    match s {
        StmtView::Block { statements } => "{ ".spec_bytes() + block_source(
            statements,
            statements.len(),
        ) + "}".spec_bytes(),
        StmtView::Expression { expression } => expr_source(expression) + ";".spec_bytes(),
        StmtView::Function { name, params, body } => "fun ".spec_bytes() + name.lexeme
            + function_source(params, body),
        StmtView::If { condition, then_stmt, else_stmt } => match else_stmt {
            Some(other) => "if (".spec_bytes() + expr_source(condition) + ") ".spec_bytes()
                + braced(*then_stmt) + " else ".spec_bytes() + braced(*other),
            None => "if (".spec_bytes() + expr_source(condition) + ") ".spec_bytes() + braced(
                *then_stmt,
            ),
        },
        StmtView::Print { expression } => "print ".spec_bytes() + expr_source(expression)
            + ";".spec_bytes(),
        StmtView::Return { keyword, value } => match value {
            Some(result) => "return ".spec_bytes() + expr_source(result) + ";".spec_bytes(),
            None => "return;".spec_bytes(),
        },
        StmtView::Var { name, initializer } => "var ".spec_bytes() + name.lexeme
            + " = ".spec_bytes() + expr_source(initializer) + ";".spec_bytes(),
        StmtView::While { condition, body } => "while (".spec_bytes() + expr_source(condition)
            + ") ".spec_bytes() + braced(*body),
    }
}

/// The first `upto` statements of a program as program text, each on a line of its own.
pub open spec fn program_source(statements: Seq<StmtView>, upto: nat) -> Seq<u8>
    decreases upto,
{
    if upto == 0 || upto > statements.len() {
        Seq::empty()
    } else {
        program_source(statements, (upto - 1) as nat) + stmt_source(statements[upto - 1])
            + "\n".spec_bytes()
    }
}

/// Writes the names of parameters, with `, ` between them.
fn put_params(out: &mut Vec<u8>, params: &Vec<Token>)
    ensures
        final(out)@ == old(out)@ + params_source(
            crate::scanner::token_views(params@),
            params.len() as nat,
        ),
{
    let mut i: usize = 0;
    while i < params.len()
        invariant
            i <= params.len(),
            out@ == old(out)@ + params_source(crate::scanner::token_views(params@), i as nat),
        decreases params.len() - i,
    {
        if i > 0 {
            put(out, ", ");
        }
        put_bytes(out, &params[i].lexeme);
        i += 1;
        assert(crate::scanner::token_views(params@)[i - 1] == params@[i - 1]@);
        assert(out@ =~= old(out)@ + params_source(crate::scanner::token_views(params@), i as nat));
    }
}

/// Parameters in their parentheses and a body in its braces, as program text.
fn function_to_source(params: &Vec<Token>, body: &Vec<Stmt>) -> (text: Vec<u8>)
    ensures
        text@ == function_source(crate::scanner::token_views(params@), stmt_views(body@)),
    decreases body, body.len() + 1,
{
    let mut out: Vec<u8> = Vec::new();
    put(&mut out, "(");
    put_params(&mut out, params);
    put(&mut out, ") { ");
    let ghost start = out@;
    let mut i: usize = 0;
    while i < body.len()
        invariant
            i <= body.len(),
            out@ == start + block_source(stmt_views(body@), i as nat),
        decreases body.len() - i,
    {
        let inner = body[i].to_source();
        put_bytes(&mut out, &inner);
        put(&mut out, " ");
        i += 1;
        assert(stmt_views(body@)[i - 1] == body@[i - 1]@);
        assert(out@ =~= start + block_source(stmt_views(body@), i as nat));
    }
    put(&mut out, "}");
    assert(out@ =~= function_source(crate::scanner::token_views(params@), stmt_views(body@)));
    out
}

impl Constant {
    /// The constant as it is written in a program.
    pub fn to_source(&self) -> (text: Vec<u8>)
        ensures
            text@ == constant_source(self@),
    {
        match self {
            Constant::Text(bytes) => {
                let mut out: Vec<u8> = Vec::new();
                put(&mut out, "\"");
                put_bytes(&mut out, bytes);
                put(&mut out, "\"");
                assert(out@ =~= constant_source(self@));
                out
            },
            _ => self.to_text(),
        }
    }
}

impl Expr {
    /// The expression as program text.
    pub fn to_source(&self) -> (text: Vec<u8>)
        ensures
            text@ == expr_source(self@),
        decreases self, 0nat,
    {
        proof {
            lemma_views_of_lists(*self, Stmt::Return { keyword: arbitrary(), value: None });
        }
        let mut out: Vec<u8> = Vec::new();
        match self {
            Expr::Assign { name, value } => {
                put(&mut out, "(");
                put_bytes(&mut out, &name.lexeme);
                put(&mut out, " = ");
                put_bytes(&mut out, &value.to_source());
                put(&mut out, ")");
            },
            Expr::Binary { left, operator, right } => {
                put(&mut out, "(");
                put_bytes(&mut out, &left.to_source());
                put(&mut out, " ");
                put_bytes(&mut out, &operator.lexeme);
                put(&mut out, " ");
                put_bytes(&mut out, &right.to_source());
                put(&mut out, ")");
            },
            Expr::Call { callee, paren, arguments } => {
                put_bytes(&mut out, &callee.to_source());
                put(&mut out, "(");
                let ghost start = out@;
                let mut i: usize = 0;
                while i < arguments.len()
                    invariant
                        i <= arguments.len(),
                        self matches Expr::Call { arguments: held, .. } && held == arguments,
                        out@ == start + arguments_source(
                            crate::expression::expr_views(arguments@),
                            i as nat,
                        ),
                    decreases arguments.len() - i,
                {
                    if i > 0 {
                        put(&mut out, ", ");
                    }
                    let argument = arguments[i].to_source();
                    put_bytes(&mut out, &argument);
                    i += 1;
                    assert(crate::expression::expr_views(arguments@)[i - 1] == arguments@[i - 1]@);
                    assert(out@ =~= start + arguments_source(
                        crate::expression::expr_views(arguments@),
                        i as nat,
                    ));
                }
                put(&mut out, ")");
            },
            Expr::Grouping { expression } => {
                put(&mut out, "(");
                put_bytes(&mut out, &expression.to_source());
                put(&mut out, ")");
            },
            Expr::Lambda { paren, params, body } => {
                put(&mut out, "(fun ");
                put_bytes(&mut out, &function_to_source(params, body));
                put(&mut out, ")");
            },
            Expr::Literal { value } => {
                put_bytes(&mut out, &value.to_source());
            },
            Expr::Logical { left, operator, right } => {
                put(&mut out, "(");
                put_bytes(&mut out, &left.to_source());
                put(&mut out, " ");
                put_bytes(&mut out, &operator.lexeme);
                put(&mut out, " ");
                put_bytes(&mut out, &right.to_source());
                put(&mut out, ")");
            },
            Expr::Unary { operator, right } => {
                put(&mut out, "(");
                put_bytes(&mut out, &operator.lexeme);
                put_bytes(&mut out, &right.to_source());
                put(&mut out, ")");
            },
            Expr::Variable { name } => {
                put_bytes(&mut out, &name.lexeme);
            },
        }
        assert(out@ =~= expr_source(self@));
        out
    }
}

impl Stmt {
    /// The statement in braces of its own, as program text.
    fn to_braced(&self) -> (text: Vec<u8>)
        ensures
            text@ == braced(self@),
        decreases self, 1nat,
    {
        let mut out: Vec<u8> = Vec::new();
        put(&mut out, "{ ");
        put_bytes(&mut out, &self.to_source());
        put(&mut out, " }");
        assert(out@ =~= braced(self@));
        out
    }

    /// The statement as program text.
    pub fn to_source(&self) -> (text: Vec<u8>)
        ensures
            text@ == stmt_source(self@),
        decreases self, 0nat,
    {
        proof {
            lemma_views_of_lists(Expr::Literal { value: Constant::Nil }, *self);
        }
        let mut out: Vec<u8> = Vec::new();
        match self {
            Stmt::Block { statements } => {
                put(&mut out, "{ ");
                let ghost start = out@;
                let mut i: usize = 0;
                while i < statements.len()
                    invariant
                        i <= statements.len(),
                        self matches Stmt::Block { statements: held } && held == statements,
                        out@ == start + block_source(stmt_views(statements@), i as nat),
                    decreases statements.len() - i,
                {
                    let inner = statements[i].to_source();
                    put_bytes(&mut out, &inner);
                    put(&mut out, " ");
                    i += 1;
                    assert(stmt_views(statements@)[i - 1] == statements@[i - 1]@);
                    assert(out@ =~= start + block_source(stmt_views(statements@), i as nat));
                }
                put(&mut out, "}");
            },
            Stmt::Expression { expression } => {
                put_bytes(&mut out, &expression.to_source());
                put(&mut out, ";");
            },
            Stmt::Function { name, params, body } => {
                put(&mut out, "fun ");
                put_bytes(&mut out, &name.lexeme);
                put_bytes(&mut out, &function_to_source(params, body));
            },
            Stmt::If { condition, then_stmt, else_stmt } => {
                put(&mut out, "if (");
                put_bytes(&mut out, &condition.to_source());
                put(&mut out, ") ");
                put_bytes(&mut out, &then_stmt.to_braced());
                match else_stmt {
                    Some(other) => {
                        put(&mut out, " else ");
                        put_bytes(&mut out, &other.to_braced());
                    },
                    None => {},
                }
            },
            Stmt::Print { expression } => {
                put(&mut out, "print ");
                put_bytes(&mut out, &expression.to_source());
                put(&mut out, ";");
            },
            Stmt::Return { keyword, value } => match value {
                Some(result) => {
                    put(&mut out, "return ");
                    put_bytes(&mut out, &result.to_source());
                    put(&mut out, ";");
                },
                None => {
                    put(&mut out, "return;");
                },
            },
            Stmt::Var { name, initializer } => {
                put(&mut out, "var ");
                put_bytes(&mut out, &name.lexeme);
                put(&mut out, " = ");
                put_bytes(&mut out, &initializer.to_source());
                put(&mut out, ";");
            },
            Stmt::While { condition, body } => {
                put(&mut out, "while (");
                put_bytes(&mut out, &condition.to_source());
                put(&mut out, ") ");
                put_bytes(&mut out, &body.to_braced());
            },
        }
        assert(out@ =~= stmt_source(self@));
        out
    }
}

/// The statements of a program as program text, each on a line of its own.
pub fn to_source(statements: &Vec<Stmt>) -> (text: Vec<u8>)
    ensures
        text@ == program_source(stmt_views(statements@), statements.len() as nat),
{
    let mut out: Vec<u8> = Vec::new();
    let mut i: usize = 0;
    while i < statements.len()
        invariant
            i <= statements.len(),
            out@ == program_source(stmt_views(statements@), i as nat),
        decreases statements.len() - i,
    {
        let line = statements[i].to_source();
        put_bytes(&mut out, &line);
        put(&mut out, "\n");
        i += 1;
        assert(stmt_views(statements@)[i - 1] == statements@[i - 1]@);
        assert(out@ =~= program_source(stmt_views(statements@), i as nat));
    }
    out
}

} // verus!
