//! Statements of the syntax tree, and the mathematical view of the whole tree.
use crate::expression::{expr_views, Expr, ExprView};
use crate::scanner::{Token, TokenView};
use std::rc::Rc;
use vstd::prelude::*;

verus! {

#[derive(Debug)]
#[allow(inconsistent_fields)]
pub enum Stmt {
    Block { statements: Rc<Vec<Stmt>> },
    Expression { expression: Rc<Expr> },
    Function { name: Token, params: Rc<Vec<Token>>, body: Rc<Vec<Stmt>> },
    If { condition: Rc<Expr>, then_stmt: Rc<Stmt>, else_stmt: Option<Rc<Stmt>> },
    Print { expression: Rc<Expr> },
    Return { keyword: Token, value: Option<Rc<Expr>> },
    Var { name: Token, initializer: Rc<Expr> },
    While { condition: Rc<Expr>, body: Rc<Stmt> },
}

#[allow(inconsistent_fields)]
pub enum StmtView {
    Block { statements: Seq<StmtView> },
    Expression { expression: ExprView },
    Function { name: TokenView, params: Seq<TokenView>, body: Seq<StmtView> },
    If { condition: ExprView, then_stmt: Box<StmtView>, else_stmt: Option<Box<StmtView>> },
    Print { expression: ExprView },
    Return { keyword: TokenView, value: Option<ExprView> },
    Var { name: TokenView, initializer: ExprView },
    While { condition: ExprView, body: Box<StmtView> },
}

/// The tree that an expression stands for, without the pointers that hold it together.
pub open spec fn expr_view(e: Expr) -> ExprView
    decreases e,
{
    match e {
        Expr::Assign { name, value } => ExprView::Assign {
            name: name@,
            value: Box::new(expr_view(*value)),
        },
        Expr::Binary { left, operator, right } => ExprView::Binary {
            left: Box::new(expr_view(*left)),
            operator: operator@,
            right: Box::new(expr_view(*right)),
        },
        Expr::Call { callee, paren, arguments } => ExprView::Call {
            callee: Box::new(expr_view(*callee)),
            paren: paren@,
            arguments: Seq::new(
                arguments.len() as nat,
                |i: int|
                    if 0 <= i < arguments.len() {
                        expr_view((*arguments)[i])
                    } else {
                        arbitrary()
                    },
            ),
        },
        Expr::Grouping { expression } => ExprView::Grouping {
            expression: Box::new(expr_view(*expression)),
        },
        Expr::Lambda { paren, params, body } => ExprView::Lambda {
            paren: paren@,
            params: crate::scanner::token_views(params@),
            body: Seq::new(
                body.len() as nat,
                |i: int|
                    if 0 <= i < body.len() {
                        stmt_view((*body)[i])
                    } else {
                        arbitrary()
                    },
            ),
        },
        Expr::Literal { value } => ExprView::Literal { value: value@ },
        Expr::Logical { left, operator, right } => ExprView::Logical {
            left: Box::new(expr_view(*left)),
            operator: operator@,
            right: Box::new(expr_view(*right)),
        },
        Expr::Unary { operator, right } => ExprView::Unary {
            operator: operator@,
            right: Box::new(expr_view(*right)),
        },
        Expr::Variable { name } => ExprView::Variable { name: name@ },
    }
}

/// The tree that a statement stands for, without the pointers that hold it together.
pub open spec fn stmt_view(s: Stmt) -> StmtView
    decreases s,
{
    match s {
        Stmt::Block { statements } => StmtView::Block {
            statements: Seq::new(
                statements.len() as nat,
                |i: int|
                    if 0 <= i < statements.len() {
                        stmt_view((*statements)[i])
                    } else {
                        arbitrary()
                    },
            ),
        },
        Stmt::Expression { expression } => StmtView::Expression {
            expression: expr_view(*expression),
        },
        Stmt::Function { name, params, body } => StmtView::Function {
            name: name@,
            params: crate::scanner::token_views(params@),
            body: Seq::new(
                body.len() as nat,
                |i: int|
                    if 0 <= i < body.len() {
                        stmt_view((*body)[i])
                    } else {
                        arbitrary()
                    },
            ),
        },
        Stmt::If { condition, then_stmt, else_stmt } => StmtView::If {
            condition: expr_view(*condition),
            then_stmt: Box::new(stmt_view(*then_stmt)),
            else_stmt: match else_stmt {
                Some(other) => Some(Box::new(stmt_view(*other))),
                None => None,
            },
        },
        Stmt::Print { expression } => StmtView::Print { expression: expr_view(*expression) },
        Stmt::Return { keyword, value } => StmtView::Return {
            keyword: keyword@,
            value: match value {
                Some(result) => Some(expr_view(*result)),
                None => None,
            },
        },
        Stmt::Var { name, initializer } => StmtView::Var {
            name: name@,
            initializer: expr_view(*initializer),
        },
        Stmt::While { condition, body } => StmtView::While {
            condition: expr_view(*condition),
            body: Box::new(stmt_view(*body)),
        },
    }
}

impl View for Stmt {
    type V = StmtView;

    open spec fn view(&self) -> StmtView {
        stmt_view(*self)
    }
}

/// The views of a sequence of statements, one for one.
pub open spec fn stmt_views(statements: Seq<Stmt>) -> Seq<StmtView> {
    Seq::new(statements.len(), |i: int| statements[i]@)
}

/// What the view of a tree holds for a list of statements or expressions is the list of
/// their views.
pub proof fn lemma_views_of_lists(e: Expr, s: Stmt)
    ensures
        e matches Expr::Call { arguments, .. } ==> e@->Call_arguments == expr_views(arguments@),
        e matches Expr::Lambda { body, .. } ==> e@->Lambda_body == stmt_views(body@),
        s matches Stmt::Block { statements } ==> s@->Block_statements == stmt_views(statements@),
        s matches Stmt::Function { body, .. } ==> s@->Function_body == stmt_views(body@),
{
    match e {
        Expr::Call { arguments, .. } => {
            assert(e@->Call_arguments =~= expr_views(arguments@));
        },
        Expr::Lambda { body, .. } => {
            assert(e@->Lambda_body =~= stmt_views(body@));
        },
        _ => {},
    }
    match s {
        Stmt::Block { statements } => {
            assert(s@->Block_statements =~= stmt_views(statements@));
        },
        Stmt::Function { body, .. } => {
            assert(s@->Function_body =~= stmt_views(body@));
        },
        _ => {},
    }
}

} // verus!
