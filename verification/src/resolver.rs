//! A check of a program before it runs: for every use of a variable that is declared in
//! a block or a function, how many scopes out from the use the declaration stands, and
//! what is wrong with the declarations and the `return`s of the program.
//!
//! The interpreter does not need the check: it looks names up when they are read.
use crate::expression::{expr_views, Expr, ExprView};
use crate::scanner::{token_views, Token, TokenView};
use crate::statement::{lemma_views_of_lists, stmt_views, Stmt, StmtView};
use crate::text::{copy, same};
use vstd::prelude::*;

verus! {

#[derive(Debug, Clone, Copy, PartialEq, Eq, Structural)]
pub enum ResolveErrorKind {
    /// A `return` that is in no function.
    ReturnOutsideFunction,
    /// A variable that is read in the expression that gives it its first value.
    OwnInitializer,
    /// A name that is declared twice in one block or function.
    AlreadyDeclared,
}

/// What is wrong, and the line of the token that it is about.
#[derive(Debug, Clone, Copy, PartialEq, Eq, Structural)]
pub struct ResolveError {
    pub kind: ResolveErrorKind,
    pub line: usize,
}

/// A name of a scope, and whether it has been given its value.
#[derive(Debug)]
pub struct Declared {
    pub name: Vec<u8>,
    pub defined: bool,
}

/// A use of a variable of a block or a function: the name, the line of the use, and how
/// many scopes out from the use the variable is declared.
#[derive(Debug, PartialEq, Eq)]
pub struct Resolution {
    pub name: Vec<u8>,
    pub line: usize,
    pub depth: usize,
}

pub struct ResolutionView {
    pub name: Seq<u8>,
    pub line: usize,
    pub depth: nat,
}

impl View for Resolution {
    type V = ResolutionView;

    open spec fn view(&self) -> ResolutionView {
        ResolutionView { name: self.name@, line: self.line, depth: self.depth as nat }
    }
}

pub struct ResolverView {
    /// Whether what is checked stands in a function.
    pub in_function: bool,
    /// The scopes of blocks and functions around what is checked, the innermost last. The
    /// global scope is not among them.
    pub scopes: Seq<Seq<(Seq<u8>, bool)>>,
    /// The uses of variables that were found.
    pub resolved: Seq<ResolutionView>,
}

/// A state of the check, and what was found wrong on the way to it.
pub struct Checked {
    pub state: ResolverView,
    pub error: Option<ResolveError>,
}

/// Where `name` stands in a scope: the index of its first entry from `from` on.
pub open spec fn entry(scope: Seq<(Seq<u8>, bool)>, name: Seq<u8>, from: int) -> Option<int>
    decreases scope.len() - from,
{
    if from < 0 || from >= scope.len() {
        None
    } else if scope[from].0 == name {
        Some(from)
    } else {
        entry(scope, name, from + 1)
    }
}

/// How many scopes out from scope `at` the nearest scope with `name` is.
pub open spec fn distance(scopes: Seq<Seq<(Seq<u8>, bool)>>, name: Seq<u8>, at: int) -> Option<nat>
    decreases at + 1,
{
    if at < 0 || at >= scopes.len() {
        None
    } else if entry(scopes[at], name, 0) is Some {
        Some((scopes.len() - 1 - at) as nat)
    } else {
        distance(scopes, name, at - 1)
    }
}

pub open spec fn fine(state: ResolverView) -> Checked {
    Checked { state, error: None }
}

pub open spec fn wrong(state: ResolverView, kind: ResolveErrorKind, line: usize) -> Checked {
    Checked { state, error: Some(ResolveError { kind, line }) }
}

impl ResolverView {
    pub open spec fn begin_scope(self) -> ResolverView {
        ResolverView { scopes: self.scopes.push(Seq::empty()), ..self }
    }

    pub open spec fn end_scope(self) -> ResolverView {
        if self.scopes.len() == 0 {
            self
        } else {
            ResolverView { scopes: self.scopes.drop_last(), ..self }
        }
    }

    /// The innermost scope with `name` in it, marked as having its value or not.
    pub open spec fn mark(self, name: Seq<u8>, defined: bool) -> ResolverView {
        if self.scopes.len() == 0 {
            self
        } else {
            let scope = self.scopes.last();
            let marked = match entry(scope, name, 0) {
                Some(at) => scope.update(at, (name, defined)),
                None => scope.push((name, defined)),
            };
            ResolverView { scopes: self.scopes.update(self.scopes.len() - 1, marked), ..self }
        }
    }

    /// A declaration: the name is new in the innermost scope and has no value yet. In the
    /// global scope everything may be declared again.
    pub open spec fn declare(self, name: TokenView) -> Checked {
        if self.scopes.len() > 0 && entry(self.scopes.last(), name.lexeme, 0) is Some {
            wrong(self, ResolveErrorKind::AlreadyDeclared, name.line)
        } else {
            fine(self.mark(name.lexeme, false))
        }
    }

    pub open spec fn define(self, name: TokenView) -> ResolverView {
        self.mark(name.lexeme, true)
    }

    /// A use of a name: where a scope of a block or function declares it, the use is noted
    /// with the distance of the nearest such scope.
    pub open spec fn resolve_local(self, name: TokenView) -> ResolverView {
        match distance(self.scopes, name.lexeme, self.scopes.len() - 1) {
            Some(depth) => ResolverView {
                resolved: self.resolved.push(
                    ResolutionView { name: name.lexeme, line: name.line, depth },
                ),
                ..self
            },
            None => self,
        }
    }

    /// Whether `name` is declared in the innermost scope and has no value yet.
    pub open spec fn pending(self, name: Seq<u8>) -> bool {
        self.scopes.len() > 0 && match entry(self.scopes.last(), name, 0) {
            Some(at) => !self.scopes.last()[at].1,
            None => false,
        }
    }

    /// The parameters from `from` on declared, each with its value.
    pub open spec fn parameters(self, params: Seq<TokenView>, from: nat) -> Checked
        decreases params.len() - from,
    {
        if from >= params.len() {
            fine(self)
        } else {
            let declared = self.declare(params[from as int]);
            if declared.error is Some {
                declared
            } else {
                declared.state.define(params[from as int]).parameters(params, from + 1)
            }
        }
    }
}

/// The check of the expressions from `from` on.
pub open spec fn resolve_exprs(state: ResolverView, exprs: Seq<ExprView>, from: nat) -> Checked
    decreases exprs, exprs.len() - from,
{
    if from >= exprs.len() {
        fine(state)
    } else {
        let first = resolve_expr(state, exprs[from as int]);
        if first.error is Some {
            first
        } else {
            resolve_exprs(first.state, exprs, from + 1)
        }
    }
}

/// The check of the statements from `from` on.
pub open spec fn resolve_stmts(state: ResolverView, stmts: Seq<StmtView>, from: nat) -> Checked
    decreases stmts, stmts.len() - from,
{
    if from >= stmts.len() {
        fine(state)
    } else {
        let first = resolve_stmt(state, stmts[from as int]);
        if first.error is Some {
            first
        } else {
            resolve_stmts(first.state, stmts, from + 1)
        }
    }
}

/// The check of a function: its parameters and its body are in a scope of their own, and
/// a `return` in the body is in a function.
pub open spec fn resolve_function(
    state: ResolverView,
    params: Seq<TokenView>,
    body: Seq<StmtView>,
) -> Checked
    decreases body, body.len() + 1,
{
    let inside = ResolverView { in_function: true, ..state.begin_scope() };
    let declared = inside.parameters(params, 0);
    if declared.error is Some {
        declared
    } else {
        let checked = resolve_stmts(declared.state, body, 0);
        if checked.error is Some {
            checked
        } else {
            fine(ResolverView { in_function: state.in_function, ..checked.state.end_scope() })
        }
    }
}

/// The check of an expression.
pub open spec fn resolve_expr(state: ResolverView, e: ExprView) -> Checked
    decreases e, 0nat,
{
    match e {
        ExprView::Assign { name, value } => {
            let first = resolve_expr(state, *value);
            if first.error is Some {
                first
            } else {
                fine(first.state.resolve_local(name))
            }
        },
        ExprView::Binary { left, operator, right } => {
            let first = resolve_expr(state, *left);
            if first.error is Some {
                first
            } else {
                resolve_expr(first.state, *right)
            }
        },
        ExprView::Call { callee, paren, arguments } => {
            let first = resolve_expr(state, *callee);
            if first.error is Some {
                first
            } else {
                resolve_exprs(first.state, arguments, 0)
            }
        },
        ExprView::Grouping { expression } => resolve_expr(state, *expression),
        ExprView::Lambda { paren, params, body } => resolve_function(state, params, body),
        ExprView::Literal { value } => fine(state),
        ExprView::Logical { left, operator, right } => {
            let first = resolve_expr(state, *left);
            if first.error is Some {
                first
            } else {
                resolve_expr(first.state, *right)
            }
        },
        ExprView::Unary { operator, right } => resolve_expr(state, *right),
        ExprView::Variable { name } => if state.pending(name.lexeme) {
            wrong(state, ResolveErrorKind::OwnInitializer, name.line)
        } else {
            fine(state.resolve_local(name))
        },
    }
}

/// The check of a statement.
pub open spec fn resolve_stmt(state: ResolverView, s: StmtView) -> Checked
    decreases s, 0nat,
{
    match s {
        StmtView::Block { statements } => {
            let inner = resolve_stmts(state.begin_scope(), statements, 0);
            if inner.error is Some {
                inner
            } else {
                fine(inner.state.end_scope())
            }
        },
        StmtView::Expression { expression } => resolve_expr(state, expression),
        StmtView::Function { name, params, body } => {
            let declared = state.declare(name);
            if declared.error is Some {
                declared
            } else {
                resolve_function(declared.state.define(name), params, body)
            }
        },
        StmtView::If { condition, then_stmt, else_stmt } => {
            let first = resolve_expr(state, condition);
            if first.error is Some {
                first
            } else {
                let second = resolve_stmt(first.state, *then_stmt);
                if second.error is Some {
                    second
                } else {
                    match else_stmt {
                        Some(other) => resolve_stmt(second.state, *other),
                        None => second,
                    }
                }
            }
        },
        StmtView::Print { expression } => resolve_expr(state, expression),
        StmtView::Return { keyword, value } => if !state.in_function {
            wrong(state, ResolveErrorKind::ReturnOutsideFunction, keyword.line)
        } else {
            match value {
                Some(result) => resolve_expr(state, result),
                None => fine(state),
            }
        },
        StmtView::Var { name, initializer } => {
            let declared = state.declare(name);
            if declared.error is Some {
                declared
            } else {
                let first = resolve_expr(declared.state, initializer);
                if first.error is Some {
                    first
                } else {
                    fine(first.state.define(name))
                }
            }
        },
        StmtView::While { condition, body } => {
            let first = resolve_expr(state, condition);
            if first.error is Some {
                first
            } else {
                resolve_stmt(first.state, *body)
            }
        },
    }
}

pub open spec fn declared_views(scope: Seq<Declared>) -> Seq<(Seq<u8>, bool)> {
    Seq::new(scope.len(), |i: int| (scope[i].name@, scope[i].defined))
}

pub open spec fn scope_views(scopes: Seq<Vec<Declared>>) -> Seq<Seq<(Seq<u8>, bool)>> {
    Seq::new(scopes.len(), |i: int| declared_views(scopes[i]@))
}

pub open spec fn resolution_views(resolved: Seq<Resolution>) -> Seq<ResolutionView> {
    Seq::new(resolved.len(), |i: int| resolved[i]@)
}

pub struct Resolver {
    in_function: bool,
    scopes: Vec<Vec<Declared>>,
    resolved: Vec<Resolution>,
}

impl View for Resolver {
    type V = ResolverView;

    closed spec fn view(&self) -> ResolverView {
        ResolverView {
            in_function: self.in_function,
            scopes: scope_views(self.scopes@),
            resolved: resolution_views(self.resolved@),
        }
    }
}

/// What a check gave, as a state and what was found wrong.
pub open spec fn checked(state: ResolverView, outcome: Result<(), ResolveError>) -> Checked {
    Checked {
        state,
        error: match outcome {
            Ok(_) => None,
            Err(error) => Some(error),
        },
    }
}

/// Where `name` stands in a scope.
fn find(scope: &Vec<Declared>, name: &Vec<u8>) -> (found: Option<usize>)
    ensures
        match found {
            Some(at) => at < scope.len() && entry(declared_views(scope@), name@, 0) == Some(
                at as int,
            ),
            None => entry(declared_views(scope@), name@, 0).is_none(),
        },
{
    let mut i: usize = 0;
    while i < scope.len()
        invariant
            i <= scope.len(),
            entry(declared_views(scope@), name@, i as int) == entry(
                declared_views(scope@),
                name@,
                0,
            ),
        decreases scope.len() - i,
    {
        if same(&scope[i].name, name) {
            return Some(i);
        }
        i += 1;
    }
    None
}

impl Resolver {
    /// A check that is at the start of a program: in no function, block or scope.
    pub fn new() -> (resolver: Resolver)
        ensures
            resolver@ == (ResolverView {
                in_function: false,
                scopes: Seq::empty(),
                resolved: Seq::empty(),
            }),
    {
        let resolver = Resolver { in_function: false, scopes: Vec::new(), resolved: Vec::new() };
        assert(resolver@.scopes =~= Seq::empty());
        assert(resolver@.resolved =~= Seq::empty());
        resolver
    }

    /// Checks statements, one after the other, up to the first that has something wrong.
    pub fn resolve_many(&mut self, statements: &Vec<Stmt>) -> (outcome: Result<(), ResolveError>)
        ensures
            checked(final(self)@, outcome) == resolve_stmts(old(self)@, stmt_views(statements@), 0),
        decreases statements, statements.len() + 2,
    {
        let mut i: usize = 0;
        while i < statements.len()
            invariant
                i <= statements.len(),
                resolve_stmts(self@, stmt_views(statements@), i as nat) == resolve_stmts(
                    old(self)@,
                    stmt_views(statements@),
                    0,
                ),
            decreases statements.len() - i,
        {
            assert(stmt_views(statements@)[i as int] == statements@[i as int]@);
            match self.resolve_stmt(&statements[i]) {
                Err(error) => {
                    return Err(error);
                },
                Ok(_) => {},
            }
            i += 1;
        }
        Ok(())
    }

    /// The uses of variables of blocks and functions that were found, in the order in which
    /// they were found.
    pub fn resolutions(&self) -> (resolved: &Vec<Resolution>)
        ensures
            resolution_views(resolved@) == self@.resolved,
    {
        &self.resolved
    }

    fn begin_scope(&mut self)
        ensures
            final(self)@ == old(self)@.begin_scope(),
    {
        self.scopes.push(Vec::new());
        assert(self@.scopes =~~= old(self)@.begin_scope().scopes);
    }

    fn end_scope(&mut self)
        ensures
            final(self)@ == old(self)@.end_scope(),
    {
        let _ = self.scopes.pop();
        assert(self@.scopes =~~= old(self)@.end_scope().scopes);
    }

    fn mark(&mut self, name: &Vec<u8>, defined: bool)
        ensures
            final(self)@ == old(self)@.mark(name@, defined),
    {
        let count = self.scopes.len();
        if count == 0 {
            return ;
        }
        let ghost before = self.scopes@;
        match find(&self.scopes[count - 1], name) {
            Some(at) => {
                self.scopes[count - 1].set(at, Declared { name: copy(name), defined });
                assert(declared_views(self.scopes@[count - 1]@) =~= declared_views(
                    before[count - 1]@,
                ).update(at as int, (name@, defined)));
            },
            None => {
                self.scopes[count - 1].push(Declared { name: copy(name), defined });
                assert(declared_views(self.scopes@[count - 1]@) =~= declared_views(
                    before[count - 1]@,
                ).push((name@, defined)));
            },
        }
        assert(forall|i: int| 0 <= i < count - 1 ==> self.scopes@[i] == before[i]);
        assert(self@.scopes =~= old(self)@.mark(name@, defined).scopes);
    }

    fn declare(&mut self, name: &Token) -> (outcome: Result<(), ResolveError>)
        ensures
            checked(final(self)@, outcome) == old(self)@.declare(name@),
    {
        let count = self.scopes.len();
        if count > 0 {
            assert(self@.scopes[count - 1] == declared_views(self.scopes@[count - 1]@));
            if find(&self.scopes[count - 1], &name.lexeme).is_some() {
                return Err(
                    ResolveError { kind: ResolveErrorKind::AlreadyDeclared, line: name.line },
                );
            }
        }
        self.mark(&name.lexeme, false);
        Ok(())
    }

    fn define(&mut self, name: &Token)
        ensures
            final(self)@ == old(self)@.define(name@),
    {
        self.mark(&name.lexeme, true);
    }

    fn resolve_local(&mut self, name: &Token)
        ensures
            final(self)@ == old(self)@.resolve_local(name@),
    {
        let count = self.scopes.len();
        let mut at: usize = count;
        while at > 0
            invariant
                at <= count == self.scopes.len(),
                self.scopes == old(self).scopes,
                self.resolved == old(self).resolved,
                self.in_function == old(self).in_function,
                distance(self@.scopes, name@.lexeme, at - 1) == distance(
                    self@.scopes,
                    name@.lexeme,
                    count - 1,
                ),
            decreases at,
        {
            at -= 1;
            assert(self@.scopes[at as int] == declared_views(self.scopes@[at as int]@));
            if find(&self.scopes[at], &name.lexeme).is_some() {
                self.resolved.push(
                    Resolution { name: copy(&name.lexeme), line: name.line, depth: count - 1 - at },
                );
                assert(self@.resolved =~= old(self)@.resolve_local(name@).resolved);
                return ;
            }
        }
    }

    fn pending(&self, name: &Vec<u8>) -> (yes: bool)
        ensures
            yes == self@.pending(name@),
    {
        let count = self.scopes.len();
        if count == 0 {
            return false;
        }
        assert(self@.scopes[count - 1] == declared_views(self.scopes@[count - 1]@));
        match find(&self.scopes[count - 1], name) {
            Some(at) => !self.scopes[count - 1][at].defined,
            None => false,
        }
    }

    fn resolve_function(&mut self, params: &Vec<Token>, body: &Vec<Stmt>) -> (outcome: Result<
        (),
        ResolveError,
    >)
        ensures
            checked(final(self)@, outcome) == resolve_function(
                old(self)@,
                token_views(params@),
                stmt_views(body@),
            ),
        decreases body, body.len() + 3,
    {
        let enclosing = self.in_function;
        self.begin_scope();
        self.in_function = true;
        let ghost inside = self@;
        let mut i: usize = 0;
        while i < params.len()
            invariant
                i <= params.len(),
                inside == (ResolverView { in_function: true, ..old(self)@.begin_scope() }),
                self@.parameters(token_views(params@), i as nat) == inside.parameters(
                    token_views(params@),
                    0,
                ),
            decreases params.len() - i,
        {
            assert(token_views(params@)[i as int] == params@[i as int]@);
            match self.declare(&params[i]) {
                Err(error) => {
                    return Err(error);
                },
                Ok(_) => {},
            }
            self.define(&params[i]);
            i += 1;
        }
        match self.resolve_many(body) {
            Err(error) => {
                return Err(error);
            },
            Ok(_) => {},
        }
        self.end_scope();
        self.in_function = enclosing;
        Ok(())
    }

    fn resolve_expr(&mut self, expression: &Expr) -> (outcome: Result<(), ResolveError>)
        ensures
            checked(final(self)@, outcome) == resolve_expr(old(self)@, expression@),
        decreases expression, 0nat,
    {
        proof {
            lemma_views_of_lists(*expression, Stmt::Return { keyword: arbitrary(), value: None });
        }
        match expression {
            Expr::Assign { name, value } => {
                match self.resolve_expr(value) {
                    Err(error) => {
                        return Err(error);
                    },
                    Ok(_) => {},
                }
                self.resolve_local(name);
                Ok(())
            },
            Expr::Binary { left, operator, right } => {
                match self.resolve_expr(left) {
                    Err(error) => {
                        return Err(error);
                    },
                    Ok(_) => {},
                }
                self.resolve_expr(right)
            },
            Expr::Call { callee, paren, arguments } => {
                match self.resolve_expr(callee) {
                    Err(error) => {
                        return Err(error);
                    },
                    Ok(_) => {},
                }
                let ghost start = self@;
                assert(resolve_expr(old(self)@, expression@) == resolve_exprs(
                    start,
                    expr_views(arguments@),
                    0,
                ));
                let mut i: usize = 0;
                while i < arguments.len()
                    invariant
                        i <= arguments.len(),
                        expression matches Expr::Call { arguments: held, .. } && held == arguments,
                        resolve_expr(old(self)@, expression@) == resolve_exprs(
                            start,
                            expr_views(arguments@),
                            0,
                        ),
                        resolve_exprs(self@, expr_views(arguments@), i as nat) == resolve_exprs(
                            start,
                            expr_views(arguments@),
                            0,
                        ),
                    decreases arguments.len() - i,
                {
                    assert(expr_views(arguments@)[i as int] == arguments@[i as int]@);
                    match self.resolve_expr(&arguments[i]) {
                        Err(error) => {
                            return Err(error);
                        },
                        Ok(_) => {},
                    }
                    i += 1;
                }
                Ok(())
            },
            Expr::Grouping { expression } => self.resolve_expr(expression),
            Expr::Lambda { paren, params, body } => self.resolve_function(params, body),
            Expr::Literal { value } => Ok(()),
            Expr::Logical { left, operator, right } => {
                match self.resolve_expr(left) {
                    Err(error) => {
                        return Err(error);
                    },
                    Ok(_) => {},
                }
                self.resolve_expr(right)
            },
            Expr::Unary { operator, right } => self.resolve_expr(right),
            Expr::Variable { name } => {
                if self.pending(&name.lexeme) {
                    return Err(
                        ResolveError { kind: ResolveErrorKind::OwnInitializer, line: name.line },
                    );
                }
                self.resolve_local(name);
                Ok(())
            },
        }
    }

    fn resolve_stmt(&mut self, statement: &Stmt) -> (outcome: Result<(), ResolveError>)
        ensures
            checked(final(self)@, outcome) == resolve_stmt(old(self)@, statement@),
        decreases statement, 0nat,
    {
        proof {
            lemma_views_of_lists(
                Expr::Literal { value: crate::expression::Constant::Nil },
                *statement,
            );
        }
        match statement {
            Stmt::Block { statements } => {
                self.begin_scope();
                match self.resolve_many(statements) {
                    Err(error) => {
                        return Err(error);
                    },
                    Ok(_) => {},
                }
                self.end_scope();
                Ok(())
            },
            Stmt::Expression { expression } => self.resolve_expr(expression),
            Stmt::Function { name, params, body } => {
                match self.declare(name) {
                    Err(error) => {
                        return Err(error);
                    },
                    Ok(_) => {},
                }
                self.define(name);
                self.resolve_function(params, body)
            },
            Stmt::If { condition, then_stmt, else_stmt } => {
                match self.resolve_expr(condition) {
                    Err(error) => {
                        return Err(error);
                    },
                    Ok(_) => {},
                }
                match self.resolve_stmt(then_stmt) {
                    Err(error) => {
                        return Err(error);
                    },
                    Ok(_) => {},
                }
                match else_stmt {
                    Some(other) => self.resolve_stmt(other),
                    None => Ok(()),
                }
            },
            Stmt::Print { expression } => self.resolve_expr(expression),
            Stmt::Return { keyword, value } => {
                if !self.in_function {
                    return Err(
                        ResolveError {
                            kind: ResolveErrorKind::ReturnOutsideFunction,
                            line: keyword.line,
                        },
                    );
                }
                match value {
                    Some(result) => self.resolve_expr(result),
                    None => Ok(()),
                }
            },
            Stmt::Var { name, initializer } => {
                match self.declare(name) {
                    Err(error) => {
                        return Err(error);
                    },
                    Ok(_) => {},
                }
                match self.resolve_expr(initializer) {
                    Err(error) => {
                        return Err(error);
                    },
                    Ok(_) => {},
                }
                self.define(name);
                Ok(())
            },
            Stmt::While { condition, body } => {
                match self.resolve_expr(condition) {
                    Err(error) => {
                        return Err(error);
                    },
                    Ok(_) => {},
                }
                self.resolve_stmt(body)
            },
        }
    }
}

} // verus!
