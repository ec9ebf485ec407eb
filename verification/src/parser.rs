//! The parser: tokens to statements, by recursive descent along the grammar of `grammar`.
use crate::expression::{expr_views, Constant, Expr, ExprView};
use crate::grammar;
use crate::grammar::{remaining, ParseError, ParseErrorKind, Parsed, Place};
use crate::scanner::{token_views, LiteralValue, Token, TokenType, TokenView};
use crate::statement::{lemma_views_of_lists, stmt_views, Stmt, StmtView};
use crate::text::copy;
use std::rc::Rc;
use vstd::prelude::*;

verus! {

pub open spec fn expr_parsed(outcome: Result<Expr, ParseErrorKind>, next: int) -> Parsed<ExprView> {
    Parsed {
        outcome: match outcome {
            Ok(expr) => Ok(expr@),
            Err(kind) => Err(kind),
        },
        next,
    }
}

pub open spec fn stmt_parsed(outcome: Result<Stmt, ParseErrorKind>, next: int) -> Parsed<StmtView> {
    Parsed {
        outcome: match outcome {
            Ok(stmt) => Ok(stmt@),
            Err(kind) => Err(kind),
        },
        next,
    }
}

pub open spec fn stmts_parsed(outcome: Result<Vec<Stmt>, ParseErrorKind>, next: int) -> Parsed<
    Seq<StmtView>,
> {
    Parsed {
        outcome: match outcome {
            Ok(stmts) => Ok(stmt_views(stmts@)),
            Err(kind) => Err(kind),
        },
        next,
    }
}

impl Constant {
    /// The constant that a literal token stands for, where the token is one and carries
    /// what it stands for.
    pub fn from_token(token: &Token) -> (constant: Option<Constant>)
        ensures
            match constant {
                Some(value) => grammar::constant_of(token@) == Some(value@),
                None => grammar::constant_of(token@).is_none(),
            },
    {
        match token.token_type {
            TokenType::Number => match &token.literal {
                Some(LiteralValue::Number(digits)) => Some(Constant::Number(copy(digits))),
                _ => None,
            },
            TokenType::StringLit => match &token.literal {
                Some(LiteralValue::StringValue(bytes)) => Some(Constant::Text(copy(bytes))),
                _ => None,
            },
            TokenType::False => Some(Constant::False),
            TokenType::True => Some(Constant::True),
            TokenType::Nil => Some(Constant::Nil),
            _ => None,
        }
    }
}

/// The two statements of a block that holds two.
fn pair(first: Stmt, second: Stmt) -> (statements: Rc<Vec<Stmt>>)
    ensures
        stmt_views(statements@) == seq![first@, second@],
{
    let mut statements: Vec<Stmt> = Vec::new();
    statements.push(first);
    statements.push(second);
    assert(stmt_views(statements@) =~= seq![first@, second@]);
    Rc::new(statements)
}

/// The loop that a `for` stands for.
fn for_loop(
    initializer: Option<Stmt>,
    condition: Expr,
    increment: Option<Expr>,
    body: Stmt,
) -> (looped: Stmt)
    ensures
        looped@ == grammar::for_loop(
            match initializer {
                Some(first) => Some(first@),
                None => None,
            },
            condition@,
            match increment {
                Some(step) => Some(step@),
                None => None,
            },
            body@,
        ),
{
    let stepped = match increment {
        Some(step) => {
            let block = Stmt::Block {
                statements: pair(body, Stmt::Expression { expression: Rc::new(step) }),
            };
            proof {
                lemma_views_of_lists(Expr::Literal { value: Constant::Nil }, block);
            }
            block
        },
        None => body,
    };
    let looped = Stmt::While { condition: Rc::new(condition), body: Rc::new(stepped) };
    match initializer {
        Some(first) => {
            let block = Stmt::Block { statements: pair(first, looped) };
            proof {
                lemma_views_of_lists(Expr::Literal { value: Constant::Nil }, block);
            }
            block
        },
        None => looped,
    }
}

pub struct Parser {
    tokens: Vec<Token>,
    current: usize,
}

impl Parser {
    /// The tokens that are parsed.
    pub closed spec fn input(&self) -> Seq<TokenView> {
        token_views(self.tokens@)
    }

    /// The position of the token that is read next.
    pub closed spec fn position(&self) -> int {
        self.current as int
    }

    pub closed spec fn wf(&self) -> bool {
        self.current <= self.tokens.len()
    }

    /// Whether this is the parser `before` after it has read on.
    pub closed spec fn follows(&self, before: &Parser) -> bool {
        &&& self.tokens == before.tokens
        &&& before.current <= self.current
        &&& self.wf()
    }

    /// A parser at the first of the tokens.
    pub fn new(tokens: Vec<Token>) -> (parser: Parser)
        ensures
            parser.wf(),
            parser.input() == token_views(tokens@),
            parser.position() == 0,
    {
        Parser { tokens, current: 0 }
    }

    /// The kind of the token that is read next.
    fn kind(&self) -> (token_type: TokenType)
        requires
            self.wf(),
        ensures
            token_type == grammar::kind_at(self.input(), self.position()),
    {
        if self.current < self.tokens.len() {
            assert(self.input()[self.current as int] == self.tokens@[self.current as int]@);
            self.tokens[self.current].token_type
        } else {
            TokenType::Eof
        }
    }

    fn is_at_end(&self) -> (yes: bool)
        requires
            self.wf(),
        ensures
            yes == grammar::at_end(self.input(), self.position()),
            !yes ==> self.current < self.tokens.len(),
    {
        self.kind() == TokenType::Eof
    }

    fn check(&self, token_type: TokenType) -> (yes: bool)
        requires
            self.wf(),
        ensures
            yes == grammar::check(self.input(), self.position(), token_type),
            yes ==> self.current < self.tokens.len(),
    {
        let kind = self.kind();
        kind != TokenType::Eof && kind == token_type
    }

    /// A copy of the token at `index`.
    fn token(&self, index: usize) -> (token: Token)
        requires
            index < self.tokens.len(),
        ensures
            token@ == self.input()[index as int],
    {
        assert(self.input()[index as int] == self.tokens@[index as int]@);
        self.tokens[index].clone()
    }

    /// Reads past the next token, which is not the end.
    fn advance(&mut self)
        requires
            old(self).wf(),
            old(self).current < old(self).tokens.len(),
        ensures
            final(self).follows(old(self)),
            final(self).current == old(self).current + 1,
    {
        self.current += 1;
    }

    /// Reads the token of kind `token_type` that has to come next.
    fn consume(&mut self, token_type: TokenType, place: Place) -> (outcome: Result<
        Token,
        ParseErrorKind,
    >)
        requires
            old(self).wf(),
        ensures
            final(self).follows(old(self)),
            final(self).position() == grammar::consume(
                old(self).input(),
                old(self).position(),
                token_type,
                place,
            ).next,
            match outcome {
                Ok(token) => grammar::consume(
                    old(self).input(),
                    old(self).position(),
                    token_type,
                    place,
                ).outcome == Ok::<TokenView, ParseErrorKind>(token@),
                Err(kind) => grammar::consume(
                    old(self).input(),
                    old(self).position(),
                    token_type,
                    place,
                ).outcome == Err::<TokenView, ParseErrorKind>(kind),
            },
    {
        if self.check(token_type) {
            let token = self.token(self.current);
            self.advance();
            Ok(token)
        } else {
            Err(ParseErrorKind::Expected { token: token_type, place })
        }
    }

    #[verifier::spinoff_prover]
    fn primary(&mut self) -> (outcome: Result<Expr, ParseErrorKind>)
        requires
            old(self).wf(),
        ensures
            final(self).follows(old(self)),
            expr_parsed(outcome, final(self).position()) == grammar::primary(
                old(self).input(),
                old(self).position(),
            ),
        decreases remaining(old(self).input(), old(self).position()), 1nat,
    {
        proof {
            reveal(grammar::primary);
        }
        let kind = self.kind();
        if kind == TokenType::Eof {
            Err(ParseErrorKind::ExpectedExpression)
        } else if kind == TokenType::LeftParen {
            self.advance();
            match self.expression() {
                Err(kind) => Err(kind),
                Ok(expr) => match self.consume(TokenType::RightParen, Place::Grouping) {
                    Err(kind) => Err(kind),
                    Ok(_) => Ok(Expr::Grouping { expression: Rc::new(expr) }),
                },
            }
        } else if kind == TokenType::False || kind == TokenType::True || kind == TokenType::Nil
            || kind == TokenType::Number || kind == TokenType::StringLit {
            assert(self.input()[self.current as int] == self.tokens@[self.current as int]@);
            let constant = Constant::from_token(&self.tokens[self.current]);
            self.advance();
            match constant {
                Some(value) => Ok(Expr::Literal { value }),
                None => Err(ParseErrorKind::MissingLiteral),
            }
        } else if kind == TokenType::Identifier {
            let name = self.token(self.current);
            self.advance();
            Ok(Expr::Variable { name })
        } else if kind == TokenType::Fun {
            self.advance();
            self.lambda_expression()
        } else {
            Err(ParseErrorKind::ExpectedExpression)
        }
    }

    /// Reads the names of parameters up to the closing parenthesis.
    #[verifier::spinoff_prover]
    fn parameters(&mut self) -> (outcome: Result<Vec<Token>, ParseErrorKind>)
        requires
            old(self).wf(),
        ensures
            final(self).follows(old(self)),
            final(self).position() == grammar::parameters(
                old(self).input(),
                old(self).position(),
            ).next,
            match outcome {
                Ok(params) => grammar::parameters(old(self).input(), old(self).position()).outcome
                    == Ok::<Seq<TokenView>, ParseErrorKind>(token_views(params@)),
                Err(kind) => grammar::parameters(old(self).input(), old(self).position()).outcome
                    == Err::<Seq<TokenView>, ParseErrorKind>(kind),
            },
    {
        proof {
            reveal(grammar::parameters_rest);
        }
        let mut params: Vec<Token> = Vec::new();
        if self.check(TokenType::RightParen) {
            assert(token_views(params@) =~= Seq::empty());
            return Ok(params);
        }
        assert(token_views(params@) =~= Seq::empty());
        loop
            invariant
                self.follows(old(self)),
                grammar::parameters_rest(self.input(), self.position(), token_views(params@))
                    == grammar::parameters(old(self).input(), old(self).position()),
            decreases remaining(self.input(), self.position()),
        {
            proof {
                reveal(grammar::parameters_rest);
            }
            if params.len() >= 255 {
                return Err(ParseErrorKind::TooManyParameters);
            }
            match self.consume(TokenType::Identifier, Place::ParameterList) {
                Err(kind) => {
                    return Err(kind);
                },
                Ok(name) => {
                    let ghost before = token_views(params@);
                    params.push(name);
                    assert(token_views(params@) =~= before.push(name@));
                },
            }
            if self.check(TokenType::Comma) {
                self.advance();
            } else {
                return Ok(params);
            }
        }
    }

    /// Reads what follows the name of a function or the `fun` of a lambda: the parameters in
    /// their parentheses, and the body.
    #[verifier::spinoff_prover]
    fn function_rest(
        &mut self,
        open_place: Place,
        close_place: Place,
        body_place: Place,
    ) -> (outcome: Result<(Token, Vec<Token>, Vec<Stmt>), ParseErrorKind>)
        requires
            old(self).wf(),
        ensures
            final(self).follows(old(self)),
            final(self).position() == grammar::function_rest(
                old(self).input(),
                old(self).position(),
                open_place,
                close_place,
                body_place,
            ).next,
            match outcome {
                Ok(parts) => grammar::function_rest(
                    old(self).input(),
                    old(self).position(),
                    open_place,
                    close_place,
                    body_place,
                ).outcome == Ok::<(TokenView, Seq<TokenView>, Seq<StmtView>), ParseErrorKind>(
                    (parts.0@, token_views(parts.1@), stmt_views(parts.2@)),
                ) && final(self).current > old(self).current,
                Err(kind) => grammar::function_rest(
                    old(self).input(),
                    old(self).position(),
                    open_place,
                    close_place,
                    body_place,
                ).outcome == Err::<(TokenView, Seq<TokenView>, Seq<StmtView>), ParseErrorKind>(
                    kind,
                ),
            },
        decreases remaining(old(self).input(), old(self).position()), 29nat,
    {
        proof {
            reveal(grammar::function_rest);
        }
        let paren = match self.consume(TokenType::LeftParen, open_place) {
            Err(kind) => {
                return Err(kind);
            },
            Ok(paren) => paren,
        };
        let params = match self.parameters() {
            Err(kind) => {
                return Err(kind);
            },
            Ok(params) => params,
        };
        match self.consume(TokenType::RightParen, close_place) {
            Err(kind) => {
                return Err(kind);
            },
            Ok(_) => {},
        }
        match self.consume(TokenType::LeftBrace, body_place) {
            Err(kind) => {
                return Err(kind);
            },
            Ok(_) => {},
        }
        match self.block_statement() {
            Err(kind) => Err(kind),
            Ok(body) => Ok((paren, params, body)),
        }
    }

    #[verifier::spinoff_prover]
    fn lambda_expression(&mut self) -> (outcome: Result<Expr, ParseErrorKind>)
        requires
            old(self).wf(),
        ensures
            final(self).follows(old(self)),
            expr_parsed(outcome, final(self).position()) == grammar::lambda(
                old(self).input(),
                old(self).position(),
            ),
        decreases remaining(old(self).input(), old(self).position()), 30nat,
    {
        proof {
            reveal(grammar::lambda);
        }
        match self.function_rest(Place::Lambda, Place::LambdaParameters, Place::LambdaDeclaration) {
            Err(kind) => Err(kind),
            Ok(parts) => {
                let lambda = Expr::Lambda {
                    paren: parts.0,
                    params: Rc::new(parts.1),
                    body: Rc::new(parts.2),
                };
                proof {
                    lemma_views_of_lists(
                        lambda,
                        Stmt::Return { keyword: arbitrary(), value: None },
                    );
                }
                Ok(lambda)
            },
        }
    }

    /// Reads the arguments of a call, after the opening parenthesis, and the closing
    /// parenthesis.
    #[verifier::spinoff_prover]
    fn finish_call(&mut self, callee: Expr) -> (outcome: Result<Expr, ParseErrorKind>)
        requires
            old(self).wf(),
            old(self).current > 0,
            grammar::check(old(self).input(), old(self).position() - 1, TokenType::LeftParen),
        ensures
            final(self).follows(old(self)),
            match outcome {
                Ok(call) => final(self).current > old(self).current && grammar::call_rest(
                    old(self).input(),
                    old(self).position() - 1,
                    callee@,
                ) == grammar::call_rest(final(self).input(), final(self).position(), call@),
                Err(kind) => grammar::call_rest(
                    old(self).input(),
                    old(self).position() - 1,
                    callee@,
                ) == grammar::err::<ExprView>(kind, final(self).position()),
            },
        decreases remaining(old(self).input(), old(self).position()), 20nat,
    {
        proof {
            reveal(grammar::call_rest);
            reveal(grammar::arguments_rest);
        }
        let mut arguments: Vec<Expr> = Vec::new();
        assert(expr_views(arguments@) =~= Seq::empty());
        if !self.check(TokenType::RightParen) {
            loop
                invariant_except_break
                    grammar::arguments_rest(self.input(), self.position(), expr_views(arguments@))
                        == grammar::arguments_rest(
                        old(self).input(),
                        old(self).position(),
                        Seq::empty(),
                    ),
                invariant
                    self.follows(old(self)),
                    old(self).current > 0,
                    grammar::check(
                        old(self).input(),
                        old(self).position() - 1,
                        TokenType::LeftParen,
                    ),
                    !grammar::check(old(self).input(), old(self).position(), TokenType::RightParen),
                ensures
                    self.follows(old(self)),
                    !grammar::check(old(self).input(), old(self).position(), TokenType::RightParen),
                    grammar::arguments_rest(
                        old(self).input(),
                        old(self).position(),
                        Seq::empty(),
                    ) == grammar::ok(expr_views(arguments@), self.position()),
                decreases remaining(self.input(), self.position()),
            {
                proof {
                    reveal(grammar::arguments_rest);
                    reveal(grammar::call_rest);
                }
                if arguments.len() >= 255 {
                    return Err(ParseErrorKind::TooManyArguments);
                }
                match self.expression() {
                    Err(kind) => {
                        return Err(kind);
                    },
                    Ok(argument) => {
                        let ghost before = expr_views(arguments@);
                        arguments.push(argument);
                        assert(expr_views(arguments@) =~= before.push(argument@));
                    },
                }
                if self.check(TokenType::Comma) {
                    self.advance();
                } else {
                    break ;
                }
            }
        }
        match self.consume(TokenType::RightParen, Place::Arguments) {
            Err(kind) => Err(kind),
            Ok(paren) => {
                let call = Expr::Call {
                    callee: Rc::new(callee),
                    paren,
                    arguments: Rc::new(arguments),
                };
                proof {
                    lemma_views_of_lists(call, Stmt::Return { keyword: arbitrary(), value: None });
                }
                Ok(call)
            },
        }
    }

    #[verifier::spinoff_prover]
    fn call(&mut self) -> (outcome: Result<Expr, ParseErrorKind>)
        requires
            old(self).wf(),
        ensures
            final(self).follows(old(self)),
            expr_parsed(outcome, final(self).position()) == grammar::call(
                old(self).input(),
                old(self).position(),
            ),
        decreases remaining(old(self).input(), old(self).position()), 2nat,
    {
        proof {
            reveal(grammar::call);
            reveal(grammar::call_rest);
        }
        let mut expr = match self.primary() {
            Err(kind) => {
                return Err(kind);
            },
            Ok(expr) => expr,
        };
        loop
            invariant
                self.follows(old(self)),
                grammar::call_rest(self.input(), self.position(), expr@) == grammar::call(
                    old(self).input(),
                    old(self).position(),
                ),
            decreases remaining(self.input(), self.position()),
        {
            proof {
                reveal(grammar::call_rest);
            }
            if self.check(TokenType::LeftParen) {
                self.advance();
                match self.finish_call(expr) {
                    Err(kind) => {
                        return Err(kind);
                    },
                    Ok(call) => {
                        expr = call;
                    },
                }
            } else {
                return Ok(expr);
            }
        }
    }

    #[verifier::spinoff_prover]
    fn unary(&mut self) -> (outcome: Result<Expr, ParseErrorKind>)
        requires
            old(self).wf(),
        ensures
            final(self).follows(old(self)),
            expr_parsed(outcome, final(self).position()) == grammar::unary(
                old(self).input(),
                old(self).position(),
            ),
        decreases remaining(old(self).input(), old(self).position()), 3nat,
    {
        proof {
            reveal(grammar::unary);
        }
        if self.check(TokenType::Bang) || self.check(TokenType::Minus) {
            let operator = self.token(self.current);
            self.advance();
            match self.unary() {
                Err(kind) => Err(kind),
                Ok(right) => Ok(Expr::Unary { operator, right: Rc::new(right) }),
            }
        } else {
            self.call()
        }
    }

    /// Whether the next token is an infix operator of `level`.
    fn at_infix(&self, level: u8) -> (yes: bool)
        requires
            self.wf(),
        ensures
            yes == (!grammar::at_end(self.input(), self.position()) && grammar::infix(
                level as nat,
                grammar::kind_at(self.input(), self.position()),
            )),
            yes ==> self.current < self.tokens.len(),
    {
        let kind = self.kind();
        if kind == TokenType::Eof {
            false
        } else if level == 0 {
            kind == TokenType::Slash || kind == TokenType::Star
        } else if level == 1 {
            kind == TokenType::Minus || kind == TokenType::Plus
        } else if level == 2 {
            kind == TokenType::Greater || kind == TokenType::GreaterEqual || kind
                == TokenType::Less || kind == TokenType::LessEqual
        } else if level == 3 {
            kind == TokenType::BangEqual || kind == TokenType::EqualEqual
        } else if level == 4 {
            kind == TokenType::And
        } else {
            kind == TokenType::Or
        }
    }

    /// Reads an operand of the infix operators of `level`.
    #[verifier::spinoff_prover]
    fn operand(&mut self, level: u8) -> (outcome: Result<Expr, ParseErrorKind>)
        requires
            old(self).wf(),
        ensures
            final(self).follows(old(self)),
            expr_parsed(outcome, final(self).position()) == grammar::operand(
                old(self).input(),
                old(self).position(),
                level as nat,
            ),
        decreases remaining(old(self).input(), old(self).position()), 4 + 2 * level,
    {
        proof {
            reveal(grammar::operand);
        }
        if level == 0 {
            self.unary()
        } else {
            self.binary(level - 1)
        }
    }

    /// Reads operands with the infix operators of `level` between them: factor, term,
    /// comparison, equality, logic_and and logic_or are the levels 0 to 5.
    #[verifier::spinoff_prover]
    fn binary(&mut self, level: u8) -> (outcome: Result<Expr, ParseErrorKind>)
        requires
            old(self).wf(),
        ensures
            final(self).follows(old(self)),
            expr_parsed(outcome, final(self).position()) == grammar::binary(
                old(self).input(),
                old(self).position(),
                level as nat,
            ),
        decreases remaining(old(self).input(), old(self).position()), 5 + 2 * level,
    {
        proof {
            reveal(grammar::binary);
            reveal(grammar::binary_rest);
        }
        let mut expr = match self.operand(level) {
            Err(kind) => {
                return Err(kind);
            },
            Ok(expr) => expr,
        };
        loop
            invariant
                self.follows(old(self)),
                grammar::binary_rest(self.input(), self.position(), level as nat, expr@)
                    == grammar::binary(old(self).input(), old(self).position(), level as nat),
            decreases remaining(self.input(), self.position()),
        {
            proof {
                reveal(grammar::binary_rest);
            }
            if self.at_infix(level) {
                let operator = self.token(self.current);
                self.advance();
                match self.operand(level) {
                    Err(kind) => {
                        return Err(kind);
                    },
                    Ok(right) => {
                        expr = if level >= 4 {
                            Expr::Logical { left: Rc::new(expr), operator, right: Rc::new(right) }
                        } else {
                            Expr::Binary { left: Rc::new(expr), operator, right: Rc::new(right) }
                        };
                    },
                }
            } else {
                return Ok(expr);
            }
        }
    }

    #[verifier::spinoff_prover]
    fn assignment(&mut self) -> (outcome: Result<Expr, ParseErrorKind>)
        requires
            old(self).wf(),
        ensures
            final(self).follows(old(self)),
            expr_parsed(outcome, final(self).position()) == grammar::assignment(
                old(self).input(),
                old(self).position(),
            ),
        decreases remaining(old(self).input(), old(self).position()), 17nat,
    {
        proof {
            reveal(grammar::assignment);
        }
        let expr = match self.binary(5) {
            Err(kind) => {
                return Err(kind);
            },
            Ok(expr) => expr,
        };
        if self.check(TokenType::Equal) {
            assert(self.input()[self.current as int] == self.tokens@[self.current as int]@);
            let line = self.tokens[self.current].line;
            self.advance();
            match self.assignment() {
                Err(kind) => Err(kind),
                Ok(value) => match expr {
                    Expr::Variable { name } => Ok(Expr::Assign { name, value: Rc::new(value) }),
                    _ => Err(ParseErrorKind::InvalidAssignmentTarget { line }),
                },
            }
        } else {
            Ok(expr)
        }
    }

    #[verifier::spinoff_prover]
    fn expression(&mut self) -> (outcome: Result<Expr, ParseErrorKind>)
        requires
            old(self).wf(),
        ensures
            final(self).follows(old(self)),
            expr_parsed(outcome, final(self).position()) == grammar::expression(
                old(self).input(),
                old(self).position(),
            ),
        decreases remaining(old(self).input(), old(self).position()), 18nat,
    {
        proof {
            reveal(grammar::expression);
        }
        self.assignment()
    }

    /// Reads an expression and the `;` after it.
    #[verifier::spinoff_prover]
    fn terminated(&mut self, place: Place) -> (outcome: Result<Expr, ParseErrorKind>)
        requires
            old(self).wf(),
        ensures
            final(self).follows(old(self)),
            outcome.is_ok() ==> final(self).current > old(self).current,
            expr_parsed(outcome, final(self).position()) == grammar::terminated(
                old(self).input(),
                old(self).position(),
                place,
            ),
        decreases remaining(old(self).input(), old(self).position()), 19nat,
    {
        proof {
            reveal(grammar::terminated);
        }
        match self.expression() {
            Err(kind) => Err(kind),
            Ok(expr) => match self.consume(TokenType::Semicolon, place) {
                Err(kind) => Err(kind),
                Ok(_) => Ok(expr),
            },
        }
    }

    #[verifier::spinoff_prover]
    fn expression_statement(&mut self) -> (outcome: Result<Stmt, ParseErrorKind>)
        requires
            old(self).wf(),
        ensures
            final(self).follows(old(self)),
            outcome.is_ok() ==> final(self).current > old(self).current,
            stmt_parsed(outcome, final(self).position()) == grammar::expression_statement(
                old(self).input(),
                old(self).position(),
            ),
        decreases remaining(old(self).input(), old(self).position()), 20nat,
    {
        proof {
            reveal(grammar::expression_statement);
        }
        match self.terminated(Place::Value) {
            Err(kind) => Err(kind),
            Ok(value) => Ok(Stmt::Expression { expression: Rc::new(value) }),
        }
    }

    #[verifier::spinoff_prover]
    fn print_statement(&mut self) -> (outcome: Result<Stmt, ParseErrorKind>)
        requires
            old(self).wf(),
        ensures
            final(self).follows(old(self)),
            stmt_parsed(outcome, final(self).position()) == grammar::print_statement(
                old(self).input(),
                old(self).position(),
            ),
        decreases remaining(old(self).input(), old(self).position()), 30nat,
    {
        proof {
            reveal(grammar::print_statement);
        }
        match self.terminated(Place::Value) {
            Err(kind) => Err(kind),
            Ok(value) => Ok(Stmt::Print { expression: Rc::new(value) }),
        }
    }

    #[verifier::spinoff_prover]
    fn return_statement(&mut self, keyword: Token) -> (outcome: Result<Stmt, ParseErrorKind>)
        requires
            old(self).wf(),
        ensures
            final(self).follows(old(self)),
            stmt_parsed(outcome, final(self).position()) == grammar::return_statement(
                old(self).input(),
                old(self).position(),
                keyword@,
            ),
        decreases remaining(old(self).input(), old(self).position()), 30nat,
    {
        proof {
            reveal(grammar::return_statement);
        }
        if self.check(TokenType::Semicolon) {
            self.advance();
            Ok(Stmt::Return { keyword, value: None })
        } else {
            match self.terminated(Place::ReturnValue) {
                Err(kind) => Err(kind),
                Ok(value) => Ok(Stmt::Return { keyword, value: Some(Rc::new(value)) }),
            }
        }
    }

    /// Reads a condition in its parentheses.
    #[verifier::spinoff_prover]
    fn condition(&mut self, open_place: Place, close_place: Place) -> (outcome: Result<
        Expr,
        ParseErrorKind,
    >)
        requires
            old(self).wf(),
        ensures
            final(self).follows(old(self)),
            expr_parsed(outcome, final(self).position()) == grammar::condition(
                old(self).input(),
                old(self).position(),
                open_place,
                close_place,
            ),
        decreases remaining(old(self).input(), old(self).position()), 29nat,
    {
        proof {
            reveal(grammar::condition);
        }
        match self.consume(TokenType::LeftParen, open_place) {
            Err(kind) => {
                return Err(kind);
            },
            Ok(_) => {},
        }
        match self.expression() {
            Err(kind) => Err(kind),
            Ok(expr) => match self.consume(TokenType::RightParen, close_place) {
                Err(kind) => Err(kind),
                Ok(_) => Ok(expr),
            },
        }
    }

    #[verifier::spinoff_prover]
    fn if_statement(&mut self) -> (outcome: Result<Stmt, ParseErrorKind>)
        requires
            old(self).wf(),
        ensures
            final(self).follows(old(self)),
            stmt_parsed(outcome, final(self).position()) == grammar::if_statement(
                old(self).input(),
                old(self).position(),
            ),
        decreases remaining(old(self).input(), old(self).position()), 30nat,
    {
        proof {
            reveal(grammar::if_statement);
        }
        let condition = match self.condition(Place::If, Place::IfCondition) {
            Err(kind) => {
                return Err(kind);
            },
            Ok(condition) => condition,
        };
        let then_stmt = match self.statement() {
            Err(kind) => {
                return Err(kind);
            },
            Ok(stmt) => stmt,
        };
        if self.check(TokenType::Else) {
            self.advance();
            match self.statement() {
                Err(kind) => Err(kind),
                Ok(else_stmt) => Ok(
                    Stmt::If {
                        condition: Rc::new(condition),
                        then_stmt: Rc::new(then_stmt),
                        else_stmt: Some(Rc::new(else_stmt)),
                    },
                ),
            }
        } else {
            Ok(
                Stmt::If {
                    condition: Rc::new(condition),
                    then_stmt: Rc::new(then_stmt),
                    else_stmt: None,
                },
            )
        }
    }

    #[verifier::spinoff_prover]
    fn while_statement(&mut self) -> (outcome: Result<Stmt, ParseErrorKind>)
        requires
            old(self).wf(),
        ensures
            final(self).follows(old(self)),
            stmt_parsed(outcome, final(self).position()) == grammar::while_statement(
                old(self).input(),
                old(self).position(),
            ),
        decreases remaining(old(self).input(), old(self).position()), 30nat,
    {
        proof {
            reveal(grammar::while_statement);
        }
        let condition = match self.condition(Place::While, Place::WhileCondition) {
            Err(kind) => {
                return Err(kind);
            },
            Ok(condition) => condition,
        };
        match self.statement() {
            Err(kind) => Err(kind),
            Ok(body) => Ok(Stmt::While { condition: Rc::new(condition), body: Rc::new(body) }),
        }
    }

    /// Reads the first clause of a `for`.
    #[verifier::spinoff_prover]
    fn for_initializer(&mut self) -> (outcome: Result<Option<Stmt>, ParseErrorKind>)
        requires
            old(self).wf(),
        ensures
            final(self).follows(old(self)),
            final(self).position() == grammar::for_initializer(
                old(self).input(),
                old(self).position(),
            ).next,
            match outcome {
                Ok(Some(stmt)) => grammar::for_initializer(
                    old(self).input(),
                    old(self).position(),
                ).outcome == Ok::<Option<StmtView>, ParseErrorKind>(Some(stmt@)),
                Ok(None) => grammar::for_initializer(
                    old(self).input(),
                    old(self).position(),
                ).outcome == Ok::<Option<StmtView>, ParseErrorKind>(None),
                Err(kind) => grammar::for_initializer(
                    old(self).input(),
                    old(self).position(),
                ).outcome == Err::<Option<StmtView>, ParseErrorKind>(kind),
            },
        decreases remaining(old(self).input(), old(self).position()), 29nat,
    {
        proof {
            reveal(grammar::for_initializer);
        }
        if self.check(TokenType::Semicolon) {
            self.advance();
            Ok(None)
        } else if self.check(TokenType::Var) {
            self.advance();
            match self.var_declaration() {
                Err(kind) => Err(kind),
                Ok(stmt) => Ok(Some(stmt)),
            }
        } else {
            match self.expression_statement() {
                Err(kind) => Err(kind),
                Ok(stmt) => Ok(Some(stmt)),
            }
        }
    }

    /// Reads the second clause of a `for`, with its `;`.
    #[verifier::spinoff_prover]
    fn for_condition(&mut self) -> (outcome: Result<Expr, ParseErrorKind>)
        requires
            old(self).wf(),
        ensures
            final(self).follows(old(self)),
            expr_parsed(outcome, final(self).position()) == grammar::for_condition(
                old(self).input(),
                old(self).position(),
            ),
        decreases remaining(old(self).input(), old(self).position()), 29nat,
    {
        proof {
            reveal(grammar::for_condition);
        }
        if self.check(TokenType::Semicolon) {
            self.advance();
            Ok(Expr::Literal { value: Constant::True })
        } else {
            self.terminated(Place::LoopCondition)
        }
    }

    /// Reads the third clause of a `for`, with the closing parenthesis.
    #[verifier::spinoff_prover]
    fn for_increment(&mut self) -> (outcome: Result<Option<Expr>, ParseErrorKind>)
        requires
            old(self).wf(),
        ensures
            final(self).follows(old(self)),
            final(self).position() == grammar::for_increment(
                old(self).input(),
                old(self).position(),
            ).next,
            match outcome {
                Ok(Some(expr)) => grammar::for_increment(
                    old(self).input(),
                    old(self).position(),
                ).outcome == Ok::<Option<ExprView>, ParseErrorKind>(Some(expr@)),
                Ok(None) => grammar::for_increment(old(self).input(), old(self).position()).outcome
                    == Ok::<Option<ExprView>, ParseErrorKind>(None),
                Err(kind) => grammar::for_increment(old(self).input(), old(self).position()).outcome
                    == Err::<Option<ExprView>, ParseErrorKind>(kind),
            },
        decreases remaining(old(self).input(), old(self).position()), 29nat,
    {
        proof {
            reveal(grammar::for_increment);
        }
        if self.check(TokenType::RightParen) {
            self.advance();
            Ok(None)
        } else {
            match self.expression() {
                Err(kind) => Err(kind),
                Ok(expr) => match self.consume(TokenType::RightParen, Place::ForClauses) {
                    Err(kind) => Err(kind),
                    Ok(_) => Ok(Some(expr)),
                },
            }
        }
    }

    #[verifier::spinoff_prover]
    fn for_statement(&mut self) -> (outcome: Result<Stmt, ParseErrorKind>)
        requires
            old(self).wf(),
        ensures
            final(self).follows(old(self)),
            stmt_parsed(outcome, final(self).position()) == grammar::for_statement(
                old(self).input(),
                old(self).position(),
            ),
        decreases remaining(old(self).input(), old(self).position()), 30nat,
    {
        proof {
            reveal(grammar::for_statement);
        }
        match self.consume(TokenType::LeftParen, Place::For) {
            Err(kind) => {
                return Err(kind);
            },
            Ok(_) => {},
        }
        let initializer = match self.for_initializer() {
            Err(kind) => {
                return Err(kind);
            },
            Ok(initializer) => initializer,
        };
        let condition = match self.for_condition() {
            Err(kind) => {
                return Err(kind);
            },
            Ok(condition) => condition,
        };
        let increment = match self.for_increment() {
            Err(kind) => {
                return Err(kind);
            },
            Ok(increment) => increment,
        };
        match self.statement() {
            Err(kind) => Err(kind),
            Ok(body) => Ok(for_loop(initializer, condition, increment, body)),
        }
    }

    /// Reads the statements of a block, after its opening brace, and the closing brace.
    #[verifier::spinoff_prover]
    fn block_statement(&mut self) -> (outcome: Result<Vec<Stmt>, ParseErrorKind>)
        requires
            old(self).wf(),
        ensures
            final(self).follows(old(self)),
            outcome.is_ok() ==> final(self).current > old(self).current,
            stmts_parsed(outcome, final(self).position()) == grammar::block_rest(
                old(self).input(),
                old(self).position(),
                Seq::empty(),
            ),
        decreases remaining(old(self).input(), old(self).position()), 23nat,
    {
        proof {
            reveal(grammar::block_rest);
        }
        let mut statements: Vec<Stmt> = Vec::new();
        assert(stmt_views(statements@) =~= Seq::empty());
        loop
            invariant
                self.follows(old(self)),
                grammar::block_rest(self.input(), self.position(), stmt_views(statements@))
                    == grammar::block_rest(old(self).input(), old(self).position(), Seq::empty()),
            decreases remaining(self.input(), self.position()),
        {
            proof {
                reveal(grammar::block_rest);
            }
            if self.check(TokenType::RightBrace) {
                self.advance();
                return Ok(statements);
            }
            if self.is_at_end() {
                return Err(
                    ParseErrorKind::Expected { token: TokenType::RightBrace, place: Place::Block },
                );
            }
            match self.declaration() {
                Err(kind) => {
                    return Err(kind);
                },
                Ok(stmt) => {
                    let ghost before = stmt_views(statements@);
                    statements.push(stmt);
                    assert(stmt_views(statements@) =~= before.push(stmt@));
                },
            }
        }
    }

    #[verifier::spinoff_prover]
    fn statement(&mut self) -> (outcome: Result<Stmt, ParseErrorKind>)
        requires
            old(self).wf(),
        ensures
            final(self).follows(old(self)),
            outcome.is_ok() ==> final(self).current > old(self).current,
            stmt_parsed(outcome, final(self).position()) == grammar::statement(
                old(self).input(),
                old(self).position(),
            ),
        decreases remaining(old(self).input(), old(self).position()), 21nat,
    {
        proof {
            reveal(grammar::statement);
        }
        if self.check(TokenType::For) {
            self.advance();
            self.for_statement()
        } else if self.check(TokenType::If) {
            self.advance();
            self.if_statement()
        } else if self.check(TokenType::Print) {
            self.advance();
            self.print_statement()
        } else if self.check(TokenType::Return) {
            let keyword = self.token(self.current);
            self.advance();
            self.return_statement(keyword)
        } else if self.check(TokenType::While) {
            self.advance();
            self.while_statement()
        } else if self.check(TokenType::LeftBrace) {
            self.advance();
            match self.block_statement() {
                Err(kind) => Err(kind),
                Ok(statements) => {
                    let block = Stmt::Block { statements: Rc::new(statements) };
                    proof {
                        lemma_views_of_lists(Expr::Literal { value: Constant::Nil }, block);
                    }
                    Ok(block)
                },
            }
        } else {
            self.expression_statement()
        }
    }

    #[verifier::spinoff_prover]
    fn fun_declaration(&mut self) -> (outcome: Result<Stmt, ParseErrorKind>)
        requires
            old(self).wf(),
        ensures
            final(self).follows(old(self)),
            stmt_parsed(outcome, final(self).position()) == grammar::fun_declaration(
                old(self).input(),
                old(self).position(),
            ),
        decreases remaining(old(self).input(), old(self).position()), 30nat,
    {
        proof {
            reveal(grammar::fun_declaration);
        }
        let name = match self.consume(TokenType::Identifier, Place::FunctionKeyword) {
            Err(kind) => {
                return Err(kind);
            },
            Ok(name) => name,
        };
        match self.function_rest(Place::FunctionName, Place::Parameters, Place::FunctionHeader) {
            Err(kind) => Err(kind),
            Ok(parts) => {
                let function = Stmt::Function {
                    name,
                    params: Rc::new(parts.1),
                    body: Rc::new(parts.2),
                };
                proof {
                    lemma_views_of_lists(Expr::Literal { value: Constant::Nil }, function);
                }
                Ok(function)
            },
        }
    }

    #[verifier::spinoff_prover]
    fn var_declaration(&mut self) -> (outcome: Result<Stmt, ParseErrorKind>)
        requires
            old(self).wf(),
        ensures
            final(self).follows(old(self)),
            stmt_parsed(outcome, final(self).position()) == grammar::var_declaration(
                old(self).input(),
                old(self).position(),
            ),
        decreases remaining(old(self).input(), old(self).position()), 30nat,
    {
        proof {
            reveal(grammar::var_declaration);
        }
        let name = match self.consume(TokenType::Identifier, Place::Var) {
            Err(kind) => {
                return Err(kind);
            },
            Ok(name) => name,
        };
        if self.check(TokenType::Equal) {
            self.advance();
            match self.terminated(Place::VariableDeclaration) {
                Err(kind) => Err(kind),
                Ok(initializer) => Ok(Stmt::Var { name, initializer: Rc::new(initializer) }),
            }
        } else {
            match self.consume(TokenType::Semicolon, Place::VariableDeclaration) {
                Err(kind) => Err(kind),
                Ok(_) => {
                    let initializer = Expr::Literal { value: Constant::Nil };
                    assert(initializer@ == ExprView::Literal {
                        value: crate::expression::ConstantView::Nil,
                    });
                    Ok(Stmt::Var { name, initializer: Rc::new(initializer) })
                },
            }
        }
    }

    #[verifier::spinoff_prover]
    fn declaration(&mut self) -> (outcome: Result<Stmt, ParseErrorKind>)
        requires
            old(self).wf(),
        ensures
            final(self).follows(old(self)),
            outcome.is_ok() ==> final(self).current > old(self).current,
            stmt_parsed(outcome, final(self).position()) == grammar::declaration(
                old(self).input(),
                old(self).position(),
            ),
        decreases remaining(old(self).input(), old(self).position()), 22nat,
    {
        proof {
            reveal(grammar::declaration);
        }
        if self.check(TokenType::Fun) {
            self.advance();
            self.fun_declaration()
        } else if self.check(TokenType::Var) {
            self.advance();
            self.var_declaration()
        } else {
            self.statement()
        }
    }

    /// Skips tokens after an error, up to where the next statement may start.
    #[verifier::spinoff_prover]
    fn synchronize(&mut self)
        requires
            old(self).wf(),
        ensures
            final(self).follows(old(self)),
            final(self).position() == grammar::synchronize(old(self).input(), old(self).position()),
            !grammar::at_end(old(self).input(), old(self).position()) ==> final(self).current
                > old(self).current,
    {
        proof {
            reveal(grammar::resume_at);
        }
        if self.is_at_end() {
            return ;
        }
        self.advance();
        loop
            invariant
                self.follows(old(self)),
                self.current > old(self).current,
                grammar::resume_at(self.input(), self.position()) == grammar::synchronize(
                    old(self).input(),
                    old(self).position(),
                ),
            decreases remaining(self.input(), self.position()),
        {
            proof {
                reveal(grammar::resume_at);
            }
            if self.is_at_end() {
                return ;
            }
            assert(self.input()[self.current - 1] == self.tokens@[self.current - 1]@);
            if self.tokens[self.current - 1].token_type == TokenType::Semicolon {
                return ;
            }
            let kind = self.kind();
            if kind == TokenType::Class || kind == TokenType::Fun || kind == TokenType::Var || kind
                == TokenType::For || kind == TokenType::If || kind == TokenType::While || kind
                == TokenType::Print || kind == TokenType::Return {
                return ;
            }
            self.advance();
        }
    }

    /// Parses the tokens from the current position on as a program. Gives its statements,
    /// or where something could not be parsed, everything that could not.
    #[verifier::spinoff_prover]
    pub fn parse(&mut self) -> (outcome: Result<Vec<Stmt>, Vec<ParseError>>)
        requires
            old(self).wf(),
        ensures
            final(self).wf(),
            final(self).input() == old(self).input(),
            match outcome {
                Ok(stmts) => grammar::program_rest(
                    old(self).input(),
                    old(self).position(),
                    Seq::empty(),
                    Seq::empty(),
                ).errors.len() == 0 && stmt_views(stmts@) == grammar::program_rest(
                    old(self).input(),
                    old(self).position(),
                    Seq::empty(),
                    Seq::empty(),
                ).statements,
                Err(errors) => errors.len() > 0 && errors@ == grammar::program_rest(
                    old(self).input(),
                    old(self).position(),
                    Seq::empty(),
                    Seq::empty(),
                ).errors,
            },
    {
        proof {
            reveal(grammar::program_rest);
        }
        let mut stmts: Vec<Stmt> = Vec::new();
        let mut errors: Vec<ParseError> = Vec::new();
        assert(stmt_views(stmts@) =~= Seq::empty());
        while !self.is_at_end()
            invariant
                self.follows(old(self)),
                grammar::program_rest(self.input(), self.position(), stmt_views(stmts@), errors@)
                    == grammar::program_rest(
                    old(self).input(),
                    old(self).position(),
                    Seq::empty(),
                    Seq::empty(),
                ),
            decreases remaining(self.input(), self.position()),
        {
            proof {
                reveal(grammar::program_rest);
                grammar::lemma_synchronize_advances(self.input(), self.position());
            }
            assert(self.input()[self.current as int] == self.tokens@[self.current as int]@);
            let line = self.tokens[self.current].line;
            match self.declaration() {
                Ok(stmt) => {
                    let ghost before = stmt_views(stmts@);
                    stmts.push(stmt);
                    assert(stmt_views(stmts@) =~= before.push(stmt@));
                },
                Err(kind) => {
                    errors.push(ParseError { kind, line });
                    self.synchronize();
                },
            }
        }
        if errors.len() == 0 {
            Ok(stmts)
        } else {
            Err(errors)
        }
    }
}

} // verus!
