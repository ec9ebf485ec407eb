//! The grammar of the language, as a function from tokens to syntax trees.
//!
//! Each function reads one construct from the tokens that start at a position and says
//! what it read and where it stopped. The functions call each other as the constructs
//! contain each other; operators that bind more loosely are read further out.
use crate::expression::{ConstantView, ExprView};
use crate::scanner::{LiteralView, TokenType, TokenView};
use crate::statement::StmtView;
use vstd::prelude::*;
use vstd::string::*;

verus! {

/// Where in a construct a token was missing.
#[derive(Debug, Clone, Copy, PartialEq, Eq, Structural)]
pub enum Place {
    For,
    LoopCondition,
    ForClauses,
    If,
    IfCondition,
    Value,
    ReturnValue,
    Block,
    Lambda,
    LambdaParameters,
    LambdaDeclaration,
    FunctionKeyword,
    FunctionName,
    Parameters,
    FunctionHeader,
    ParameterList,
    Var,
    VariableDeclaration,
    While,
    WhileCondition,
    Arguments,
    Grouping,
}

#[derive(Debug, Clone, Copy, PartialEq, Eq, Structural)]
pub enum ParseErrorKind {
    /// The token that had to stand at `place` is not there.
    Expected { token: TokenType, place: Place },
    /// There is no expression where one has to be.
    ExpectedExpression,
    /// The left side of the `=` on line `line` is no variable.
    InvalidAssignmentTarget { line: usize },
    /// A function or lambda declares more than 255 parameters.
    TooManyParameters,
    /// A call gives more than 255 arguments.
    TooManyArguments,
    /// A number or string token does not carry what it stands for.
    MissingLiteral,
}

/// What could not be parsed, with the line of the first token of the declaration it is in.
#[derive(Debug, Clone, Copy, PartialEq, Eq, Structural)]
pub struct ParseError {
    pub kind: ParseErrorKind,
    pub line: usize,
}

/// What was read from a position, and the position of the first token after it.
pub struct Parsed<T> {
    pub outcome: Result<T, ParseErrorKind>,
    pub next: int,
}

pub open spec fn ok<T>(value: T, next: int) -> Parsed<T> {
    Parsed { outcome: Ok(value), next }
}

pub open spec fn err<T>(kind: ParseErrorKind, next: int) -> Parsed<T> {
    Parsed { outcome: Err(kind), next }
}

/// A position, made no earlier than a position that it cannot be before. Reading never
/// goes backwards, as the lemmas at the end of this file show, so wherever this is used it
/// gives `next`: it is there to make plain that reading comes to an end.
pub open spec fn later(next: int, floor: int) -> int {
    if next >= floor {
        next
    } else {
        floor
    }
}

/// The kind of the token at `pos`. Past the last token stands `Eof`.
pub open spec fn kind_at(tokens: Seq<TokenView>, pos: int) -> TokenType {
    if 0 <= pos < tokens.len() {
        tokens[pos].token_type
    } else {
        TokenType::Eof
    }
}

pub open spec fn at_end(tokens: Seq<TokenView>, pos: int) -> bool {
    kind_at(tokens, pos) == TokenType::Eof
}

/// Whether a token of kind `token_type` stands at `pos`, before the end.
pub open spec fn check(tokens: Seq<TokenView>, pos: int, token_type: TokenType) -> bool {
    !at_end(tokens, pos) && kind_at(tokens, pos) == token_type
}

/// How many tokens there are from `pos` on.
pub open spec fn remaining(tokens: Seq<TokenView>, pos: int) -> nat {
    if pos < tokens.len() {
        (tokens.len() - pos) as nat
    } else {
        0
    }
}

/// The token of kind `token_type` that has to stand at `pos`.
pub open spec fn consume(
    tokens: Seq<TokenView>,
    pos: int,
    token_type: TokenType,
    place: Place,
) -> Parsed<TokenView> {
    if check(tokens, pos, token_type) {
        ok(tokens[pos], pos + 1)
    } else {
        err(ParseErrorKind::Expected { token: token_type, place }, pos)
    }
}

/// The constant that a literal token stands for.
pub open spec fn constant_of(token: TokenView) -> Option<ConstantView> {
    match token.token_type {
        TokenType::Number => match token.literal {
            Some(LiteralView::Number(digits)) => Some(ConstantView::Number(digits)),
            _ => None,
        },
        TokenType::StringLit => match token.literal {
            Some(LiteralView::StringValue(bytes)) => Some(ConstantView::Text(bytes)),
            _ => None,
        },
        TokenType::False => Some(ConstantView::False),
        TokenType::True => Some(ConstantView::True),
        TokenType::Nil => Some(ConstantView::Nil),
        _ => None,
    }
}

/// The operators of the six levels of infix operators, from `*` and `/` at level 0 to `or`
/// at level 5.
pub open spec fn infix(level: nat, token_type: TokenType) -> bool {
    if level == 0 {
        token_type == TokenType::Slash || token_type == TokenType::Star
    } else if level == 1 {
        token_type == TokenType::Minus || token_type == TokenType::Plus
    } else if level == 2 {
        token_type == TokenType::Greater || token_type == TokenType::GreaterEqual || token_type
            == TokenType::Less || token_type == TokenType::LessEqual
    } else if level == 3 {
        token_type == TokenType::BangEqual || token_type == TokenType::EqualEqual
    } else if level == 4 {
        token_type == TokenType::And
    } else {
        token_type == TokenType::Or
    }
}

/// The tree of an infix operator between two operands.
pub open spec fn infix_node(
    level: nat,
    left: ExprView,
    operator: TokenView,
    right: ExprView,
) -> ExprView {
    if level >= 4 {
        ExprView::Logical { left: Box::new(left), operator, right: Box::new(right) }
    } else {
        ExprView::Binary { left: Box::new(left), operator, right: Box::new(right) }
    }
}

/// `true`, for the condition that a `for` leaves out.
pub open spec fn always() -> ExprView {
    ExprView::Literal { value: ConstantView::True }
}

/// The loop that a `for` stands for.
pub open spec fn for_loop(
    initializer: Option<StmtView>,
    condition: ExprView,
    increment: Option<ExprView>,
    body: StmtView,
) -> StmtView {
    let stepped = match increment {
        Some(step) => StmtView::Block {
            statements: seq![body, StmtView::Expression { expression: step }],
        },
        None => body,
    };
    let looped = StmtView::While { condition, body: Box::new(stepped) };
    match initializer {
        Some(first) => StmtView::Block { statements: seq![first, looped] },
        None => looped,
    }
}

/// primary → NUMBER | STRING | "true" | "false" | "nil" | "(" expression ")" | IDENT | lambda
#[verifier::opaque]
pub open spec fn primary(tokens: Seq<TokenView>, pos: int) -> Parsed<ExprView>
    decreases remaining(tokens, pos), 1nat,
{
    let kind = kind_at(tokens, pos);
    if at_end(tokens, pos) {
        err(ParseErrorKind::ExpectedExpression, pos)
    } else if kind == TokenType::LeftParen {
        let inner = expression(tokens, pos + 1);
        match inner.outcome {
            Err(kind) => err(kind, inner.next),
            Ok(expr) => {
                let close = consume(
                    tokens,
                    later(inner.next, pos + 1),
                    TokenType::RightParen,
                    Place::Grouping,
                );
                match close.outcome {
                    Err(kind) => err(kind, close.next),
                    Ok(_) => ok(ExprView::Grouping { expression: Box::new(expr) }, close.next),
                }
            },
        }
    } else if kind == TokenType::False || kind == TokenType::True || kind == TokenType::Nil || kind
        == TokenType::Number || kind == TokenType::StringLit {
        match constant_of(tokens[pos]) {
            Some(value) => ok(ExprView::Literal { value }, pos + 1),
            None => err(ParseErrorKind::MissingLiteral, pos + 1),
        }
    } else if kind == TokenType::Identifier {
        ok(ExprView::Variable { name: tokens[pos] }, pos + 1)
    } else if kind == TokenType::Fun {
        lambda(tokens, pos + 1)
    } else {
        err(ParseErrorKind::ExpectedExpression, pos)
    }
}

/// The names of parameters, with commas between them, after those in `params`.
#[verifier::opaque]
pub open spec fn parameters_rest(
    tokens: Seq<TokenView>,
    pos: int,
    params: Seq<TokenView>,
) -> Parsed<Seq<TokenView>>
    decreases remaining(tokens, pos), 0nat,
{
    if params.len() >= 255 {
        err(ParseErrorKind::TooManyParameters, pos)
    } else {
        let name = consume(tokens, pos, TokenType::Identifier, Place::ParameterList);
        match name.outcome {
            Err(kind) => err(kind, name.next),
            Ok(token) => if check(tokens, pos + 1, TokenType::Comma) {
                parameters_rest(tokens, pos + 2, params.push(token))
            } else {
                ok(params.push(token), pos + 1)
            },
        }
    }
}

/// params? before the closing parenthesis.
pub open spec fn parameters(tokens: Seq<TokenView>, pos: int) -> Parsed<Seq<TokenView>> {
    if check(tokens, pos, TokenType::RightParen) {
        ok(Seq::empty(), pos)
    } else {
        parameters_rest(tokens, pos, Seq::empty())
    }
}

/// "(" params? ")" block: what follows the name of a function or the `fun` of a lambda,
/// with the opening parenthesis, the parameters and the statements of the body.
#[verifier::opaque]
pub open spec fn function_rest(
    tokens: Seq<TokenView>,
    pos: int,
    open_place: Place,
    close_place: Place,
    body_place: Place,
) -> Parsed<(TokenView, Seq<TokenView>, Seq<StmtView>)>
    decreases remaining(tokens, pos), 29nat,
{
    let open = consume(tokens, pos, TokenType::LeftParen, open_place);
    match open.outcome {
        Err(kind) => err(kind, open.next),
        Ok(paren) => {
            let params = parameters(tokens, pos + 1);
            match params.outcome {
                Err(kind) => err(kind, params.next),
                Ok(names) => {
                    let close = consume(
                        tokens,
                        later(params.next, pos + 1),
                        TokenType::RightParen,
                        close_place,
                    );
                    match close.outcome {
                        Err(kind) => err(kind, close.next),
                        Ok(_) => {
                            let brace = consume(
                                tokens,
                                close.next,
                                TokenType::LeftBrace,
                                body_place,
                            );
                            match brace.outcome {
                                Err(kind) => err(kind, brace.next),
                                Ok(_) => {
                                    let body = block_rest(tokens, brace.next, Seq::empty());
                                    match body.outcome {
                                        Err(kind) => err(kind, body.next),
                                        Ok(statements) => ok((paren, names, statements), body.next),
                                    }
                                },
                            }
                        },
                    }
                },
            }
        },
    }
}

/// lambda → "fun" "(" params? ")" block, after the `fun`.
#[verifier::opaque]
pub open spec fn lambda(tokens: Seq<TokenView>, pos: int) -> Parsed<ExprView>
    decreases remaining(tokens, pos), 30nat,
{
    let rest = function_rest(
        tokens,
        pos,
        Place::Lambda,
        Place::LambdaParameters,
        Place::LambdaDeclaration,
    );
    match rest.outcome {
        Err(kind) => err(kind, rest.next),
        Ok(parts) => ok(
            ExprView::Lambda { paren: parts.0, params: parts.1, body: parts.2 },
            rest.next,
        ),
    }
}

/// The arguments of a call, with commas between them, after those in `arguments`.
#[verifier::opaque]
pub open spec fn arguments_rest(
    tokens: Seq<TokenView>,
    pos: int,
    arguments: Seq<ExprView>,
) -> Parsed<Seq<ExprView>>
    decreases remaining(tokens, pos), 19nat,
{
    if arguments.len() >= 255 {
        err(ParseErrorKind::TooManyArguments, pos)
    } else {
        let argument = expression(tokens, pos);
        match argument.outcome {
            Err(kind) => err(kind, argument.next),
            Ok(expr) => {
                let next = later(argument.next, pos);
                if check(tokens, next, TokenType::Comma) {
                    arguments_rest(tokens, next + 1, arguments.push(expr))
                } else {
                    ok(arguments.push(expr), next)
                }
            },
        }
    }
}

/// ( "(" args? ")" )*, after the expression that is called.
#[verifier::opaque]
pub open spec fn call_rest(tokens: Seq<TokenView>, pos: int, callee: ExprView) -> Parsed<ExprView>
    decreases remaining(tokens, pos), 0nat,
{
    if check(tokens, pos, TokenType::LeftParen) {
        let arguments = if check(tokens, pos + 1, TokenType::RightParen) {
            ok(Seq::empty(), pos + 1)
        } else {
            arguments_rest(tokens, pos + 1, Seq::empty())
        };
        match arguments.outcome {
            Err(kind) => err(kind, arguments.next),
            Ok(values) => {
                let close = consume(
                    tokens,
                    later(arguments.next, pos + 1),
                    TokenType::RightParen,
                    Place::Arguments,
                );
                match close.outcome {
                    Err(kind) => err(kind, close.next),
                    Ok(paren) => call_rest(
                        tokens,
                        close.next,
                        ExprView::Call { callee: Box::new(callee), paren, arguments: values },
                    ),
                }
            },
        }
    } else {
        ok(callee, pos)
    }
}

/// call → primary ( "(" args? ")" )*
#[verifier::opaque]
pub open spec fn call(tokens: Seq<TokenView>, pos: int) -> Parsed<ExprView>
    decreases remaining(tokens, pos), 2nat,
{
    let callee = primary(tokens, pos);
    match callee.outcome {
        Err(kind) => err(kind, callee.next),
        Ok(expr) => call_rest(tokens, later(callee.next, pos), expr),
    }
}

/// unary → ("!"|"-") unary | call
#[verifier::opaque]
pub open spec fn unary(tokens: Seq<TokenView>, pos: int) -> Parsed<ExprView>
    decreases remaining(tokens, pos), 3nat,
{
    if check(tokens, pos, TokenType::Bang) || check(tokens, pos, TokenType::Minus) {
        let right = unary(tokens, pos + 1);
        match right.outcome {
            Err(kind) => err(kind, right.next),
            Ok(expr) => ok(
                ExprView::Unary { operator: tokens[pos], right: Box::new(expr) },
                right.next,
            ),
        }
    } else {
        call(tokens, pos)
    }
}

/// An operand of the infix operators of `level`.
#[verifier::opaque]
pub open spec fn operand(tokens: Seq<TokenView>, pos: int, level: nat) -> Parsed<ExprView>
    decreases remaining(tokens, pos), 4 + 2 * level,
{
    if level == 0 {
        unary(tokens, pos)
    } else {
        binary(tokens, pos, (level - 1) as nat)
    }
}

/// ( operator operand )*, after the operand `left`: the operators of one level bind to the
/// left.
#[verifier::opaque]
pub open spec fn binary_rest(
    tokens: Seq<TokenView>,
    pos: int,
    level: nat,
    left: ExprView,
) -> Parsed<ExprView>
    decreases remaining(tokens, pos), 0nat,
{
    if !at_end(tokens, pos) && infix(level, kind_at(tokens, pos)) {
        let right = operand(tokens, pos + 1, level);
        match right.outcome {
            Err(kind) => err(kind, right.next),
            Ok(expr) => binary_rest(
                tokens,
                later(right.next, pos + 1),
                level,
                infix_node(level, left, tokens[pos], expr),
            ),
        }
    } else {
        ok(left, pos)
    }
}

/// operand ( operator operand )*, for the operators of `level`: factor, term, comparison,
/// equality, logic_and and logic_or are the levels 0 to 5.
#[verifier::opaque]
pub open spec fn binary(tokens: Seq<TokenView>, pos: int, level: nat) -> Parsed<ExprView>
    decreases remaining(tokens, pos), 5 + 2 * level,
{
    let left = operand(tokens, pos, level);
    match left.outcome {
        Err(kind) => err(kind, left.next),
        Ok(expr) => binary_rest(tokens, later(left.next, pos), level, expr),
    }
}

/// assignment → IDENT "=" assignment | logic_or
#[verifier::opaque]
pub open spec fn assignment(tokens: Seq<TokenView>, pos: int) -> Parsed<ExprView>
    decreases remaining(tokens, pos), 17nat,
{
    let target = binary(tokens, pos, 5);
    match target.outcome {
        Err(kind) => err(kind, target.next),
        Ok(expr) => {
            let next = later(target.next, pos);
            if check(tokens, next, TokenType::Equal) {
                let value = assignment(tokens, next + 1);
                match value.outcome {
                    Err(kind) => err(kind, value.next),
                    Ok(assigned) => match expr {
                        ExprView::Variable { name } => ok(
                            ExprView::Assign { name, value: Box::new(assigned) },
                            value.next,
                        ),
                        _ => err(
                            ParseErrorKind::InvalidAssignmentTarget { line: tokens[next].line },
                            value.next,
                        ),
                    },
                }
            } else {
                ok(expr, next)
            }
        },
    }
}

/// expression → assignment
#[verifier::opaque]
pub open spec fn expression(tokens: Seq<TokenView>, pos: int) -> Parsed<ExprView>
    decreases remaining(tokens, pos), 18nat,
{
    assignment(tokens, pos)
}

/// An expression and the `;` after it.
#[verifier::opaque]
pub open spec fn terminated(tokens: Seq<TokenView>, pos: int, place: Place) -> Parsed<ExprView>
    decreases remaining(tokens, pos), 19nat,
{
    let value = expression(tokens, pos);
    match value.outcome {
        Err(kind) => err(kind, value.next),
        Ok(expr) => {
            let end = consume(tokens, later(value.next, pos), TokenType::Semicolon, place);
            match end.outcome {
                Err(kind) => err(kind, end.next),
                Ok(_) => ok(expr, end.next),
            }
        },
    }
}

/// exprStmt → expression ";"
#[verifier::opaque]
pub open spec fn expression_statement(tokens: Seq<TokenView>, pos: int) -> Parsed<StmtView>
    decreases remaining(tokens, pos), 20nat,
{
    let value = terminated(tokens, pos, Place::Value);
    match value.outcome {
        Err(kind) => err(kind, value.next),
        Ok(expression) => ok(StmtView::Expression { expression }, value.next),
    }
}

/// printStmt → "print" expression ";", after the `print`.
#[verifier::opaque]
pub open spec fn print_statement(tokens: Seq<TokenView>, pos: int) -> Parsed<StmtView>
    decreases remaining(tokens, pos), 30nat,
{
    let value = terminated(tokens, pos, Place::Value);
    match value.outcome {
        Err(kind) => err(kind, value.next),
        Ok(expression) => ok(StmtView::Print { expression }, value.next),
    }
}

/// returnStmt → "return" expression? ";", after the `return`, which is the token `keyword`.
#[verifier::opaque]
pub open spec fn return_statement(tokens: Seq<TokenView>, pos: int, keyword: TokenView) -> Parsed<
    StmtView,
>
    decreases remaining(tokens, pos), 30nat,
{
    if check(tokens, pos, TokenType::Semicolon) {
        ok(StmtView::Return { keyword, value: None }, pos + 1)
    } else {
        let value = terminated(tokens, pos, Place::ReturnValue);
        match value.outcome {
            Err(kind) => err(kind, value.next),
            Ok(expr) => ok(StmtView::Return { keyword, value: Some(expr) }, value.next),
        }
    }
}

/// "(" expression ")", as it follows `if` and `while`.
#[verifier::opaque]
pub open spec fn condition(
    tokens: Seq<TokenView>,
    pos: int,
    open_place: Place,
    close_place: Place,
) -> Parsed<ExprView>
    decreases remaining(tokens, pos), 29nat,
{
    let open = consume(tokens, pos, TokenType::LeftParen, open_place);
    match open.outcome {
        Err(kind) => err(kind, open.next),
        Ok(_) => {
            let value = expression(tokens, pos + 1);
            match value.outcome {
                Err(kind) => err(kind, value.next),
                Ok(expr) => {
                    let close = consume(
                        tokens,
                        later(value.next, pos + 1),
                        TokenType::RightParen,
                        close_place,
                    );
                    match close.outcome {
                        Err(kind) => err(kind, close.next),
                        Ok(_) => ok(expr, close.next),
                    }
                },
            }
        },
    }
}

/// ifStmt → "if" "(" expression ")" statement ("else" statement)?, after the `if`.
#[verifier::opaque]
pub open spec fn if_statement(tokens: Seq<TokenView>, pos: int) -> Parsed<StmtView>
    decreases remaining(tokens, pos), 30nat,
{
    let test = condition(tokens, pos, Place::If, Place::IfCondition);
    match test.outcome {
        Err(kind) => err(kind, test.next),
        Ok(condition) => {
            let start = later(test.next, pos);
            let then_part = statement(tokens, start);
            match then_part.outcome {
                Err(kind) => err(kind, then_part.next),
                Ok(then_stmt) => {
                    let next = later(then_part.next, start);
                    if check(tokens, next, TokenType::Else) {
                        let else_part = statement(tokens, next + 1);
                        match else_part.outcome {
                            Err(kind) => err(kind, else_part.next),
                            Ok(else_stmt) => ok(
                                StmtView::If {
                                    condition,
                                    then_stmt: Box::new(then_stmt),
                                    else_stmt: Some(Box::new(else_stmt)),
                                },
                                else_part.next,
                            ),
                        }
                    } else {
                        ok(
                            StmtView::If {
                                condition,
                                then_stmt: Box::new(then_stmt),
                                else_stmt: None,
                            },
                            next,
                        )
                    }
                },
            }
        },
    }
}

/// whileStmt → "while" "(" expression ")" statement, after the `while`.
#[verifier::opaque]
pub open spec fn while_statement(tokens: Seq<TokenView>, pos: int) -> Parsed<StmtView>
    decreases remaining(tokens, pos), 30nat,
{
    let test = condition(tokens, pos, Place::While, Place::WhileCondition);
    match test.outcome {
        Err(kind) => err(kind, test.next),
        Ok(condition) => {
            let body = statement(tokens, later(test.next, pos));
            match body.outcome {
                Err(kind) => err(kind, body.next),
                Ok(stmt) => ok(StmtView::While { condition, body: Box::new(stmt) }, body.next),
            }
        },
    }
}

/// The first clause of a `for`: a declaration of a variable, an expression, or nothing
/// but the `;`.
#[verifier::opaque]
pub open spec fn for_initializer(tokens: Seq<TokenView>, pos: int) -> Parsed<Option<StmtView>>
    decreases remaining(tokens, pos), 29nat,
{
    if check(tokens, pos, TokenType::Semicolon) {
        ok(None, pos + 1)
    } else if check(tokens, pos, TokenType::Var) {
        let first = var_declaration(tokens, pos + 1);
        match first.outcome {
            Err(kind) => err(kind, first.next),
            Ok(stmt) => ok(Some(stmt), first.next),
        }
    } else {
        let first = expression_statement(tokens, pos);
        match first.outcome {
            Err(kind) => err(kind, first.next),
            Ok(stmt) => ok(Some(stmt), first.next),
        }
    }
}

/// The second clause of a `for`, with its `;`: a condition, or `true` where there is none.
#[verifier::opaque]
pub open spec fn for_condition(tokens: Seq<TokenView>, pos: int) -> Parsed<ExprView>
    decreases remaining(tokens, pos), 29nat,
{
    if check(tokens, pos, TokenType::Semicolon) {
        ok(always(), pos + 1)
    } else {
        terminated(tokens, pos, Place::LoopCondition)
    }
}

/// The third clause of a `for`, with the closing parenthesis: an expression or nothing.
#[verifier::opaque]
pub open spec fn for_increment(tokens: Seq<TokenView>, pos: int) -> Parsed<Option<ExprView>>
    decreases remaining(tokens, pos), 29nat,
{
    if check(tokens, pos, TokenType::RightParen) {
        ok(None, pos + 1)
    } else {
        let step = expression(tokens, pos);
        match step.outcome {
            Err(kind) => err(kind, step.next),
            Ok(expr) => {
                let close = consume(
                    tokens,
                    later(step.next, pos),
                    TokenType::RightParen,
                    Place::ForClauses,
                );
                match close.outcome {
                    Err(kind) => err(kind, close.next),
                    Ok(_) => ok(Some(expr), close.next),
                }
            },
        }
    }
}

/// forStmt → "for" "(" (varDecl|exprStmt|";") expression? ";" expression? ")" statement,
/// after the `for`. What is read is the loop that the `for` stands for.
#[verifier::opaque]
pub open spec fn for_statement(tokens: Seq<TokenView>, pos: int) -> Parsed<StmtView>
    decreases remaining(tokens, pos), 30nat,
{
    let open = consume(tokens, pos, TokenType::LeftParen, Place::For);
    match open.outcome {
        Err(kind) => err(kind, open.next),
        Ok(_) => {
            let first = for_initializer(tokens, pos + 1);
            match first.outcome {
                Err(kind) => err(kind, first.next),
                Ok(initializer) => {
                    let second_at = later(first.next, pos + 1);
                    let second = for_condition(tokens, second_at);
                    match second.outcome {
                        Err(kind) => err(kind, second.next),
                        Ok(condition) => {
                            let third_at = later(second.next, second_at);
                            let third = for_increment(tokens, third_at);
                            match third.outcome {
                                Err(kind) => err(kind, third.next),
                                Ok(increment) => {
                                    let body = statement(tokens, later(third.next, third_at));
                                    match body.outcome {
                                        Err(kind) => err(kind, body.next),
                                        Ok(stmt) => ok(
                                            for_loop(initializer, condition, increment, stmt),
                                            body.next,
                                        ),
                                    }
                                },
                            }
                        },
                    }
                },
            }
        },
    }
}

/// declaration* "}": the statements of a block, after those in `statements`.
#[verifier::opaque]
pub open spec fn block_rest(tokens: Seq<TokenView>, pos: int, statements: Seq<StmtView>) -> Parsed<
    Seq<StmtView>,
>
    decreases remaining(tokens, pos), 23nat,
{
    if check(tokens, pos, TokenType::RightBrace) {
        ok(statements, pos + 1)
    } else if at_end(tokens, pos) {
        err(ParseErrorKind::Expected { token: TokenType::RightBrace, place: Place::Block }, pos)
    } else {
        let inner = declaration(tokens, pos);
        match inner.outcome {
            Err(kind) => err(kind, inner.next),
            Ok(stmt) => block_rest(tokens, later(inner.next, pos + 1), statements.push(stmt)),
        }
    }
}

/// statement → forStmt | ifStmt | printStmt | returnStmt | whileStmt | block | exprStmt
#[verifier::opaque]
pub open spec fn statement(tokens: Seq<TokenView>, pos: int) -> Parsed<StmtView>
    decreases remaining(tokens, pos), 21nat,
{
    if check(tokens, pos, TokenType::For) {
        for_statement(tokens, pos + 1)
    } else if check(tokens, pos, TokenType::If) {
        if_statement(tokens, pos + 1)
    } else if check(tokens, pos, TokenType::Print) {
        print_statement(tokens, pos + 1)
    } else if check(tokens, pos, TokenType::Return) {
        return_statement(tokens, pos + 1, tokens[pos])
    } else if check(tokens, pos, TokenType::While) {
        while_statement(tokens, pos + 1)
    } else if check(tokens, pos, TokenType::LeftBrace) {
        let body = block_rest(tokens, pos + 1, Seq::empty());
        match body.outcome {
            Err(kind) => err(kind, body.next),
            Ok(statements) => ok(StmtView::Block { statements }, body.next),
        }
    } else {
        expression_statement(tokens, pos)
    }
}

/// funDecl → "fun" IDENT "(" params? ")" block, after the `fun`.
#[verifier::opaque]
pub open spec fn fun_declaration(tokens: Seq<TokenView>, pos: int) -> Parsed<StmtView>
    decreases remaining(tokens, pos), 30nat,
{
    let name = consume(tokens, pos, TokenType::Identifier, Place::FunctionKeyword);
    match name.outcome {
        Err(kind) => err(kind, name.next),
        Ok(token) => {
            let rest = function_rest(
                tokens,
                pos + 1,
                Place::FunctionName,
                Place::Parameters,
                Place::FunctionHeader,
            );
            match rest.outcome {
                Err(kind) => err(kind, rest.next),
                Ok(parts) => ok(
                    StmtView::Function { name: token, params: parts.1, body: parts.2 },
                    rest.next,
                ),
            }
        },
    }
}

/// varDecl → "var" IDENT ("=" expression)? ";", after the `var`. A variable that is given no
/// value is given `nil`.
#[verifier::opaque]
pub open spec fn var_declaration(tokens: Seq<TokenView>, pos: int) -> Parsed<StmtView>
    decreases remaining(tokens, pos), 30nat,
{
    let name = consume(tokens, pos, TokenType::Identifier, Place::Var);
    match name.outcome {
        Err(kind) => err(kind, name.next),
        Ok(token) => if check(tokens, pos + 1, TokenType::Equal) {
            let value = terminated(tokens, pos + 2, Place::VariableDeclaration);
            match value.outcome {
                Err(kind) => err(kind, value.next),
                Ok(initializer) => ok(StmtView::Var { name: token, initializer }, value.next),
            }
        } else {
            let end = consume(tokens, pos + 1, TokenType::Semicolon, Place::VariableDeclaration);
            match end.outcome {
                Err(kind) => err(kind, end.next),
                Ok(_) => ok(
                    StmtView::Var {
                        name: token,
                        initializer: ExprView::Literal { value: ConstantView::Nil },
                    },
                    end.next,
                ),
            }
        },
    }
}

/// declaration → funDecl | varDecl | statement
#[verifier::opaque]
pub open spec fn declaration(tokens: Seq<TokenView>, pos: int) -> Parsed<StmtView>
    decreases remaining(tokens, pos), 22nat,
{
    if check(tokens, pos, TokenType::Fun) {
        fun_declaration(tokens, pos + 1)
    } else if check(tokens, pos, TokenType::Var) {
        var_declaration(tokens, pos + 1)
    } else {
        statement(tokens, pos)
    }
}

/// Whether a statement may start with a token of this kind.
pub open spec fn starts_statement(token_type: TokenType) -> bool {
    token_type == TokenType::Class || token_type == TokenType::Fun || token_type == TokenType::Var
        || token_type == TokenType::For || token_type == TokenType::If || token_type
        == TokenType::While || token_type == TokenType::Print || token_type == TokenType::Return
}

/// Where parsing goes on when the token before `pos` has been skipped after an error: after
/// the next `;`, or at the next token that starts a statement, or at the end.
#[verifier::opaque]
pub open spec fn resume_at(tokens: Seq<TokenView>, pos: int) -> int
    decreases remaining(tokens, pos),
{
    if at_end(tokens, pos) {
        pos
    } else if pos >= 1 && kind_at(tokens, pos - 1) == TokenType::Semicolon {
        pos
    } else if starts_statement(kind_at(tokens, pos)) {
        pos
    } else {
        resume_at(tokens, pos + 1)
    }
}

/// Where parsing goes on after an error at `pos`.
pub open spec fn synchronize(tokens: Seq<TokenView>, pos: int) -> int {
    if at_end(tokens, pos) {
        pos
    } else {
        resume_at(tokens, pos + 1)
    }
}

/// Parsing goes on after an error no earlier than where the error was, and later where
/// that is not the end.
pub proof fn lemma_synchronize_advances(tokens: Seq<TokenView>, pos: int)
    ensures
        resume_at(tokens, pos) >= pos,
        synchronize(tokens, pos) >= pos,
        !at_end(tokens, pos) ==> synchronize(tokens, pos) > pos,
    decreases remaining(tokens, pos),
{
    reveal(resume_at);
    if !at_end(tokens, pos) {
        lemma_synchronize_advances(tokens, pos + 1);
    }
}

/// The statements and the errors of a program.
pub struct Program {
    pub statements: Seq<StmtView>,
    pub errors: Seq<ParseError>,
}

/// declaration* EOF, after the statements and errors that were found before. After an
/// error parsing goes on where the next statement may start.
#[verifier::opaque]
pub open spec fn program_rest(
    tokens: Seq<TokenView>,
    pos: int,
    statements: Seq<StmtView>,
    errors: Seq<ParseError>,
) -> Program
    decreases remaining(tokens, pos),
{
    if at_end(tokens, pos) {
        Program { statements, errors }
    } else {
        let found = declaration(tokens, pos);
        match found.outcome {
            Ok(stmt) => program_rest(
                tokens,
                later(found.next, pos + 1),
                statements.push(stmt),
                errors,
            ),
            Err(kind) => program_rest(
                tokens,
                later(synchronize(tokens, later(found.next, pos)), pos + 1),
                statements,
                errors.push(ParseError { kind, line: tokens[pos].line }),
            ),
        }
    }
}

/// program → declaration* EOF
pub open spec fn program(tokens: Seq<TokenView>) -> Program {
    program_rest(tokens, 0, Seq::empty(), Seq::empty())
}

// Reading moves forward: what is read ends at or after the place where reading started,
// and what is read without an error, where it is more than the rest of a list, ends after
// it. So wherever a position is made no earlier than another with `later`, it is the
// position itself.

/// A primary expression takes tokens.
#[verifier::spinoff_prover]
pub proof fn lemma_primary(tokens: Seq<TokenView>, pos: int)
    ensures
        primary(tokens, pos).next >= pos,
        primary(tokens, pos).outcome is Ok ==> primary(tokens, pos).next > pos,
    decreases remaining(tokens, pos), 1nat,
{
    reveal(primary);
    if !at_end(tokens, pos) {
        if kind_at(tokens, pos) == TokenType::LeftParen {
            lemma_expression(tokens, pos + 1);
        } else if kind_at(tokens, pos) == TokenType::Fun {
            lemma_lambda(tokens, pos + 1);
        }
    }
}

/// The names of parameters take tokens.
#[verifier::spinoff_prover]
pub proof fn lemma_parameters_rest(tokens: Seq<TokenView>, pos: int, params: Seq<TokenView>)
    ensures
        parameters_rest(tokens, pos, params).next >= pos,
        parameters_rest(tokens, pos, params).outcome is Ok ==> parameters_rest(tokens, pos, params).next > pos,
    decreases remaining(tokens, pos), 0nat,
{
    reveal(parameters_rest);
    if params.len() < 255 && check(tokens, pos, TokenType::Identifier) && check(
        tokens,
        pos + 1,
        TokenType::Comma,
    ) {
        lemma_parameters_rest(tokens, pos + 2, params.push(tokens[pos]));
    }
}

/// Parameters and a body take tokens.
#[verifier::spinoff_prover]
pub proof fn lemma_function_rest(tokens: Seq<TokenView>, pos: int, open_place: Place, close_place: Place, body_place: Place)
    ensures
        function_rest(tokens, pos, open_place, close_place, body_place).next >= pos,
        function_rest(tokens, pos, open_place, close_place, body_place).outcome is Ok ==> function_rest(tokens, pos, open_place, close_place, body_place).next > pos,
    decreases remaining(tokens, pos), 29nat,
{
    reveal(function_rest);
    if check(tokens, pos, TokenType::LeftParen) {
        let params = parameters(tokens, pos + 1);
        if !check(tokens, pos + 1, TokenType::RightParen) {
            lemma_parameters_rest(tokens, pos + 1, Seq::empty());
        }
        if params.outcome is Ok {
            let close = consume(
                tokens,
                later(params.next, pos + 1),
                TokenType::RightParen,
                close_place,
            );
            if close.outcome is Ok {
                let brace = consume(tokens, close.next, TokenType::LeftBrace, body_place);
                if brace.outcome is Ok {
                    lemma_block_rest(tokens, brace.next, Seq::empty());
                }
            }
        }
    }
}

/// A lambda takes tokens.
#[verifier::spinoff_prover]
pub proof fn lemma_lambda(tokens: Seq<TokenView>, pos: int)
    ensures
        lambda(tokens, pos).next >= pos,
        lambda(tokens, pos).outcome is Ok ==> lambda(tokens, pos).next > pos,
    decreases remaining(tokens, pos), 30nat,
{
    reveal(lambda);
    lemma_function_rest(
        tokens,
        pos,
        Place::Lambda,
        Place::LambdaParameters,
        Place::LambdaDeclaration,
    );
}

/// Arguments take tokens.
#[verifier::spinoff_prover]
pub proof fn lemma_arguments_rest(tokens: Seq<TokenView>, pos: int, arguments: Seq<ExprView>)
    ensures
        arguments_rest(tokens, pos, arguments).next >= pos,
        arguments_rest(tokens, pos, arguments).outcome is Ok ==> arguments_rest(tokens, pos, arguments).next > pos,
    decreases remaining(tokens, pos), 19nat,
{
    reveal(arguments_rest);
    if arguments.len() < 255 {
        lemma_expression(tokens, pos);
        let argument = expression(tokens, pos);
        if let Ok(expr) = argument.outcome {
            let next = later(argument.next, pos);
            if check(tokens, next, TokenType::Comma) {
                lemma_arguments_rest(tokens, next + 1, arguments.push(expr));
            }
        }
    }
}

/// The arguments of calls end no earlier than they start.
#[verifier::spinoff_prover]
pub proof fn lemma_call_rest(tokens: Seq<TokenView>, pos: int, callee: ExprView)
    ensures
        call_rest(tokens, pos, callee).next >= pos,
    decreases remaining(tokens, pos), 0nat,
{
    reveal(call_rest);
    if check(tokens, pos, TokenType::LeftParen) {
        let arguments = if check(tokens, pos + 1, TokenType::RightParen) {
            ok(Seq::empty(), pos + 1)
        } else {
            arguments_rest(tokens, pos + 1, Seq::empty())
        };
        if !check(tokens, pos + 1, TokenType::RightParen) {
            lemma_arguments_rest(tokens, pos + 1, Seq::empty());
        }
        if let Ok(values) = arguments.outcome {
            let close = consume(
                tokens,
                later(arguments.next, pos + 1),
                TokenType::RightParen,
                Place::Arguments,
            );
            if let Ok(paren) = close.outcome {
                lemma_call_rest(
                    tokens,
                    close.next,
                    ExprView::Call { callee: Box::new(callee), paren, arguments: values },
                );
            }
        }
    }
}

/// A call takes tokens.
#[verifier::spinoff_prover]
pub proof fn lemma_call(tokens: Seq<TokenView>, pos: int)
    ensures
        call(tokens, pos).next >= pos,
        call(tokens, pos).outcome is Ok ==> call(tokens, pos).next > pos,
    decreases remaining(tokens, pos), 2nat,
{
    reveal(call);
    lemma_primary(tokens, pos);
    let callee = primary(tokens, pos);
    if let Ok(expr) = callee.outcome {
        lemma_call_rest(tokens, later(callee.next, pos), expr);
    }
}

/// A unary expression takes tokens.
#[verifier::spinoff_prover]
pub proof fn lemma_unary(tokens: Seq<TokenView>, pos: int)
    ensures
        unary(tokens, pos).next >= pos,
        unary(tokens, pos).outcome is Ok ==> unary(tokens, pos).next > pos,
    decreases remaining(tokens, pos), 3nat,
{
    reveal(unary);
    if check(tokens, pos, TokenType::Bang) || check(tokens, pos, TokenType::Minus) {
        lemma_unary(tokens, pos + 1);
    } else {
        lemma_call(tokens, pos);
    }
}

/// An operand takes tokens.
#[verifier::spinoff_prover]
pub proof fn lemma_operand(tokens: Seq<TokenView>, pos: int, level: nat)
    ensures
        operand(tokens, pos, level).next >= pos,
        operand(tokens, pos, level).outcome is Ok ==> operand(tokens, pos, level).next > pos,
    decreases remaining(tokens, pos), 4 + 2 * level,
{
    reveal(operand);
    if level == 0 {
        lemma_unary(tokens, pos);
    } else {
        lemma_binary(tokens, pos, (level - 1) as nat);
    }
}

/// Operators and operands end no earlier than they start.
#[verifier::spinoff_prover]
pub proof fn lemma_binary_rest(tokens: Seq<TokenView>, pos: int, level: nat, left: ExprView)
    ensures
        binary_rest(tokens, pos, level, left).next >= pos,
    decreases remaining(tokens, pos), 0nat,
{
    reveal(binary_rest);
    if !at_end(tokens, pos) && infix(level, kind_at(tokens, pos)) {
        lemma_operand(tokens, pos + 1, level);
        let right = operand(tokens, pos + 1, level);
        if let Ok(expr) = right.outcome {
            lemma_binary_rest(
                tokens,
                later(right.next, pos + 1),
                level,
                infix_node(level, left, tokens[pos], expr),
            );
        }
    }
}

/// Operands with their operators take tokens.
#[verifier::spinoff_prover]
pub proof fn lemma_binary(tokens: Seq<TokenView>, pos: int, level: nat)
    ensures
        binary(tokens, pos, level).next >= pos,
        binary(tokens, pos, level).outcome is Ok ==> binary(tokens, pos, level).next > pos,
    decreases remaining(tokens, pos), 5 + 2 * level,
{
    reveal(binary);
    lemma_operand(tokens, pos, level);
    let left = operand(tokens, pos, level);
    if let Ok(expr) = left.outcome {
        lemma_binary_rest(tokens, later(left.next, pos), level, expr);
    }
}

/// An assignment takes tokens.
#[verifier::spinoff_prover]
pub proof fn lemma_assignment(tokens: Seq<TokenView>, pos: int)
    ensures
        assignment(tokens, pos).next >= pos,
        assignment(tokens, pos).outcome is Ok ==> assignment(tokens, pos).next > pos,
    decreases remaining(tokens, pos), 17nat,
{
    reveal(assignment);
    lemma_binary(tokens, pos, 5);
    let target = binary(tokens, pos, 5);
    if target.outcome is Ok {
        let next = later(target.next, pos);
        if check(tokens, next, TokenType::Equal) {
            lemma_assignment(tokens, next + 1);
        }
    }
}

/// An expression takes tokens.
#[verifier::spinoff_prover]
pub proof fn lemma_expression(tokens: Seq<TokenView>, pos: int)
    ensures
        expression(tokens, pos).next >= pos,
        expression(tokens, pos).outcome is Ok ==> expression(tokens, pos).next > pos,
    decreases remaining(tokens, pos), 18nat,
{
    reveal(expression);
    lemma_assignment(tokens, pos);
}

/// An expression with its `;` takes tokens.
#[verifier::spinoff_prover]
pub proof fn lemma_terminated(tokens: Seq<TokenView>, pos: int, place: Place)
    ensures
        terminated(tokens, pos, place).next >= pos,
        terminated(tokens, pos, place).outcome is Ok ==> terminated(tokens, pos, place).next > pos,
    decreases remaining(tokens, pos), 19nat,
{
    reveal(terminated);
    lemma_expression(tokens, pos);
}

/// An expression statement takes tokens.
#[verifier::spinoff_prover]
pub proof fn lemma_expression_statement(tokens: Seq<TokenView>, pos: int)
    ensures
        expression_statement(tokens, pos).next >= pos,
        expression_statement(tokens, pos).outcome is Ok ==> expression_statement(tokens, pos).next > pos,
    decreases remaining(tokens, pos), 20nat,
{
    reveal(expression_statement);
    lemma_terminated(tokens, pos, Place::Value);
}

/// What follows `print` takes tokens.
#[verifier::spinoff_prover]
pub proof fn lemma_print_statement(tokens: Seq<TokenView>, pos: int)
    ensures
        print_statement(tokens, pos).next >= pos,
        print_statement(tokens, pos).outcome is Ok ==> print_statement(tokens, pos).next > pos,
    decreases remaining(tokens, pos), 30nat,
{
    reveal(print_statement);
    lemma_terminated(tokens, pos, Place::Value);
}

/// What follows `return` takes tokens.
#[verifier::spinoff_prover]
pub proof fn lemma_return_statement(tokens: Seq<TokenView>, pos: int, keyword: TokenView)
    ensures
        return_statement(tokens, pos, keyword).next >= pos,
        return_statement(tokens, pos, keyword).outcome is Ok ==> return_statement(tokens, pos, keyword).next > pos,
    decreases remaining(tokens, pos), 30nat,
{
    reveal(return_statement);
    if !check(tokens, pos, TokenType::Semicolon) {
        lemma_terminated(tokens, pos, Place::ReturnValue);
    }
}

/// A condition in its parentheses takes tokens.
#[verifier::spinoff_prover]
pub proof fn lemma_condition(tokens: Seq<TokenView>, pos: int, open_place: Place, close_place: Place)
    ensures
        condition(tokens, pos, open_place, close_place).next >= pos,
        condition(tokens, pos, open_place, close_place).outcome is Ok ==> condition(tokens, pos, open_place, close_place).next > pos,
    decreases remaining(tokens, pos), 29nat,
{
    reveal(condition);
    if check(tokens, pos, TokenType::LeftParen) {
        lemma_expression(tokens, pos + 1);
    }
}

/// What follows `if` takes tokens.
#[verifier::spinoff_prover]
pub proof fn lemma_if_statement(tokens: Seq<TokenView>, pos: int)
    ensures
        if_statement(tokens, pos).next >= pos,
        if_statement(tokens, pos).outcome is Ok ==> if_statement(tokens, pos).next > pos,
    decreases remaining(tokens, pos), 30nat,
{
    reveal(if_statement);
    lemma_condition(tokens, pos, Place::If, Place::IfCondition);
    let test = condition(tokens, pos, Place::If, Place::IfCondition);
    if test.outcome is Ok {
        let start = later(test.next, pos);
        lemma_statement(tokens, start);
        let then_part = statement(tokens, start);
        if then_part.outcome is Ok {
            let next = later(then_part.next, start);
            if check(tokens, next, TokenType::Else) {
                lemma_statement(tokens, next + 1);
            }
        }
    }
}

/// What follows `while` takes tokens.
#[verifier::spinoff_prover]
pub proof fn lemma_while_statement(tokens: Seq<TokenView>, pos: int)
    ensures
        while_statement(tokens, pos).next >= pos,
        while_statement(tokens, pos).outcome is Ok ==> while_statement(tokens, pos).next > pos,
    decreases remaining(tokens, pos), 30nat,
{
    reveal(while_statement);
    lemma_condition(tokens, pos, Place::While, Place::WhileCondition);
    let test = condition(tokens, pos, Place::While, Place::WhileCondition);
    if test.outcome is Ok {
        lemma_statement(tokens, later(test.next, pos));
    }
}

/// The first clause of a `for` takes tokens.
#[verifier::spinoff_prover]
pub proof fn lemma_for_initializer(tokens: Seq<TokenView>, pos: int)
    ensures
        for_initializer(tokens, pos).next >= pos,
        for_initializer(tokens, pos).outcome is Ok ==> for_initializer(tokens, pos).next > pos,
    decreases remaining(tokens, pos), 29nat,
{
    reveal(for_initializer);
    if check(tokens, pos, TokenType::Semicolon) {
    } else if check(tokens, pos, TokenType::Var) {
        lemma_var_declaration(tokens, pos + 1);
    } else {
        lemma_expression_statement(tokens, pos);
    }
}

/// The second clause of a `for` takes tokens.
#[verifier::spinoff_prover]
pub proof fn lemma_for_condition(tokens: Seq<TokenView>, pos: int)
    ensures
        for_condition(tokens, pos).next >= pos,
        for_condition(tokens, pos).outcome is Ok ==> for_condition(tokens, pos).next > pos,
    decreases remaining(tokens, pos), 29nat,
{
    reveal(for_condition);
    if !check(tokens, pos, TokenType::Semicolon) {
        lemma_terminated(tokens, pos, Place::LoopCondition);
    }
}

/// The third clause of a `for` takes tokens.
#[verifier::spinoff_prover]
pub proof fn lemma_for_increment(tokens: Seq<TokenView>, pos: int)
    ensures
        for_increment(tokens, pos).next >= pos,
        for_increment(tokens, pos).outcome is Ok ==> for_increment(tokens, pos).next > pos,
    decreases remaining(tokens, pos), 29nat,
{
    reveal(for_increment);
    if !check(tokens, pos, TokenType::RightParen) {
        lemma_expression(tokens, pos);
    }
}

/// What follows `for` takes tokens.
#[verifier::spinoff_prover]
pub proof fn lemma_for_statement(tokens: Seq<TokenView>, pos: int)
    ensures
        for_statement(tokens, pos).next >= pos,
        for_statement(tokens, pos).outcome is Ok ==> for_statement(tokens, pos).next > pos,
    decreases remaining(tokens, pos), 30nat,
{
    reveal(for_statement);
    if check(tokens, pos, TokenType::LeftParen) {
        lemma_for_initializer(tokens, pos + 1);
        let first = for_initializer(tokens, pos + 1);
        if first.outcome is Ok {
            let second_at = later(first.next, pos + 1);
            lemma_for_condition(tokens, second_at);
            let second = for_condition(tokens, second_at);
            if second.outcome is Ok {
                let third_at = later(second.next, second_at);
                lemma_for_increment(tokens, third_at);
                let third = for_increment(tokens, third_at);
                if third.outcome is Ok {
                    lemma_statement(tokens, later(third.next, third_at));
                }
            }
        }
    }
}

/// The statements of a block and its closing brace take tokens.
#[verifier::spinoff_prover]
pub proof fn lemma_block_rest(tokens: Seq<TokenView>, pos: int, statements: Seq<StmtView>)
    ensures
        block_rest(tokens, pos, statements).next >= pos,
        block_rest(tokens, pos, statements).outcome is Ok ==> block_rest(tokens, pos, statements).next > pos,
    decreases remaining(tokens, pos), 23nat,
{
    reveal(block_rest);
    if !check(tokens, pos, TokenType::RightBrace) && !at_end(tokens, pos) {
        lemma_declaration(tokens, pos);
        let inner = declaration(tokens, pos);
        if let Ok(stmt) = inner.outcome {
            lemma_block_rest(tokens, later(inner.next, pos + 1), statements.push(stmt));
        }
    }
}

/// A statement takes tokens.
#[verifier::spinoff_prover]
pub proof fn lemma_statement(tokens: Seq<TokenView>, pos: int)
    ensures
        statement(tokens, pos).next >= pos,
        statement(tokens, pos).outcome is Ok ==> statement(tokens, pos).next > pos,
    decreases remaining(tokens, pos), 21nat,
{
    reveal(statement);
    if check(tokens, pos, TokenType::For) {
        lemma_for_statement(tokens, pos + 1);
    } else if check(tokens, pos, TokenType::If) {
        lemma_if_statement(tokens, pos + 1);
    } else if check(tokens, pos, TokenType::Print) {
        lemma_print_statement(tokens, pos + 1);
    } else if check(tokens, pos, TokenType::Return) {
        lemma_return_statement(tokens, pos + 1, tokens[pos]);
    } else if check(tokens, pos, TokenType::While) {
        lemma_while_statement(tokens, pos + 1);
    } else if check(tokens, pos, TokenType::LeftBrace) {
        lemma_block_rest(tokens, pos + 1, Seq::empty());
    } else {
        lemma_expression_statement(tokens, pos);
    }
}

/// What follows `fun` in a declaration takes tokens.
#[verifier::spinoff_prover]
pub proof fn lemma_fun_declaration(tokens: Seq<TokenView>, pos: int)
    ensures
        fun_declaration(tokens, pos).next >= pos,
        fun_declaration(tokens, pos).outcome is Ok ==> fun_declaration(tokens, pos).next > pos,
    decreases remaining(tokens, pos), 30nat,
{
    reveal(fun_declaration);
    if check(tokens, pos, TokenType::Identifier) {
        lemma_function_rest(
            tokens,
            pos + 1,
            Place::FunctionName,
            Place::Parameters,
            Place::FunctionHeader,
        );
    }
}

/// What follows `var` takes tokens.
#[verifier::spinoff_prover]
pub proof fn lemma_var_declaration(tokens: Seq<TokenView>, pos: int)
    ensures
        var_declaration(tokens, pos).next >= pos,
        var_declaration(tokens, pos).outcome is Ok ==> var_declaration(tokens, pos).next > pos,
    decreases remaining(tokens, pos), 30nat,
{
    reveal(var_declaration);
    if check(tokens, pos, TokenType::Identifier) && check(tokens, pos + 1, TokenType::Equal) {
        lemma_terminated(tokens, pos + 2, Place::VariableDeclaration);
    }
}

/// A declaration takes tokens.
#[verifier::spinoff_prover]
pub proof fn lemma_declaration(tokens: Seq<TokenView>, pos: int)
    ensures
        declaration(tokens, pos).next >= pos,
        declaration(tokens, pos).outcome is Ok ==> declaration(tokens, pos).next > pos,
    decreases remaining(tokens, pos), 22nat,
{
    reveal(declaration);
    if check(tokens, pos, TokenType::Fun) {
        lemma_fun_declaration(tokens, pos + 1);
    } else if check(tokens, pos, TokenType::Var) {
        lemma_var_declaration(tokens, pos + 1);
    } else {
        lemma_statement(tokens, pos);
    }
}

} // verus!
