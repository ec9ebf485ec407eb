//! The evaluator: the machine of `machine`, step by step.
//!
//! An interpreter is loaded with a program or an expression and then stepped by its host
//! until it has finished or failed. After each step the host does what the action asks
//! for, and hands a number that was asked for to the next step.
use crate::callable::{share, CallableView, LoxCallable};
use crate::environment::Environment;
use crate::expression::{expr_views, value_views, Constant, Expr, LiteralValue, ValueView};
use crate::machine::{
    bind, lemma_load_wf, lemma_next_wf, ActionView, FrameView, MachineView, RuntimeError,
    RuntimeErrorKind, ShownView,
};
use crate::number;
use crate::scanner::{token_views, Token, TokenType};
use crate::statement::{lemma_views_of_lists, stmt_views, Stmt};
use crate::text::{bytes_of, copy, decimal, join, precedes};
use std::rc::Rc;
use vstd::prelude::*;
use vstd::string::*;

verus! {

/// A piece of work that is still to be done: see `FrameView`.
#[derive(Debug)]
#[allow(inconsistent_fields)]
pub enum Frame {
    Evaluate { expression: Rc<Expr> },
    Execute { statement: Rc<Stmt> },
    Sequence { statements: Rc<Vec<Stmt>>, next: usize },
    Unary { operator: TokenType, line: usize },
    Binary { operator: TokenType, line: usize },
    Logical { operator: TokenType, right: Rc<Expr> },
    Assign { name: Vec<u8>, line: usize },
    Callee { line: usize, arguments: Rc<Vec<Expr>> },
    Arguments { line: usize, arguments: Rc<Vec<Expr>>, next: usize },
    Leave { environment: usize },
    Discard,
    Print,
    Define { name: Vec<u8> },
    Branch { then_stmt: Rc<Stmt>, else_stmt: Option<Rc<Stmt>> },
    Loop { condition: Rc<Expr>, body: Rc<Stmt> },
    LoopTest { condition: Rc<Expr>, body: Rc<Stmt> },
    Return,
    Restore { environment: usize },
}

impl View for Frame {
    type V = FrameView;

    open spec fn view(&self) -> FrameView {
        match self {
            Frame::Evaluate { expression } => FrameView::Evaluate { expression: expression@ },
            Frame::Execute { statement } => FrameView::Execute { statement: statement@ },
            Frame::Sequence { statements, next } => FrameView::Sequence {
                statements: stmt_views(statements@),
                next: *next as nat,
            },
            Frame::Unary { operator, line } => FrameView::Unary {
                operator: *operator,
                line: *line,
            },
            Frame::Binary { operator, line } => FrameView::Binary {
                operator: *operator,
                line: *line,
            },
            Frame::Logical { operator, right } => FrameView::Logical {
                operator: *operator,
                right: right@,
            },
            Frame::Assign { name, line } => FrameView::Assign { name: name@, line: *line },
            Frame::Callee { line, arguments } => FrameView::Callee {
                line: *line,
                arguments: expr_views(arguments@),
            },
            Frame::Arguments { line, arguments, next } => FrameView::Arguments {
                line: *line,
                arguments: expr_views(arguments@),
                next: *next as nat,
            },
            Frame::Leave { environment } => FrameView::Leave { environment: *environment as nat },
            Frame::Discard => FrameView::Discard,
            Frame::Print => FrameView::Print,
            Frame::Define { name } => FrameView::Define { name: name@ },
            Frame::Branch { then_stmt, else_stmt } => FrameView::Branch {
                then_stmt: then_stmt@,
                else_stmt: match else_stmt {
                    Some(other) => Some(other@),
                    None => None,
                },
            },
            Frame::Loop { condition, body } => FrameView::Loop {
                condition: condition@,
                body: body@,
            },
            Frame::LoopTest { condition, body } => FrameView::LoopTest {
                condition: condition@,
                body: body@,
            },
            Frame::Return => FrameView::Return,
            Frame::Restore { environment } => FrameView::Restore {
                environment: *environment as nat,
            },
        }
    }
}

/// The views of a sequence of frames, one for one.
pub open spec fn frame_views(frames: Seq<Frame>) -> Seq<FrameView> {
    Seq::new(frames.len(), |i: int| frames[i]@)
}

/// What `print` writes before the end of the line: text, or a number that the host writes
/// in decimal.
#[derive(Debug)]
pub enum Shown {
    Text(Vec<u8>),
    Number(u64),
}

impl View for Shown {
    type V = ShownView;

    open spec fn view(&self) -> ShownView {
        match self {
            Shown::Text(bytes) => ShownView::Text(bytes@),
            Shown::Number(bits) => ShownView::Number(*bits),
        }
    }
}

/// What the host is to do before the next step: see `ActionView`.
#[derive(Debug)]
pub enum Action {
    Continue,
    Number { digits: Vec<u8> },
    Arithmetic { operator: TokenType, left: u64, right: u64 },
    Native { name: Vec<u8>, arguments: Vec<LiteralValue> },
    Print { output: Shown },
    Finished,
    Failed { error: RuntimeError },
}

impl View for Action {
    type V = ActionView;

    open spec fn view(&self) -> ActionView {
        match self {
            Action::Continue => ActionView::Continue,
            Action::Number { digits } => ActionView::Number { digits: digits@ },
            Action::Arithmetic { operator, left, right } => ActionView::Arithmetic {
                operator: *operator,
                left: *left,
                right: *right,
            },
            Action::Native { name, arguments } => ActionView::Native {
                name: name@,
                arguments: value_views(arguments@),
            },
            Action::Print { output } => ActionView::Print { output: output@ },
            Action::Finished => ActionView::Finished,
            Action::Failed { error } => ActionView::Failed { error: *error },
        }
    }
}

/// What `print` writes for a value.
pub fn show(value: &LiteralValue) -> (output: Shown)
    ensures
        output@ == crate::machine::shown(value@),
{
    match value {
        LiteralValue::Number(bits) => Shown::Number(*bits),
        LiteralValue::StringValue(bytes) => Shown::Text(copy(bytes)),
        LiteralValue::True => Shown::Text(bytes_of("true")),
        LiteralValue::False => Shown::Text(bytes_of("false")),
        LiteralValue::Nil => Shown::Text(bytes_of("nil")),
        LiteralValue::Callable(callable) => {
            let opened = join(&bytes_of("<fn "), callable.name_bytes());
            let named = join(&opened, &bytes_of("/"));
            let counted = join(&named, &decimal(callable.arity()));
            Shown::Text(join(&counted, &bytes_of(">")))
        },
    }
}

fn push_frame(frames: &mut Vec<Frame>, frame: Frame)
    ensures
        frame_views(final(frames)@) == frame_views(old(frames)@).push(frame@),
{
    frames.push(frame);
    assert(frame_views(frames@) =~= frame_views(old(frames)@).push(frame@));
}

fn pop_frame(frames: &mut Vec<Frame>) -> (frame: Frame)
    requires
        old(frames).len() > 0,
    ensures
        frame@ == frame_views(old(frames)@).last(),
        frame_views(final(frames)@) == frame_views(old(frames)@).drop_last(),
{
    let frame = frames.pop().unwrap();
    assert(frame_views(frames@) =~= frame_views(old(frames)@).drop_last());
    frame
}

fn push_value(operands: &mut Vec<LiteralValue>, value: LiteralValue)
    ensures
        final(operands).len() == old(operands).len() + 1,
        value_views(final(operands)@) == value_views(old(operands)@).push(value@),
{
    operands.push(value);
    assert(value_views(operands@) =~= value_views(old(operands)@).push(value@));
}

fn pop_value(operands: &mut Vec<LiteralValue>) -> (value: LiteralValue)
    requires
        old(operands).len() > 0,
    ensures
        final(operands).len() == old(operands).len() - 1,
        value@ == value_views(old(operands)@)[old(operands).len() - 1],
        value_views(final(operands)@) == value_views(old(operands)@).take(
            old(operands).len() - 1,
        ),
{
    let value = operands.pop().unwrap();
    assert(value_views(operands@) =~= value_views(old(operands)@).take(old(operands).len() - 1));
    value
}

pub struct Interpreter {
    environment: Environment,
    base: usize,
    return_value: Option<LiteralValue>,
    frames: Vec<Frame>,
    operands: Vec<LiteralValue>,
    awaiting: Option<usize>,
}

impl View for Interpreter {
    type V = MachineView;

    closed spec fn view(&self) -> MachineView {
        MachineView {
            environment: self.environment@,
            base: self.base as nat,
            return_value: match self.return_value {
                Some(value) => Some(value@),
                None => None,
            },
            frames: frame_views(self.frames@),
            operands: value_views(self.operands@),
            awaiting: self.awaiting,
        }
    }
}

impl Interpreter {
    /// Whether the scopes are in order.
    pub closed spec fn sound(&self) -> bool {
        &&& self.environment.wf()
        &&& self.environment@.wf()
        &&& self.base < self.environment@.scopes.len()
    }

    /// Whether the interpreter is in a state that a run can be in.
    pub closed spec fn wf(&self) -> bool {
        self.sound() && self@.wf() && self@.calm()
    }

    /// Whether the scopes are linked: every scope lies in a scope that was made before it,
    /// and every function at hand was declared in a scope that there is. It is so in a new
    /// interpreter, and stays so.
    pub closed spec fn linked(&self) -> bool {
        crate::theorems::grounded(self@)
    }

    /// An interpreter that is in a state that a run can be in stands for such a state of
    /// the machine, in which the return slot is in use only on the way out of a function.
    pub proof fn lemma_wf(&self)
        requires
            self.wf(),
        ensures
            self@.wf(),
            self@.calm(),
            self.linked() == crate::theorems::grounded(self@),
    {
    }

    /// The run fails.
    fn fail(&mut self, kind: RuntimeErrorKind, line: usize) -> (action: Action)
        requires
            old(self).sound(),
        ensures
            final(self).sound(),
            (final(self)@, action@) == old(self)@.fail(kind, line),
    {
        self.environment.leave(self.base);
        self.return_value = None;
        self.frames = Vec::new();
        self.operands = Vec::new();
        self.awaiting = None;
        assert(self@.frames =~= Seq::empty());
        assert(self@.operands =~= Seq::empty());
        Action::Failed { error: RuntimeError { kind, line } }
    }

    /// Starts the evaluation of an expression.
    fn begin_expression(&mut self, expression: &Expr) -> (action: Action)
        requires
            old(self).sound(),
        ensures
            final(self).sound(),
            (final(self)@, action@) == old(self)@.begin_expression(expression@),
    {
        proof {
            lemma_views_of_lists(*expression, Stmt::Return { keyword: arbitrary(), value: None });
        }
        match expression {
            Expr::Assign { name, value } => {
                push_frame(
                    &mut self.frames,
                    Frame::Assign { name: copy(&name.lexeme), line: name.line },
                );
                push_frame(&mut self.frames, Frame::Evaluate { expression: share(value) });
                Action::Continue
            },
            Expr::Binary { left, operator, right } => {
                push_frame(
                    &mut self.frames,
                    Frame::Binary { operator: operator.token_type, line: operator.line },
                );
                push_frame(&mut self.frames, Frame::Evaluate { expression: share(right) });
                push_frame(&mut self.frames, Frame::Evaluate { expression: share(left) });
                Action::Continue
            },
            Expr::Call { callee, paren, arguments } => {
                push_frame(
                    &mut self.frames,
                    Frame::Callee { line: paren.line, arguments: share(arguments) },
                );
                push_frame(&mut self.frames, Frame::Evaluate { expression: share(callee) });
                Action::Continue
            },
            Expr::Grouping { expression } => {
                push_frame(&mut self.frames, Frame::Evaluate { expression: share(expression) });
                Action::Continue
            },
            Expr::Lambda { paren, params, body } => {
                let function = LoxCallable::LoxFunction {
                    name: bytes_of("lambda"),
                    parameters: share(params),
                    body: share(body),
                    closure: self.environment.current(),
                };
                push_value(&mut self.operands, LiteralValue::Callable(function));
                Action::Continue
            },
            Expr::Literal { value } => match value {
                Constant::Number(digits) => {
                    self.awaiting = Some(0);
                    Action::Number { digits: copy(digits) }
                },
                Constant::Text(bytes) => {
                    push_value(&mut self.operands, LiteralValue::StringValue(copy(bytes)));
                    Action::Continue
                },
                Constant::True => {
                    push_value(&mut self.operands, LiteralValue::True);
                    Action::Continue
                },
                Constant::False => {
                    push_value(&mut self.operands, LiteralValue::False);
                    Action::Continue
                },
                Constant::Nil => {
                    push_value(&mut self.operands, LiteralValue::Nil);
                    Action::Continue
                },
            },
            Expr::Logical { left, operator, right } => {
                push_frame(
                    &mut self.frames,
                    Frame::Logical { operator: operator.token_type, right: share(right) },
                );
                push_frame(&mut self.frames, Frame::Evaluate { expression: share(left) });
                Action::Continue
            },
            Expr::Unary { operator, right } => {
                push_frame(
                    &mut self.frames,
                    Frame::Unary { operator: operator.token_type, line: operator.line },
                );
                push_frame(&mut self.frames, Frame::Evaluate { expression: share(right) });
                Action::Continue
            },
            Expr::Variable { name } => match self.environment.get(&name.lexeme) {
                Some(value) => {
                    push_value(&mut self.operands, value);
                    Action::Continue
                },
                None => self.fail(RuntimeErrorKind::UndefinedVariable, name.line),
            },
        }
    }

    /// Starts the execution of a statement.
    fn begin_statement(&mut self, statement: &Stmt) -> (action: Action)
        requires
            old(self).sound(),
        ensures
            final(self).sound(),
            (final(self)@, action@) == old(self)@.begin_statement(statement@),
    {
        proof {
            lemma_views_of_lists(Expr::Literal { value: Constant::Nil }, *statement);
        }
        match statement {
            Stmt::Block { statements } => {
                let outer = self.environment.current();
                self.environment.enter(outer);
                push_frame(&mut self.frames, Frame::Restore { environment: outer });
                push_frame(
                    &mut self.frames,
                    Frame::Sequence { statements: share(statements), next: 0 },
                );
                Action::Continue
            },
            Stmt::Expression { expression } => {
                push_frame(&mut self.frames, Frame::Discard);
                push_frame(&mut self.frames, Frame::Evaluate { expression: share(expression) });
                Action::Continue
            },
            Stmt::Function { name, params, body } => {
                let function = LoxCallable::LoxFunction {
                    name: copy(&name.lexeme),
                    parameters: share(params),
                    body: share(body),
                    closure: self.environment.current(),
                };
                self.environment.define(name, LiteralValue::Callable(function));
                Action::Continue
            },
            Stmt::If { condition, then_stmt, else_stmt } => {
                let other = match else_stmt {
                    Some(other) => Some(share(other)),
                    None => None,
                };
                push_frame(
                    &mut self.frames,
                    Frame::Branch { then_stmt: share(then_stmt), else_stmt: other },
                );
                push_frame(&mut self.frames, Frame::Evaluate { expression: share(condition) });
                Action::Continue
            },
            Stmt::Print { expression } => {
                push_frame(&mut self.frames, Frame::Print);
                push_frame(&mut self.frames, Frame::Evaluate { expression: share(expression) });
                Action::Continue
            },
            Stmt::Return { keyword, value } => match value {
                Some(expression) => {
                    push_frame(&mut self.frames, Frame::Return);
                    push_frame(
                        &mut self.frames,
                        Frame::Evaluate { expression: share(expression) },
                    );
                    Action::Continue
                },
                None => {
                    self.return_value = Some(LiteralValue::Nil);
                    Action::Continue
                },
            },
            Stmt::Var { name, initializer } => {
                push_frame(&mut self.frames, Frame::Define { name: copy(&name.lexeme) });
                push_frame(&mut self.frames, Frame::Evaluate { expression: share(initializer) });
                Action::Continue
            },
            Stmt::While { condition, body } => {
                push_frame(
                    &mut self.frames,
                    Frame::Loop { condition: share(condition), body: share(body) },
                );
                Action::Continue
            },
        }
    }

    /// Asks the host for the sum, difference, product or quotient of two numbers.
    fn ask_arithmetic(
        &mut self,
        operator: TokenType,
        line: usize,
        left: u64,
        right: u64,
    ) -> (action: Action)
        ensures
            final(self).sound() == old(self).sound(),
            (final(self)@, action@) == old(self)@.ask(
                line,
                ActionView::Arithmetic { operator, left, right },
            ),
    {
        self.awaiting = Some(line);
        Action::Arithmetic { operator, left, right }
    }

    /// Leaves a truth value on the operands.
    fn push_bool(&mut self, boolean: bool) -> (action: Action)
        ensures
            final(self).sound() == old(self).sound(),
            (final(self)@, action@) == old(self)@.push_value(
                ValueView::from_bool(boolean),
            ).proceed(),
    {
        push_value(&mut self.operands, LiteralValue::from_bool(boolean));
        Action::Continue
    }

    /// Applies an infix operator to two values.
    fn apply_binary(
        &mut self,
        operator: TokenType,
        line: usize,
        left: LiteralValue,
        right: LiteralValue,
    ) -> (action: Action)
        requires
            old(self).sound(),
        ensures
            final(self).sound(),
            (final(self)@, action@) == old(self)@.apply_binary(operator, line, left@, right@),
    {
        match operator {
            TokenType::Plus => match (&left, &right) {
                (LiteralValue::Number(a), LiteralValue::Number(b)) => self.ask_arithmetic(
                    operator,
                    line,
                    *a,
                    *b,
                ),
                (LiteralValue::StringValue(a), LiteralValue::StringValue(b)) => {
                    push_value(&mut self.operands, LiteralValue::StringValue(join(a, b)));
                    Action::Continue
                },
                _ => self.fail(RuntimeErrorKind::TypeMismatch, line),
            },
            TokenType::Minus | TokenType::Star | TokenType::Slash => match (&left, &right) {
                (LiteralValue::Number(a), LiteralValue::Number(b)) => self.ask_arithmetic(
                    operator,
                    line,
                    *a,
                    *b,
                ),
                _ => self.fail(RuntimeErrorKind::TypeMismatch, line),
            },
            TokenType::Greater => match (&left, &right) {
                (LiteralValue::Number(a), LiteralValue::Number(b)) => self.push_bool(
                    number::in_order(*b, *a, false),
                ),
                (LiteralValue::StringValue(a), LiteralValue::StringValue(b)) => self.push_bool(
                    precedes(b, a),
                ),
                _ => self.fail(RuntimeErrorKind::TypeMismatch, line),
            },
            TokenType::GreaterEqual => match (&left, &right) {
                (LiteralValue::Number(a), LiteralValue::Number(b)) => self.push_bool(
                    number::in_order(*b, *a, true),
                ),
                (LiteralValue::StringValue(a), LiteralValue::StringValue(b)) => self.push_bool(
                    !precedes(a, b),
                ),
                _ => self.fail(RuntimeErrorKind::TypeMismatch, line),
            },
            TokenType::Less => match (&left, &right) {
                (LiteralValue::Number(a), LiteralValue::Number(b)) => self.push_bool(
                    number::in_order(*a, *b, false),
                ),
                (LiteralValue::StringValue(a), LiteralValue::StringValue(b)) => self.push_bool(
                    precedes(a, b),
                ),
                _ => self.fail(RuntimeErrorKind::TypeMismatch, line),
            },
            TokenType::LessEqual => match (&left, &right) {
                (LiteralValue::Number(a), LiteralValue::Number(b)) => self.push_bool(
                    number::in_order(*a, *b, true),
                ),
                (LiteralValue::StringValue(a), LiteralValue::StringValue(b)) => self.push_bool(
                    !precedes(b, a),
                ),
                _ => self.fail(RuntimeErrorKind::TypeMismatch, line),
            },
            TokenType::BangEqual => self.push_bool(!left.equals(&right)),
            TokenType::EqualEqual => self.push_bool(left.equals(&right)),
            _ => self.fail(RuntimeErrorKind::InvalidOperator, line),
        }
    }

    /// Applies a prefix operator to a value.
    fn apply_unary(
        &mut self,
        operator: TokenType,
        line: usize,
        value: LiteralValue,
    ) -> (action: Action)
        requires
            old(self).sound(),
        ensures
            final(self).sound(),
            (final(self)@, action@) == old(self)@.apply_unary(operator, line, value@),
    {
        match operator {
            TokenType::Minus => match value {
                LiteralValue::Number(bits) => {
                    push_value(&mut self.operands, LiteralValue::Number(number::negate(bits)));
                    Action::Continue
                },
                _ => self.fail(RuntimeErrorKind::TypeMismatch, line),
            },
            TokenType::Bang => self.push_bool(!value.is_truthy()),
            _ => self.fail(RuntimeErrorKind::InvalidOperator, line),
        }
    }

    /// Calls a value with arguments that have been evaluated.
    fn call_value(
        &mut self,
        callee: LiteralValue,
        arguments: Vec<LiteralValue>,
        line: usize,
    ) -> (action: Action)
        requires
            old(self).sound(),
        ensures
            final(self).sound(),
            (final(self)@, action@) == old(self)@.call(callee@, value_views(arguments@), line),
    {
        match callee {
            LiteralValue::Callable(callable) => callable.invoke(self, arguments, line),
            _ => self.fail(RuntimeErrorKind::NotCallable, line),
        }
    }

    /// Gives a frame its turn.
    fn run_frame(&mut self, frame: Frame) -> (action: Action)
        requires
            old(self).sound(),
            old(self)@.operands.len() >= crate::machine::takes(frame@),
            frame@ is Leave ==> frame@->Leave_environment < old(self)@.environment.scopes.len(),
            frame@ is Restore ==> frame@->Restore_environment < old(self)@.environment.scopes.len(),
        ensures
            final(self).sound(),
            (final(self)@, action@) == old(self)@.run_frame(frame@),
    {
        match frame {
            Frame::Evaluate { expression } => self.begin_expression(&expression),
            Frame::Execute { statement } => self.begin_statement(&statement),
            Frame::Sequence { statements, next } => {
                if self.return_value.is_some() || next >= statements.len() {
                    Action::Continue
                } else {
                    push_frame(
                        &mut self.frames,
                        Frame::Sequence { statements: share(&statements), next: next + 1 },
                    );
                    assert(stmt_views(statements@)[next as int] == statements@[next as int]@);
                    self.begin_statement(&statements[next])
                }
            },
            Frame::Unary { operator, line } => {
                let value = pop_value(&mut self.operands);
                self.apply_unary(operator, line, value)
            },
            Frame::Binary { operator, line } => {
                let right = pop_value(&mut self.operands);
                let left = pop_value(&mut self.operands);
                assert(self@.operands =~= old(self)@.operands.take(old(self)@.operands.len() - 2));
                self.apply_binary(operator, line, left, right)
            },
            Frame::Logical { operator, right } => {
                let count = self.operands.len();
                assert(self@.operands[count - 1] == self.operands@[count - 1]@);
                let truthy = self.operands[count - 1].is_truthy();
                if (operator == TokenType::Or) == truthy {
                    Action::Continue
                } else {
                    let _ = pop_value(&mut self.operands);
                    push_frame(&mut self.frames, Frame::Evaluate { expression: right });
                    Action::Continue
                }
            },
            Frame::Assign { name, line } => {
                let count = self.operands.len();
                assert(self@.operands[count - 1] == self.operands@[count - 1]@);
                if self.environment.rebind(&name, &self.operands[count - 1]) {
                    proof {
                        crate::environment::lemma_resolve(
                            old(self)@.environment.scopes,
                            old(self)@.environment.current,
                            name@,
                        );
                    }
                    Action::Continue
                } else {
                    self.fail(RuntimeErrorKind::UndefinedAssignment, line)
                }
            },
            Frame::Callee { line, arguments } => {
                let count = self.operands.len();
                assert(self@.operands[count - 1] == self.operands@[count - 1]@);
                let callable = match &self.operands[count - 1] {
                    LiteralValue::Callable(_) => true,
                    _ => false,
                };
                if callable {
                    push_frame(&mut self.frames, Frame::Arguments { line, arguments, next: 0 });
                    Action::Continue
                } else {
                    self.fail(RuntimeErrorKind::NotCallable, line)
                }
            },
            Frame::Arguments { line, arguments, next } => {
                if next < arguments.len() {
                    push_frame(
                        &mut self.frames,
                        Frame::Arguments { line, arguments: share(&arguments), next: next + 1 },
                    );
                    assert(expr_views(arguments@)[next as int] == arguments@[next as int]@);
                    self.begin_expression(&arguments[next])
                } else {
                    let count = self.operands.len();
                    let values = self.operands.split_off(count - next);
                    assert(value_views(values@) =~= old(self)@.operands.subrange(
                        count - next,
                        count as int,
                    ));
                    assert(value_views(self.operands@) =~= old(self)@.operands.take(count - next));
                    let callee = pop_value(&mut self.operands);
                    assert(self@.operands =~= old(self)@.operands.take(count - (next + 1)));
                    self.call_value(callee, values, line)
                }
            },
            Frame::Leave { environment } => {
                self.environment.leave(environment);
                let value = match self.return_value.take() {
                    Some(value) => value,
                    None => LiteralValue::Nil,
                };
                push_value(&mut self.operands, value);
                Action::Continue
            },
            Frame::Discard => {
                let _ = pop_value(&mut self.operands);
                Action::Continue
            },
            Frame::Print => {
                let value = pop_value(&mut self.operands);
                Action::Print { output: show(&value) }
            },
            Frame::Define { name } => {
                let value = pop_value(&mut self.operands);
                self.environment.bind(&name, value);
                Action::Continue
            },
            Frame::Branch { then_stmt, else_stmt } => {
                let value = pop_value(&mut self.operands);
                if value.is_truthy() {
                    push_frame(&mut self.frames, Frame::Execute { statement: then_stmt });
                } else {
                    match else_stmt {
                        Some(other) => {
                            push_frame(&mut self.frames, Frame::Execute { statement: other });
                        },
                        None => {},
                    }
                }
                Action::Continue
            },
            Frame::Loop { condition, body } => {
                if self.return_value.is_some() {
                    Action::Continue
                } else {
                    let again = share(&condition);
                    push_frame(&mut self.frames, Frame::LoopTest { condition, body });
                    push_frame(&mut self.frames, Frame::Evaluate { expression: again });
                    Action::Continue
                }
            },
            Frame::LoopTest { condition, body } => {
                let value = pop_value(&mut self.operands);
                if value.is_truthy() {
                    let once = share(&body);
                    push_frame(&mut self.frames, Frame::Loop { condition, body });
                    push_frame(&mut self.frames, Frame::Execute { statement: once });
                }
                Action::Continue
            },
            Frame::Return => {
                let value = pop_value(&mut self.operands);
                self.return_value = Some(value);
                Action::Continue
            },
            Frame::Restore { environment } => {
                self.environment.leave(environment);
                Action::Continue
            },
        }
    }

    /// An interpreter with the global scope alone, in which `clock` is bound to the function
    /// of the host that reads the clock.
    pub fn new() -> (interpreter: Interpreter)
        ensures
            interpreter.wf(),
            interpreter.linked(),
            interpreter@ == MachineView::initial(),
    {
        proof {
            crate::theorems::lemma_start_grounded(
                MachineView::initial(),
                Seq::empty(),
                arbitrary(),
            );
        }
        let mut environment = Environment::new();
        environment.bind(
            &bytes_of("clock"),
            LiteralValue::Callable(
                LoxCallable::NativeFunction { name: bytes_of("clock"), arity: 0 },
            ),
        );
        let interpreter = Interpreter {
            environment,
            base: 0,
            return_value: None,
            frames: Vec::new(),
            operands: Vec::new(),
            awaiting: None,
        };
        assert(interpreter@.frames =~= Seq::empty());
        assert(interpreter@.operands =~= Seq::empty());
        assert(interpreter@.environment.scopes =~= MachineView::initial().environment.scopes);
        interpreter
    }

    /// An interpreter whose programs run in a new scope inside the current scope of `parent`.
    pub fn from_env(parent: Environment) -> (interpreter: Interpreter)
        requires
            parent.wf(),
        ensures
            interpreter.wf(),
            interpreter@ == MachineView::inside(parent@),
    {
        let environment = Environment::with_enclosing(parent);
        let base = environment.current();
        let interpreter = Interpreter {
            environment,
            base,
            return_value: None,
            frames: Vec::new(),
            operands: Vec::new(),
            awaiting: None,
        };
        assert(interpreter@.frames =~= Seq::empty());
        assert(interpreter@.operands =~= Seq::empty());
        interpreter
    }

    /// Makes the interpreter ready to run a program: what was still to be done is dropped,
    /// and the steps that follow execute the statements in the global scope.
    pub fn interpret(&mut self, stmts: Vec<Stmt>)
        requires
            old(self).wf(),
        ensures
            final(self).wf(),
            old(self).linked() ==> final(self).linked(),
            final(self)@ == old(self)@.load(stmt_views(stmts@)),
    {
        proof {
            if self.linked() {
                crate::theorems::lemma_start_grounded(self@, stmt_views(stmts@), arbitrary());
            }
            lemma_load_wf(self@, stmt_views(stmts@), arbitrary());
            crate::machine::lemma_load_calm(self@, stmt_views(stmts@), arbitrary());
        }
        self.environment.leave(self.base);
        self.return_value = None;
        self.frames = Vec::new();
        self.operands = Vec::new();
        self.awaiting = None;
        self.frames.push(Frame::Sequence { statements: Rc::new(stmts), next: 0 });
        assert(self@.frames =~= old(self)@.load(stmt_views(stmts@)).frames);
        assert(self@.operands =~= Seq::empty());
    }

    /// Makes the interpreter ready to evaluate an expression: what was still to be done is
    /// dropped, and the steps that follow evaluate the expression in the global scope and
    /// leave its value as the result.
    pub fn evaluate(&mut self, expr: Expr)
        requires
            old(self).wf(),
        ensures
            final(self).wf(),
            old(self).linked() ==> final(self).linked(),
            final(self)@ == old(self)@.load_expression(expr@),
    {
        proof {
            if self.linked() {
                crate::theorems::lemma_start_grounded(self@, Seq::empty(), expr@);
            }
            lemma_load_wf(self@, Seq::empty(), expr@);
            crate::machine::lemma_load_calm(self@, Seq::empty(), expr@);
        }
        self.environment.leave(self.base);
        self.return_value = None;
        self.frames = Vec::new();
        self.operands = Vec::new();
        self.awaiting = None;
        self.frames.push(Frame::Evaluate { expression: Rc::new(expr) });
        assert(self@.frames =~= old(self)@.load_expression(expr@).frames);
        assert(self@.operands =~= Seq::empty());
    }

    /// One step of the machine. `reply` is the number that the action of the step before
    /// asked for, if it asked for one.
    pub fn step(&mut self, reply: Option<u64>) -> (action: Action)
        requires
            old(self).wf(),
        ensures
            final(self).wf(),
            old(self).linked() ==> final(self).linked(),
            (final(self)@, action@) == old(self)@.next(reply),
            action@ is Finished || action@ is Failed ==> final(self)@.frames.len() == 0
                && final(self)@.environment.current == final(self)@.base,
    {
        proof {
            if self.linked() {
                crate::theorems::theorem_scopes_stay_linked(self@, reply);
            }
            lemma_next_wf(self@, reply);
            crate::machine::lemma_next_calm(self@, reply);
        }
        match self.awaiting {
            Some(line) => match reply {
                Some(bits) => {
                    self.awaiting = None;
                    push_value(&mut self.operands, LiteralValue::Number(bits));
                    Action::Continue
                },
                None => self.fail(RuntimeErrorKind::HostFailure, line),
            },
            None => {
                if self.frames.len() == 0 {
                    assert(self@.frames.len() == 0);
                    Action::Finished
                } else {
                    let frame = pop_frame(&mut self.frames);
                    let action = self.run_frame(frame);
                    proof {
                        crate::machine::lemma_failure_ends(old(self)@, reply);
                    }
                    action
                }
            },
        }
    }

    /// Steps until the host has something to do, the run is over, or `budget` further steps
    /// have been taken.
    pub fn run(&mut self, reply: Option<u64>, budget: u64) -> (action: Action)
        requires
            old(self).wf(),
        ensures
            final(self).wf(),
            old(self).linked() ==> final(self).linked(),
            (final(self)@, action@) == old(self)@.advance(reply, budget as nat),
            action@ is Finished || action@ is Failed ==> final(self)@.frames.len() == 0
                && final(self)@.environment.current == final(self)@.base,
    {
        proof {
            if self.linked() {
                crate::theorems::theorem_scopes_stay_linked(self@, reply);
                lemma_next_wf(self@, reply);
                crate::theorems::lemma_resume_grounded(
                    self@.next(reply).0,
                    self@.next(reply).1,
                    budget as nat,
                );
            }
            crate::theorems::theorem_run_ends_in_global_scope(self@, reply, budget as nat);
        }
        let mut action = self.step(reply);
        let mut left: u64 = budget;
        while left > 0 && matches!(action, Action::Continue)
            invariant
                self.wf(),
                crate::machine::resume(self@, action@, left as nat) == old(self)@.advance(
                    reply,
                    budget as nat,
                ),
            decreases left,
        {
            action = self.step(None);
            left -= 1;
        }
        action
    }

    /// The value that the evaluation of an expression has left, once it is finished.
    pub fn result(&self) -> (value: Option<LiteralValue>)
        ensures
            match value {
                Some(v) => self@.operands.len() > 0 && v@ == self@.operands.last(),
                None => self@.operands.len() == 0,
            },
    {
        let count = self.operands.len();
        if count > 0 {
            assert(self@.operands[count - 1] == self.operands@[count - 1]@);
            Some(self.operands[count - 1].clone())
        } else {
            None
        }
    }

    /// What the last `return` has left in the return slot, if no call has taken it.
    pub fn return_value(&self) -> (value: Option<LiteralValue>)
        ensures
            match value {
                Some(v) => self@.return_value == Some(v@),
                None => self@.return_value.is_none(),
            },
    {
        match &self.return_value {
            Some(value) => Some(value.clone()),
            None => None,
        }
    }

    /// The scopes.
    pub fn environment(&self) -> (environment: &Environment)
        ensures
            environment@ == self@.environment,
    {
        &self.environment
    }
}

impl LoxCallable {
    /// Calls the function from an interpreter that has nothing left to do, with arguments
    /// that the host gives. The steps that follow run the body of the function and leave
    /// what it returns as the result.
    ///
    /// A function of the program gets a new scope inside the scope it was declared in, with
    /// its parameters bound to the arguments, and its body is what is done next; a function
    /// of the host is asked of the host.
    pub fn call(
        &self,
        interpreter: &mut Interpreter,
        arguments: Vec<LiteralValue>,
        line: usize,
    ) -> (action: Action)
        requires
            old(interpreter).wf(),
            old(interpreter)@.frames.len() == 0,
            old(interpreter)@.awaiting is None,
            old(interpreter)@.return_value is None,
        ensures
            final(interpreter).wf(),
            (final(interpreter)@, action@) == old(interpreter)@.call(
                ValueView::Callable(self@),
                value_views(arguments@),
                line,
            ),
    {
        proof {
            crate::machine::lemma_call_wf(
                interpreter@,
                ValueView::Callable(self@),
                value_views(arguments@),
                line,
            );
            crate::machine::lemma_call_calm(
                interpreter@,
                ValueView::Callable(self@),
                value_views(arguments@),
                line,
            );
        }
        self.invoke(interpreter, arguments, line)
    }

    /// Calls the function with arguments that have been evaluated.
    fn invoke(
        &self,
        interpreter: &mut Interpreter,
        arguments: Vec<LiteralValue>,
        line: usize,
    ) -> (action: Action)
        requires
            old(interpreter).sound(),
        ensures
            final(interpreter).sound(),
            (final(interpreter)@, action@) == old(interpreter)@.call(
                ValueView::Callable(self@),
                value_views(arguments@),
                line,
            ),
    {
        if self.arity() != arguments.len() {
            return interpreter.fail(RuntimeErrorKind::WrongArity, line);
        }
        match self {
            LoxCallable::LoxFunction { name, parameters, body, closure } => {
                let outer = interpreter.environment.current();
                interpreter.environment.enter(*closure);
                let ghost entered = interpreter.environment@;
                let mut i: usize = 0;
                while i < parameters.len()
                    invariant
                        i <= parameters.len() == arguments.len(),
                        interpreter.base == old(interpreter).base,
                        interpreter.frames == old(interpreter).frames,
                        interpreter.operands == old(interpreter).operands,
                        interpreter.return_value == old(interpreter).return_value,
                        interpreter.awaiting == old(interpreter).awaiting,
                        entered == old(interpreter)@.environment.enter(*closure as nat),
                        old(interpreter).sound(),
                        interpreter.environment.wf(),
                        interpreter.environment@.wf(),
                        interpreter.environment@.scopes.len() == entered.scopes.len(),
                        bind(
                            interpreter.environment@,
                            token_views(parameters@),
                            value_views(arguments@),
                            i as nat,
                        ) == bind(entered, token_views(parameters@), value_views(arguments@), 0),
                    decreases parameters.len() - i,
                {
                    assert(token_views(parameters@)[i as int] == parameters@[i as int]@);
                    assert(value_views(arguments@)[i as int] == arguments@[i as int]@);
                    interpreter.environment.define(&parameters[i], arguments[i].clone());
                    i += 1;
                }
                push_frame(&mut interpreter.frames, Frame::Leave { environment: outer });
                push_frame(
                    &mut interpreter.frames,
                    Frame::Sequence { statements: share(body), next: 0 },
                );
                Action::Continue
            },
            LoxCallable::NativeFunction { name, arity } => {
                interpreter.awaiting = Some(line);
                Action::Native { name: copy(name), arguments }
            },
        }
    }
}

} // verus!
