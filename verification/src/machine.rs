//! The evaluator as an abstract machine: its states, and what one step does to a state.
//!
//! A state holds the scopes, a stack of frames, which are the work still to be done, a
//! stack of operands, which are the values computed so far, and the slot in which a
//! `return` leaves its value. A step takes the top frame and does what it asks for. What
//! the machine cannot do itself it hands to its host as an action: arithmetic on numbers,
//! reading a number from its digits, calling a function of the host, printing. The host
//! answers a request for a number with the next step.
use crate::callable::CallableView;
use crate::environment::{EnvironmentView, ScopeView};
use crate::expression::{ConstantView, ExprView, ValueView};
use crate::number;
use crate::scanner::{TokenType, TokenView};
use crate::statement::StmtView;
use crate::text;
use crate::text::decimal_digits;
use vstd::prelude::*;
use vstd::string::*;

verus! {

#[derive(Debug, Clone, Copy, PartialEq, Eq, Structural)]
pub enum RuntimeErrorKind {
    /// A name was read that no scope on the way out binds.
    UndefinedVariable,
    /// A name was assigned to that no scope on the way out binds.
    UndefinedAssignment,
    /// Something that is no function was called.
    NotCallable,
    /// A function was called with more or fewer arguments than it takes.
    WrongArity,
    /// An operator was given operands of kinds it is not defined for.
    TypeMismatch,
    /// The token in the place of an operator is none.
    InvalidOperator,
    /// The host gave no number where it was asked for one.
    HostFailure,
}

/// A failure at run time, with the line of the token that it is about, or 0 where it is
/// about none.
#[derive(Debug, Clone, Copy, PartialEq, Eq, Structural)]
pub struct RuntimeError {
    pub kind: RuntimeErrorKind,
    pub line: usize,
}

/// A piece of work that is still to be done.
#[allow(inconsistent_fields)]
pub enum FrameView {
    /// Evaluate the expression and leave its value on the operands.
    Evaluate { expression: ExprView },
    /// Execute the statement.
    Execute { statement: StmtView },
    /// Execute the statements from `next` on, as long as nothing has been returned.
    Sequence { statements: Seq<StmtView>, next: nat },
    /// Apply a prefix operator to the top operand.
    Unary { operator: TokenType, line: usize },
    /// Apply an infix operator to the two top operands.
    Binary { operator: TokenType, line: usize },
    /// Decide by the top operand whether the right side of `and` or `or` is needed.
    Logical { operator: TokenType, right: ExprView },
    /// Write the top operand to a variable, and leave it as the value of the assignment.
    Assign { name: Seq<u8>, line: usize },
    /// The top operand is what is called: it has to be a function.
    Callee { line: usize, arguments: Seq<ExprView> },
    /// The function and its first `next` arguments are on the operands: evaluate the next
    /// argument, or make the call.
    Arguments { line: usize, arguments: Seq<ExprView>, next: nat },
    /// The body of a function is done: go back to the scope of the caller and leave what
    /// was returned on the operands.
    Leave { environment: nat },
    /// Drop the top operand.
    Discard,
    /// Print the top operand.
    Print,
    /// Bind a name in the current scope to the top operand.
    Define { name: Seq<u8> },
    /// Execute one of two statements by the top operand.
    Branch { then_stmt: StmtView, else_stmt: Option<StmtView> },
    /// Evaluate the condition of a loop, unless something has been returned.
    Loop { condition: ExprView, body: StmtView },
    /// Go round the loop once more, or leave it, by the top operand.
    LoopTest { condition: ExprView, body: StmtView },
    /// Put the top operand into the return slot.
    Return,
    /// A block is done: go back to the scope around it.
    Restore { environment: nat },
}

/// What `print` writes before the end of the line: text, or a number that the host writes
/// in decimal.
pub enum ShownView {
    Text(Seq<u8>),
    Number(u64),
}

/// What the host is to do before the next step.
pub enum ActionView {
    /// Nothing: take the next step.
    Continue,
    /// Read the binary64 number that the digits stand for, and answer with it.
    Number { digits: Seq<u8> },
    /// Add, subtract, multiply or divide two binary64 numbers, and answer with the result.
    Arithmetic { operator: TokenType, left: u64, right: u64 },
    /// Call the function of the host with that name, and answer with the number it gives.
    Native { name: Seq<u8>, arguments: Seq<ValueView> },
    /// Write a line.
    Print { output: ShownView },
    /// There is nothing left to do.
    Finished,
    /// The run has failed, and the machine is back where a run starts.
    Failed { error: RuntimeError },
}

pub struct MachineView {
    pub environment: EnvironmentView,
    /// The scope in which programs start and end: in a new interpreter the global scope.
    pub base: nat,
    pub return_value: Option<ValueView>,
    pub frames: Seq<FrameView>,
    pub operands: Seq<ValueView>,
    /// The line of the request for a number that the host has not answered yet.
    pub awaiting: Option<usize>,
}

/// How many operands a frame takes from the stack when it is its turn.
pub open spec fn takes(frame: FrameView) -> int {
    match frame {
        FrameView::Evaluate { .. } => 0int,
        FrameView::Execute { .. } => 0,
        FrameView::Sequence { .. } => 0,
        FrameView::Unary { .. } => 1,
        FrameView::Binary { .. } => 2,
        FrameView::Logical { .. } => 1,
        FrameView::Assign { .. } => 1,
        FrameView::Callee { .. } => 1,
        FrameView::Arguments { next, .. } => (next + 1) as int,
        FrameView::Leave { .. } => 0,
        FrameView::Discard => 1,
        FrameView::Print => 1,
        FrameView::Define { .. } => 1,
        FrameView::Branch { .. } => 1,
        FrameView::Loop { .. } => 0,
        FrameView::LoopTest { .. } => 1,
        FrameView::Return => 1,
        FrameView::Restore { .. } => 0,
    }
}

/// How many operands a frame has put in their place when all that it started is done.
pub open spec fn gives(frame: FrameView) -> int {
    match frame {
        FrameView::Evaluate { .. } => 1int,
        FrameView::Unary { .. } => 1,
        FrameView::Binary { .. } => 1,
        FrameView::Logical { .. } => 1,
        FrameView::Assign { .. } => 1,
        FrameView::Callee { .. } => 1,
        FrameView::Arguments { .. } => 1,
        FrameView::Leave { .. } => 1,
        _ => 0,
    }
}

/// Whether the frames can be worked off from the top with `depth` operands to start with:
/// each frame finds the operands it takes, each scope that is gone back to exists, and the
/// scope in which all ends is `base`.
pub open spec fn settled(
    frames: Seq<FrameView>,
    depth: int,
    current: nat,
    scopes: nat,
    base: nat,
) -> bool
    decreases frames.len(),
{
    if frames.len() == 0 {
        depth >= 0 && current == base
    } else {
        let frame = frames.last();
        let after = depth - takes(frame) + gives(frame);
        depth >= takes(frame) && match frame {
            FrameView::Leave { environment } => environment < scopes && settled(
                frames.drop_last(),
                after,
                environment,
                scopes,
                base,
            ),
            FrameView::Restore { environment } => environment < scopes && settled(
                frames.drop_last(),
                after,
                environment,
                scopes,
                base,
            ),
            _ => settled(frames.drop_last(), after, current, scopes, base),
        }
    }
}

/// The value of a constant other than a number.
pub open spec fn constant_value(constant: ConstantView) -> ValueView {
    match constant {
        ConstantView::Number(_) => ValueView::Nil,
        ConstantView::Text(bytes) => ValueView::StringValue(bytes),
        ConstantView::True => ValueView::True,
        ConstantView::False => ValueView::False,
        ConstantView::Nil => ValueView::Nil,
    }
}

/// What `print` writes for a value.
pub open spec fn shown(value: ValueView) -> ShownView {
    match value {
        ValueView::Number(bits) => ShownView::Number(bits),
        ValueView::StringValue(bytes) => ShownView::Text(bytes),
        ValueView::True => ShownView::Text("true".spec_bytes()),
        ValueView::False => ShownView::Text("false".spec_bytes()),
        ValueView::Nil => ShownView::Text("nil".spec_bytes()),
        ValueView::Callable(callable) => ShownView::Text(
            "<fn ".spec_bytes() + callable.name() + "/".spec_bytes() + decimal_digits(
                callable.arity(),
            ) + ">".spec_bytes(),
        ),
    }
}

/// The environment in which the parameters from `from` on are bound to their arguments.
pub open spec fn bind(
    environment: EnvironmentView,
    parameters: Seq<TokenView>,
    arguments: Seq<ValueView>,
    from: nat,
) -> EnvironmentView
    decreases parameters.len() - from,
{
    if from >= parameters.len() || from >= arguments.len() {
        environment
    } else {
        bind(
            environment.define(parameters[from as int].lexeme, arguments[from as int]),
            parameters,
            arguments,
            from + 1,
        )
    }
}

impl MachineView {
    /// The state of a new interpreter: the global scope alone, in which `clock` is bound to
    /// the function of the host that reads the clock.
    pub open spec fn initial() -> MachineView {
        MachineView {
            environment: EnvironmentView {
                scopes: seq![
                    ScopeView {
                        bindings: Map::<Seq<u8>, ValueView>::empty().insert(
                            "clock".spec_bytes(),
                            ValueView::Callable(
                                CallableView::NativeFunction {
                                    name: "clock".spec_bytes(),
                                    arity: 0,
                                },
                            ),
                        ),
                        enclosing: None,
                    },
                ],
                current: 0,
            },
            base: 0,
            return_value: None,
            frames: Seq::empty(),
            operands: Seq::empty(),
            awaiting: None,
        }
    }

    /// The state of a new interpreter whose programs run in a new scope inside the current
    /// scope of `parent`.
    pub open spec fn inside(parent: EnvironmentView) -> MachineView {
        MachineView {
            environment: parent.enter(parent.current),
            base: parent.scopes.len(),
            return_value: None,
            frames: Seq::empty(),
            operands: Seq::empty(),
            awaiting: None,
        }
    }

    /// Whether the state is one that a run can be in.
    pub open spec fn wf(self) -> bool {
        &&& self.environment.wf()
        &&& self.base < self.environment.scopes.len()
        &&& settled(
            self.frames,
            self.operands.len() + if self.awaiting is Some {
                1int
            } else {
                0int
            },
            self.environment.current,
            self.environment.scopes.len(),
            self.base,
        )
    }

    /// The state in which a run of `statements` starts.
    pub open spec fn load(self, statements: Seq<StmtView>) -> MachineView {
        MachineView {
            environment: self.environment.at(self.base),
            base: self.base,
            return_value: None,
            frames: seq![FrameView::Sequence { statements, next: 0 }],
            operands: Seq::empty(),
            awaiting: None,
        }
    }

    /// The state in which the evaluation of `expression` starts.
    pub open spec fn load_expression(self, expression: ExprView) -> MachineView {
        MachineView {
            environment: self.environment.at(self.base),
            base: self.base,
            return_value: None,
            frames: seq![FrameView::Evaluate { expression }],
            operands: Seq::empty(),
            awaiting: None,
        }
    }

    pub open spec fn push_frame(self, frame: FrameView) -> MachineView {
        MachineView { frames: self.frames.push(frame), ..self }
    }

    pub open spec fn pop_frame(self) -> MachineView {
        MachineView { frames: self.frames.drop_last(), ..self }
    }

    pub open spec fn push_value(self, value: ValueView) -> MachineView {
        MachineView { operands: self.operands.push(value), ..self }
    }

    /// The state without its top `count` operands.
    pub open spec fn drop_values(self, count: nat) -> MachineView {
        MachineView { operands: self.operands.take(self.operands.len() - count), ..self }
    }

    /// The operand that is `below` places under the top one.
    pub open spec fn operand(self, below: nat) -> ValueView {
        self.operands[self.operands.len() - 1 - below]
    }

    pub open spec fn with_environment(self, environment: EnvironmentView) -> MachineView {
        MachineView { environment, ..self }
    }

    pub open spec fn proceed(self) -> (MachineView, ActionView) {
        (self, ActionView::Continue)
    }

    /// The state that waits for a number from the host.
    pub open spec fn ask(self, line: usize, action: ActionView) -> (MachineView, ActionView) {
        (MachineView { awaiting: Some(line), ..self }, action)
    }

    /// The run fails: nothing is left to do, and the scope is the one in which runs start.
    pub open spec fn fail(self, kind: RuntimeErrorKind, line: usize) -> (
        MachineView,
        ActionView,
    ) {
        (
            MachineView {
                environment: self.environment.at(self.base),
                base: self.base,
                return_value: None,
                frames: Seq::empty(),
                operands: Seq::empty(),
                awaiting: None,
            },
            ActionView::Failed { error: RuntimeError { kind, line } },
        )
    }

    /// The start of the evaluation of an expression.
    pub open spec fn begin_expression(self, expression: ExprView) -> (MachineView, ActionView) {
        match expression {
            ExprView::Assign { name, value } => self.push_frame(
                FrameView::Assign { name: name.lexeme, line: name.line },
            ).push_frame(FrameView::Evaluate { expression: *value }).proceed(),
            ExprView::Binary { left, operator, right } => self.push_frame(
                FrameView::Binary { operator: operator.token_type, line: operator.line },
            ).push_frame(FrameView::Evaluate { expression: *right }).push_frame(
                FrameView::Evaluate { expression: *left },
            ).proceed(),
            ExprView::Call { callee, paren, arguments } => self.push_frame(
                FrameView::Callee { line: paren.line, arguments },
            ).push_frame(FrameView::Evaluate { expression: *callee }).proceed(),
            ExprView::Grouping { expression } => self.push_frame(
                FrameView::Evaluate { expression: *expression },
            ).proceed(),
            ExprView::Lambda { paren, params, body } => self.push_value(
                ValueView::Callable(
                    CallableView::LoxFunction {
                        name: "lambda".spec_bytes(),
                        parameters: params,
                        body,
                        closure: self.environment.current,
                    },
                ),
            ).proceed(),
            ExprView::Literal { value } => match value {
                ConstantView::Number(digits) => self.ask(0, ActionView::Number { digits }),
                _ => self.push_value(constant_value(value)).proceed(),
            },
            ExprView::Logical { left, operator, right } => self.push_frame(
                FrameView::Logical { operator: operator.token_type, right: *right },
            ).push_frame(FrameView::Evaluate { expression: *left }).proceed(),
            ExprView::Unary { operator, right } => self.push_frame(
                FrameView::Unary { operator: operator.token_type, line: operator.line },
            ).push_frame(FrameView::Evaluate { expression: *right }).proceed(),
            ExprView::Variable { name } => match self.environment.lookup(name.lexeme) {
                Some(value) => self.push_value(value).proceed(),
                None => self.fail(RuntimeErrorKind::UndefinedVariable, name.line),
            },
        }
    }

    /// The start of the execution of a statement.
    pub open spec fn begin_statement(self, statement: StmtView) -> (MachineView, ActionView) {
        match statement {
            StmtView::Block { statements } => self.with_environment(
                self.environment.enter(self.environment.current),
            ).push_frame(FrameView::Restore { environment: self.environment.current }).push_frame(
                FrameView::Sequence { statements, next: 0 },
            ).proceed(),
            StmtView::Expression { expression } => self.push_frame(FrameView::Discard).push_frame(
                FrameView::Evaluate { expression },
            ).proceed(),
            StmtView::Function { name, params, body } => self.with_environment(
                self.environment.define(
                    name.lexeme,
                    ValueView::Callable(
                        CallableView::LoxFunction {
                            name: name.lexeme,
                            parameters: params,
                            body,
                            closure: self.environment.current,
                        },
                    ),
                ),
            ).proceed(),
            StmtView::If { condition, then_stmt, else_stmt } => self.push_frame(
                FrameView::Branch {
                    then_stmt: *then_stmt,
                    else_stmt: match else_stmt {
                        Some(other) => Some(*other),
                        None => None,
                    },
                },
            ).push_frame(FrameView::Evaluate { expression: condition }).proceed(),
            StmtView::Print { expression } => self.push_frame(FrameView::Print).push_frame(
                FrameView::Evaluate { expression },
            ).proceed(),
            StmtView::Return { keyword, value } => match value {
                Some(expression) => self.push_frame(FrameView::Return).push_frame(
                    FrameView::Evaluate { expression },
                ).proceed(),
                None => MachineView { return_value: Some(ValueView::Nil), ..self }.proceed(),
            },
            StmtView::Var { name, initializer } => self.push_frame(
                FrameView::Define { name: name.lexeme },
            ).push_frame(FrameView::Evaluate { expression: initializer }).proceed(),
            StmtView::While { condition, body } => self.push_frame(
                FrameView::Loop { condition, body: *body },
            ).proceed(),
        }
    }

    /// An infix operator applied to two values.
    pub open spec fn apply_binary(
        self,
        operator: TokenType,
        line: usize,
        left: ValueView,
        right: ValueView,
    ) -> (MachineView, ActionView) {
        match operator {
            TokenType::Plus => match (left, right) {
                (ValueView::Number(a), ValueView::Number(b)) => self.ask(
                    line,
                    ActionView::Arithmetic { operator, left: a, right: b },
                ),
                (ValueView::StringValue(a), ValueView::StringValue(b)) => self.push_value(
                    ValueView::StringValue(a + b),
                ).proceed(),
                _ => self.fail(RuntimeErrorKind::TypeMismatch, line),
            },
            TokenType::Minus | TokenType::Star | TokenType::Slash => match (left, right) {
                (ValueView::Number(a), ValueView::Number(b)) => self.ask(
                    line,
                    ActionView::Arithmetic { operator, left: a, right: b },
                ),
                _ => self.fail(RuntimeErrorKind::TypeMismatch, line),
            },
            TokenType::Greater => match (left, right) {
                (ValueView::Number(a), ValueView::Number(b)) => self.push_value(
                    ValueView::from_bool(number::less(b, a)),
                ).proceed(),
                (ValueView::StringValue(a), ValueView::StringValue(b)) => self.push_value(
                    ValueView::from_bool(text::less(b, a)),
                ).proceed(),
                _ => self.fail(RuntimeErrorKind::TypeMismatch, line),
            },
            TokenType::GreaterEqual => match (left, right) {
                (ValueView::Number(a), ValueView::Number(b)) => self.push_value(
                    ValueView::from_bool(number::less_or_equal(b, a)),
                ).proceed(),
                (ValueView::StringValue(a), ValueView::StringValue(b)) => self.push_value(
                    ValueView::from_bool(!text::less(a, b)),
                ).proceed(),
                _ => self.fail(RuntimeErrorKind::TypeMismatch, line),
            },
            TokenType::Less => match (left, right) {
                (ValueView::Number(a), ValueView::Number(b)) => self.push_value(
                    ValueView::from_bool(number::less(a, b)),
                ).proceed(),
                (ValueView::StringValue(a), ValueView::StringValue(b)) => self.push_value(
                    ValueView::from_bool(text::less(a, b)),
                ).proceed(),
                _ => self.fail(RuntimeErrorKind::TypeMismatch, line),
            },
            TokenType::LessEqual => match (left, right) {
                (ValueView::Number(a), ValueView::Number(b)) => self.push_value(
                    ValueView::from_bool(number::less_or_equal(a, b)),
                ).proceed(),
                (ValueView::StringValue(a), ValueView::StringValue(b)) => self.push_value(
                    ValueView::from_bool(!text::less(b, a)),
                ).proceed(),
                _ => self.fail(RuntimeErrorKind::TypeMismatch, line),
            },
            TokenType::BangEqual => self.push_value(
                ValueView::from_bool(!left.equals(right)),
            ).proceed(),
            TokenType::EqualEqual => self.push_value(
                ValueView::from_bool(left.equals(right)),
            ).proceed(),
            _ => self.fail(RuntimeErrorKind::InvalidOperator, line),
        }
    }

    /// A prefix operator applied to a value.
    pub open spec fn apply_unary(self, operator: TokenType, line: usize, value: ValueView) -> (
        MachineView,
        ActionView,
    ) {
        match operator {
            TokenType::Minus => match value {
                ValueView::Number(bits) => self.push_value(
                    ValueView::Number(number::negated(bits)),
                ).proceed(),
                _ => self.fail(RuntimeErrorKind::TypeMismatch, line),
            },
            TokenType::Bang => self.push_value(ValueView::from_bool(!value.truthy())).proceed(),
            _ => self.fail(RuntimeErrorKind::InvalidOperator, line),
        }
    }

    /// A call of `callee` with `arguments`, in a state from which both have been taken.
    pub open spec fn call(self, callee: ValueView, arguments: Seq<ValueView>, line: usize) -> (
        MachineView,
        ActionView,
    ) {
        match callee {
            ValueView::Callable(callable) => if callable.arity() != arguments.len() {
                self.fail(RuntimeErrorKind::WrongArity, line)
            } else {
                match callable {
                    CallableView::LoxFunction { name, parameters, body, closure } => {
                        self.with_environment(
                            bind(self.environment.enter(closure), parameters, arguments, 0),
                        ).push_frame(
                            FrameView::Leave { environment: self.environment.current },
                        ).push_frame(FrameView::Sequence { statements: body, next: 0 }).proceed()
                    },
                    CallableView::NativeFunction { name, arity } => self.ask(
                        line,
                        ActionView::Native { name, arguments },
                    ),
                }
            },
            _ => self.fail(RuntimeErrorKind::NotCallable, line),
        }
    }

    /// What a frame does when it is its turn, in a state from which it has been taken.
    pub open spec fn run_frame(self, frame: FrameView) -> (MachineView, ActionView) {
        match frame {
            FrameView::Evaluate { expression } => self.begin_expression(expression),
            FrameView::Execute { statement } => self.begin_statement(statement),
            FrameView::Sequence { statements, next } => if self.return_value is Some || next
                >= statements.len() {
                self.proceed()
            } else {
                self.push_frame(
                    FrameView::Sequence { statements, next: next + 1 },
                ).begin_statement(statements[next as int])
            },
            FrameView::Unary { operator, line } => self.drop_values(1).apply_unary(
                operator,
                line,
                self.operand(0),
            ),
            FrameView::Binary { operator, line } => self.drop_values(2).apply_binary(
                operator,
                line,
                self.operand(1),
                self.operand(0),
            ),
            FrameView::Logical { operator, right } => if (operator == TokenType::Or)
                == self.operand(0).truthy() {
                self.proceed()
            } else {
                self.drop_values(1).push_frame(FrameView::Evaluate { expression: right }).proceed()
            },
            FrameView::Assign { name, line } => match self.environment.assign(
                name,
                self.operand(0),
            ) {
                Some(environment) => self.with_environment(environment).proceed(),
                None => self.fail(RuntimeErrorKind::UndefinedAssignment, line),
            },
            FrameView::Callee { line, arguments } => if self.operand(0) is Callable {
                self.push_frame(FrameView::Arguments { line, arguments, next: 0 }).proceed()
            } else {
                self.fail(RuntimeErrorKind::NotCallable, line)
            },
            FrameView::Arguments { line, arguments, next } => if next < arguments.len() {
                self.push_frame(
                    FrameView::Arguments { line, arguments, next: next + 1 },
                ).begin_expression(arguments[next as int])
            } else {
                self.drop_values(next + 1).call(
                    self.operand(next),
                    self.operands.subrange(self.operands.len() - next, self.operands.len() as int),
                    line,
                )
            },
            FrameView::Leave { environment } => MachineView {
                environment: self.environment.at(environment),
                return_value: None,
                ..self
            }.push_value(
                match self.return_value {
                    Some(value) => value,
                    None => ValueView::Nil,
                },
            ).proceed(),
            FrameView::Discard => self.drop_values(1).proceed(),
            FrameView::Print => (
                self.drop_values(1),
                ActionView::Print { output: shown(self.operand(0)) },
            ),
            FrameView::Define { name } => self.drop_values(1).with_environment(
                self.environment.define(name, self.operand(0)),
            ).proceed(),
            FrameView::Branch { then_stmt, else_stmt } => if self.operand(0).truthy() {
                self.drop_values(1).push_frame(
                    FrameView::Execute { statement: then_stmt },
                ).proceed()
            } else {
                match else_stmt {
                    Some(other) => self.drop_values(1).push_frame(
                        FrameView::Execute { statement: other },
                    ).proceed(),
                    None => self.drop_values(1).proceed(),
                }
            },
            FrameView::Loop { condition, body } => if self.return_value is Some {
                self.proceed()
            } else {
                self.push_frame(FrameView::LoopTest { condition, body }).push_frame(
                    FrameView::Evaluate { expression: condition },
                ).proceed()
            },
            FrameView::LoopTest { condition, body } => if self.operand(0).truthy() {
                self.drop_values(1).push_frame(FrameView::Loop { condition, body }).push_frame(
                    FrameView::Execute { statement: body },
                ).proceed()
            } else {
                self.drop_values(1).proceed()
            },
            FrameView::Return => MachineView {
                return_value: Some(self.operand(0)),
                ..self.drop_values(1)
            }.proceed(),
            FrameView::Restore { environment } => self.with_environment(
                self.environment.at(environment),
            ).proceed(),
        }
    }

    /// The state and the action after up to `budget` further steps, which end where the
    /// host has something to do or the run is over.
    pub open spec fn advance(self, reply: Option<u64>, budget: nat) -> (MachineView, ActionView) {
        resume(self.next(reply).0, self.next(reply).1, budget)
    }

    /// One step: the answer of the host is taken in where one is due; else the top frame
    /// has its turn; else there is nothing left to do.
    pub open spec fn next(self, reply: Option<u64>) -> (MachineView, ActionView) {
        match self.awaiting {
            Some(line) => match reply {
                Some(bits) => MachineView { awaiting: None, ..self }.push_value(
                    ValueView::Number(bits),
                ).proceed(),
                None => self.fail(RuntimeErrorKind::HostFailure, line),
            },
            None => if self.frames.len() == 0 {
                (self, ActionView::Finished)
            } else {
                self.pop_frame().run_frame(self.frames.last())
            },
        }
    }
}

/// Where a step has left a state with nothing for the host to do, the state and the action
/// after up to `budget` further steps.
pub open spec fn resume(m: MachineView, action: ActionView, budget: nat) -> (
    MachineView,
    ActionView,
)
    decreases budget,
{
    if budget == 0 || !(action is Continue) {
        (m, action)
    } else {
        resume(m.next(None).0, m.next(None).1, (budget - 1) as nat)
    }
}

/// With one more frame on top, the frames are settled exactly when that frame finds its
/// operands and the frames below it are settled with what it leaves.
pub proof fn lemma_settled_push(
    frames: Seq<FrameView>,
    frame: FrameView,
    depth: int,
    current: nat,
    scopes: nat,
    base: nat,
)
    ensures
        settled(frames.push(frame), depth, current, scopes, base) == (depth >= takes(frame)
            && match frame {
            FrameView::Leave { environment } => environment < scopes && settled(
                frames,
                depth - takes(frame) + gives(frame),
                environment,
                scopes,
                base,
            ),
            FrameView::Restore { environment } => environment < scopes && settled(
                frames,
                depth - takes(frame) + gives(frame),
                environment,
                scopes,
                base,
            ),
            _ => settled(frames, depth - takes(frame) + gives(frame), current, scopes, base),
        }),
{
    assert(frames.push(frame).drop_last() =~= frames);
    assert(frames.push(frame).last() == frame);
}

/// Frames that are settled stay settled when scopes are added.
pub proof fn lemma_settled_grows(
    frames: Seq<FrameView>,
    depth: int,
    current: nat,
    scopes: nat,
    more: nat,
    base: nat,
)
    requires
        settled(frames, depth, current, scopes, base),
        scopes <= more,
    ensures
        settled(frames, depth, current, more, base),
    decreases frames.len(),
{
    if frames.len() > 0 {
        let frame = frames.last();
        let after = depth - takes(frame) + gives(frame);
        match frame {
            FrameView::Leave { environment } => {
                lemma_settled_grows(frames.drop_last(), after, environment, scopes, more, base);
            },
            FrameView::Restore { environment } => {
                lemma_settled_grows(frames.drop_last(), after, environment, scopes, more, base);
            },
            _ => {
                lemma_settled_grows(frames.drop_last(), after, current, scopes, more, base);
            },
        }
    }
}

/// Binding parameters adds no scope and moves to none.
pub proof fn lemma_bind_shape(
    environment: EnvironmentView,
    parameters: Seq<TokenView>,
    arguments: Seq<ValueView>,
    from: nat,
)
    requires
        environment.wf(),
    ensures
        bind(environment, parameters, arguments, from).scopes.len() == environment.scopes.len(),
        bind(environment, parameters, arguments, from).current == environment.current,
    decreases parameters.len() - from,
{
    if !(from >= parameters.len() || from >= arguments.len()) {
        lemma_bind_shape(
            environment.define(parameters[from as int].lexeme, arguments[from as int]),
            parameters,
            arguments,
            from + 1,
        );
    }
}

/// Where an expression starts in a state whose frames are settled once the value of the
/// expression is there, it leaves a state that a run can be in.
pub proof fn lemma_begin_expression_wf(m: MachineView, expression: ExprView)
    requires
        m.environment.wf(),
        m.base < m.environment.scopes.len(),
        m.awaiting is None,
        settled(
            m.frames,
            (m.operands.len() + 1) as int,
            m.environment.current,
            m.environment.scopes.len(),
            m.base,
        ),
    ensures
        m.begin_expression(expression).0.wf(),
{
    let depth = m.operands.len() as int;
    let current = m.environment.current;
    let scopes = m.environment.scopes.len();
    let base = m.base;
    match expression {
        ExprView::Assign { name, value } => {
            let f1 = FrameView::Assign { name: name.lexeme, line: name.line };
            lemma_settled_push(m.frames, f1, depth + 1, current, scopes, base);
            lemma_settled_push(
                m.frames.push(f1),
                FrameView::Evaluate { expression: *value },
                depth,
                current,
                scopes,
                base,
            );
        },
        ExprView::Binary { left, operator, right } => {
            let f1 = FrameView::Binary { operator: operator.token_type, line: operator.line };
            let f2 = FrameView::Evaluate { expression: *right };
            let f3 = FrameView::Evaluate { expression: *left };
            lemma_settled_push(m.frames, f1, depth + 2, current, scopes, base);
            lemma_settled_push(m.frames.push(f1), f2, depth + 1, current, scopes, base);
            lemma_settled_push(m.frames.push(f1).push(f2), f3, depth, current, scopes, base);
        },
        ExprView::Call { callee, paren, arguments } => {
            let f1 = FrameView::Callee { line: paren.line, arguments };
            lemma_settled_push(m.frames, f1, depth + 1, current, scopes, base);
            lemma_settled_push(
                m.frames.push(f1),
                FrameView::Evaluate { expression: *callee },
                depth,
                current,
                scopes,
                base,
            );
        },
        ExprView::Grouping { expression } => {
            lemma_settled_push(
                m.frames,
                FrameView::Evaluate { expression: *expression },
                depth,
                current,
                scopes,
                base,
            );
        },
        ExprView::Lambda { .. } => {},
        ExprView::Literal { .. } => {},
        ExprView::Logical { left, operator, right } => {
            let f1 = FrameView::Logical { operator: operator.token_type, right: *right };
            lemma_settled_push(m.frames, f1, depth + 1, current, scopes, base);
            lemma_settled_push(
                m.frames.push(f1),
                FrameView::Evaluate { expression: *left },
                depth,
                current,
                scopes,
                base,
            );
        },
        ExprView::Unary { operator, right } => {
            let f1 = FrameView::Unary { operator: operator.token_type, line: operator.line };
            lemma_settled_push(m.frames, f1, depth + 1, current, scopes, base);
            lemma_settled_push(
                m.frames.push(f1),
                FrameView::Evaluate { expression: *right },
                depth,
                current,
                scopes,
                base,
            );
        },
        ExprView::Variable { .. } => {},
    }
}

/// Where a statement starts in a state whose frames are settled, it leaves a state that a
/// run can be in.
pub proof fn lemma_begin_statement_wf(m: MachineView, statement: StmtView)
    requires
        m.environment.wf(),
        m.base < m.environment.scopes.len(),
        m.awaiting is None,
        settled(
            m.frames,
            m.operands.len() as int,
            m.environment.current,
            m.environment.scopes.len(),
            m.base,
        ),
    ensures
        m.begin_statement(statement).0.wf(),
{
    let depth = m.operands.len() as int;
    let current = m.environment.current;
    let scopes = m.environment.scopes.len();
    let base = m.base;
    match statement {
        StmtView::Block { statements } => {
            let f1 = FrameView::Restore { environment: current };
            lemma_settled_grows(m.frames, depth, current, scopes, scopes + 1, base);
            lemma_settled_push(m.frames, f1, depth, scopes, scopes + 1, base);
            lemma_settled_push(
                m.frames.push(f1),
                FrameView::Sequence { statements, next: 0 },
                depth,
                scopes,
                scopes + 1,
                base,
            );
        },
        StmtView::Expression { expression } => {
            lemma_settled_push(m.frames, FrameView::Discard, depth + 1, current, scopes, base);
            lemma_settled_push(
                m.frames.push(FrameView::Discard),
                FrameView::Evaluate { expression },
                depth,
                current,
                scopes,
                base,
            );
        },
        StmtView::Function { .. } => {},
        StmtView::If { condition, then_stmt, else_stmt } => {
            let f1 = FrameView::Branch {
                then_stmt: *then_stmt,
                else_stmt: match else_stmt {
                    Some(other) => Some(*other),
                    None => None,
                },
            };
            lemma_settled_push(m.frames, f1, depth + 1, current, scopes, base);
            lemma_settled_push(
                m.frames.push(f1),
                FrameView::Evaluate { expression: condition },
                depth,
                current,
                scopes,
                base,
            );
        },
        StmtView::Print { expression } => {
            lemma_settled_push(m.frames, FrameView::Print, depth + 1, current, scopes, base);
            lemma_settled_push(
                m.frames.push(FrameView::Print),
                FrameView::Evaluate { expression },
                depth,
                current,
                scopes,
                base,
            );
        },
        StmtView::Return { keyword, value } => {
            if let Some(expression) = value {
                lemma_settled_push(m.frames, FrameView::Return, depth + 1, current, scopes, base);
                lemma_settled_push(
                    m.frames.push(FrameView::Return),
                    FrameView::Evaluate { expression },
                    depth,
                    current,
                    scopes,
                    base,
                );
            }
        },
        StmtView::Var { name, initializer } => {
            let f1 = FrameView::Define { name: name.lexeme };
            lemma_settled_push(m.frames, f1, depth + 1, current, scopes, base);
            lemma_settled_push(
                m.frames.push(f1),
                FrameView::Evaluate { expression: initializer },
                depth,
                current,
                scopes,
                base,
            );
        },
        StmtView::While { condition, body } => {
            lemma_settled_push(
                m.frames,
                FrameView::Loop { condition, body: *body },
                depth,
                current,
                scopes,
                base,
            );
        },
    }
}

/// A call in a state whose frames are settled once the result of the call is there leaves
/// a state that a run can be in.
pub proof fn lemma_call_wf(
    m: MachineView,
    callee: ValueView,
    arguments: Seq<ValueView>,
    line: usize,
)
    requires
        m.environment.wf(),
        m.base < m.environment.scopes.len(),
        m.awaiting is None,
        settled(
            m.frames,
            (m.operands.len() + 1) as int,
            m.environment.current,
            m.environment.scopes.len(),
            m.base,
        ),
    ensures
        m.call(callee, arguments, line).0.wf(),
{
    let depth = m.operands.len() as int;
    let current = m.environment.current;
    let scopes = m.environment.scopes.len();
    let base = m.base;
    if let ValueView::Callable(callable) = callee {
        if callable.arity() == arguments.len() {
            if let CallableView::LoxFunction { name, parameters, body, closure } = callable {
                let f1 = FrameView::Leave { environment: current };
                lemma_bind_shape(m.environment.enter(closure), parameters, arguments, 0);
                lemma_settled_grows(m.frames, depth + 1, current, scopes, scopes + 1, base);
                lemma_settled_push(m.frames, f1, depth, scopes, scopes + 1, base);
                lemma_settled_push(
                    m.frames.push(f1),
                    FrameView::Sequence { statements: body, next: 0 },
                    depth,
                    scopes,
                    scopes + 1,
                    base,
                );
            }
        }
    }
}

/// A frame that has its turn in a state that a run can be in leaves such a state.
pub proof fn lemma_run_frame_wf(m: MachineView, frame: FrameView)
    requires
        m.environment.wf(),
        m.base < m.environment.scopes.len(),
        m.awaiting is None,
        settled(
            m.frames.push(frame),
            m.operands.len() as int,
            m.environment.current,
            m.environment.scopes.len(),
            m.base,
        ),
    ensures
        m.run_frame(frame).0.wf(),
{
    let depth = m.operands.len() as int;
    let current = m.environment.current;
    let scopes = m.environment.scopes.len();
    let base = m.base;
    lemma_settled_push(m.frames, frame, depth, current, scopes, base);
    match frame {
        FrameView::Evaluate { expression } => {
            lemma_begin_expression_wf(m, expression);
        },
        FrameView::Execute { statement } => {
            lemma_begin_statement_wf(m, statement);
        },
        FrameView::Sequence { statements, next } => {
            if !(m.return_value is Some || next >= statements.len()) {
                let f1 = FrameView::Sequence { statements, next: next + 1 };
                lemma_settled_push(m.frames, f1, depth, current, scopes, base);
                lemma_begin_statement_wf(m.push_frame(f1), statements[next as int]);
            }
        },
        FrameView::Unary { .. } => {},
        FrameView::Binary { .. } => {},
        FrameView::Logical { operator, right } => {
            if (operator == TokenType::Or) != m.operand(0).truthy() {
                lemma_settled_push(
                    m.frames,
                    FrameView::Evaluate { expression: right },
                    depth - 1,
                    current,
                    scopes,
                    base,
                );
            }
        },
        FrameView::Assign { name, .. } => {
            crate::environment::lemma_resolve(m.environment.scopes, current, name);
        },
        FrameView::Callee { line, arguments } => {
            lemma_settled_push(
                m.frames,
                FrameView::Arguments { line, arguments, next: 0 },
                depth,
                current,
                scopes,
                base,
            );
        },
        FrameView::Arguments { line, arguments, next } => {
            if next < arguments.len() {
                let f1 = FrameView::Arguments { line, arguments, next: next + 1 };
                lemma_settled_push(m.frames, f1, depth + 1, current, scopes, base);
                lemma_begin_expression_wf(m.push_frame(f1), arguments[next as int]);
            } else {
                lemma_call_wf(
                    m.drop_values(next + 1),
                    m.operand(next),
                    m.operands.subrange(m.operands.len() - next, m.operands.len() as int),
                    line,
                );
            }
        },
        FrameView::Leave { .. } => {},
        FrameView::Discard => {},
        FrameView::Print => {},
        FrameView::Define { .. } => {},
        FrameView::Branch { then_stmt, else_stmt } => {
            lemma_settled_push(
                m.frames,
                FrameView::Execute { statement: then_stmt },
                depth - 1,
                current,
                scopes,
                base,
            );
            if let Some(other) = else_stmt {
                lemma_settled_push(
                    m.frames,
                    FrameView::Execute { statement: other },
                    depth - 1,
                    current,
                    scopes,
                    base,
                );
            }
        },
        FrameView::Loop { condition, body } => {
            let f1 = FrameView::LoopTest { condition, body };
            lemma_settled_push(m.frames, f1, depth + 1, current, scopes, base);
            lemma_settled_push(
                m.frames.push(f1),
                FrameView::Evaluate { expression: condition },
                depth,
                current,
                scopes,
                base,
            );
        },
        FrameView::LoopTest { condition, body } => {
            let f1 = FrameView::Loop { condition, body };
            lemma_settled_push(m.frames, f1, depth - 1, current, scopes, base);
            lemma_settled_push(
                m.frames.push(f1),
                FrameView::Execute { statement: body },
                depth - 1,
                current,
                scopes,
                base,
            );
        },
        FrameView::Return => {},
        FrameView::Restore { .. } => {},
    }
}

/// Every step leads from a state that a run can be in to another one.
pub proof fn lemma_next_wf(m: MachineView, reply: Option<u64>)
    requires
        m.wf(),
    ensures
        m.next(reply).0.wf(),
{
    if m.awaiting is None && m.frames.len() > 0 {
        assert(m.pop_frame().frames.push(m.frames.last()) =~= m.frames);
        lemma_run_frame_wf(m.pop_frame(), m.frames.last());
    }
}

/// The states in which runs start are states that a run can be in.
pub proof fn lemma_load_wf(m: MachineView, statements: Seq<StmtView>, expression: ExprView)
    requires
        m.environment.scopes.len() > m.base,
    ensures
        m.load(statements).wf(),
        m.load_expression(expression).wf(),
{
    lemma_settled_push(
        Seq::empty(),
        FrameView::Sequence { statements, next: 0 },
        0,
        m.base,
        m.environment.scopes.len(),
        m.base,
    );
    lemma_settled_push(
        Seq::empty(),
        FrameView::Evaluate { expression },
        0,
        m.base,
        m.environment.scopes.len(),
        m.base,
    );
    assert(seq![FrameView::Sequence { statements, next: 0 }] =~= Seq::<FrameView>::empty().push(
        FrameView::Sequence { statements, next: 0 },
    ));
    assert(seq![FrameView::Evaluate { expression }] =~= Seq::<FrameView>::empty().push(
        FrameView::Evaluate { expression },
    ));
}

/// A run that has finished or failed has nothing left to do and is in the scope in which
/// it started.
pub proof fn lemma_failure_ends(m: MachineView, reply: Option<u64>)
    requires
        m.wf(),
    ensures
        m.next(reply).1 is Finished || m.next(reply).1 is Failed ==> m.next(reply).0.frames.len()
            == 0 && m.next(reply).0.environment.current == m.base && m.next(reply).0.base
            == m.base,
{
    lemma_next_wf(m, reply);
    if m.awaiting is None && m.frames.len() > 0 {
        let popped = m.pop_frame();
        let frame = m.frames.last();
        match frame {
            FrameView::Sequence { statements, next } => {
                if !(popped.return_value is Some || next >= statements.len()) {
                    lemma_begin_statement_ends(
                        popped.push_frame(FrameView::Sequence { statements, next: next + 1 }),
                        statements[next as int],
                    );
                }
            },
            FrameView::Arguments { line, arguments, next } => {
                if next < arguments.len() {
                    lemma_begin_expression_ends(
                        popped.push_frame(FrameView::Arguments { line, arguments, next: next + 1 }),
                        arguments[next as int],
                    );
                }
            },
            FrameView::Evaluate { expression } => {
                lemma_begin_expression_ends(popped, expression);
            },
            FrameView::Execute { statement } => {
                lemma_begin_statement_ends(popped, statement);
            },
            _ => {},
        }
    }
}

/// The start of an expression does not finish a run, and where it fails nothing is left to
/// do.
pub proof fn lemma_begin_expression_ends(m: MachineView, expression: ExprView)
    ensures
        !(m.begin_expression(expression).1 is Finished),
        m.begin_expression(expression).1 is Failed ==> m.begin_expression(expression).0.frames.len()
            == 0 && m.begin_expression(expression).0.environment.current == m.base
            && m.begin_expression(expression).0.base == m.base,
{
}

/// The start of a statement neither finishes a run nor fails.
pub proof fn lemma_begin_statement_ends(m: MachineView, statement: StmtView)
    ensures
        m.begin_statement(statement).1 is Continue,
{
}

/// Whether a frame stands where a statement stands.
pub open spec fn statement_frame(frame: FrameView) -> bool {
    frame is Execute || frame is Sequence || frame is Return || frame is Define || frame is Print
        || frame is Discard || frame is Branch || frame is Loop || frame is LoopTest
        || frame is Restore
}

/// Whether a frame is one that statements are executed for: a sequence, a loop, a block,
/// or the body of a function.
pub open spec fn holds_statements(frame: FrameView) -> bool {
    frame is Sequence || frame is Loop || frame is Restore || frame is Leave
}

/// Whether every frame that stands where a statement stands is the lowest frame or lies on
/// a frame that statements are executed for.
pub open spec fn orderly(frames: Seq<FrameView>) -> bool
    decreases frames.len(),
{
    frames.len() == 0 || {
        &&& statement_frame(frames.last()) ==> frames.len() == 1 || holds_statements(
            frames[frames.len() - 2],
        )
        &&& orderly(frames.drop_last())
    }
}

/// Whether the top frame is one that gives way to a `return`: a sequence, a loop or a block,
/// which end when something has been returned, or the end of the body of a function, where
/// the call takes what was returned.
pub open spec fn unwinding(frames: Seq<FrameView>) -> bool {
    frames.len() == 0 || holds_statements(frames.last())
}

impl MachineView {
    /// Whether the return slot is in use only on the way out of a function: where
    /// something has been returned, all that is done until the call takes it is to leave
    /// sequences, loops and blocks. No expression is evaluated, and the host is asked
    /// nothing, while the slot is full.
    pub open spec fn calm(self) -> bool {
        &&& orderly(self.frames)
        &&& self.return_value is Some ==> unwinding(self.frames) && self.awaiting is None
    }
}

/// With one more frame on top, the frames are orderly exactly when they were and the new
/// frame lies where it may.
pub proof fn lemma_orderly_push(frames: Seq<FrameView>, frame: FrameView)
    ensures
        orderly(frames.push(frame)) == (orderly(frames) && (statement_frame(frame) ==> frames.len()
            == 0 || holds_statements(frames.last()))),
{
    assert(frames.push(frame).drop_last() =~= frames);
    assert(frames.push(frame).last() == frame);
}

/// Where an expression starts with an empty return slot, the slot stays empty.
pub proof fn lemma_begin_expression_calm(m: MachineView, expression: ExprView)
    requires
        orderly(m.frames),
        m.return_value is None,
    ensures
        m.begin_expression(expression).0.calm(),
        m.begin_expression(expression).0.return_value is None,
{
    match expression {
        ExprView::Assign { name, value } => {
            let f1 = FrameView::Assign { name: name.lexeme, line: name.line };
            lemma_orderly_push(m.frames, f1);
            lemma_orderly_push(m.frames.push(f1), FrameView::Evaluate { expression: *value });
        },
        ExprView::Binary { left, operator, right } => {
            let f1 = FrameView::Binary { operator: operator.token_type, line: operator.line };
            let f2 = FrameView::Evaluate { expression: *right };
            lemma_orderly_push(m.frames, f1);
            lemma_orderly_push(m.frames.push(f1), f2);
            let f3 = FrameView::Evaluate { expression: *left };
            lemma_orderly_push(m.frames.push(f1).push(f2), f3);
        },
        ExprView::Call { callee, paren, arguments } => {
            let f1 = FrameView::Callee { line: paren.line, arguments };
            lemma_orderly_push(m.frames, f1);
            lemma_orderly_push(m.frames.push(f1), FrameView::Evaluate { expression: *callee });
        },
        ExprView::Grouping { expression } => {
            lemma_orderly_push(m.frames, FrameView::Evaluate { expression: *expression });
        },
        ExprView::Lambda { .. } => {},
        ExprView::Literal { .. } => {},
        ExprView::Logical { left, operator, right } => {
            let f1 = FrameView::Logical { operator: operator.token_type, right: *right };
            lemma_orderly_push(m.frames, f1);
            lemma_orderly_push(m.frames.push(f1), FrameView::Evaluate { expression: *left });
        },
        ExprView::Unary { operator, right } => {
            let f1 = FrameView::Unary { operator: operator.token_type, line: operator.line };
            lemma_orderly_push(m.frames, f1);
            lemma_orderly_push(m.frames.push(f1), FrameView::Evaluate { expression: *right });
        },
        ExprView::Variable { .. } => {},
    }
}

/// Where a statement starts with an empty return slot, on a frame that statements are
/// executed for, the slot is used as it may be.
pub proof fn lemma_begin_statement_calm(m: MachineView, statement: StmtView)
    requires
        orderly(m.frames),
        unwinding(m.frames),
        m.return_value is None,
        m.awaiting is None,
    ensures
        m.begin_statement(statement).0.calm(),
{
    match statement {
        StmtView::Block { statements } => {
            let f1 = FrameView::Restore { environment: m.environment.current };
            lemma_orderly_push(m.frames, f1);
            lemma_orderly_push(m.frames.push(f1), FrameView::Sequence { statements, next: 0 });
        },
        StmtView::Expression { expression } => {
            lemma_orderly_push(m.frames, FrameView::Discard);
            let f2 = FrameView::Evaluate { expression };
            lemma_orderly_push(m.frames.push(FrameView::Discard), f2);
        },
        StmtView::Function { .. } => {},
        StmtView::If { condition, then_stmt, else_stmt } => {
            let f1 = FrameView::Branch {
                then_stmt: *then_stmt,
                else_stmt: match else_stmt {
                    Some(other) => Some(*other),
                    None => None,
                },
            };
            lemma_orderly_push(m.frames, f1);
            lemma_orderly_push(m.frames.push(f1), FrameView::Evaluate { expression: condition });
        },
        StmtView::Print { expression } => {
            lemma_orderly_push(m.frames, FrameView::Print);
            lemma_orderly_push(m.frames.push(FrameView::Print), FrameView::Evaluate { expression });
        },
        StmtView::Return { keyword, value } => {
            if let Some(expression) = value {
                lemma_orderly_push(m.frames, FrameView::Return);
                lemma_orderly_push(
                    m.frames.push(FrameView::Return),
                    FrameView::Evaluate { expression },
                );
            }
        },
        StmtView::Var { name, initializer } => {
            let f1 = FrameView::Define { name: name.lexeme };
            lemma_orderly_push(m.frames, f1);
            lemma_orderly_push(m.frames.push(f1), FrameView::Evaluate { expression: initializer });
        },
        StmtView::While { condition, body } => {
            lemma_orderly_push(m.frames, FrameView::Loop { condition, body: *body });
        },
    }
}

/// Every step keeps the return slot in use only on the way out of a function.
pub proof fn lemma_next_calm(m: MachineView, reply: Option<u64>)
    requires
        m.calm(),
    ensures
        m.next(reply).0.calm(),
{
    if m.awaiting is None && m.frames.len() > 0 {
        let frame = m.frames.last();
        let popped = m.pop_frame();
        assert(popped.frames.push(frame) =~= m.frames);
        lemma_orderly_push(popped.frames, frame);
        if popped.frames.len() > 0 {
            assert(popped.frames.last() == m.frames[m.frames.len() - 2]);
        }
        match frame {
            FrameView::Evaluate { expression } => {
                lemma_begin_expression_calm(popped, expression);
            },
            FrameView::Execute { statement } => {
                lemma_begin_statement_calm(popped, statement);
            },
            FrameView::Sequence { statements, next } => {
                if !(popped.return_value is Some || next >= statements.len()) {
                    let f1 = FrameView::Sequence { statements, next: next + 1 };
                    lemma_orderly_push(popped.frames, f1);
                    lemma_begin_statement_calm(popped.push_frame(f1), statements[next as int]);
                }
            },
            FrameView::Unary { .. } => {},
            FrameView::Binary { .. } => {},
            FrameView::Logical { operator, right } => {
                lemma_orderly_push(popped.frames, FrameView::Evaluate { expression: right });
            },
            FrameView::Assign { .. } => {},
            FrameView::Callee { line, arguments } => {
                let f1 = FrameView::Arguments { line, arguments, next: 0 };
                lemma_orderly_push(popped.frames, f1);
            },
            FrameView::Arguments { line, arguments, next } => {
                if next < arguments.len() {
                    let f1 = FrameView::Arguments { line, arguments, next: next + 1 };
                    lemma_orderly_push(popped.frames, f1);
                    lemma_begin_expression_calm(popped.push_frame(f1), arguments[next as int]);
                } else {
                    let callee = m.operand(next);
                    if let ValueView::Callable(callable) = callee {
                        if let CallableView::LoxFunction { name, parameters, body, closure } =
                            callable {
                            let f1 = FrameView::Leave { environment: m.environment.current };
                            lemma_orderly_push(popped.frames, f1);
                            lemma_orderly_push(
                                popped.frames.push(f1),
                                FrameView::Sequence { statements: body, next: 0 },
                            );
                        }
                    }
                }
            },
            FrameView::Leave { .. } => {},
            FrameView::Discard => {},
            FrameView::Print => {},
            FrameView::Define { .. } => {},
            FrameView::Branch { then_stmt, else_stmt } => {
                lemma_orderly_push(popped.frames, FrameView::Execute { statement: then_stmt });
                if let Some(other) = else_stmt {
                    lemma_orderly_push(popped.frames, FrameView::Execute { statement: other });
                }
            },
            FrameView::Loop { condition, body } => {
                let f1 = FrameView::LoopTest { condition, body };
                lemma_orderly_push(popped.frames, f1);
                lemma_orderly_push(
                    popped.frames.push(f1),
                    FrameView::Evaluate { expression: condition },
                );
            },
            FrameView::LoopTest { condition, body } => {
                let f1 = FrameView::Loop { condition, body };
                lemma_orderly_push(popped.frames, f1);
                lemma_orderly_push(popped.frames.push(f1), FrameView::Execute { statement: body });
            },
            FrameView::Return => {},
            FrameView::Restore { .. } => {},
        }
    }
}

/// A call in a state with an empty return slot and nothing to wait for leaves the slot
/// empty.
pub proof fn lemma_call_calm(
    m: MachineView,
    callee: ValueView,
    arguments: Seq<ValueView>,
    line: usize,
)
    requires
        m.calm(),
        m.return_value is None,
    ensures
        m.call(callee, arguments, line).0.calm(),
{
    if let ValueView::Callable(callable) = callee {
        if let CallableView::LoxFunction { name, parameters, body, closure } = callable {
            let f1 = FrameView::Leave { environment: m.environment.current };
            lemma_orderly_push(m.frames, f1);
            let f2 = FrameView::Sequence { statements: body, next: 0 };
            lemma_orderly_push(m.frames.push(f1), f2);
        }
    }
}

/// Where runs start, the return slot is empty.
pub proof fn lemma_load_calm(m: MachineView, statements: Seq<StmtView>, expression: ExprView)
    ensures
        m.load(statements).calm(),
        m.load_expression(expression).calm(),
{
    lemma_orderly_push(Seq::empty(), FrameView::Sequence { statements, next: 0 });
    lemma_orderly_push(Seq::empty(), FrameView::Evaluate { expression });
    assert(seq![FrameView::Sequence { statements, next: 0 }] =~= Seq::<FrameView>::empty().push(
        FrameView::Sequence { statements, next: 0 },
    ));
    assert(seq![FrameView::Evaluate { expression }] =~= Seq::<FrameView>::empty().push(
        FrameView::Evaluate { expression },
    ));
}

} // verus!
