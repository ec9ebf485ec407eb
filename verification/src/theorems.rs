//! What holds of every run of the machine.
use crate::callable::CallableView;
use crate::environment::{lemma_resolve, resolve, EnvironmentView};
use crate::expression::{ExprView, ValueView};
use crate::machine::{
    lemma_failure_ends, lemma_next_wf, lemma_settled_push, resume, settled, ActionView, FrameView,
    MachineView, RuntimeError, RuntimeErrorKind,
};
use crate::scanner::TokenView;
use crate::statement::StmtView;
use vstd::prelude::*;

verus! {

/// Steps lead from states that a run can be in to such states.
pub proof fn lemma_resume_wf(m: MachineView, action: ActionView, budget: nat)
    requires
        m.wf(),
    ensures
        resume(m, action, budget).0.wf(),
    decreases budget,
{
    if !(budget == 0 || !(action is Continue)) {
        lemma_next_wf(m, None);
        lemma_resume_wf(m.next(None).0, m.next(None).1, (budget - 1) as nat);
    }
}

/// Blocks and calls are left as they were entered: when a run has finished or failed,
/// nothing is left to do, and the current scope is the global scope again.
pub proof fn theorem_run_ends_in_global_scope(m: MachineView, reply: Option<u64>, budget: nat)
    requires
        m.wf(),
    ensures
        m.advance(reply, budget).0.wf(),
        m.advance(reply, budget).0.base == m.base,
        m.advance(reply, budget).1 is Finished || m.advance(reply, budget).1 is Failed ==> {
            &&& m.advance(reply, budget).0.frames.len() == 0
            &&& m.advance(reply, budget).0.environment.current == m.base
        },
{
    lemma_next_wf(m, reply);
    lemma_failure_ends(m, reply);
    lemma_base_stays(m, reply);
    lemma_resume_wf(m.next(reply).0, m.next(reply).1, budget);
    lemma_resume_ends(m.next(reply).0, m.next(reply).1, budget);
}

/// No step changes the scope in which runs start and end.
pub proof fn lemma_base_stays(m: MachineView, reply: Option<u64>)
    ensures
        m.next(reply).0.base == m.base,
{
    if m.awaiting is None && m.frames.len() > 0 {
        let popped = m.pop_frame();
        match m.frames.last() {
            FrameView::Sequence { statements, next } => {
                if !(popped.return_value is Some || next >= statements.len()) {
                    lemma_begin_keeps_base(
                        popped.push_frame(FrameView::Sequence { statements, next: next + 1 }),
                        arbitrary(),
                        statements[next as int],
                    );
                }
            },
            FrameView::Arguments { line, arguments, next } => {
                if next < arguments.len() {
                    lemma_begin_keeps_base(
                        popped.push_frame(FrameView::Arguments { line, arguments, next: next + 1 }),
                        arguments[next as int],
                        arbitrary(),
                    );
                }
            },
            FrameView::Evaluate { expression } => {
                lemma_begin_keeps_base(popped, expression, arbitrary());
            },
            FrameView::Execute { statement } => {
                lemma_begin_keeps_base(popped, arbitrary(), statement);
            },
            _ => {},
        }
    }
}

/// The start of an expression or of a statement does not change the scope in which runs
/// start and end.
pub proof fn lemma_begin_keeps_base(m: MachineView, expression: ExprView, statement: StmtView)
    ensures
        m.begin_expression(expression).0.base == m.base,
        m.begin_statement(statement).0.base == m.base,
{
}

/// Where steps stop with the run finished or failed, nothing is left to do, and the
/// current scope is the global scope.
pub proof fn lemma_resume_ends(m: MachineView, action: ActionView, budget: nat)
    requires
        m.wf(),
        action is Finished || action is Failed ==> m.frames.len() == 0 && m.environment.current
            == m.base,
    ensures
        resume(m, action, budget).0.base == m.base,
        resume(m, action, budget).1 is Finished || resume(m, action, budget).1 is Failed ==> {
            &&& resume(m, action, budget).0.frames.len() == 0
            &&& resume(m, action, budget).0.environment.current == m.base
        },
    decreases budget,
{
    if !(budget == 0 || !(action is Continue)) {
        lemma_next_wf(m, None);
        lemma_failure_ends(m, None);
        lemma_base_stays(m, None);
        lemma_resume_ends(m.next(None).0, m.next(None).1, (budget - 1) as nat);
    }
}

/// When the body of a function is done, the call takes what was returned out of the
/// return slot: the slot is empty when the caller goes on, and the value of the call is
/// what was in it, or `nil` where nothing was.
pub proof fn theorem_call_empties_return_slot(m: MachineView, reply: Option<u64>)
    requires
        m.awaiting is None,
        m.frames.len() > 0,
        m.frames.last() is Leave,
    ensures
        m.next(reply).0.return_value is None,
        m.next(reply).0.operands == m.operands.push(
            match m.return_value {
                Some(value) => value,
                None => ValueView::Nil,
            },
        ),
        m.next(reply).0.environment.current == m.frames.last()->Leave_environment,
        m.next(reply).1 is Continue,
{
}

/// The return slot is in use only on the way out of a function: a step keeps it so, and
/// whenever the frame that has its turn is not a sequence, a loop, a block or the end of a
/// function body, which is so whenever an expression is evaluated, the slot is empty.
pub proof fn theorem_return_slot_is_for_returning(m: MachineView, reply: Option<u64>)
    requires
        m.calm(),
    ensures
        m.next(reply).0.calm(),
        m.frames.len() > 0 && !crate::machine::holds_statements(m.frames.last())
            ==> m.return_value is None,
        m.awaiting is Some ==> m.return_value is None,
{
    crate::machine::lemma_next_calm(m, reply);
}

/// Operands are evaluated from left to right: the left operand of an infix operator is
/// what is done first, the right one next, and the operator is applied after both.
pub proof fn theorem_left_operand_first(m: MachineView, expression: ExprView)
    requires
        expression is Binary,
    ensures
        m.begin_expression(expression).1 is Continue,
        m.begin_expression(expression).0.frames == m.frames.push(
            FrameView::Binary {
                operator: expression->Binary_operator.token_type,
                line: expression->Binary_operator.line,
            },
        ).push(FrameView::Evaluate { expression: *expression->Binary_right }).push(
            FrameView::Evaluate { expression: *expression->Binary_left },
        ),
{
}

/// The arguments of a call are evaluated from left to right, after what is called: the
/// next argument is what is done first, and the call is made after the last.
pub proof fn theorem_arguments_in_order(
    m: MachineView,
    line: usize,
    arguments: Seq<ExprView>,
    next: nat,
)
    requires
        next < arguments.len(),
    ensures
        m.run_frame(FrameView::Arguments { line, arguments, next }) == m.push_frame(
            FrameView::Arguments { line, arguments, next: next + 1 },
        ).begin_expression(arguments[next as int]),
{
}

/// A step that fails leaves nothing to do: what was to be evaluated after the failure is
/// not evaluated.
pub proof fn theorem_failure_stops_evaluation(m: MachineView, reply: Option<u64>)
    requires
        m.wf(),
    ensures
        m.next(reply).1 is Failed ==> m.next(reply).0.frames.len() == 0 && m.next(
            reply,
        ).0.operands.len() == 0,
{
    lemma_failure_ends(m, reply);
    if m.awaiting is None && m.frames.len() > 0 {
        let popped = m.pop_frame();
        match m.frames.last() {
            FrameView::Sequence { statements, next } => {
                if !(popped.return_value is Some || next >= statements.len()) {
                    crate::machine::lemma_begin_statement_ends(
                        popped.push_frame(FrameView::Sequence { statements, next: next + 1 }),
                        statements[next as int],
                    );
                }
            },
            FrameView::Arguments { line, arguments, next } => {
                if next < arguments.len() {
                    lemma_begin_expression_fails_empty(
                        popped.push_frame(FrameView::Arguments { line, arguments, next: next + 1 }),
                        arguments[next as int],
                    );
                }
            },
            FrameView::Evaluate { expression } => {
                lemma_begin_expression_fails_empty(popped, expression);
            },
            FrameView::Execute { statement } => {
                crate::machine::lemma_begin_statement_ends(popped, statement);
            },
            _ => {},
        }
    }
}

/// Where the start of an expression fails, no operands are left.
pub proof fn lemma_begin_expression_fails_empty(m: MachineView, expression: ExprView)
    ensures
        m.begin_expression(expression).1 is Failed ==> m.begin_expression(
            expression,
        ).0.operands.len() == 0,
{
}

/// Parentheses change no value: the evaluation of an expression in parentheses goes on, a
/// step later, as the evaluation of the expression itself starts.
pub proof fn theorem_grouping_is_transparent(
    m: MachineView,
    expression: ExprView,
    reply: Option<u64>,
)
    requires
        m.awaiting is None,
    ensures
        m.begin_expression(ExprView::Grouping { expression: Box::new(expression) }).1 is Continue,
        m.begin_expression(ExprView::Grouping { expression: Box::new(expression) }).0.next(reply)
            == m.begin_expression(expression),
{
    let waiting = m.push_frame(FrameView::Evaluate { expression });
    assert(waiting.pop_frame().frames =~= m.frames);
    assert(waiting.pop_frame() == m);
}

/// Scoping is lexical: the scopes in which the body of a function runs are the new scope
/// for its parameters and, around it, the scope in which the function was declared. From
/// which scope the function is called makes no difference.
pub proof fn theorem_lexical_scoping(
    m: MachineView,
    caller: nat,
    other_caller: nat,
    function: CallableView,
    arguments: Seq<ValueView>,
    line: usize,
)
    requires
        function is LoxFunction,
        function.arity() == arguments.len(),
    ensures
        m.with_environment(m.environment.at(caller)).call(
            ValueView::Callable(function),
            arguments,
            line,
        ).0.environment == m.with_environment(m.environment.at(other_caller)).call(
            ValueView::Callable(function),
            arguments,
            line,
        ).0.environment,
        m.environment.enter(function->closure).scopes.last().enclosing == Some(function->closure),
        m.environment.enter(function->closure).current == m.environment.scopes.len(),
{
}

/// A call of what is no function fails, whatever the arguments are.
pub proof fn theorem_only_functions_are_called(
    m: MachineView,
    callee: ValueView,
    arguments: Seq<ValueView>,
    exprs: Seq<ExprView>,
    line: usize,
)
    requires
        !(callee is Callable),
    ensures
        m.call(callee, arguments, line).1 == (ActionView::Failed {
            error: RuntimeError { kind: RuntimeErrorKind::NotCallable, line },
        }),
        m.operands.len() > 0 && m.operands.last() == callee ==> m.run_frame(
            FrameView::Callee { line, arguments: exprs },
        ).1 == (ActionView::Failed {
            error: RuntimeError { kind: RuntimeErrorKind::NotCallable, line },
        }),
{
}

/// A name that no scope on the way out binds can be neither read nor assigned to.
pub proof fn theorem_undeclared_names_fail(m: MachineView, name: TokenView, value: ValueView)
    requires
        m.environment.lookup(name.lexeme) is None,
        m.operands.len() > 0,
    ensures
        m.begin_expression(ExprView::Variable { name }).1 == (ActionView::Failed {
            error: RuntimeError { kind: RuntimeErrorKind::UndefinedVariable, line: name.line },
        }),
        m.run_frame(FrameView::Assign { name: name.lexeme, line: name.line }).1 == (
        ActionView::Failed {
            error: RuntimeError { kind: RuntimeErrorKind::UndefinedAssignment, line: name.line },
        }),
{
}

/// A name that has been declared can be read, and assigned to, and read again: a read
/// gives the value that was written last.
pub proof fn theorem_declared_names_work(
    environment: EnvironmentView,
    name: Seq<u8>,
    value: ValueView,
    other: ValueView,
)
    requires
        environment.wf(),
    ensures
        environment.define(name, value).lookup(name) == Some(value),
        environment.define(name, value).assign(name, other) is Some,
        environment.define(name, value).assign(name, other).unwrap().lookup(name) == Some(other),
        environment.define(name, value).assign(name, other).unwrap().scopes.len()
            == environment.scopes.len(),
{
    let defined = environment.define(name, value);
    assert(defined.scopes[environment.current as int].bindings.contains_key(name));
    assert(resolve(defined.scopes, defined.current, name) == Some(defined.current));
    let assigned = defined.write(defined.current, name, other);
    assert(assigned.scopes[environment.current as int].bindings.contains_key(name));
    assert(resolve(assigned.scopes, assigned.current, name) == Some(assigned.current));
}

/// An assignment writes to a binding that is there and makes none: the names that each
/// scope binds are the same before and after.
pub proof fn theorem_assignment_binds_nothing(
    environment: EnvironmentView,
    name: Seq<u8>,
    value: ValueView,
    scope: int,
    other: Seq<u8>,
)
    requires
        environment.assign(name, value) is Some,
        0 <= scope < environment.scopes.len(),
    ensures
        environment.assign(name, value).unwrap().scopes.len() == environment.scopes.len(),
        environment.assign(name, value).unwrap().scopes[scope].bindings.contains_key(other)
            == environment.scopes[scope].bindings.contains_key(other),
        environment.assign(name, value).unwrap().lookup(name) == Some(value),
{
    lemma_resolve(environment.scopes, environment.current, name);
    let target = resolve(environment.scopes, environment.current, name).unwrap();
    let assigned = environment.write(target, name, value);
    lemma_resolve_same_names(environment.scopes, assigned.scopes, environment.current, name);
}

/// Where two tables of scopes bind the same names in each scope and link the scopes alike,
/// a name is found in the same scope in both.
pub proof fn lemma_resolve_same_names(
    scopes: Seq<crate::environment::ScopeView>,
    others: Seq<crate::environment::ScopeView>,
    at: nat,
    name: Seq<u8>,
)
    requires
        scopes.len() == others.len(),
        forall|i: int|
            0 <= i < scopes.len() ==> #[trigger] scopes[i].enclosing == others[i].enclosing
                && scopes[i].bindings.contains_key(name) == others[i].bindings.contains_key(name),
    ensures
        resolve(scopes, at, name) == resolve(others, at, name),
    decreases at,
{
    if at < scopes.len() {
        assert(scopes[at as int].enclosing == others[at as int].enclosing);
        if !scopes[at as int].bindings.contains_key(name) {
            if let Some(outer) = scopes[at as int].enclosing {
                if outer < at {
                    lemma_resolve_same_names(scopes, others, outer, name);
                }
            }
        }
    }
}

/// Whether a value names only scopes that there are: a function is declared in one of
/// the first `scopes` scopes.
pub open spec fn within(value: ValueView, scopes: nat) -> bool {
    match value {
        ValueView::Callable(CallableView::LoxFunction { closure, .. }) => closure < scopes,
        _ => true,
    }
}

/// Whether every scope lies in a scope that was made before it, and every function that a
/// scope holds was declared in a scope that there is.
pub open spec fn linked(environment: EnvironmentView) -> bool {
    &&& forall|i: int|
        0 <= i < environment.scopes.len() ==> match (#[trigger] environment.scopes[i]).enclosing {
            Some(outer) => outer < i,
            None => true,
        }
    &&& forall|i: int, name: Seq<u8>|
        0 <= i < environment.scopes.len() && #[trigger] environment.scopes[i].bindings.contains_key(
            name,
        ) ==> within(environment.scopes[i].bindings[name], environment.scopes.len())
}

/// Whether the scopes are linked and the values that are at hand name only scopes that
/// there are.
pub open spec fn grounded(m: MachineView) -> bool {
    &&& linked(m.environment)
    &&& forall|i: int|
        0 <= i < m.operands.len() ==> within(#[trigger] m.operands[i], m.environment.scopes.len())
    &&& match m.return_value {
        Some(value) => within(value, m.environment.scopes.len()),
        None => true,
    }
}

/// Writing a value that names only scopes that there are keeps the scopes linked.
pub proof fn lemma_write_linked(
    environment: EnvironmentView,
    scope: nat,
    name: Seq<u8>,
    value: ValueView,
)
    requires
        linked(environment),
        scope < environment.scopes.len(),
        within(value, environment.scopes.len()),
    ensures
        linked(environment.write(scope, name, value)),
        environment.write(scope, name, value).scopes.len() == environment.scopes.len(),
{
    let written = environment.write(scope, name, value);
    assert forall|i: int|
        0 <= i < written.scopes.len() implies match (#[trigger] written.scopes[i]).enclosing {
        Some(outer) => outer < i,
        None => true,
    } by {
        assert(written.scopes[i].enclosing == environment.scopes[i].enclosing);
    }
    assert forall|i: int, other: Seq<u8>|
        0 <= i < written.scopes.len() && #[trigger] written.scopes[i].bindings.contains_key(
            other,
        ) implies within(written.scopes[i].bindings[other], written.scopes.len()) by {
        if i == scope && other == name {
        } else {
            assert(environment.scopes[i].bindings.contains_key(other));
        }
    }
}

/// A new scope inside a scope that there is keeps the scopes linked.
pub proof fn lemma_enter_linked(environment: EnvironmentView, parent: nat)
    requires
        linked(environment),
        parent < environment.scopes.len(),
    ensures
        linked(environment.enter(parent)),
{
    let entered = environment.enter(parent);
    assert forall|i: int|
        0 <= i < entered.scopes.len() implies match (#[trigger] entered.scopes[i]).enclosing {
        Some(outer) => outer < i,
        None => true,
    } by {
        if i < environment.scopes.len() {
            assert(entered.scopes[i] == environment.scopes[i]);
        }
    }
    assert forall|i: int, other: Seq<u8>|
        0 <= i < entered.scopes.len() && #[trigger] entered.scopes[i].bindings.contains_key(
            other,
        ) implies within(entered.scopes[i].bindings[other], entered.scopes.len()) by {
        if i < environment.scopes.len() {
            assert(entered.scopes[i] == environment.scopes[i]);
            assert(environment.scopes[i].bindings.contains_key(other));
        }
    }
}

/// Binding parameters to arguments that name only scopes that there are keeps the scopes
/// linked.
pub proof fn lemma_bind_linked(
    environment: EnvironmentView,
    parameters: Seq<TokenView>,
    arguments: Seq<ValueView>,
    from: nat,
)
    requires
        linked(environment),
        environment.wf(),
        forall|i: int|
            0 <= i < arguments.len() ==> within(#[trigger] arguments[i], environment.scopes.len()),
    ensures
        linked(crate::machine::bind(environment, parameters, arguments, from)),
    decreases parameters.len() - from,
{
    if !(from >= parameters.len() || from >= arguments.len()) {
        lemma_write_linked(
            environment,
            environment.current,
            parameters[from as int].lexeme,
            arguments[from as int],
        );
        lemma_bind_linked(
            environment.define(parameters[from as int].lexeme, arguments[from as int]),
            parameters,
            arguments,
            from + 1,
        );
    }
}

/// What a read gives from linked scopes names only scopes that there are.
pub proof fn lemma_lookup_within(environment: EnvironmentView, name: Seq<u8>)
    requires
        linked(environment),
    ensures
        match environment.lookup(name) {
            Some(value) => within(value, environment.scopes.len()),
            None => true,
        },
{
    lemma_resolve(environment.scopes, environment.current, name);
}

/// The scopes are never tangled: in every state of a run that started with linked scopes,
/// every scope lies in a scope that was made before it, so that the way out from a scope
/// ends, and every function at hand was declared in a scope that there is.
pub proof fn theorem_scopes_stay_linked(m: MachineView, reply: Option<u64>)
    requires
        m.wf(),
        grounded(m),
    ensures
        grounded(m.next(reply).0),
        m.next(reply).0.environment.scopes.len() >= m.environment.scopes.len(),
{
    let scopes = m.environment.scopes.len();
    if m.awaiting is None && m.frames.len() > 0 {
        let frame = m.frames.last();
        let popped = m.pop_frame();
        assert(popped.frames.push(frame) =~= m.frames);
        lemma_settled_push(
            popped.frames,
            frame,
            m.operands.len() as int,
            m.environment.current,
            scopes,
            m.base,
        );
        match frame {
            FrameView::Evaluate { expression } => {
                lemma_begin_expression_grounded(popped, expression);
            },
            FrameView::Execute { statement } => {
                lemma_begin_statement_grounded(popped, statement);
            },
            FrameView::Sequence { statements, next } => {
                if !(popped.return_value is Some || next >= statements.len()) {
                    lemma_begin_statement_grounded(
                        popped.push_frame(FrameView::Sequence { statements, next: next + 1 }),
                        statements[next as int],
                    );
                }
            },
            FrameView::Assign { name, line } => {
                lemma_resolve(m.environment.scopes, m.environment.current, name);
                if let Some(target) = resolve(m.environment.scopes, m.environment.current, name) {
                    lemma_write_linked(m.environment, target, name, m.operand(0));
                }
            },
            FrameView::Arguments { line, arguments, next } => {
                if next < arguments.len() {
                    lemma_begin_expression_grounded(
                        popped.push_frame(FrameView::Arguments { line, arguments, next: next + 1 }),
                        arguments[next as int],
                    );
                } else {
                    let callee = m.operand(next);
                    let values = m.operands.subrange(
                        m.operands.len() - next,
                        m.operands.len() as int,
                    );
                    if let ValueView::Callable(callable) = callee {
                        if let CallableView::LoxFunction { name, parameters, body, closure } =
                            callable {
                            if callable.arity() == values.len() {
                                let entered = m.environment.enter(closure);
                                lemma_enter_linked(m.environment, closure);
                                assert forall|i: int| 0 <= i < values.len() implies within(
                                    #[trigger] values[i],
                                    entered.scopes.len(),
                                ) by {
                                    assert(values[i] == m.operands[m.operands.len() - next + i]);
                                }
                                lemma_bind_linked(entered, parameters, values, 0);
                                crate::machine::lemma_bind_shape(entered, parameters, values, 0);
                            }
                        }
                    }
                }
            },
            FrameView::Define { name } => {
                lemma_write_linked(m.environment, m.environment.current, name, m.operand(0));
            },
            _ => {},
        }
    }
}

/// Steps keep the scopes linked.
pub proof fn lemma_resume_grounded(m: MachineView, action: ActionView, budget: nat)
    requires
        m.wf(),
        grounded(m),
    ensures
        grounded(resume(m, action, budget).0),
    decreases budget,
{
    if !(budget == 0 || !(action is Continue)) {
        lemma_next_wf(m, None);
        theorem_scopes_stay_linked(m, None);
        lemma_resume_grounded(m.next(None).0, m.next(None).1, (budget - 1) as nat);
    }
}

/// The start of an expression keeps what is at hand grounded.
pub proof fn lemma_begin_expression_grounded(m: MachineView, expression: ExprView)
    requires
        m.environment.wf(),
        grounded(m),
    ensures
        grounded(m.begin_expression(expression).0),
        m.begin_expression(expression).0.environment.scopes.len() == m.environment.scopes.len(),
{
    if let ExprView::Variable { name } = expression {
        lemma_lookup_within(m.environment, name.lexeme);
    }
}

/// The start of a statement keeps what is at hand grounded.
pub proof fn lemma_begin_statement_grounded(m: MachineView, statement: StmtView)
    requires
        m.environment.wf(),
        grounded(m),
    ensures
        grounded(m.begin_statement(statement).0),
        m.begin_statement(statement).0.environment.scopes.len() >= m.environment.scopes.len(),
{
    match statement {
        StmtView::Block { statements } => {
            lemma_enter_linked(m.environment, m.environment.current);
        },
        StmtView::Function { name, params, body } => {
            lemma_write_linked(
                m.environment,
                m.environment.current,
                name.lexeme,
                ValueView::Callable(
                    CallableView::LoxFunction {
                        name: name.lexeme,
                        parameters: params,
                        body,
                        closure: m.environment.current,
                    },
                ),
            );
        },
        _ => {},
    }
}

/// A new interpreter starts with linked scopes, and so does every run.
pub proof fn lemma_start_grounded(m: MachineView, statements: Seq<StmtView>, expression: ExprView)
    requires
        grounded(m),
    ensures
        grounded(MachineView::initial()),
        grounded(m.load(statements)),
        grounded(m.load_expression(expression)),
{
    let scopes = MachineView::initial().environment.scopes;
    assert forall|i: int, name: Seq<u8>|
        0 <= i < scopes.len() && #[trigger] scopes[i].bindings.contains_key(name) implies within(
        scopes[i].bindings[name],
        scopes.len(),
    ) by {}
}

} // verus!
