//! Expressions of the syntax tree, and the values that evaluating them gives.
use crate::callable::{CallableView, LoxCallable};
use crate::number;
use crate::scanner::{Token, TokenType, TokenView};
use crate::statement::{Stmt, StmtView};
use crate::text::{copy, same};
use std::rc::Rc;
use vstd::prelude::*;

verus! {

/// A value at run time.
#[derive(Debug)]
pub enum LiteralValue {
    /// A binary64 number, as its bits.
    Number(u64),
    StringValue(Vec<u8>),
    True,
    False,
    Nil,
    Callable(LoxCallable),
}

pub enum ValueView {
    Number(u64),
    StringValue(Seq<u8>),
    True,
    False,
    Nil,
    Callable(CallableView),
}

impl View for LiteralValue {
    type V = ValueView;

    open spec fn view(&self) -> ValueView {
        match self {
            LiteralValue::Number(bits) => ValueView::Number(*bits),
            LiteralValue::StringValue(bytes) => ValueView::StringValue(bytes@),
            LiteralValue::True => ValueView::True,
            LiteralValue::False => ValueView::False,
            LiteralValue::Nil => ValueView::Nil,
            LiteralValue::Callable(callable) => ValueView::Callable(callable@),
        }
    }
}

/// The views of a sequence of values, one for one.
pub open spec fn value_views(values: Seq<LiteralValue>) -> Seq<ValueView> {
    Seq::new(values.len(), |i: int| values[i]@)
}

impl ValueView {
    /// Only `false` and `nil` are falsy: zero and the empty string are truthy.
    pub open spec fn truthy(self) -> bool {
        !(self is False || self is Nil)
    }

    pub open spec fn from_bool(boolean: bool) -> ValueView {
        if boolean {
            ValueView::True
        } else {
            ValueView::False
        }
    }

    /// Equality of values: values of different kinds differ, numbers are equal as
    /// binary64 numbers are, strings byte by byte, and two callables when they agree in
    /// name and arity.
    pub open spec fn equals(self, other: ValueView) -> bool {
        match (self, other) {
            (ValueView::Number(a), ValueView::Number(b)) => number::equal(a, b),
            (ValueView::StringValue(a), ValueView::StringValue(b)) => a == b,
            (ValueView::True, ValueView::True) => true,
            (ValueView::False, ValueView::False) => true,
            (ValueView::Nil, ValueView::Nil) => true,
            (ValueView::Callable(a), ValueView::Callable(b)) => a.name() == b.name() && a.arity()
                == b.arity(),
            _ => false,
        }
    }

    pub open spec fn kind_name(self) -> Seq<char> {
        match self {
            ValueView::Number(_) => "Number"@,
            ValueView::StringValue(_) => "String"@,
            ValueView::True => "Boolean"@,
            ValueView::False => "Boolean"@,
            ValueView::Nil => "nil"@,
            ValueView::Callable(_) => "Callable"@,
        }
    }
}

impl Clone for LiteralValue {
    fn clone(&self) -> (copied: Self)
        ensures
            copied@ == self@,
    {
        match self {
            LiteralValue::Number(bits) => LiteralValue::Number(*bits),
            LiteralValue::StringValue(bytes) => LiteralValue::StringValue(copy(bytes)),
            LiteralValue::True => LiteralValue::True,
            LiteralValue::False => LiteralValue::False,
            LiteralValue::Nil => LiteralValue::Nil,
            LiteralValue::Callable(callable) => LiteralValue::Callable(callable.clone()),
        }
    }
}

impl LiteralValue {
    pub fn from_bool(boolean: bool) -> (value: Self)
        ensures
            value@ == ValueView::from_bool(boolean),
    {
        if boolean {
            LiteralValue::True
        } else {
            LiteralValue::False
        }
    }

    pub fn to_type(&self) -> (name: &'static str)
        ensures
            name@ == self@.kind_name(),
    {
        match self {
            LiteralValue::Number(_) => "Number",
            LiteralValue::StringValue(_) => "String",
            LiteralValue::True => "Boolean",
            LiteralValue::False => "Boolean",
            LiteralValue::Nil => "nil",
            LiteralValue::Callable(_) => "Callable",
        }
    }

    pub fn is_truthy(&self) -> (yes: bool)
        ensures
            yes == self@.truthy(),
    {
        match self {
            LiteralValue::False => false,
            LiteralValue::Nil => false,
            _ => true,
        }
    }

    pub fn as_callable(&self) -> (callable: Option<LoxCallable>)
        ensures
            match self@ {
                ValueView::Callable(c) => callable.is_some() && callable.unwrap()@ == c,
                _ => callable.is_none(),
            },
    {
        match self {
            LiteralValue::Callable(callable) => Some(callable.clone()),
            _ => None,
        }
    }

    /// Whether two values are equal as the language's `==` has it.
    pub fn equals(&self, other: &LiteralValue) -> (yes: bool)
        ensures
            yes == self@.equals(other@),
    {
        match (self, other) {
            (LiteralValue::Number(a), LiteralValue::Number(b)) => number::is_equal(*a, *b),
            (LiteralValue::StringValue(a), LiteralValue::StringValue(b)) => same(a, b),
            (LiteralValue::True, LiteralValue::True) => true,
            (LiteralValue::False, LiteralValue::False) => true,
            (LiteralValue::Nil, LiteralValue::Nil) => true,
            (LiteralValue::Callable(a), LiteralValue::Callable(b)) => {
                let names = same(a.name_bytes(), b.name_bytes());
                names && a.arity() == b.arity()
            },
            _ => false,
        }
    }
}

impl PartialEq for LiteralValue {
    /// `==` on values is the equality of the language.
    fn eq(&self, other: &Self) -> (yes: bool) {
        self.equals(other)
    }
}

impl vstd::std_specs::cmp::PartialEqSpecImpl for LiteralValue {
    open spec fn obeys_eq_spec() -> bool {
        true
    }

    open spec fn eq_spec(&self, other: &Self) -> bool {
        self@.equals(other@)
    }
}

/// A constant of the program text. A number is kept as the decimal digits that were
/// written: what binary64 number they stand for is for the host to say.
#[derive(Debug)]
pub enum Constant {
    Number(Vec<u8>),
    Text(Vec<u8>),
    True,
    False,
    Nil,
}

pub enum ConstantView {
    Number(Seq<u8>),
    Text(Seq<u8>),
    True,
    False,
    Nil,
}

impl View for Constant {
    type V = ConstantView;

    open spec fn view(&self) -> ConstantView {
        match self {
            Constant::Number(digits) => ConstantView::Number(digits@),
            Constant::Text(bytes) => ConstantView::Text(bytes@),
            Constant::True => ConstantView::True,
            Constant::False => ConstantView::False,
            Constant::Nil => ConstantView::Nil,
        }
    }
}

#[derive(Debug)]
#[allow(inconsistent_fields)]
pub enum Expr {
    Assign { name: Token, value: Rc<Expr> },
    Binary { left: Rc<Expr>, operator: Token, right: Rc<Expr> },
    Call { callee: Rc<Expr>, paren: Token, arguments: Rc<Vec<Expr>> },
    Grouping { expression: Rc<Expr> },
    Lambda { paren: Token, params: Rc<Vec<Token>>, body: Rc<Vec<Stmt>> },
    Literal { value: Constant },
    Logical { left: Rc<Expr>, operator: Token, right: Rc<Expr> },
    Unary { operator: Token, right: Rc<Expr> },
    Variable { name: Token },
}

#[allow(inconsistent_fields)]
pub enum ExprView {
    Assign { name: TokenView, value: Box<ExprView> },
    Binary { left: Box<ExprView>, operator: TokenView, right: Box<ExprView> },
    Call { callee: Box<ExprView>, paren: TokenView, arguments: Seq<ExprView> },
    Grouping { expression: Box<ExprView> },
    Lambda { paren: TokenView, params: Seq<TokenView>, body: Seq<StmtView> },
    Literal { value: ConstantView },
    Logical { left: Box<ExprView>, operator: TokenView, right: Box<ExprView> },
    Unary { operator: TokenView, right: Box<ExprView> },
    Variable { name: TokenView },
}

impl View for Expr {
    type V = ExprView;

    open spec fn view(&self) -> ExprView {
        crate::statement::expr_view(*self)
    }
}

/// The views of a sequence of expressions, one for one.
pub open spec fn expr_views(expressions: Seq<Expr>) -> Seq<ExprView> {
    Seq::new(expressions.len(), |i: int| expressions[i]@)
}

} // verus!
