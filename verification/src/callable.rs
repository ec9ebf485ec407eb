//! What can be called: functions of the program, with the scope they were made in, and
//! functions that the host provides.
use crate::scanner::{token_views, Token, TokenView};
use crate::statement::{stmt_views, Stmt, StmtView};
use crate::text::copy;
use std::rc::Rc;
use vstd::prelude::*;

verus! {

/// Another handle on a shared value.
///
/// Stands for `Rc::clone`, which makes a second pointer to the same allocation: the value
/// behind the new handle is the value behind the old one.
#[verifier::external_body]
pub(crate) fn share<T>(handle: &Rc<T>) -> (shared: Rc<T>)
    ensures
        shared == *handle,
{
    handle.clone()
}

#[derive(Debug)]
pub enum LoxCallable {
    /// A function of the program. `closure` is the scope in which it was declared.
    LoxFunction { name: Vec<u8>, parameters: Rc<Vec<Token>>, body: Rc<Vec<Stmt>>, closure: usize },
    /// A function of the host, called by name.
    NativeFunction { name: Vec<u8>, arity: usize },
}

pub enum CallableView {
    LoxFunction { name: Seq<u8>, parameters: Seq<TokenView>, body: Seq<StmtView>, closure: nat },
    NativeFunction { name: Seq<u8>, arity: nat },
}

impl View for LoxCallable {
    type V = CallableView;

    open spec fn view(&self) -> CallableView {
        match self {
            LoxCallable::LoxFunction { name, parameters, body, closure } => {
                CallableView::LoxFunction {
                    name: name@,
                    parameters: token_views(parameters@),
                    body: stmt_views(body@),
                    closure: *closure as nat,
                }
            },
            LoxCallable::NativeFunction { name, arity } => CallableView::NativeFunction {
                name: name@,
                arity: *arity as nat,
            },
        }
    }
}

impl CallableView {
    pub open spec fn name(self) -> Seq<u8> {
        match self {
            CallableView::LoxFunction { name, .. } => name,
            CallableView::NativeFunction { name, .. } => name,
        }
    }

    /// How many arguments a call must give.
    pub open spec fn arity(self) -> nat {
        match self {
            CallableView::LoxFunction { parameters, .. } => parameters.len(),
            CallableView::NativeFunction { arity, .. } => arity,
        }
    }
}

impl Clone for LoxCallable {
    fn clone(&self) -> (copied: Self)
        ensures
            copied@ == self@,
    {
        match self {
            LoxCallable::LoxFunction { name, parameters, body, closure } => {
                LoxCallable::LoxFunction {
                    name: copy(name),
                    parameters: share(parameters),
                    body: share(body),
                    closure: *closure,
                }
            },
            LoxCallable::NativeFunction { name, arity } => LoxCallable::NativeFunction {
                name: copy(name),
                arity: *arity,
            },
        }
    }
}

impl LoxCallable {
    pub fn arity(&self) -> (count: usize)
        ensures
            count == self@.arity(),
    {
        match self {
            LoxCallable::LoxFunction { parameters, .. } => parameters.len(),
            LoxCallable::NativeFunction { arity, .. } => *arity,
        }
    }

    pub fn name(&self) -> (name: Vec<u8>)
        ensures
            name@ == self@.name(),
    {
        copy(self.name_bytes())
    }

    /// The name, without copying it.
    pub fn name_bytes(&self) -> (name: &Vec<u8>)
        ensures
            name@ == self@.name(),
    {
        match self {
            LoxCallable::LoxFunction { name, .. } => name,
            LoxCallable::NativeFunction { name, .. } => name,
        }
    }
}

} // verus!
