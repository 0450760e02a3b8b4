//! Runtime values, thunks, and what a host function answers when asked to
//! evaluate.

use crate::ast::Expr;
use crate::env::{env_clone, Env};
use crate::error::{RuntimeError, RuntimeErrorKind};
use vstd::prelude::*;

verus! {

/// A value that an evaluation yields. A float is carried in decimal
/// notation: the library hands such values on and never computes with them.
#[derive(Debug)]
pub enum RuntimeValue {
    Empty,
    Int(i64),
    Float(String),
    Bool(bool),
    /// A closure: the abstraction it comes from, and the environment in
    /// force where the abstraction was evaluated.
    Function { decl: Expr, context_values: Env },
    /// A built-in of the host, by name.
    Host(String),
}

/// The model of a `RuntimeValue`.
pub enum ValueModel {
    Empty,
    Int(i64),
    Float(Seq<char>),
    Bool(bool),
    Function { decl: Expr, env: Map<Seq<char>, usize> },
    Host(Seq<char>),
}

impl View for RuntimeValue {
    type V = ValueModel;

    open spec fn view(&self) -> ValueModel {
        match self {
            RuntimeValue::Empty => ValueModel::Empty,
            RuntimeValue::Int(v) => ValueModel::Int(*v),
            RuntimeValue::Float(s) => ValueModel::Float(s@),
            RuntimeValue::Bool(b) => ValueModel::Bool(*b),
            RuntimeValue::Function { decl, context_values } => ValueModel::Function {
                decl: *decl,
                env: context_values@,
            },
            RuntimeValue::Host(s) => ValueModel::Host(s@),
        }
    }
}

impl RuntimeValue {
    /// A copy of this value. The copy of a closure shares its environment.
    pub fn duplicate(&self) -> (r: RuntimeValue)
        ensures
            r@ == self@,
    {
        match self {
            RuntimeValue::Empty => RuntimeValue::Empty,
            RuntimeValue::Int(v) => RuntimeValue::Int(*v),
            RuntimeValue::Float(s) => RuntimeValue::Float(s.clone()),
            RuntimeValue::Bool(b) => RuntimeValue::Bool(*b),
            RuntimeValue::Function { decl, context_values } => RuntimeValue::Function {
                decl: *decl,
                context_values: env_clone(context_values),
            },
            RuntimeValue::Host(s) => RuntimeValue::Host(s.clone()),
        }
    }
}

impl Clone for RuntimeValue {
    fn clone(&self) -> (r: RuntimeValue)
        ensures
            r@ == self@,
    {
        self.duplicate()
    }
}

/// A handle to a thunk of an evaluation context. Environments bind names to
/// such handles, so a thunk is shared by all environments that reach it.
#[derive(Clone, Copy, Debug, PartialEq, Eq, Structural)]
pub struct LazyValue {
    pub id: usize,
}

/// A suspended evaluation: an expression, the environment it is to be
/// evaluated in, and the value once it is known.
#[derive(Debug)]
pub struct Thunk {
    pub expr: Expr,
    pub context_values: Env,
    /// The value, once the thunk was forced.
    pub outcome: Option<RuntimeValue>,
    /// Whether the thunk is being forced right now.
    pub active: bool,
}

/// The model of a `Thunk`.
pub struct ThunkModel {
    pub expr: Expr,
    pub env: Map<Seq<char>, usize>,
    pub outcome: Option<ValueModel>,
    pub active: bool,
}

impl View for Thunk {
    type V = ThunkModel;

    open spec fn view(&self) -> ThunkModel {
        ThunkModel {
            expr: self.expr,
            env: self.context_values@,
            outcome: match self.outcome {
                Some(v) => Some(v@),
                None => None,
            },
            active: self.active,
        }
    }
}

/// What a host function answers when asked to evaluate, given those of its
/// arguments that were forced so far.
#[derive(Debug)]
pub enum HostStep {
    /// The argument with this index is needed: force it and ask again.
    Force(usize),
    /// The result.
    Done(RuntimeValue),
    /// The evaluation fails.
    Fail(RuntimeError),
}

/// The model of a `HostStep`.
pub enum StepModel {
    Force(usize),
    Done(ValueModel),
    Fail(RuntimeErrorKind),
}

impl View for HostStep {
    type V = StepModel;

    open spec fn view(&self) -> StepModel {
        match self {
            HostStep::Force(i) => StepModel::Force(*i),
            HostStep::Done(v) => StepModel::Done(v@),
            HostStep::Fail(e) => StepModel::Fail(e@),
        }
    }
}

/// The models of a sequence of arguments, each forced or not.
pub open spec fn forced_of(v: Seq<Option<RuntimeValue>>) -> Seq<Option<ValueModel>> {
    Seq::new(
        v.len(),
        |i: int|
            match v[i] {
                Some(x) => Some(x@),
                None => None,
            },
    )
}

} // verus!
