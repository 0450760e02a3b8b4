//! The interface between the language and the built-ins of its host.

use crate::ast::{Ast, Node};
use crate::bindings::{entries_of, insert_all, lemma_map_of_concat, lookup_ref, map_of};
use crate::datatype::{types_of, DataType, TypeModel};
use crate::error::{RuntimeErrorKind, TypeError};
use crate::value::{forced_of, HostStep, RuntimeValue, StepModel, ValueModel};
use vstd::prelude::*;

verus! {

/// A built-in that programs call by name. It has a typing rule and an
/// evaluation rule, each stated as a function of values alone.
///
/// Evaluation is by need: the evaluator asks the host function with none of
/// the arguments forced, forces the argument that the answer names, and asks
/// again, until the answer is a result or a failure. So a host function
/// decides which of its arguments are evaluated, and in which order.
pub trait HostFunction {
    /// The typing rule: the type of an application to arguments of the
    /// types given, or `None` where the application has no type. Unless an
    /// implementation says otherwise, no application has a type.
    open spec fn typeck_spec(&self, nodes: Seq<Node>, params: Seq<TypeModel>) -> Option<
        TypeModel,
    > {
        None
    }

    /// The type of an application to arguments of the types given.
    fn typeck(&self, ast: &Ast, params: &[DataType]) -> (r: Result<DataType, TypeError>)
        requires
            ast.wf(),
        ensures
            match self.typeck_spec(ast@, types_of(params@)) {
                Some(t) => r matches Ok(d) && d@ == t,
                None => r is Err,
            },
    ;

    /// The evaluation rule: what to do next, given those of the arguments
    /// that were forced so far. Unless an implementation says otherwise,
    /// every evaluation fails.
    open spec fn eval_spec(&self, args: Seq<Option<ValueModel>>) -> StepModel {
        StepModel::Fail(RuntimeErrorKind::Fatal)
    }

    /// What to do next, given those of the arguments that were forced so
    /// far.
    fn eval(&self, args: &[Option<RuntimeValue>]) -> (r: HostStep)
        ensures
            r@ == self.eval_spec(forced_of(args@)),
    ;
}


/// The host functions that a checker or an evaluator knows, by name.
#[derive(Debug)]
pub struct HostTable<H> {
    entries: Vec<(String, H)>,
}

impl<H> View for HostTable<H> {
    type V = Map<Seq<char>, H>;

    closed spec fn view(&self) -> Map<Seq<char>, H> {
        map_of(entries_of(self.entries@))
    }
}

impl<H> HostTable<H> {
    /// A table without host functions.
    pub fn new() -> (r: HostTable<H>)
        ensures
            r@ == Map::<Seq<char>, H>::empty(),
    {
        let r = HostTable { entries: Vec::new() };
        r
    }

    /// Adds host functions under their names. A later entry replaces an
    /// earlier one of the same name.
    pub fn add_hosts(&mut self, host_functions: Vec<(String, H)>)
        ensures
            final(self)@ == insert_all(old(self)@, entries_of(host_functions@), 0),
    {
        let mut more = host_functions;
        let ghost log = entries_of(self.entries@);
        let ghost added = entries_of(more@);
        self.entries.append(&mut more);
        proof {
            assert(entries_of(self.entries@) =~= log + added);
            lemma_map_of_concat(log, added, 0);
        }
    }

    /// The host function of the name given.
    pub fn get(&self, name: &String) -> (r: Option<&H>)
        ensures
            match r {
                Some(h) => self@.contains_key(name@) && self@[name@] == *h,
                None => !self@.contains_key(name@),
            },
    {
        lookup_ref(&self.entries, name)
    }
}

} // verus!
