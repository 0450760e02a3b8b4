//! The three phases in order: parse, check, evaluate. A program whose type
//! is `Divergent` is not evaluated.

use crate::ast::{tree_of, Ast, Expr, Node};
use crate::bindings::insert_all;
use crate::corelib::{core_binops, core_ifop, core_relops, CoreOp, HostManager};
use crate::datatype::{DataType, TypeModel};
use crate::error::{ParseError, RuntimeError, RuntimeErrorKind, TypeError};
use crate::eval::{eval_expr, eval_spec, EvalContext, Outcome};
use crate::host::HostFunction;
use crate::parser::{parse_expr, parse_spec};
use crate::typeck::{check_expr, type_of, TypeResolveState};
use crate::value::{RuntimeValue, ThunkModel, ValueModel};
use vstd::prelude::*;
use vstd::string::StringSliceAdditionalSpecFns;

verus! {

/// Why a program that was parsed has no value.
#[derive(Debug)]
pub enum Failure {
    Type(TypeError),
    /// The program does not terminate, so it was not evaluated.
    Divergent,
    /// The program has the type `ty`, and its evaluation failed.
    Runtime { ty: DataType, error: RuntimeError },
}

/// A `Failure` without its messages.
pub enum FailureKind {
    Type,
    Divergent,
    Runtime { ty: TypeModel, error: RuntimeErrorKind },
}

impl View for Failure {
    type V = FailureKind;

    open spec fn view(&self) -> FailureKind {
        match self {
            Failure::Type(_) => FailureKind::Type,
            Failure::Divergent => FailureKind::Divergent,
            Failure::Runtime { ty, error } => FailureKind::Runtime { ty: ty@, error: error@ },
        }
    }
}

/// Checks the program `e` and, unless it has no type or the type
/// `Divergent`, evaluates it. The evaluation context of a program that is
/// not evaluated stays as it was.
pub fn check_then_eval<H: HostFunction>(
    ast: &Ast,
    e: Expr,
    trs: &mut TypeResolveState<H>,
    ectx: &mut EvalContext<H>,
    fuel: usize,
) -> (r: Result<(DataType, RuntimeValue), Failure>)
    requires
        ast.wf(),
    ensures
        final(trs).subs() == old(trs).subs(),
        final(trs).hosts() == old(trs).hosts(),
        match type_of(ast@, old(trs).hosts(), old(trs).subs(), e) {
            None => r matches Err(f) && f@ == FailureKind::Type && *final(ectx) == *old(ectx),
            Some(TypeModel::Divergent) => r matches Err(f) && f@ == FailureKind::Divergent
                && *final(ectx) == *old(ectx),
            Some(t) => {
                let (o, s) = eval_spec(
                    fuel as nat,
                    ast@,
                    old(ectx).hosts(),
                    old(ectx).store(),
                    old(ectx).env(),
                    e,
                );
                &&& final(ectx).store() == s
                &&& final(ectx).env() == old(ectx).env()
                &&& final(ectx).hosts() == old(ectx).hosts()
                &&& match o {
                    Outcome::Value(v) => r matches Ok((d, x)) && d@ == t && x@ == v,
                    Outcome::Error(k) => r matches Err(f) && f@ == (FailureKind::Runtime {
                        ty: t,
                        error: k,
                    }),
                }
            },
        },
{
    let ty = match check_expr(ast, e, trs) {
        Ok(ty) => ty,
        Err(err) => {
            return Err(Failure::Type(err));
        },
    };
    if ty.is_divergent() {
        return Err(Failure::Divergent);
    }
    match eval_expr(ast, e, ectx, fuel) {
        Ok(v) => Ok((ty, v)),
        Err(error) => Err(Failure::Runtime { ty, error }),
    }
}

/// The built-ins of this library, by name.
pub open spec fn core_hosts() -> Map<Seq<char>, CoreOp> {
    insert_all(
        insert_all(insert_all(Map::empty(), core_binops(), 0), core_ifop(), 0),
        core_relops(),
        0,
    )
}

/// What the program `root` yields with the built-ins of this library, if it
/// may make `fuel` nested evaluations: its type and its value, or why it has
/// none.
pub open spec fn run_spec(nodes: Seq<Node>, root: Expr, fuel: nat) -> Result<
    (TypeModel, ValueModel),
    FailureKind,
> {
    match type_of(nodes, core_hosts(), Map::empty(), root) {
        None => Err(FailureKind::Type),
        Some(TypeModel::Divergent) => Err(FailureKind::Divergent),
        Some(t) => match eval_spec(
            fuel,
            nodes,
            core_hosts(),
            Seq::<ThunkModel>::empty(),
            Map::empty(),
            root,
        ).0 {
            Outcome::Value(v) => Ok((t, v)),
            Outcome::Error(k) => Err(FailureKind::Runtime { ty: t, error: k }),
        },
    }
}

/// A program that was parsed, and what it yields.
#[derive(Debug)]
pub struct Report {
    pub ast: Ast,
    pub root: Expr,
    /// The type and the value of the program, or why it has none.
    pub outcome: Result<(DataType, RuntimeValue), Failure>,
}

/// Whether `outcome` is what `spec` says.
pub open spec fn reports(
    spec: Result<(TypeModel, ValueModel), FailureKind>,
    outcome: Result<(DataType, RuntimeValue), Failure>,
) -> bool {
    match spec {
        Ok((t, v)) => outcome matches Ok((d, x)) && d@ == t && x@ == v,
        Err(k) => outcome matches Err(f) && f@ == k,
    }
}

/// Parses the source text, checks the program with the built-ins of this
/// library and, unless it has no type or the type `Divergent`, evaluates
/// it, making at most `fuel` nested evaluations.
pub fn run_source(input: &str, fuel: usize) -> (r: Result<Report, ParseError>)
    ensures
        match parse_spec(input.spec_bytes()) {
            Err(k) => r matches Err(e) && e@ == k,
            Ok(t) => {
                &&& r matches Ok(report)
                &&& report.ast.wf()
                &&& report.ast.contains(report.root)
                &&& tree_of(report.ast@, report.root) == t
                &&& reports(run_spec(report.ast@, report.root, fuel as nat), report.outcome)
            },
        },
{
    let (ast, root) = match parse_expr(input) {
        Ok(p) => p,
        Err(err) => {
            return Err(err);
        },
    };
    let hm = HostManager::new();
    let mut trs: TypeResolveState<CoreOp> = TypeResolveState::new();
    let mut ectx: EvalContext<CoreOp> = EvalContext::new();
    trs.add_hosts(hm.get_binops());
    ectx.add_hosts(hm.get_binops());
    trs.add_hosts(hm.get_ifop());
    ectx.add_hosts(hm.get_ifop());
    trs.add_hosts(hm.get_relops());
    ectx.add_hosts(hm.get_relops());
    let outcome = check_then_eval(&ast, root, &mut trs, &mut ectx, fuel);
    Ok(Report { ast, root, outcome })
}

} // verus!
