//! The lazy evaluator.
//!
//! Arguments are passed by need: an application binds each parameter to a
//! thunk, which holds the argument and the environment of the caller, and a
//! thunk is evaluated when its name is first used. The value is then kept in
//! the thunk, so that every later use finds it there.
//!
//! The thunks live in the evaluation context, and environments bind names
//! to their indices. `eval_spec` states what an evaluation yields and what
//! it does to the thunks; `eval_expr` computes it. Since a program of this
//! language may run forever, an evaluation is given a depth: the number of
//! nested evaluations that it may make. One that needs more ends with
//! `Exhausted`.

use crate::ast::{names_of, AbstractBody, Ast, Body, ConstExpr, Expr, ExprBody, Literal, Node};
use crate::bindings::{entries_of, insert_all};
use crate::env::{env_clone, env_get, env_insert, env_new, Env};
use crate::error::{RuntimeError, RuntimeErrorKind};
use crate::host::{HostFunction, HostTable};
use crate::value::{
    forced_of, HostStep, LazyValue, RuntimeValue, StepModel, Thunk, ThunkModel, ValueModel,
};
use slab::Slab;
use vstd::prelude::*;

verus! {

/// How an evaluation ends: with a value or with an error.
pub enum Outcome {
    Value(ValueModel),
    Error(RuntimeErrorKind),
}

/// The value of a constant.
pub open spec fn literal_value(c: Literal) -> ValueModel {
    match c {
        Literal::Int(v) => ValueModel::Int(v),
        Literal::Float(s) => ValueModel::Float(s),
        Literal::Bool(b) => ValueModel::Bool(b),
        Literal::Empty => ValueModel::Empty,
    }
}

/// How many of the arguments were not forced.
pub open spec fn count_none(forced: Seq<Option<ValueModel>>) -> nat
    decreases forced.len(),
{
    if forced.len() == 0 {
        0
    } else {
        count_none(forced.drop_last()) + (if forced.last() is None {
            1nat
        } else {
            0nat
        })
    }
}

/// Forcing an argument leaves fewer arguments that were not forced.
pub proof fn lemma_count_none_update(forced: Seq<Option<ValueModel>>, i: int, v: ValueModel)
    requires
        0 <= i < forced.len(),
        forced[i] is None,
    ensures
        count_none(forced.update(i, Some(v))) < count_none(forced),
    decreases forced.len(),
{
    let after = forced.update(i, Some(v));
    if i == forced.len() - 1 {
        assert(after.drop_last() =~= forced.drop_last());
    } else {
        assert(after.drop_last() =~= forced.drop_last().update(i, Some(v)));
        lemma_count_none_update(forced.drop_last(), i, v);
    }
}

/// A thunk for the expression `e`, to be evaluated in `env`.
pub open spec fn fresh_thunk(e: Expr, env: Map<Seq<char>, usize>) -> ThunkModel {
    ThunkModel { expr: e, env, outcome: None, active: false }
}

/// The thunks and the environment of a call: for each of `args[i..]`, a
/// new thunk that holds the argument and the environment of the caller, and
/// in the environment of the callee the parameter in its place bound to it.
pub open spec fn bind_args(
    store: Seq<ThunkModel>,
    caller: Map<Seq<char>, usize>,
    callee: Map<Seq<char>, usize>,
    formals: Seq<Seq<char>>,
    args: Seq<Expr>,
    i: int,
) -> (Seq<ThunkModel>, Map<Seq<char>, usize>)
    decreases args.len() - i,
{
    if i < 0 || i >= args.len() {
        (store, callee)
    } else {
        bind_args(
            store.push(fresh_thunk(args[i], caller)),
            caller,
            callee.insert(formals[i], store.len() as usize),
            formals,
            args,
            i + 1,
        )
    }
}

/// The thunk `t`, marked as being forced or not.
pub open spec fn set_active(t: ThunkModel, active: bool) -> ThunkModel {
    ThunkModel { expr: t.expr, env: t.env, outcome: t.outcome, active }
}

/// The thunk `t` with its value, and not being forced.
pub open spec fn set_outcome(t: ThunkModel, v: ValueModel) -> ThunkModel {
    ThunkModel { expr: t.expr, env: t.env, outcome: Some(v), active: false }
}

/// What the evaluation of `e` in the environment `env` yields, and the
/// thunks after it, if it may make `fuel` nested evaluations.
///
/// - A constant yields its value, an abstraction a closure over `env` or
///   the name of a host function.
/// - A name yields what its thunk yields when forced; a name that `env`
///   does not bind is a fatal error.
/// - An application evaluates its target. Arguments to a closure become
///   thunks, and the body is evaluated in the environment of the closure
///   with the parameters bound to them. A host function is asked what to do
///   until it answers with a result. Any other value is the result if there
///   are no arguments, and a fatal error otherwise.
pub open spec fn eval_spec<H: HostFunction>(
    fuel: nat,
    nodes: Seq<Node>,
    hosts: Map<Seq<char>, H>,
    store: Seq<ThunkModel>,
    env: Map<Seq<char>, usize>,
    e: Expr,
) -> (Outcome, Seq<ThunkModel>)
    decreases fuel, 0int, 0int,
{
    if fuel == 0 {
        (Outcome::Error(RuntimeErrorKind::Exhausted), store)
    } else if e.id >= nodes.len() {
        (Outcome::Error(RuntimeErrorKind::Fatal), store)
    } else {
        match nodes[e.id as int] {
            Node::Const(c) => (Outcome::Value(literal_value(c)), store),
            Node::Abstract { params, body: Body::Expr(_) } => (
                Outcome::Value(ValueModel::Function { decl: e, env }),
                store,
            ),
            Node::Abstract { params, body: Body::Host(h) } => (
                Outcome::Value(ValueModel::Host(h)),
                store,
            ),
            Node::Name(n) => if env.contains_key(n) {
                force_spec((fuel - 1) as nat, nodes, hosts, store, env[n])
            } else {
                (Outcome::Error(RuntimeErrorKind::Fatal), store)
            },
            Node::Apply { target, params } => {
                let (t, s1) = eval_spec((fuel - 1) as nat, nodes, hosts, store, env, target);
                match t {
                    Outcome::Error(k) => (Outcome::Error(k), s1),
                    Outcome::Value(ValueModel::Function { decl, env: captured }) => {
                        if decl.id < nodes.len() {
                            match nodes[decl.id as int] {
                                Node::Abstract { params: formals, body: Body::Expr(b) } => {
                                    if params.len() > formals.len() {
                                        (Outcome::Error(RuntimeErrorKind::Fatal), s1)
                                    } else {
                                        let (s2, callee) = bind_args(
                                            s1,
                                            env,
                                            captured,
                                            formals,
                                            params,
                                            0,
                                        );
                                        eval_spec((fuel - 1) as nat, nodes, hosts, s2, callee, b)
                                    }
                                },
                                _ => (Outcome::Error(RuntimeErrorKind::Fatal), s1),
                            }
                        } else {
                            (Outcome::Error(RuntimeErrorKind::Fatal), s1)
                        }
                    },
                    Outcome::Value(ValueModel::Host(name)) => {
                        if hosts.contains_key(name) {
                            host_spec(
                                (fuel - 1) as nat,
                                nodes,
                                hosts,
                                s1,
                                env,
                                hosts[name],
                                params,
                                Seq::new(params.len(), |i: int| None),
                            )
                        } else {
                            (Outcome::Error(RuntimeErrorKind::Fatal), s1)
                        }
                    },
                    Outcome::Value(v) => if params.len() == 0 {
                        (Outcome::Value(v), s1)
                    } else {
                        (Outcome::Error(RuntimeErrorKind::Fatal), s1)
                    },
                }
            },
            Node::Match => (Outcome::Error(RuntimeErrorKind::Fatal), store),
            Node::Never => (Outcome::Error(RuntimeErrorKind::Fatal), store),
        }
    }
}

/// What forcing the thunk `id` yields, and the thunks after it. A thunk
/// that has its value yields it, and nothing changes. Any other thunk is
/// marked as being forced while its expression is evaluated in its
/// environment, and keeps the value if there is one. To force a thunk that
/// is being forced, or one that does not exist, is a fatal error.
///
/// An evaluation drops no thunk (`lemma_eval_grows`), so the thunk is
/// there when its evaluation ends. The definition asks for it all the
/// same, to have no need of that law.
pub open spec fn force_spec<H: HostFunction>(
    fuel: nat,
    nodes: Seq<Node>,
    hosts: Map<Seq<char>, H>,
    store: Seq<ThunkModel>,
    id: usize,
) -> (Outcome, Seq<ThunkModel>)
    decreases fuel, 1int, 0int,
{
    if id >= store.len() {
        (Outcome::Error(RuntimeErrorKind::Fatal), store)
    } else {
        let t = store[id as int];
        match t.outcome {
            Some(v) => (Outcome::Value(v), store),
            None => if t.active {
                (Outcome::Error(RuntimeErrorKind::Fatal), store)
            } else {
                let (r, s1) = eval_spec(
                    fuel,
                    nodes,
                    hosts,
                    store.update(id as int, set_active(t, true)),
                    t.env,
                    t.expr,
                );
                if id >= s1.len() {
                    (Outcome::Error(RuntimeErrorKind::Fatal), s1)
                } else {
                    match r {
                        Outcome::Value(v) => (
                            Outcome::Value(v),
                            s1.update(id as int, set_outcome(s1[id as int], v)),
                        ),
                        Outcome::Error(k) => (
                            Outcome::Error(k),
                            s1.update(id as int, set_active(s1[id as int], false)),
                        ),
                    }
                }
            },
        }
    }
}

/// What a call of the host function `host` yields, given those of its
/// arguments that were forced so far: the host function is asked what to
/// do, and an argument that it names is evaluated in the environment of the
/// caller. To name an argument that was forced, or that does not exist, is
/// a fatal error.
pub open spec fn host_spec<H: HostFunction>(
    fuel: nat,
    nodes: Seq<Node>,
    hosts: Map<Seq<char>, H>,
    store: Seq<ThunkModel>,
    env: Map<Seq<char>, usize>,
    host: H,
    params: Seq<Expr>,
    forced: Seq<Option<ValueModel>>,
) -> (Outcome, Seq<ThunkModel>)
    decreases fuel, 2int, count_none(forced),
{
    match host.eval_spec(forced) {
        StepModel::Done(v) => (Outcome::Value(v), store),
        StepModel::Fail(k) => (Outcome::Error(k), store),
        StepModel::Force(i) => if i >= params.len() || i >= forced.len() || forced[i as int]
            is Some {
            (Outcome::Error(RuntimeErrorKind::Fatal), store)
        } else {
            let (r, s1) = eval_spec(fuel, nodes, hosts, store, env, params[i as int]);
            match r {
                Outcome::Error(k) => (Outcome::Error(k), s1),
                Outcome::Value(v) => {
                    proof {
                        lemma_count_none_update(forced, i as int, v);
                    }
                    host_spec(
                        fuel,
                        nodes,
                        hosts,
                        s1,
                        env,
                        host,
                        params,
                        forced.update(i as int, Some(v)),
                    )
                },
            }
        },
    }
}


/// Whether the thunks `after` are the thunks `before`, some of them filled
/// or marked in the meantime, and more thunks behind them: no thunk is
/// dropped, no thunk changes its expression or its environment, and a thunk
/// that has its value keeps it.
pub open spec fn grows_from(after: Seq<ThunkModel>, before: Seq<ThunkModel>) -> bool {
    &&& after.len() >= before.len()
    &&& forall|j: int|
        0 <= j < before.len() ==> (#[trigger] after[j]).expr == before[j].expr && after[j].env
            == before[j].env
    &&& forall|j: int|
        0 <= j < before.len() && before[j].outcome is Some ==> #[trigger] after[j] == before[j]
}

/// The thunks of a call hold the thunks from before the call.
pub proof fn lemma_bind_args_grows(
    store: Seq<ThunkModel>,
    caller: Map<Seq<char>, usize>,
    callee: Map<Seq<char>, usize>,
    formals: Seq<Seq<char>>,
    args: Seq<Expr>,
    i: int,
)
    ensures
        grows_from(bind_args(store, caller, callee, formals, args, i).0, store),
    decreases args.len() - i,
{
    if 0 <= i < args.len() {
        lemma_bind_args_grows(
            store.push(fresh_thunk(args[i], caller)),
            caller,
            callee.insert(formals[i], store.len() as usize),
            formals,
            args,
            i + 1,
        );
    }
}

/// An evaluation keeps the thunks it finds: see `grows_from`.
pub proof fn lemma_eval_grows<H: HostFunction>(
    fuel: nat,
    nodes: Seq<Node>,
    hosts: Map<Seq<char>, H>,
    store: Seq<ThunkModel>,
    env: Map<Seq<char>, usize>,
    e: Expr,
)
    ensures
        grows_from(eval_spec(fuel, nodes, hosts, store, env, e).1, store),
    decreases fuel, 0int, 0int,
{
    if fuel > 0 && e.id < nodes.len() {
        match nodes[e.id as int] {
            Node::Name(n) => {
                if env.contains_key(n) {
                    lemma_force_grows((fuel - 1) as nat, nodes, hosts, store, env[n]);
                }
            },
            Node::Apply { target, params } => {
                lemma_eval_grows((fuel - 1) as nat, nodes, hosts, store, env, target);
                let (t, s1) = eval_spec((fuel - 1) as nat, nodes, hosts, store, env, target);
                match t {
                    Outcome::Value(ValueModel::Function { decl, env: captured }) => {
                        if decl.id < nodes.len() {
                            match nodes[decl.id as int] {
                                Node::Abstract { params: formals, body: Body::Expr(b) } => {
                                    if params.len() <= formals.len() {
                                        lemma_bind_args_grows(s1, env, captured, formals, params, 0);
                                        let (s2, callee) = bind_args(
                                            s1,
                                            env,
                                            captured,
                                            formals,
                                            params,
                                            0,
                                        );
                                        lemma_eval_grows(
                                            (fuel - 1) as nat,
                                            nodes,
                                            hosts,
                                            s2,
                                            callee,
                                            b,
                                        );
                                    }
                                },
                                _ => {},
                            }
                        }
                    },
                    Outcome::Value(ValueModel::Host(name)) => {
                        if hosts.contains_key(name) {
                            lemma_host_grows(
                                (fuel - 1) as nat,
                                nodes,
                                hosts,
                                s1,
                                env,
                                hosts[name],
                                params,
                                Seq::new(params.len(), |i: int| None),
                            );
                        }
                    },
                    _ => {},
                }
            },
            _ => {},
        }
    }
}

/// Forcing a thunk keeps the thunks it finds: see `grows_from`.
pub proof fn lemma_force_grows<H: HostFunction>(
    fuel: nat,
    nodes: Seq<Node>,
    hosts: Map<Seq<char>, H>,
    store: Seq<ThunkModel>,
    id: usize,
)
    ensures
        grows_from(force_spec(fuel, nodes, hosts, store, id).1, store),
    decreases fuel, 1int, 0int,
{
    if id < store.len() {
        let t = store[id as int];
        if t.outcome is None && !t.active {
            let marked = store.update(id as int, set_active(t, true));
            lemma_eval_grows(fuel, nodes, hosts, marked, t.env, t.expr);
        }
    }
}

/// A call of a host function keeps the thunks it finds: see `grows_from`.
pub proof fn lemma_host_grows<H: HostFunction>(
    fuel: nat,
    nodes: Seq<Node>,
    hosts: Map<Seq<char>, H>,
    store: Seq<ThunkModel>,
    env: Map<Seq<char>, usize>,
    host: H,
    params: Seq<Expr>,
    forced: Seq<Option<ValueModel>>,
)
    ensures
        grows_from(host_spec(fuel, nodes, hosts, store, env, host, params, forced).1, store),
    decreases fuel, 2int, count_none(forced),
{
    match host.eval_spec(forced) {
        StepModel::Force(i) => {
            if i < params.len() && i < forced.len() && forced[i as int] is None {
                lemma_eval_grows(fuel, nodes, hosts, store, env, params[i as int]);
                let (r, s1) = eval_spec(fuel, nodes, hosts, store, env, params[i as int]);
                match r {
                    Outcome::Value(v) => {
                        lemma_count_none_update(forced, i as int, v);
                        lemma_host_grows(
                            fuel,
                            nodes,
                            hosts,
                            s1,
                            env,
                            host,
                            params,
                            forced.update(i as int, Some(v)),
                        );
                    },
                    _ => {},
                }
            }
        },
        _ => {},
    }
}

/// A thunk is evaluated at most once. If forcing the thunk `id` yields the
/// value `v`, then the thunk holds `v` afterwards; it holds `v` after any
/// evaluation that follows, whatever is evaluated and in whichever
/// environment; and to force it again then yields `v` and changes nothing,
/// whatever the depth allowed: its expression is not evaluated again.
pub proof fn lemma_thunk_forced_once<H: HostFunction>(
    fuel: nat,
    nodes: Seq<Node>,
    hosts: Map<Seq<char>, H>,
    store: Seq<ThunkModel>,
    id: usize,
    v: ValueModel,
    later_fuel: nat,
    later_env: Map<Seq<char>, usize>,
    later: Expr,
    again_fuel: nat,
)
    requires
        force_spec(fuel, nodes, hosts, store, id).0 == Outcome::Value(v),
    ensures
        ({
            let s1 = force_spec(fuel, nodes, hosts, store, id).1;
            let s2 = eval_spec(later_fuel, nodes, hosts, s1, later_env, later).1;
            &&& id < s1.len()
            &&& s1[id as int].outcome == Some(v)
            &&& id < s2.len()
            &&& s2[id as int] == s1[id as int]
            &&& force_spec(again_fuel, nodes, hosts, s2, id) == (Outcome::Value(v), s2)
        }),
{
    let s1 = force_spec(fuel, nodes, hosts, store, id).1;
    lemma_eval_grows(later_fuel, nodes, hosts, s1, later_env, later);
}

/// The depth allowed does not show in a result: an evaluation that does
/// not end with `Exhausted` ends in the same way, with the same thunks,
/// whenever it is allowed a greater depth.
pub proof fn lemma_eval_depth<H: HostFunction>(
    fuel: nat,
    more: nat,
    nodes: Seq<Node>,
    hosts: Map<Seq<char>, H>,
    store: Seq<ThunkModel>,
    env: Map<Seq<char>, usize>,
    e: Expr,
)
    requires
        fuel <= more,
        !(eval_spec(fuel, nodes, hosts, store, env, e).0 matches Outcome::Error(
            RuntimeErrorKind::Exhausted,
        )),
    ensures
        eval_spec(more, nodes, hosts, store, env, e) == eval_spec(
            fuel,
            nodes,
            hosts,
            store,
            env,
            e,
        ),
    decreases fuel, 0int, 0int,
{
    if fuel > 0 && e.id < nodes.len() {
        let f = (fuel - 1) as nat;
        let g = (more - 1) as nat;
        match nodes[e.id as int] {
            Node::Name(n) => {
                if env.contains_key(n) {
                    lemma_force_depth(f, g, nodes, hosts, store, env[n]);
                }
            },
            Node::Apply { target, params } => {
                lemma_eval_depth(f, g, nodes, hosts, store, env, target);
                let (t, s1) = eval_spec(f, nodes, hosts, store, env, target);
                match t {
                    Outcome::Value(ValueModel::Function { decl, env: captured }) => {
                        if decl.id < nodes.len() {
                            match nodes[decl.id as int] {
                                Node::Abstract { params: formals, body: Body::Expr(b) } => {
                                    if params.len() <= formals.len() {
                                        let (s2, callee) = bind_args(
                                            s1,
                                            env,
                                            captured,
                                            formals,
                                            params,
                                            0,
                                        );
                                        lemma_eval_depth(f, g, nodes, hosts, s2, callee, b);
                                    }
                                },
                                _ => {},
                            }
                        }
                    },
                    Outcome::Value(ValueModel::Host(name)) => {
                        if hosts.contains_key(name) {
                            lemma_host_depth(
                                f,
                                g,
                                nodes,
                                hosts,
                                s1,
                                env,
                                hosts[name],
                                params,
                                Seq::new(params.len(), |i: int| None),
                            );
                        }
                    },
                    _ => {},
                }
            },
            _ => {},
        }
    }
}

/// The depth allowed does not show in what forcing a thunk yields: see
/// `lemma_eval_depth`.
pub proof fn lemma_force_depth<H: HostFunction>(
    fuel: nat,
    more: nat,
    nodes: Seq<Node>,
    hosts: Map<Seq<char>, H>,
    store: Seq<ThunkModel>,
    id: usize,
)
    requires
        fuel <= more,
        !(force_spec(fuel, nodes, hosts, store, id).0 matches Outcome::Error(
            RuntimeErrorKind::Exhausted,
        )),
    ensures
        force_spec(more, nodes, hosts, store, id) == force_spec(fuel, nodes, hosts, store, id),
    decreases fuel, 1int, 0int,
{
    if id < store.len() {
        let t = store[id as int];
        if t.outcome is None && !t.active {
            let marked = store.update(id as int, set_active(t, true));
            lemma_eval_grows(fuel, nodes, hosts, marked, t.env, t.expr);
            lemma_eval_depth(fuel, more, nodes, hosts, marked, t.env, t.expr);
        }
    }
}

/// The depth allowed does not show in what a call of a host function
/// yields: see `lemma_eval_depth`.
pub proof fn lemma_host_depth<H: HostFunction>(
    fuel: nat,
    more: nat,
    nodes: Seq<Node>,
    hosts: Map<Seq<char>, H>,
    store: Seq<ThunkModel>,
    env: Map<Seq<char>, usize>,
    host: H,
    params: Seq<Expr>,
    forced: Seq<Option<ValueModel>>,
)
    requires
        fuel <= more,
        !(host_spec(fuel, nodes, hosts, store, env, host, params, forced).0 matches Outcome::Error(
            RuntimeErrorKind::Exhausted,
        )),
    ensures
        host_spec(more, nodes, hosts, store, env, host, params, forced) == host_spec(
            fuel,
            nodes,
            hosts,
            store,
            env,
            host,
            params,
            forced,
        ),
    decreases fuel, 2int, count_none(forced),
{
    match host.eval_spec(forced) {
        StepModel::Force(i) => {
            if i < params.len() && i < forced.len() && forced[i as int] is None {
                lemma_eval_depth(fuel, more, nodes, hosts, store, env, params[i as int]);
                let (r, s1) = eval_spec(fuel, nodes, hosts, store, env, params[i as int]);
                match r {
                    Outcome::Value(v) => {
                        lemma_count_none_update(forced, i as int, v);
                        lemma_host_depth(
                            fuel,
                            more,
                            nodes,
                            hosts,
                            s1,
                            env,
                            host,
                            params,
                            forced.update(i as int, Some(v)),
                        );
                    },
                    _ => {},
                }
            }
        },
        _ => {},
    }
}

/// `Slab` of `slab`: a store that hands out a key for each value put in.
/// What a slab holds is hidden from the verifier: contracts speak of
/// `slab_entries`.
#[verifier::external_type_specification]
#[verifier::external_body]
#[verifier::reject_recursive_types(T)]
pub struct ExSlab<T>(Slab<T>);

/// The entries of a slab of lazy values, each under its key.
pub uninterp spec fn slab_entries(s: Slab<LazyValue>) -> Map<usize, LazyValue>;

/// The map without entries.
pub open spec fn no_entries() -> Map<usize, LazyValue> {
    Map::empty()
}

/// `Slab::new` of `slab`: a slab without entries.
#[verifier::external_body]
fn slab_new() -> (r: Slab<LazyValue>)
    ensures
        slab_entries(r) == no_entries(),
{
    Slab::new()
}

/// `Slab::insert` of `slab`: the value is stored under a key that was
/// vacant, which is returned; the other entries stay.
#[verifier::external_body]
fn slab_insert(s: &mut Slab<LazyValue>, v: LazyValue) -> (key: usize)
    ensures
        !slab_entries(*old(s)).contains_key(key),
        slab_entries(*final(s)) == slab_entries(*old(s)).insert(key, v),
{
    s.insert(v)
}

/// `Slab::get` of `slab`: the value stored under the key, or `None` where
/// the key is vacant.
#[verifier::external_body]
fn slab_get(s: &Slab<LazyValue>, key: usize) -> (r: Option<LazyValue>)
    ensures
        r == (if slab_entries(*s).contains_key(key) {
            Some(slab_entries(*s)[key])
        } else {
            None
        }),
{
    s.get(key).copied()
}

/// `Slab::try_remove` of `slab`: the value stored under the key is taken
/// out and returned, and the key is vacant afterwards; where it was vacant
/// before, nothing changes and `None` is returned.
#[verifier::external_body]
fn slab_try_remove(s: &mut Slab<LazyValue>, key: usize) -> (r: Option<LazyValue>)
    ensures
        slab_entries(*final(s)) == slab_entries(*old(s)).remove(key),
        r == (if slab_entries(*old(s)).contains_key(key) {
            Some(slab_entries(*old(s))[key])
        } else {
            None
        }),
{
    s.try_remove(key)
}

/// The key of a lazy value that was put aside in an evaluation context.
#[derive(Clone, Copy, Debug, PartialEq, Eq, Structural)]
pub struct SlotRef {
    pub id: usize,
}

/// The slots that are to be emptied when the evaluation in course ends.
#[derive(Debug)]
pub struct SlotReleasePool {
    pool: Vec<SlotRef>,
}

impl View for SlotReleasePool {
    type V = Seq<SlotRef>;

    closed spec fn view(&self) -> Seq<SlotRef> {
        self.pool@
    }
}

/// The entries `m` without the keys `pool[i..]`.
pub open spec fn without_slots(m: Map<usize, LazyValue>, pool: Seq<SlotRef>, i: int) -> Map<
    usize,
    LazyValue,
>
    decreases pool.len() - i,
{
    if i < 0 || i >= pool.len() {
        m
    } else {
        without_slots(m.remove(pool[i].id), pool, i + 1)
    }
}

impl SlotReleasePool {
    /// A pool without slots.
    pub fn new() -> (r: SlotReleasePool)
        ensures
            r@ == Seq::<SlotRef>::empty(),
    {
        SlotReleasePool { pool: Vec::new() }
    }

    /// Notes the slot `r` for release.
    pub fn put(&mut self, r: SlotRef)
        ensures
            final(self)@ == old(self)@.push(r),
    {
        self.pool.push(r);
    }

    /// Empties the slots that were noted, and forgets them.
    pub fn release(&mut self, slots: &mut Slab<LazyValue>)
        ensures
            final(self)@ == Seq::<SlotRef>::empty(),
            slab_entries(*final(slots)) == without_slots(slab_entries(*old(slots)), old(self)@, 0),
    {
        let mut i: usize = 0;
        while i < self.pool.len()
            invariant
                i <= self.pool@.len(),
                self.pool@ == old(self).pool@,
                without_slots(slab_entries(*old(slots)), old(self)@, 0) == without_slots(
                    slab_entries(*slots),
                    old(self)@,
                    i as int,
                ),
            decreases self.pool@.len() - i,
        {
            let _ = slab_try_remove(slots, self.pool[i].id);
            i = i + 1;
        }
        self.pool.clear();
    }
}

/// The state of an evaluator: the environment in force, the host functions,
/// the thunks, and the slots for lazy values that were put aside.
#[derive(Debug)]
pub struct EvalContext<H: HostFunction> {
    values: Env,
    host_functions: HostTable<H>,
    thunks: Vec<Thunk>,
    slots: Slab<LazyValue>,
    release_pool: SlotReleasePool,
}

/// The models of a sequence of thunks.
pub open spec fn thunks_of(v: Seq<Thunk>) -> Seq<ThunkModel> {
    Seq::new(v.len(), |i: int| v[i]@)
}

fn fatal(msg: &str) -> (r: Result<RuntimeValue, RuntimeError>)
    ensures
        r matches Err(e) && e@ == RuntimeErrorKind::Fatal,
{
    Err(RuntimeError::Fatal(msg.to_string()))
}

/// The value of a constant.
fn const_value(c: &ConstExpr) -> (r: RuntimeValue)
    ensures
        r@ == literal_value(c@),
{
    match c {
        ConstExpr::Bool(v) => RuntimeValue::Bool(*v),
        ConstExpr::Int(v) => RuntimeValue::Int(*v),
        ConstExpr::Float(v) => RuntimeValue::Float(v.clone()),
        ConstExpr::Empty => RuntimeValue::Empty,
    }
}

impl<H: HostFunction> EvalContext<H> {
    /// The environment in force.
    pub closed spec fn env(&self) -> Map<Seq<char>, usize> {
        self.values@
    }

    /// The host functions, by name.
    pub closed spec fn hosts(&self) -> Map<Seq<char>, H> {
        self.host_functions@
    }

    /// The thunks.
    pub closed spec fn store(&self) -> Seq<ThunkModel> {
        thunks_of(self.thunks@)
    }

    /// The lazy values that were put aside, each under its key.
    pub closed spec fn slots(&self) -> Map<usize, LazyValue> {
        slab_entries(self.slots)
    }

    /// The slots that are noted for release.
    pub closed spec fn pool(&self) -> Seq<SlotRef> {
        self.release_pool@
    }

    /// A context with the empty environment, no host functions and no
    /// thunks.
    pub fn new() -> (r: EvalContext<H>)
        ensures
            r.env() == Map::<Seq<char>, usize>::empty(),
            r.hosts() == Map::<Seq<char>, H>::empty(),
            r.store() == Seq::<ThunkModel>::empty(),
            r.slots() == Map::<usize, LazyValue>::empty(),
            r.pool() == Seq::<SlotRef>::empty(),
    {
        let r = EvalContext {
            values: env_new(),
            host_functions: HostTable::new(),
            thunks: Vec::new(),
            slots: slab_new(),
            release_pool: SlotReleasePool::new(),
        };
        r
    }

    /// The number of thunks.
    pub fn thunk_count(&self) -> (n: usize)
        ensures
            n == self.store().len(),
    {
        self.thunks.len()
    }

    /// Adds host functions under their names. A later entry replaces an
    /// earlier one of the same name.
    pub fn add_hosts(&mut self, host_functions: Vec<(String, H)>)
        ensures
            final(self).hosts() == insert_all(old(self).hosts(), entries_of(host_functions@), 0),
            final(self).env() == old(self).env(),
            final(self).store() == old(self).store(),
            final(self).slots() == old(self).slots(),
            final(self).pool() == old(self).pool(),
    {
        self.host_functions.add_hosts(host_functions);
    }

    /// Puts a lazy value aside and returns the key under which it is kept.
    pub fn write_slot(&mut self, v: LazyValue) -> (r: SlotRef)
        ensures
            !old(self).slots().contains_key(r.id),
            final(self).slots() == old(self).slots().insert(r.id, v),
            final(self).hosts() == old(self).hosts(),
            final(self).env() == old(self).env(),
            final(self).store() == old(self).store(),
            final(self).pool() == old(self).pool(),
    {
        SlotRef { id: slab_insert(&mut self.slots, v) }
    }

    /// Notes the slot `r` for release at the end of the evaluation in
    /// course.
    pub fn release_slot(&mut self, r: SlotRef)
        ensures
            final(self).pool() == old(self).pool().push(r),
            final(self).slots() == old(self).slots(),
            final(self).hosts() == old(self).hosts(),
            final(self).env() == old(self).env(),
            final(self).store() == old(self).store(),
    {
        self.release_pool.put(r);
    }

    /// The lazy value that is kept under the key `r`, if there is one.
    pub fn read_slot(&self, r: SlotRef) -> (v: Option<LazyValue>)
        ensures
            v == (if self.slots().contains_key(r.id) {
                Some(self.slots()[r.id])
            } else {
                None
            }),
    {
        slab_get(&self.slots, r.id)
    }
}

impl<H: HostFunction> Default for EvalContext<H> {
    fn default() -> (r: EvalContext<H>)
        ensures
            r.env() == Map::<Seq<char>, usize>::empty(),
            r.hosts() == Map::<Seq<char>, H>::empty(),
            r.store() == Seq::<ThunkModel>::empty(),
    {
        EvalContext::new()
    }
}

/// Whether the context `after` is `before` but for its thunks.
pub open spec fn same_but_thunks<H: HostFunction>(
    after: EvalContext<H>,
    before: EvalContext<H>,
) -> bool {
    &&& after.env() == before.env()
    &&& after.hosts() == before.hosts()
    &&& after.slots() == before.slots()
    &&& after.pool() == before.pool()
    &&& after.store().len() >= before.store().len()
}

/// Whether `r` and the thunks of `ctx` are what the evaluation `spec`
/// yields.
pub open spec fn yields<H: HostFunction>(
    spec: (Outcome, Seq<ThunkModel>),
    r: Result<RuntimeValue, RuntimeError>,
    ctx: EvalContext<H>,
) -> bool {
    &&& ctx.store() == spec.1
    &&& match spec.0 {
        Outcome::Value(v) => r matches Ok(x) && x@ == v,
        Outcome::Error(k) => r matches Err(e) && e@ == k,
    }
}

impl LazyValue {
    /// Forces the thunk: evaluates its expression in its environment,
    /// unless it has its value already, and returns the value.
    pub fn eval<H: HostFunction>(&self, ast: &Ast, ctx: &mut EvalContext<H>, fuel: usize) -> (r:
        Result<RuntimeValue, RuntimeError>)
        requires
            ast.wf(),
        ensures
            same_but_thunks(*final(ctx), *old(ctx)),
            yields(
                force_spec(fuel as nat, ast@, old(ctx).hosts(), old(ctx).store(), self.id),
                r,
                *final(ctx),
            ),
        decreases fuel, 1int, 0int,
    {
        let id = self.id;
        if id >= ctx.thunks.len() {
            return fatal("bug: thunk not found");
        }
        match &ctx.thunks[id].outcome {
            Some(v) => {
                return Ok(v.duplicate());
            },
            None => {},
        }
        if ctx.thunks[id].active {
            return fatal("bug: a lazy value is forced while it is being forced");
        }
        let ghost before = ctx.store();
        let expr = ctx.thunks[id].expr;
        let mut new_values = env_clone(&ctx.thunks[id].context_values);
        ctx.thunks[id].active = true;
        proof {
            assert(ctx.store() =~= before.update(id as int, set_active(before[id as int], true)));
        }
        std::mem::swap(&mut new_values, &mut ctx.values);
        let ret = _do_eval_expr(ast, expr, ctx, fuel);
        std::mem::swap(&mut new_values, &mut ctx.values);
        let ghost mid = ctx.store();
        match ret {
            Ok(v) => {
                ctx.thunks[id].outcome = Some(v.duplicate());
                ctx.thunks[id].active = false;
                proof {
                    assert(ctx.store() =~= mid.update(id as int, set_outcome(mid[id as int], v@)));
                }
                Ok(v)
            },
            Err(e) => {
                ctx.thunks[id].active = false;
                proof {
                    assert(ctx.store() =~= mid.update(
                        id as int,
                        set_active(mid[id as int], false),
                    ));
                }
                Err(e)
            },
        }
    }
}

/// Calls the host function `name` on the arguments `params`.
fn call_host<H: HostFunction>(
    ast: &Ast,
    name: &String,
    params: &Vec<Expr>,
    ctx: &mut EvalContext<H>,
    fuel: usize,
) -> (r: Result<RuntimeValue, RuntimeError>)
    requires
        ast.wf(),
        old(ctx).hosts().contains_key(name@),
    ensures
        same_but_thunks(*final(ctx), *old(ctx)),
        yields(
            host_spec(
                fuel as nat,
                ast@,
                old(ctx).hosts(),
                old(ctx).store(),
                old(ctx).env(),
                old(ctx).hosts()[name@],
                params@,
                Seq::new(params@.len(), |i: int| None),
            ),
            r,
            *final(ctx),
        ),
    decreases fuel, 2int, params@.len() + 1,
{
    let ghost nodes = ast@;
    let ghost hosts = ctx.hosts();
    let ghost env = ctx.env();
    let ghost host = hosts[name@];
    let ghost start = Seq::new(params@.len(), |i: int| None::<ValueModel>);
    let ghost goal = host_spec(fuel as nat, nodes, hosts, ctx.store(), env, host, params@, start);
    let mut forced: Vec<Option<RuntimeValue>> = Vec::new();
    let mut k: usize = 0;
    while k < params.len()
        invariant
            k <= params@.len(),
            forced@.len() == k,
            forall|j: int| 0 <= j < k ==> forced@[j] is None,
        decreases params@.len() - k,
    {
        forced.push(None);
        k = k + 1;
    }
    proof {
        assert(forced_of(forced@) =~= start);
    }
    loop
        invariant
            ast.wf(),
            nodes == ast@,
            hosts == old(ctx).hosts(),
            env == old(ctx).env(),
            hosts.contains_key(name@),
            host == hosts[name@],
            forced@.len() == params@.len(),
            same_but_thunks(*ctx, *old(ctx)),
            goal == host_spec(
                fuel as nat,
                nodes,
                hosts,
                old(ctx).store(),
                env,
                host,
                params@,
                Seq::new(params@.len(), |i: int| None),
            ),
            goal == host_spec(
                fuel as nat,
                nodes,
                hosts,
                ctx.store(),
                env,
                host,
                params@,
                forced_of(forced@),
            ),
        decreases count_none(forced_of(forced@)),
    {
        let step = match ctx.host_functions.get(name) {
            Some(h) => h.eval(forced.as_slice()),
            None => {
                return fatal("bug: host function not found");
            },
        };
        match step {
            HostStep::Done(v) => {
                return Ok(v);
            },
            HostStep::Fail(e) => {
                return Err(e);
            },
            HostStep::Force(i) => {
                if i >= params.len() || forced[i].is_some() {
                    return fatal("bug: a host function asked for an argument it cannot have");
                }
                let ghost before = forced_of(forced@);
                let v = match _do_eval_expr(ast, params[i], ctx, fuel) {
                    Ok(v) => v,
                    Err(e) => {
                        return Err(e);
                    },
                };
                let ghost value = v@;
                forced.set(i, Some(v));
                proof {
                    assert(forced_of(forced@) =~= before.update(i as int, Some(value)));
                    lemma_count_none_update(before, i as int, value);
                }
            },
        }
    }
}

/// Calls a closure on the arguments `params`.
fn call_closure<H: HostFunction>(
    ast: &Ast,
    decl: Expr,
    captured: Env,
    params: &Vec<Expr>,
    ctx: &mut EvalContext<H>,
    fuel: usize,
) -> (r: Result<RuntimeValue, RuntimeError>)
    requires
        ast.wf(),
    ensures
        same_but_thunks(*final(ctx), *old(ctx)),
        yields(
            if decl.id < ast@.len() {
                match ast@[decl.id as int] {
                    Node::Abstract { params: formals, body: Body::Expr(b) } => {
                        if params@.len() > formals.len() {
                            (Outcome::Error(RuntimeErrorKind::Fatal), old(ctx).store())
                        } else {
                            let (s2, callee) = bind_args(
                                old(ctx).store(),
                                old(ctx).env(),
                                captured@,
                                formals,
                                params@,
                                0,
                            );
                            eval_spec(fuel as nat, ast@, old(ctx).hosts(), s2, callee, b)
                        }
                    },
                    _ => (Outcome::Error(RuntimeErrorKind::Fatal), old(ctx).store()),
                }
            } else {
                (Outcome::Error(RuntimeErrorKind::Fatal), old(ctx).store())
            },
            r,
            *final(ctx),
        ),
    decreases fuel, 3int, 0int,
{
    match ast.get(decl) {
        Some(ExprBody::Abstract { params: formals, body: AbstractBody::Expr(b) }) => {
            if params.len() > formals.len() {
                return fatal("bug: more arguments than parameters");
            }
            let mut callee = captured;
            let mut i: usize = 0;
            while i < params.len()
                invariant
                    i <= params@.len(),
                    params@.len() <= formals@.len(),
                    ctx.env() == old(ctx).env(),
                    ctx.hosts() == old(ctx).hosts(),
                    ctx.slots() == old(ctx).slots(),
                    ctx.pool() == old(ctx).pool(),
                    ctx.store().len() >= old(ctx).store().len(),
                    bind_args(
                        old(ctx).store(),
                        old(ctx).env(),
                        captured@,
                        names_of(formals@),
                        params@,
                        0,
                    ) == bind_args(
                        ctx.store(),
                        old(ctx).env(),
                        callee@,
                        names_of(formals@),
                        params@,
                        i as int,
                    ),
                decreases params@.len() - i,
            {
                let ghost before = ctx.store();
                let id = ctx.thunks.len();
                ctx.thunks.push(
                    Thunk {
                        expr: params[i],
                        context_values: env_clone(&ctx.values),
                        outcome: None,
                        active: false,
                    },
                );
                proof {
                    assert(ctx.store() =~= before.push(fresh_thunk(params@[i as int], ctx.env())));
                }
                callee = env_insert(&callee, formals[i].clone(), id);
                i = i + 1;
            }
            std::mem::swap(&mut callee, &mut ctx.values);
            let ret = _do_eval_expr(ast, *b, ctx, fuel);
            std::mem::swap(&mut callee, &mut ctx.values);
            ret
        },
        _ => fatal("bug: a closure without a body"),
    }
}

/// Evaluates `e` in the environment of `ctx`.
fn _do_eval_expr<H: HostFunction>(ast: &Ast, e: Expr, ctx: &mut EvalContext<H>, fuel: usize) -> (r:
    Result<RuntimeValue, RuntimeError>)
    requires
        ast.wf(),
    ensures
        same_but_thunks(*final(ctx), *old(ctx)),
        yields(
            eval_spec(fuel as nat, ast@, old(ctx).hosts(), old(ctx).store(), old(ctx).env(), e),
            r,
            *final(ctx),
        ),
    decreases fuel, 0int, 0int,
{
    if fuel == 0 {
        return Err(RuntimeError::Exhausted);
    }
    let node = match ast.get(e) {
        Some(node) => node,
        None => {
            return fatal("bug: expression not found");
        },
    };
    match node {
        ExprBody::Abstract { params, body } => match body {
            AbstractBody::Expr(_) => Ok(
                RuntimeValue::Function { decl: e, context_values: env_clone(&ctx.values) },
            ),
            AbstractBody::Host(name) => Ok(RuntimeValue::Host(name.clone())),
        },
        ExprBody::Apply { target, params } => {
            let target = match _do_eval_expr(ast, *target, ctx, fuel - 1) {
                Ok(v) => v,
                Err(err) => {
                    return Err(err);
                },
            };
            match target {
                RuntimeValue::Function { decl, context_values } => call_closure(
                    ast,
                    decl,
                    context_values,
                    params,
                    ctx,
                    fuel - 1,
                ),
                RuntimeValue::Host(name) => {
                    if ctx.host_functions.get(&name).is_none() {
                        return fatal("bug: host function not found");
                    }
                    call_host(ast, &name, params, ctx, fuel - 1)
                },
                other => {
                    if params.len() == 0 {
                        Ok(other)
                    } else {
                        fatal("bug: type mismatch")
                    }
                },
            }
        },
        ExprBody::Const(c) => Ok(const_value(c)),
        ExprBody::Match { .. } => fatal("match is not implemented"),
        ExprBody::Name(name) => match env_get(&ctx.values, name) {
            Some(id) => {
                let lv = LazyValue { id };
                lv.eval(ast, ctx, fuel - 1)
            },
            None => fatal("bug: name not found"),
        },
        ExprBody::Never => fatal("bug: never expression in a program"),
    }
}

/// Evaluates the program `e`, making at most `fuel` nested evaluations,
/// and then empties the slots that were noted for release.
///
/// The errors of a program that the checker would have rejected are
/// `Fatal`: a name that is not bound, arguments to a value that is no
/// function, a thunk that is forced while it is being forced.
pub fn eval_expr<H: HostFunction>(ast: &Ast, e: Expr, ctx: &mut EvalContext<H>, fuel: usize) -> (r:
    Result<RuntimeValue, RuntimeError>)
    requires
        ast.wf(),
    ensures
        final(ctx).env() == old(ctx).env(),
        final(ctx).hosts() == old(ctx).hosts(),
        grows_from(final(ctx).store(), old(ctx).store()),
        final(ctx).pool() == Seq::<SlotRef>::empty(),
        final(ctx).slots() == without_slots(old(ctx).slots(), old(ctx).pool(), 0),
        yields(
            eval_spec(fuel as nat, ast@, old(ctx).hosts(), old(ctx).store(), old(ctx).env(), e),
            r,
            *final(ctx),
        ),
{
    proof {
        lemma_eval_grows(fuel as nat, ast@, ctx.hosts(), ctx.store(), ctx.env(), e);
    }
    let ret = _do_eval_expr(ast, e, ctx, fuel);
    ctx.release_pool.release(&mut ctx.slots);
    ret
}

} // verus!
