//! The type and termination checker.
//!
//! The checker evaluates a program symbolically. It keeps a substitution,
//! which says what expression each name stands for, and the set of the
//! expressions that it is in the middle of checking. An expression that is
//! met again while it is being checked is `Divergent`: this is how a program
//! that would not terminate is found. The set goes by the identity of
//! expressions, not by their shape.
//!
//! `check_spec` states the rules; `check_expr` computes what they say.

use crate::ast::{names_of, Ast, Body, Expr, ExprBody, AbstractBody, ConstExpr, Literal, Node};
use crate::bindings::{entries_of, insert_all, map_of};
use crate::builtin::ValueType;
use crate::datatype::{types_of, DataType, Substitution, TypeModel};
use crate::error::TypeError;
use crate::host::{HostFunction, HostTable};
use vstd::prelude::*;

verus! {

/// What a name stands for, once the names it stands for are followed.
#[derive(Clone, Copy, Debug, PartialEq, Eq, Structural)]
pub enum Resolution {
    /// The name, or one that it leads to, is not bound.
    Unbound,
    /// The name leads back to itself.
    Cycle,
    /// The name leads to this expression, which is no name.
    To(Expr),
}

/// Whether the expression `e` of `nodes` is a name.
pub open spec fn is_name(nodes: Seq<Node>, e: Expr) -> bool {
    e.id < nodes.len() && nodes[e.id as int] is Name
}

/// Follows `name` through the substitution until it leads to an expression
/// that is no name. `path` holds the names met on the way.
pub open spec fn resolve_from(
    nodes: Seq<Node>,
    subs: Map<Seq<char>, Expr>,
    name: Seq<char>,
    path: Set<Seq<char>>,
) -> Resolution
    decreases subs.dom().difference(path).len(),
    when subs.dom().finite()
{
    if path.contains(name) {
        Resolution::Cycle
    } else if !subs.contains_key(name) {
        Resolution::Unbound
    } else if is_name(nodes, subs[name]) {
        proof {
            lemma_path_grows(subs.dom(), path, name);
        }
        resolve_from(nodes, subs, nodes[subs[name].id as int]->Name_0, path.insert(name))
    } else {
        Resolution::To(subs[name])
    }
}

/// A name of a finite set that joins a path leaves fewer names off the path.
pub proof fn lemma_path_grows(dom: Set<Seq<char>>, path: Set<Seq<char>>, name: Seq<char>)
    requires
        dom.finite(),
        dom.contains(name),
        !path.contains(name),
    ensures
        dom.difference(path.insert(name)).len() < dom.difference(path).len(),
{
    let before = dom.difference(path);
    assert(dom.difference(path.insert(name)) =~= before.remove(name));
}

/// What `name` stands for.
pub open spec fn resolve_spec(nodes: Seq<Node>, subs: Map<Seq<char>, Expr>, name: Seq<char>) -> Resolution {
    resolve_from(nodes, subs, name, Set::empty())
}

/// How many of the first `n` expressions are not in `reach`.
pub open spec fn unvisited(n: nat, reach: Set<int>) -> nat
    decreases n,
{
    if n == 0 {
        0
    } else {
        unvisited((n - 1) as nat, reach) + (if reach.contains(n - 1) {
            0nat
        } else {
            1nat
        })
    }
}

/// An expression that joins `reach` leaves fewer expressions out of it.
pub proof fn lemma_unvisited_insert(n: nat, reach: Set<int>, e: int)
    ensures
        0 <= e < n && !reach.contains(e) ==> unvisited(n, reach.insert(e)) < unvisited(n, reach),
        unvisited(n, reach.insert(e)) <= unvisited(n, reach),
    decreases n,
{
    if n > 0 {
        lemma_unvisited_insert((n - 1) as nat, reach, e);
    }
}

/// The type of a constant.
pub open spec fn literal_type(c: Literal) -> TypeModel {
    match c {
        Literal::Int(_) => TypeModel::Value(ValueType::Int),
        Literal::Float(_) => TypeModel::Value(ValueType::Float),
        Literal::Bool(_) => TypeModel::Value(ValueType::Bool),
        Literal::Empty => TypeModel::Empty,
    }
}

/// The parameters of a function, each with the argument in its place.
pub open spec fn zip_params(formals: Seq<Seq<char>>, args: Seq<Expr>) -> Seq<(Seq<char>, Expr)> {
    Seq::new(formals.len(), |i: int| (formals[i], args[i]))
}

/// The type of the expression `e`, or `None` where it has none.
///
/// `reach` holds the expressions that are being checked. An expression in
/// `reach` is `Divergent`. Any other expression joins `reach` while its
/// parts are checked:
/// - a constant has its own type;
/// - a name has the type of what it stands for, and is `Divergent` if it
///   leads back to itself or to `Never`;
/// - an abstraction is a function type that carries the substitution;
/// - an application is divergent if its target is, and has the type of its
///   target if that is no function and there are no arguments; to apply
///   arguments to what is no function is an error; if the target is a function,
///   the arguments are checked, and then a host function decides by its
///   typing rule, while the body of any other function is checked under the
///   substitution that the function carries, with each parameter bound to
///   its argument.
pub open spec fn check_spec<H: HostFunction>(
    nodes: Seq<Node>,
    hosts: Map<Seq<char>, H>,
    subs: Map<Seq<char>, Expr>,
    reach: Set<int>,
    e: Expr,
) -> Option<TypeModel>
    decreases unvisited(nodes.len(), reach), 0int, 0int,
{
    if e.id >= nodes.len() {
        None
    } else if reach.contains(e.id as int) {
        Some(TypeModel::Divergent)
    } else {
        proof {
            lemma_unvisited_insert(nodes.len(), reach, e.id as int);
        }
        check_node(nodes, hosts, subs, reach.insert(e.id as int), e)
    }
}

/// The type of the expression `e`, which is in `inner`, by its form.
pub open spec fn check_node<H: HostFunction>(
    nodes: Seq<Node>,
    hosts: Map<Seq<char>, H>,
    subs: Map<Seq<char>, Expr>,
    inner: Set<int>,
    e: Expr,
) -> Option<TypeModel>
    decreases unvisited(nodes.len(), inner), 2int, 0int,
{
    if e.id >= nodes.len() {
        None
    } else {
        match nodes[e.id as int] {
            Node::Const(c) => Some(literal_type(c)),
            Node::Name(name) => match resolve_spec(nodes, subs, name) {
                Resolution::Unbound => None,
                Resolution::Cycle => Some(TypeModel::Divergent),
                Resolution::To(x) => if x.id < nodes.len() && nodes[x.id as int] is Never {
                    Some(TypeModel::Divergent)
                } else {
                    check_spec(nodes, hosts, subs, inner, x)
                },
            },
            Node::Abstract { params, body } => Some(
                TypeModel::FunctionDecl { params, decl_expr: e, param_set: subs },
            ),
            Node::Apply { target, params } => {
                let aim = if is_name(nodes, target) {
                    resolve_spec(nodes, subs, nodes[target.id as int]->Name_0)
                } else {
                    Resolution::To(target)
                };
                match aim {
                    Resolution::Unbound => None,
                    Resolution::Cycle => Some(TypeModel::Divergent),
                    Resolution::To(x) => if is_name(nodes, target) && x.id < nodes.len()
                        && nodes[x.id as int] is Never {
                        Some(TypeModel::Divergent)
                    } else {
                        match check_spec(nodes, hosts, subs, inner, x) {
                            None => None,
                            Some(TypeModel::FunctionDecl { params: formals, decl_expr, param_set }) => {
                                match check_args(nodes, hosts, subs, inner, params, 0) {
                                    None => None,
                                    Some(arg_types) => if decl_expr.id < nodes.len() {
                                        match nodes[decl_expr.id as int] {
                                            Node::Abstract { params: _, body: Body::Host(h) } => {
                                                if hosts.contains_key(h) {
                                                    hosts[h].typeck_spec(nodes, arg_types)
                                                } else {
                                                    None
                                                }
                                            },
                                            Node::Abstract { params: _, body: Body::Expr(b) } => {
                                                if formals.len() != params.len() {
                                                    None
                                                } else {
                                                    check_spec(
                                                        nodes,
                                                        hosts,
                                                        insert_all(param_set, zip_params(formals, params), 0),
                                                        inner,
                                                        b,
                                                    )
                                                }
                                            },
                                            _ => None,
                                        }
                                    } else {
                                        None
                                    },
                                }
                            },
                            Some(TypeModel::Divergent) => Some(TypeModel::Divergent),
                            Some(t) => if params.len() != 0 {
                                None
                            } else {
                                Some(t)
                            },
                        }
                    },
                }
            },
            Node::Match => None,
            Node::Never => None,
        }
    }
}

/// The types of the expressions `params[i..]`, or `None` where one of them
/// has none.
pub open spec fn check_args<H: HostFunction>(
    nodes: Seq<Node>,
    hosts: Map<Seq<char>, H>,
    subs: Map<Seq<char>, Expr>,
    reach: Set<int>,
    params: Seq<Expr>,
    i: int,
) -> Option<Seq<TypeModel>>
    decreases unvisited(nodes.len(), reach), 1int, params.len() - i,
{
    if i < 0 || i >= params.len() {
        Some(Seq::empty())
    } else {
        match check_spec(nodes, hosts, subs, reach, params[i]) {
            None => None,
            Some(first) => match check_args(nodes, hosts, subs, reach, params, i + 1) {
                None => None,
                Some(rest) => Some(seq![first] + rest),
            },
        }
    }
}

/// The type of the program `e`: that of `e` under the substitution given,
/// with no expression being checked.
pub open spec fn type_of<H: HostFunction>(
    nodes: Seq<Node>,
    hosts: Map<Seq<char>, H>,
    subs: Map<Seq<char>, Expr>,
    e: Expr,
) -> Option<TypeModel> {
    check_spec(nodes, hosts, subs, Set::empty(), e)
}


/// The state of a checker: the substitution, the host functions, and the
/// expressions that are being checked.
#[derive(Debug)]
pub struct TypeResolveState<H: HostFunction> {
    subs: Substitution,
    host_functions: HostTable<H>,
    expr_reach: Vec<bool>,
}

/// The mark of an expression that is being checked, to be handed back when
/// its check ends.
pub struct ExprReachGuard {
    me: Expr,
}

/// Whether `path` holds the name `k`.
fn holds_name(path: &Vec<String>, k: &String) -> (r: bool)
    ensures
        r == names_of(path@).contains(k@),
{
    let mut i: usize = 0;
    while i < path.len()
        invariant
            i <= path@.len(),
            forall|j: int| 0 <= j < i ==> names_of(path@)[j] != k@,
        decreases path@.len() - i,
    {
        if path[i].eq(k) {
            assert(names_of(path@)[i as int] == k@);
            return true;
        }
        i = i + 1;
    }
    false
}

/// The type error with the message given.
fn type_error(msg: &str) -> (r: Result<DataType, TypeError>)
    ensures
        r matches Err(TypeError::Custom(text)) && text@ == msg@,
{
    Err(TypeError::Custom(String::from_str(msg)))
}

impl<H: HostFunction> TypeResolveState<H> {
    /// The substitution.
    pub closed spec fn subs(&self) -> Map<Seq<char>, Expr> {
        self.subs@
    }

    /// The bindings in the order in which they were made. The substitution
    /// is what they make: `subs()` is `map_of(bindings())`.
    pub closed spec fn bindings(&self) -> Seq<(Seq<char>, Expr)> {
        self.subs.log()
    }

    /// The host functions, by name.
    pub closed spec fn hosts(&self) -> Map<Seq<char>, H> {
        self.host_functions@
    }

    /// The expressions that are being checked.
    pub closed spec fn reach(&self) -> Set<int> {
        Set::new(|i: int| 0 <= i < self.expr_reach@.len() && self.expr_reach@[i])
    }

    /// For how many expressions the state has room to mark them.
    pub closed spec fn capacity(&self) -> nat {
        self.expr_reach@.len()
    }

    /// A state with the empty substitution and no host functions.
    pub fn new() -> (r: TypeResolveState<H>)
        ensures
            r.subs() == Map::<Seq<char>, Expr>::empty(),
            r.hosts() == Map::<Seq<char>, H>::empty(),
            r.reach() == Set::<int>::empty(),
    {
        let r = TypeResolveState {
            subs: Substitution::new(),
            host_functions: HostTable::new(),
            expr_reach: Vec::new(),
        };
        r
    }

    /// Adds host functions under their names. A later entry replaces an
    /// earlier one of the same name.
    pub fn add_hosts(&mut self, host_functions: Vec<(String, H)>)
        ensures
            final(self).hosts() == insert_all(old(self).hosts(), entries_of(host_functions@), 0),
            final(self).subs() == old(self).subs(),
            final(self).reach() == old(self).reach(),
    {
        self.host_functions.add_hosts(host_functions);
    }

    /// What `name` stands for: follows it through the substitution until it
    /// leads to an expression that is no name.
    pub fn resolve_name(&self, ast: &Ast, name: &String) -> (r: Resolution)
        ensures
            r == resolve_spec(ast@, self.subs(), name@),
    {
        let mut path: Vec<String> = Vec::new();
        let mut current: String = name.clone();
        let ghost nodes = ast@;
        let ghost subs = self.subs@;
        let ghost mut seen: Set<Seq<char>> = Set::empty();
        proof {
            self.subs.lemma_finite();
        }
        loop
            invariant
                nodes == ast@,
                subs == self.subs@,
                subs.dom().finite(),
                forall|s: Seq<char>| seen.contains(s) <==> names_of(path@).contains(s),
                resolve_spec(nodes, subs, name@) == resolve_from(nodes, subs, current@, seen),
            decreases subs.dom().difference(seen).len(),
        {
            if holds_name(&path, &current) {
                return Resolution::Cycle;
            }
            let x = match self.subs.get(&current) {
                Some(x) => x,
                None => {
                    return Resolution::Unbound;
                },
            };
            match ast.get(x) {
                Some(ExprBody::Name(n)) => {
                    proof {
                        lemma_path_grows(subs.dom(), seen, current@);
                    }
                    let ghost before = names_of(path@);
                    let ghost met = current@;
                    let next = n.clone();
                    path.push(current);
                    current = next;
                    proof {
                        assert(names_of(path@) =~= before.push(met));
                        assert forall|s: Seq<char>|
                            seen.insert(met).contains(s) <==> names_of(path@).contains(s) by {
                            if before.contains(s) {
                                let j = choose|j: int| 0 <= j < before.len() && before[j] == s;
                                assert(names_of(path@)[j] == s);
                            }
                            if s == met {
                                assert(names_of(path@)[before.len() as int] == s);
                            }
                        }
                        seen = seen.insert(met);
                    }
                },
                _ => {
                    return Resolution::To(x);
                },
            }
        }
    }

    /// Binds each name of `pairs` to the expression beside it, in order, and
    /// returns the mark that `restore` takes to undo the bindings: the
    /// number of bindings made before.
    pub fn with_resolved(&mut self, pairs: &[(String, Expr)]) -> (mark: usize)
        ensures
            mark == old(self).bindings().len(),
            final(self).bindings() == old(self).bindings() + entries_of(pairs@),
            final(self).subs() == insert_all(old(self).subs(), entries_of(pairs@), 0),
            final(self).hosts() == old(self).hosts(),
            final(self).reach() == old(self).reach(),
            final(self).capacity() == old(self).capacity(),
    {
        let mark = self.subs.depth();
        let mut i: usize = 0;
        while i < pairs.len()
            invariant
                i <= pairs@.len(),
                self.hosts() == old(self).hosts(),
                self.expr_reach == old(self).expr_reach,
                self.bindings() == old(self).bindings() + entries_of(pairs@).take(i as int),
                insert_all(old(self).subs(), entries_of(pairs@), 0) == insert_all(
                    self.subs(),
                    entries_of(pairs@),
                    i as int,
                ),
            decreases pairs@.len() - i,
        {
            self.subs.insert(pairs[i].0.clone(), pairs[i].1);
            i = i + 1;
        }
        mark
    }

    /// Takes back the bindings made since `with_resolved` gave the mark.
    pub fn restore(&mut self, mark: usize)
        ensures
            mark <= old(self).bindings().len() ==> final(self).bindings() == old(self).bindings().take(
                mark as int,
            ),
            mark > old(self).bindings().len() ==> final(self).bindings() == old(self).bindings(),
            final(self).subs() == map_of(final(self).bindings()),
            final(self).hosts() == old(self).hosts(),
            final(self).reach() == old(self).reach(),
            final(self).capacity() == old(self).capacity(),
    {
        self.subs.restore(mark);
    }

    /// Marks `e` as being checked, unless it is marked already.
    fn guarded_expr_reach(&mut self, e: Expr) -> (r: Option<ExprReachGuard>)
        requires
            e.id < old(self).capacity(),
        ensures
            final(self).subs() == old(self).subs(),
            final(self).hosts() == old(self).hosts(),
            final(self).capacity() == old(self).capacity(),
            match r {
                Some(g) => {
                    &&& g.me == e
                    &&& !old(self).reach().contains(e.id as int)
                    &&& final(self).reach() == old(self).reach().insert(e.id as int)
                },
                None => {
                    &&& old(self).reach().contains(e.id as int)
                    &&& final(self).reach() == old(self).reach()
                },
            },
    {
        if self.expr_reach[e.id] {
            None
        } else {
            self.expr_reach.set(e.id, true);
            Some(ExprReachGuard { me: e })
        }
    }

    /// Ends the check that the guard stands for.
    fn release(&mut self, guard: ExprReachGuard)
        requires
            guard.me.id < old(self).capacity(),
        ensures
            final(self).subs() == old(self).subs(),
            final(self).hosts() == old(self).hosts(),
            final(self).capacity() == old(self).capacity(),
            final(self).reach() == old(self).reach().remove(guard.me.id as int),
    {
        self.expr_reach.set(guard.me.id, false);
    }

    /// Makes room to mark the expressions of an arena of `n` nodes, and
    /// clears all marks.
    fn prepare(&mut self, n: usize)
        ensures
            final(self).subs() == old(self).subs(),
            final(self).hosts() == old(self).hosts(),
            final(self).capacity() == n,
            final(self).reach() == Set::<int>::empty(),
    {
        self.expr_reach.clear();
        let mut i: usize = 0;
        while i < n
            invariant
                i <= n,
                self.subs == old(self).subs,
                self.host_functions == old(self).host_functions,
                self.expr_reach@.len() == i,
                forall|j: int| 0 <= j < i ==> !self.expr_reach@[j],
            decreases n - i,
        {
            self.expr_reach.push(false);
            i = i + 1;
        }
    }
}

impl<H: HostFunction> Default for TypeResolveState<H> {
    fn default() -> (r: TypeResolveState<H>)
        ensures
            r.subs() == Map::<Seq<char>, Expr>::empty(),
            r.hosts() == Map::<Seq<char>, H>::empty(),
            r.reach() == Set::<int>::empty(),
    {
        TypeResolveState::new()
    }
}

/// The type of a constant.
fn const_type(c: &ConstExpr) -> (r: DataType)
    ensures
        r@ == literal_type(c@),
{
    match c {
        ConstExpr::Int(_) => DataType::Value(ValueType::Int),
        ConstExpr::Bool(_) => DataType::Value(ValueType::Bool),
        ConstExpr::Float(_) => DataType::Value(ValueType::Float),
        ConstExpr::Empty => DataType::Empty,
    }
}

/// Whether `x` is the mark for a name that resolves in a circle.
fn is_never(ast: &Ast, x: Expr) -> (r: bool)
    ensures
        r == (x.id < ast@.len() && ast@[x.id as int] is Never),
{
    match ast.get(x) {
        Some(ExprBody::Never) => true,
        _ => false,
    }
}

/// The types of the arguments of an application.
fn check_params<H: HostFunction>(
    ast: &Ast,
    params: &Vec<Expr>,
    trs: &mut TypeResolveState<H>,
) -> (r: Result<Vec<DataType>, TypeError>)
    requires
        ast.wf(),
        old(trs).capacity() == ast@.len(),
    ensures
        final(trs).subs() == old(trs).subs(),
        final(trs).hosts() == old(trs).hosts(),
        final(trs).reach() == old(trs).reach(),
        final(trs).capacity() == old(trs).capacity(),
        match check_args(ast@, old(trs).hosts(), old(trs).subs(), old(trs).reach(), params@, 0) {
            Some(ts) => r matches Ok(v) && types_of(v@) == ts,
            None => r is Err,
        },
    decreases unvisited(ast@.len(), old(trs).reach()), 1int, params@.len(),
{
    let ghost nodes = ast@;
    let ghost hosts = trs.hosts();
    let ghost subs = trs.subs();
    let ghost reach = trs.reach();
    let mut types: Vec<DataType> = Vec::new();
    let mut i: usize = 0;
    while i < params.len()
        invariant
            i <= params@.len(),
            ast.wf(),
            nodes == ast@,
            hosts == old(trs).hosts(),
            subs == old(trs).subs(),
            reach == old(trs).reach(),
            trs.hosts() == hosts,
            trs.subs() == subs,
            trs.reach() == reach,
            trs.capacity() == nodes.len(),
            old(trs).capacity() == nodes.len(),
            match check_args(nodes, hosts, subs, reach, params@, i as int) {
                Some(rest) => check_args(nodes, hosts, subs, reach, params@, 0) == Some(
                    types_of(types@) + rest,
                ),
                None => check_args(nodes, hosts, subs, reach, params@, 0) is None,
            },
        decreases params@.len() - i,
    {
        let t = match _check_expr(ast, params[i], trs) {
            Ok(t) => t,
            Err(e) => {
                return Err(e);
            },
        };
        types.push(t);
        i = i + 1;
    }
    Ok(types)
}

/// The type of `e`, which is marked as being checked, by its form.
fn check_body<H: HostFunction>(ast: &Ast, e: Expr, trs: &mut TypeResolveState<H>) -> (r: Result<
    DataType,
    TypeError,
>)
    requires
        ast.wf(),
        ast.contains(e),
        old(trs).capacity() == ast@.len(),
    ensures
        final(trs).subs() == old(trs).subs(),
        final(trs).hosts() == old(trs).hosts(),
        final(trs).reach() == old(trs).reach(),
        final(trs).capacity() == old(trs).capacity(),
        match check_node(ast@, old(trs).hosts(), old(trs).subs(), old(trs).reach(), e) {
            Some(t) => r matches Ok(d) && d@ == t,
            None => r is Err,
        },
    decreases unvisited(ast@.len(), old(trs).reach()), 2int, 0int,
{
    match ast.node(e) {
        ExprBody::Name(name) => match trs.resolve_name(ast, name) {
            Resolution::To(x) => {
                if is_never(ast, x) {
                    Ok(DataType::Divergent)
                } else {
                    _check_expr(ast, x, trs)
                }
            },
            Resolution::Cycle => Ok(DataType::Divergent),
            Resolution::Unbound => type_error("cannot resolve name"),
        },
        ExprBody::Const(c) => Ok(const_type(c)),
        ExprBody::Apply { target, params } => {
            let named = match ast.get(*target) {
                Some(ExprBody::Name(_)) => true,
                _ => false,
            };
            let apply_target = match ast.get(*target) {
                Some(ExprBody::Name(name)) => match trs.resolve_name(ast, name) {
                    Resolution::To(x) => {
                        if is_never(ast, x) {
                            return Ok(DataType::Divergent);
                        }
                        x
                    },
                    Resolution::Cycle => {
                        return Ok(DataType::Divergent);
                    },
                    Resolution::Unbound => {
                        return type_error("cannot resolve name");
                    },
                },
                _ => *target,
            };
            let target_ty = match _check_expr(ast, apply_target, trs) {
                Ok(t) => t,
                Err(err) => {
                    return Err(err);
                },
            };
            match target_ty {
                DataType::FunctionDecl { params: formals, decl_expr, param_set } => {
                    let param_types = match check_params(ast, params, trs) {
                        Ok(v) => v,
                        Err(err) => {
                            return Err(err);
                        },
                    };
                    match ast.get(decl_expr) {
                        Some(ExprBody::Abstract { params: _, body }) => match body {
                            AbstractBody::Host(h) => {
                                match trs.host_functions.get(h) {
                                    Some(host) => host.typeck(ast, param_types.as_slice()),
                                    None => type_error("host function not found"),
                                }
                            },
                            AbstractBody::Expr(b) => {
                                if formals.len() != params.len() {
                                    type_error("param count mismatch")
                                } else {
                                    let mut resolved: Vec<(String, Expr)> = Vec::new();
                                    let mut i: usize = 0;
                                    while i < formals.len()
                                        invariant
                                            i <= formals@.len(),
                                            formals@.len() == params@.len(),
                                            entries_of(resolved@) == zip_params(
                                                names_of(formals@),
                                                params@,
                                            ).take(i as int),
                                        decreases formals@.len() - i,
                                    {
                                        let ghost before = entries_of(resolved@);
                                        let name = formals[i].clone();
                                        resolved.push((name, params[i]));
                                        proof {
                                            assert(entries_of(resolved@) =~= before.push(
                                                (formals@[i as int]@, params@[i as int]),
                                            ));
                                        }
                                        i = i + 1;
                                    }
                                    proof {
                                        let all = zip_params(names_of(formals@), params@);
                                        assert(all.take(i as int) =~= all);
                                    }
                                    let mut new_subs = param_set;
                                    std::mem::swap(&mut new_subs, &mut trs.subs);
                                    let mark = trs.with_resolved(resolved.as_slice());
                                    let ret = _check_expr(ast, *b, trs);
                                    trs.restore(mark);
                                    std::mem::swap(&mut new_subs, &mut trs.subs);
                                    ret
                                }
                            },
                        },
                        _ => type_error("invalid decl expr"),
                    }
                },
                DataType::Divergent => Ok(DataType::Divergent),
                other => {
                    if params.len() != 0 {
                        type_error("cannot apply with params on non-function value")
                    } else {
                        Ok(other)
                    }
                },
            }
        },
        ExprBody::Abstract { params, body } => {
            let copy = params.clone();
            Ok(
                DataType::FunctionDecl {
                    params: copy,
                    decl_expr: e,
                    param_set: trs.subs.duplicate(),
                },
            )
        },
        ExprBody::Match { .. } => type_error("match is not implemented"),
        ExprBody::Never => type_error("unexpected never expr"),
    }
}

/// The type of `e` under the substitution and the marks of `trs`.
fn _check_expr<H: HostFunction>(ast: &Ast, e: Expr, trs: &mut TypeResolveState<H>) -> (r: Result<
    DataType,
    TypeError,
>)
    requires
        ast.wf(),
        old(trs).capacity() == ast@.len(),
    ensures
        final(trs).subs() == old(trs).subs(),
        final(trs).hosts() == old(trs).hosts(),
        final(trs).reach() == old(trs).reach(),
        final(trs).capacity() == old(trs).capacity(),
        match check_spec(ast@, old(trs).hosts(), old(trs).subs(), old(trs).reach(), e) {
            Some(t) => r matches Ok(d) && d@ == t,
            None => r is Err,
        },
    decreases unvisited(ast@.len(), old(trs).reach()), 0int, 0int,
{
    if e.id >= ast.len() {
        return type_error("expression is not in the arena");
    }
    let guard = match trs.guarded_expr_reach(e) {
        Some(guard) => guard,
        None => {
            return Ok(DataType::Divergent);
        },
    };
    proof {
        lemma_unvisited_insert(ast@.len(), old(trs).reach(), e.id as int);
    }
    let ret = check_body(ast, e, trs);
    trs.release(guard);
    ret
}

/// The type of the program `e`, or a type error. A program that would not
/// terminate has the type `Divergent`, which is no error. The state is left
/// as it was.
pub fn check_expr<H: HostFunction>(ast: &Ast, e: Expr, trs: &mut TypeResolveState<H>) -> (r: Result<
    DataType,
    TypeError,
>)
    requires
        ast.wf(),
    ensures
        final(trs).subs() == old(trs).subs(),
        final(trs).hosts() == old(trs).hosts(),
        final(trs).reach() == Set::<int>::empty(),
        match type_of(ast@, old(trs).hosts(), old(trs).subs(), e) {
            Some(t) => r matches Ok(d) && d@ == t,
            None => r is Err,
        },
{
    trs.prepare(ast.len());
    _check_expr(ast, e, trs)
}

} // verus!
