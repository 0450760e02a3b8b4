//! Hygienic renaming: every binding occurrence gets a name of its own.
//!
//! A parameter `x` becomes `x#k`, where `k` counts the bindings of `x` that
//! the renamer has met so far, and a reference to `x` becomes the name of the
//! innermost binding of `x` that encloses it. A reference that no abstraction
//! encloses is an error.

use crate::ast::{
    extends, lemma_tree_of_extends, names_of, tree_of, AbstractBody, Ast, Body, ConstExpr, Expr,
    ExprBody, Node, Tree, TreeBody,
};
use crate::bindings::{map_of, entries_of, find_last, lemma_map_of_push, lookup};
use crate::error::{ParseError, ParseErrorKind};
use crate::text::{decimal, push_decimal};
use vstd::prelude::*;

verus! {

/// The state of a renaming, as contracts see it.
pub struct RenameModel {
    /// How many bindings of each name were met so far.
    pub issued: Map<Seq<char>, usize>,
    /// The bindings in force, innermost last, each with its number.
    pub scope: Seq<(Seq<char>, usize)>,
}

/// The state of a renaming.
#[derive(Debug)]
pub struct RenameContext {
    rename_state: Vec<(String, usize)>,
    scope: Vec<(String, usize)>,
}

/// The name given to binding number `k` of `base`.
pub open spec fn renamed(base: Seq<char>, k: nat) -> Seq<char> {
    base.push('#') + decimal(k)
}

/// The number of the next binding of `p`: one more than were met so far.
pub open spec fn next_number(issued: Map<Seq<char>, usize>, p: Seq<char>) -> usize {
    if issued.contains_key(p) {
        (issued[p] + 1) as usize
    } else {
        1
    }
}

/// The state after binding `params[i..]`, one after the other, or `None`
/// where a count would leave the range of `usize`.
pub open spec fn bind_from(st: RenameModel, params: Seq<Seq<char>>, i: int) -> Option<RenameModel>
    decreases params.len() - i,
{
    if i < 0 || i >= params.len() {
        Some(st)
    } else {
        let p = params[i];
        if st.issued.contains_key(p) && st.issued[p] == usize::MAX {
            None
        } else {
            let k = next_number(st.issued, p);
            bind_from(
                RenameModel { issued: st.issued.insert(p, k), scope: st.scope.push((p, k)) },
                params,
                i + 1,
            )
        }
    }
}

/// The state after binding all of `params`.
pub open spec fn bind_all(st: RenameModel, params: Seq<Seq<char>>) -> Option<RenameModel> {
    bind_from(st, params, 0)
}

/// The new names of `params` in a scope that binds them all: each is named
/// after the innermost of its bindings.
pub open spec fn renamed_params(scope: Seq<(Seq<char>, usize)>, params: Seq<Seq<char>>) -> Seq<
    Seq<char>,
> {
    Seq::new(params.len(), |i: int| renamed(params[i], find_last(scope, params[i])->0 as nat))
}

/// The renaming of a tree: the renamed tree and the counts after it, or the
/// kind of the error. The scope is the same before and after.
pub open spec fn rename_tree(t: Tree, st: RenameModel) -> Result<
    (Tree, Map<Seq<char>, usize>),
    ParseErrorKind,
>
    decreases t,
{
    match t {
        Tree::Const(c) => Ok((t, st.issued)),
        Tree::Name(n) => match find_last(st.scope, n) {
            Some(k) => Ok((Tree::Name(renamed(n, k as nat)), st.issued)),
            None => Err(ParseErrorKind::Custom),
        },
        Tree::Apply { target, params } => match rename_tree(*target, st) {
            Err(e) => Err(e),
            Ok((new_target, issued)) => match rename_list(
                params,
                0,
                RenameModel { issued, scope: st.scope },
            ) {
                Err(e) => Err(e),
                Ok((new_params, issued)) => Ok(
                    (Tree::Apply { target: Box::new(new_target), params: new_params }, issued),
                ),
            },
        },
        Tree::Abstract { params, body } => match bind_all(st, params) {
            None => Err(ParseErrorKind::Custom),
            Some(inner) => {
                let new_params = renamed_params(inner.scope, params);
                match body {
                    TreeBody::Host(h) => Ok(
                        (
                            Tree::Abstract { params: new_params, body: TreeBody::Host(h) },
                            inner.issued,
                        ),
                    ),
                    TreeBody::Expr(b) => match rename_tree(*b, inner) {
                        Err(e) => Err(e),
                        Ok((new_body, issued)) => Ok(
                            (
                                Tree::Abstract {
                                    params: new_params,
                                    body: TreeBody::Expr(Box::new(new_body)),
                                },
                                issued,
                            ),
                        ),
                    },
                }
            },
        },
        Tree::Match => Err(ParseErrorKind::Custom),
        Tree::Never => Err(ParseErrorKind::Custom),
    }
}

/// The renaming of `ts[i..]`, left to right.
pub open spec fn rename_list(ts: Seq<Tree>, i: int, st: RenameModel) -> Result<
    (Seq<Tree>, Map<Seq<char>, usize>),
    ParseErrorKind,
>
    decreases ts, ts.len() - i,
{
    if i < 0 || i >= ts.len() {
        Ok((Seq::empty(), st.issued))
    } else {
        match rename_tree(ts[i], st) {
            Err(e) => Err(e),
            Ok((first, issued)) => match rename_list(
                ts,
                i + 1,
                RenameModel { issued, scope: st.scope },
            ) {
                Err(e) => Err(e),
                Ok((rest, issued)) => Ok((seq![first] + rest, issued)),
            },
        }
    }
}


impl View for RenameContext {
    type V = RenameModel;

    closed spec fn view(&self) -> RenameModel {
        RenameModel {
            issued: map_of(entries_of(self.rename_state@)),
            scope: entries_of(self.scope@),
        }
    }
}

impl RenameContext {
    /// A context that has met no binding.
    pub fn new() -> (r: RenameContext)
        ensures
            r@.issued == Map::<Seq<char>, usize>::empty(),
            r@.scope == Seq::<(Seq<char>, usize)>::empty(),
    {
        let r = RenameContext { rename_state: Vec::new(), scope: Vec::new() };
        r
    }

    /// Enters the scope of an abstraction: binds each of `renames`, in
    /// order, under the next number of its name. Returns the depth of the
    /// scope before, which `leave` takes to end the scope. Where a count
    /// would leave the range of `usize`, nothing is bound.
    pub fn with_renamed(&mut self, renames: &[String]) -> (r: Result<usize, ParseError>)
        ensures
            match bind_all(old(self)@, names_of(renames@)) {
                Some(st) => r matches Ok(depth) && depth == old(self)@.scope.len() && final(self)@
                    == st,
                None => r matches Err(e) && e@ == ParseErrorKind::Custom && final(self)@ == old(
                    self,
                )@,
            },
    {
        let depth = self.scope.len();
        let logged = self.rename_state.len();
        let ghost names = names_of(renames@);
        let mut i: usize = 0;
        while i < renames.len()
            invariant
                i <= renames@.len(),
                names == names_of(renames@),
                depth == old(self).scope@.len(),
                logged == old(self).rename_state@.len(),
                self.scope@.len() >= depth,
                self.rename_state@.len() >= logged,
                self.scope@.subrange(0, depth as int) == old(self).scope@,
                self.rename_state@.subrange(0, logged as int) == old(self).rename_state@,
                bind_all(old(self)@, names) == bind_from(self@, names, i as int),
            decreases renames@.len() - i,
        {
            let p = &renames[i];
            let k: usize = match lookup(&self.rename_state, p) {
                Some(c) => {
                    if c == usize::MAX {
                        self.scope.truncate(depth);
                        self.rename_state.truncate(logged);
                        return Err(ParseError::Custom("too many bindings of one name".to_string()));
                    }
                    c + 1
                },
                None => 1,
            };
            let ghost before = self@;
            let ghost log = entries_of(self.rename_state@);
            self.rename_state.push((p.clone(), k));
            self.scope.push((p.clone(), k));
            proof {
                assert(entries_of(self.rename_state@) =~= log.push((p@, k)));
                assert(entries_of(self.scope@) =~= before.scope.push((p@, k)));
                lemma_map_of_push(log, p@, k);
            }
            i = i + 1;
        }
        Ok(depth)
    }

    /// Ends the scopes entered since the scope had the depth given.
    pub fn leave(&mut self, depth: usize)
        ensures
            final(self)@.issued == old(self)@.issued,
            depth <= old(self)@.scope.len() ==> final(self)@.scope == old(self)@.scope.take(
                depth as int,
            ),
            depth > old(self)@.scope.len() ==> final(self)@.scope == old(self)@.scope,
    {
        self.scope.truncate(depth);
    }

    /// The new name of `k`: that of the innermost binding of `k` in force.
    pub fn get_renamed(&self, k: &String) -> (r: Result<String, ParseError>)
        ensures
            match find_last(self@.scope, k@) {
                Some(n) => r matches Ok(s) && s@ == renamed(k@, n as nat),
                None => r matches Err(e) && e@ == ParseErrorKind::Custom,
            },
    {
        match lookup(&self.scope, k) {
            Some(n) => {
                let mut s = k.clone();
                s.push('#');
                push_decimal(&mut s, n as u64);
                Ok(s)
            },
            None => {
                let mut msg = "name not found: ".to_string();
                vstd::string::StringExecFns::append(&mut msg, k.as_str());
                Err(ParseError::Custom(msg))
            },
        }
    }
}

impl Default for RenameContext {
    fn default() -> (r: RenameContext)
        ensures
            r@.issued == Map::<Seq<char>, usize>::empty(),
            r@.scope == Seq::<(Seq<char>, usize)>::empty(),
    {
        RenameContext::new()
    }
}


/// A copy of a constant.
fn copy_const(c: &ConstExpr) -> (r: ConstExpr)
    ensures
        r@ == c@,
{
    match c {
        ConstExpr::Int(v) => ConstExpr::Int(*v),
        ConstExpr::Float(s) => ConstExpr::Float(s.clone()),
        ConstExpr::Bool(b) => ConstExpr::Bool(*b),
        ConstExpr::Empty => ConstExpr::Empty,
    }
}

/// The unfoldings of the handles `ps`.
pub open spec fn trees_of(nodes: Seq<Node>, ps: Seq<Expr>) -> Seq<Tree> {
    Seq::new(ps.len(), |j: int| tree_of(nodes, ps[j]))
}

/// Renames the arguments `params[j..]` of an application into `dst`.
fn rename_params(
    src: &Ast,
    params: &Vec<Expr>,
    limit: Ghost<int>,
    ctx: &mut RenameContext,
    dst: &mut Ast,
) -> (r: Result<Vec<Expr>, ParseError>)
    requires
        src.wf(),
        old(dst).wf(),
        forall|j: int| 0 <= j < params@.len() ==> (#[trigger] params@[j]).id < limit@,
        limit@ <= src@.len(),
    ensures
        final(dst).wf(),
        extends(final(dst)@, old(dst)@),
        final(ctx)@.scope == old(ctx)@.scope,
        match rename_list(trees_of(src@, params@), 0, old(ctx)@) {
            Ok((ts, issued)) => {
                &&& r matches Ok(ps)
                &&& trees_of(final(dst)@, ps@) == ts
                &&& final(ctx)@.issued == issued
                &&& forall|j: int| 0 <= j < ps@.len() ==> final(dst).contains(#[trigger] ps@[j])
            },
            Err(k) => r matches Err(err) && err@ == k,
        },
    decreases limit@, 0int,
{
    let ghost ts = trees_of(src@, params@);
    let ghost st0 = ctx@;
    let mut ps: Vec<Expr> = Vec::new();
    let mut j: usize = 0;
    while j < params.len()
        invariant
            j <= params@.len(),
            src.wf(),
            dst.wf(),
            ts == trees_of(src@, params@),
            st0 == old(ctx)@,
            forall|k: int| 0 <= k < params@.len() ==> (#[trigger] params@[k]).id < limit@,
            limit@ <= src@.len(),
            extends(dst@, old(dst)@),
            ctx@.scope == st0.scope,
            ps@.len() == j,
            forall|k: int| 0 <= k < ps@.len() ==> dst.contains(#[trigger] ps@[k]),
            match rename_list(ts, j as int, ctx@) {
                Ok((rest, issued)) => rename_list(ts, 0, st0) == Ok::<
                    (Seq<Tree>, Map<Seq<char>, usize>),
                    ParseErrorKind,
                >((trees_of(dst@, ps@) + rest, issued)),
                Err(k) => rename_list(ts, 0, st0) == Err::<
                    (Seq<Tree>, Map<Seq<char>, usize>),
                    ParseErrorKind,
                >(k),
            },
        decreases params@.len() - j,
    {
        let ghost dst_before = dst@;
        let ghost done = trees_of(dst@, ps@);
        let x = match rename_expr(src, params[j], ctx, dst) {
            Ok(x) => x,
            Err(e) => {
                return Err(e);
            },
        };
        let ghost ps_before = ps@;
        ps.push(x);
        proof {
            assert forall|k: int| 0 <= k < ps_before.len() implies tree_of(dst@, ps_before[k])
                == tree_of(dst_before, ps_before[k]) by {
                lemma_tree_of_extends(dst_before, dst@, ps_before[k]);
            }
            match rename_list(ts, j + 1, ctx@) {
                Ok((rest, issued)) => {
                    assert(done + (seq![tree_of(dst@, x)] + rest) =~= trees_of(dst@, ps@) + rest);
                },
                Err(k) => {},
            }
        }
        j = j + 1;
    }
    Ok(ps)
}

/// Renames the expression `e` of `src` into `dst`, and returns the renamed
/// expression. A reference to a name that no enclosing abstraction binds is
/// an error, and so are `Match` and `Never`.
pub fn rename_expr(src: &Ast, e: Expr, ctx: &mut RenameContext, dst: &mut Ast) -> (r: Result<
    Expr,
    ParseError,
>)
    requires
        src.wf(),
        old(dst).wf(),
    ensures
        final(dst).wf(),
        extends(final(dst)@, old(dst)@),
        final(ctx)@.scope == old(ctx)@.scope,
        match rename_tree(tree_of(src@, e), old(ctx)@) {
            Ok((t, issued)) => {
                &&& r matches Ok(x)
                &&& final(dst).contains(x)
                &&& tree_of(final(dst)@, x) == t
                &&& final(ctx)@.issued == issued
            },
            Err(k) => r matches Err(err) && err@ == k,
        },
    decreases e.id, 1int,
{
    let ghost st0 = ctx@;
    let ghost t0 = tree_of(src@, e);
    let node = match src.get(e) {
        Some(node) => node,
        None => {
            return Err(ParseError::Custom("expression is not in the arena".to_string()));
        },
    };
    match node {
        ExprBody::Const(c) => {
            let r = dst.add(ExprBody::Const(copy_const(c)));
            Ok(r.unwrap())
        },
        ExprBody::Name(n) => {
            match ctx.get_renamed(n) {
                Ok(s) => {
                    let r = dst.add(ExprBody::Name(s));
                    Ok(r.unwrap())
                },
                Err(err) => Err(err),
            }
        },
        ExprBody::Apply { target, params } => {
            proof {
                assert(trees_of(src@, params@) =~= t0->Apply_params);
            }
            let new_target = match rename_expr(src, *target, ctx, dst) {
                Ok(x) => x,
                Err(err) => {
                    return Err(err);
                },
            };
            let ghost dst_mid = dst@;
            let new_params = match rename_params(src, params, Ghost(e.id as int), ctx, dst) {
                Ok(ps) => ps,
                Err(err) => {
                    return Err(err);
                },
            };
            let ghost dst_late = dst@;
            let r = dst.add(ExprBody::Apply { target: new_target, params: new_params });
            let x = r.unwrap();
            proof {
                lemma_tree_of_extends(dst_mid, dst@, new_target);
                assert forall|j: int| 0 <= j < new_params@.len() implies tree_of(
                    dst@,
                    new_params@[j],
                ) == tree_of(dst_late, new_params@[j]) by {
                    lemma_tree_of_extends(dst_late, dst@, new_params@[j]);
                }
                assert(tree_of(dst@, x)->Apply_params =~= trees_of(dst_late, new_params@));
            }
            Ok(x)
        },
        ExprBody::Abstract { params, body } => {
            let depth = match ctx.with_renamed(params.as_slice()) {
                Ok(d) => d,
                Err(err) => {
                    return Err(err);
                },
            };
            let ghost inner = ctx@;
            let mut new_params: Vec<String> = Vec::new();
            let mut i: usize = 0;
            while i < params.len()
                invariant
                    i <= params@.len(),
                    ctx@ == inner,
                    st0 == old(ctx)@,
                    dst@ == old(dst)@,
                    dst.wf(),
                    depth == st0.scope.len(),
                    bind_all(st0, names_of(params@)) == Some(inner),
                    t0 == tree_of(src@, e),
                    src@[e.id as int] == (Node::Abstract {
                        params: names_of(params@),
                        body: body@,
                    }),
                    src.contains(e),
                    new_params@.len() == i,
                    forall|k: int|
                        0 <= k < i ==> find_last(inner.scope, #[trigger] names_of(params@)[k])
                            is Some,
                    forall|k: int|
                        0 <= k < i ==> (#[trigger] new_params@[k])@ == renamed(
                            names_of(params@)[k],
                            find_last(inner.scope, names_of(params@)[k])->0 as nat,
                        ),
                decreases params@.len() - i,
            {
                match ctx.get_renamed(&params[i]) {
                    Ok(s) => {
                        new_params.push(s);
                    },
                    Err(err) => {
                        proof {
                            // Every parameter was bound a moment ago.
                            lemma_bind_names(st0, names_of(params@), 0);
                            assert(names_of(params@)[i as int] == params@[i as int]@);
                            assert(false);
                        }
                        return Err(err);
                    },
                }
                i = i + 1;
            }
            proof {
                lemma_bind_scope(st0, names_of(params@), 0);
                assert(names_of(new_params@) =~= renamed_params(inner.scope, names_of(params@)));
            }
            let new_body = match body {
                AbstractBody::Host(h) => AbstractBody::Host(h.clone()),
                AbstractBody::Expr(b) => {
                    match rename_expr(src, *b, ctx, dst) {
                        Ok(x) => AbstractBody::Expr(x),
                        Err(err) => {
                            ctx.leave(depth);
                            return Err(err);
                        },
                    }
                },
            };
            ctx.leave(depth);
            let ghost dst_late = dst@;
            let ghost body_model = new_body@;
            let r = dst.add(ExprBody::Abstract { params: new_params, body: new_body });
            let x = r.unwrap();
            proof {
                match body_model {
                    Body::Expr(b) => {
                        lemma_tree_of_extends(dst_late, dst@, b);
                    },
                    _ => {},
                }
            }
            Ok(x)
        },
        ExprBody::Match { .. } => Err(ParseError::Custom("match is not implemented".to_string())),
        ExprBody::Never => Err(
            ParseError::Custom("never type not expected in ast".to_string()),
        ),
    }
}

/// Binding parameters grows the scope at its end and leaves the rest.
proof fn lemma_bind_scope(st: RenameModel, params: Seq<Seq<char>>, i: int)
    requires
        0 <= i,
    ensures
        bind_from(st, params, i) matches Some(inner) ==> inner.scope.len() >= st.scope.len()
            && inner.scope.take(st.scope.len() as int) == st.scope,
    decreases params.len() - i,
{
    if i < params.len() {
        let p = params[i];
        let k = next_number(st.issued, p);
        if !(st.issued.contains_key(p) && st.issued[p] == usize::MAX) {
            let next = RenameModel { issued: st.issued.insert(p, k), scope: st.scope.push((p, k)) };
            lemma_bind_scope(next, params, i + 1);
        }
    }
}


/// The new names that a scope makes visible: for each name it binds, that of
/// the innermost binding.
pub open spec fn visible_names(scope: Seq<(Seq<char>, usize)>) -> Set<Seq<char>> {
    Set::new(
        |s: Seq<char>|
            exists|n: Seq<char>|
                find_last(scope, n) is Some && s == renamed(n, find_last(scope, n)->0 as nat),
    )
}

/// Whether every name in `t` is bound: a member of `bound`, or a parameter
/// of an abstraction that encloses it.
pub open spec fn closed(t: Tree, bound: Set<Seq<char>>) -> bool
    decreases t,
{
    match t {
        Tree::Name(n) => bound.contains(n),
        Tree::Apply { target, params } => closed(*target, bound) && forall|i: int|
            0 <= i < params.len() ==> closed(#[trigger] params[i], bound),
        Tree::Abstract { params, body } => match body {
            TreeBody::Host(_) => true,
            TreeBody::Expr(b) => closed(*b, bound.union(params.to_set())),
        },
        _ => true,
    }
}

/// A tree that is closed under some names is closed under more names.
pub proof fn lemma_closed_mono(t: Tree, small: Set<Seq<char>>, large: Set<Seq<char>>)
    requires
        closed(t, small),
        small.subset_of(large),
    ensures
        closed(t, large),
    decreases t,
{
    match t {
        Tree::Apply { target, params } => {
            lemma_closed_mono(*target, small, large);
            assert forall|i: int| 0 <= i < params.len() implies closed(
                #[trigger] params[i],
                large,
            ) by {
                lemma_closed_mono(params[i], small, large);
            }
        },
        Tree::Abstract { params, body } => {
            match body {
                TreeBody::Expr(b) => {
                    lemma_closed_mono(
                        *b,
                        small.union(params.to_set()),
                        large.union(params.to_set()),
                    );
                },
                _ => {},
            }
        },
        _ => {},
    }
}

/// Binding `params[i..]` binds each of them and leaves every other name as
/// it was.
proof fn lemma_bind_names(st: RenameModel, params: Seq<Seq<char>>, i: int)
    requires
        0 <= i,
    ensures
        bind_from(st, params, i) matches Some(inner) ==> {
            &&& forall|j: int|
                i <= j < params.len() ==> find_last(inner.scope, #[trigger] params[j]) is Some
            &&& forall|n: Seq<char>|
                (forall|j: int| i <= j < params.len() ==> params[j] != n) ==> #[trigger] find_last(
                    inner.scope,
                    n,
                ) == find_last(st.scope, n)
        },
    decreases params.len() - i,
{
    if i < params.len() {
        let p = params[i];
        let k = next_number(st.issued, p);
        if !(st.issued.contains_key(p) && st.issued[p] == usize::MAX) {
            let next = RenameModel { issued: st.issued.insert(p, k), scope: st.scope.push((p, k)) };
            lemma_bind_names(next, params, i + 1);
            assert(next.scope.drop_last() =~= st.scope);
        }
    }
}

/// Every name of a renamed tree is bound: by an abstraction of the tree that
/// encloses it, or by the scope in which the tree was renamed.
pub proof fn lemma_rename_closed(t: Tree, st: RenameModel)
    ensures
        rename_tree(t, st) matches Ok((r, _)) ==> closed(r, visible_names(st.scope)),
    decreases t,
{
    let bound = visible_names(st.scope);
    match t {
        Tree::Name(n) => {},
        Tree::Apply { target, params } => {
            lemma_rename_closed(*target, st);
            match rename_tree(*target, st) {
                Ok((new_target, issued)) => {
                    lemma_rename_list_closed(params, 0, RenameModel { issued, scope: st.scope });
                },
                Err(_) => {},
            }
        },
        Tree::Abstract { params, body } => {
            match bind_all(st, params) {
                Some(inner) => {
                    let new_params = renamed_params(inner.scope, params);
                    match body {
                        TreeBody::Expr(b) => {
                            lemma_rename_closed(*b, inner);
                            match rename_tree(*b, inner) {
                                Ok((new_body, _)) => {
                                    lemma_bind_names(st, params, 0);
                                    let large = bound.union(new_params.to_set());
                                    assert forall|s: Seq<char>|
                                        visible_names(inner.scope).contains(
                                            s,
                                        ) implies large.contains(s) by {
                                        let n = choose|n: Seq<char>|
                                            find_last(inner.scope, n) is Some && s
                                                == renamed(
                                                n,
                                                find_last(inner.scope, n)->0 as nat,
                                            );
                                        if exists|j: int|
                                            0 <= j < params.len() && params[j] == n {
                                            let j = choose|j: int|
                                                0 <= j < params.len() && params[j] == n;
                                            assert(new_params[j] == s);
                                        }
                                    }
                                    lemma_closed_mono(
                                        new_body,
                                        visible_names(inner.scope),
                                        large,
                                    );
                                },
                                Err(_) => {},
                            }
                        },
                        _ => {},
                    }
                },
                None => {},
            }
        },
        _ => {},
    }
}

/// The list form of `lemma_rename_closed`.
pub proof fn lemma_rename_list_closed(ts: Seq<Tree>, i: int, st: RenameModel)
    requires
        0 <= i,
    ensures
        rename_list(ts, i, st) matches Ok((rs, _)) ==> forall|j: int|
            0 <= j < rs.len() ==> closed(#[trigger] rs[j], visible_names(st.scope)),
    decreases ts, ts.len() - i,
{
    if i < ts.len() {
        lemma_rename_closed(ts[i], st);
        match rename_tree(ts[i], st) {
            Ok((first, issued)) => {
                lemma_rename_list_closed(ts, i + 1, RenameModel { issued, scope: st.scope });
            },
            Err(_) => {},
        }
    }
}


/// The value of a decimal notation: the inverse of `decimal`.
pub open spec fn decimal_number(s: Seq<char>) -> nat
    decreases s.len(),
{
    if s.len() == 0 {
        0
    } else {
        decimal_number(s.drop_last()) * 10 + ((s.last() as u8) - 48) as nat
    }
}

/// The decimal notation of a number is made of digits, and the number can
/// be read from it.
pub proof fn lemma_decimal(n: nat)
    ensures
        decimal(n).len() >= 1,
        forall|i: int| 0 <= i < decimal(n).len() ==> #[trigger] decimal(n)[i] != '#',
        decimal_number(decimal(n)) == n,
    decreases n,
{
    if n < 10 {
        assert(decimal_number(decimal(n).drop_last()) == 0);
    } else {
        lemma_decimal(n / 10);
        assert(decimal(n).drop_last() =~= decimal(n / 10));
    }
}

/// Different bindings get different names: a renamed name tells the name it
/// was made from and the number of the binding.
pub proof fn lemma_renamed_injective(a: Seq<char>, j: nat, b: Seq<char>, k: nat)
    requires
        renamed(a, j) == renamed(b, k),
    ensures
        a == b,
        j == k,
{
    let s = renamed(a, j);
    lemma_decimal(j);
    lemma_decimal(k);
    assert(s.len() == b.len() + 1 + decimal(k).len());
    if a.len() < b.len() {
        assert(s[b.len() as int] == decimal(j)[b.len() - a.len() - 1]);
    } else if b.len() < a.len() {
        assert(renamed(b, k)[a.len() as int] == decimal(k)[a.len() - b.len() - 1]);
    } else {
        assert(b =~= renamed(b, k).take(b.len() as int));
        assert(decimal(j) =~= s.skip(a.len() as int + 1));
        assert(decimal(k) =~= renamed(b, k).skip(b.len() as int + 1));
    }
}

/// How many bindings of `base` were met.
pub open spec fn count_of(issued: Map<Seq<char>, usize>, base: Seq<char>) -> nat {
    if issued.contains_key(base) {
        issued[base] as nat
    } else {
        0
    }
}

/// Whether `later` counts at least the bindings that `earlier` counts.
pub open spec fn counts_on(later: Map<Seq<char>, usize>, earlier: Map<Seq<char>, usize>) -> bool {
    forall|base: Seq<char>| count_of(earlier, base) <= #[trigger] count_of(later, base)
}

/// The names of the bindings that were met after `earlier` was the count
/// and before `later` was.
pub open spec fn issued_between(
    earlier: Map<Seq<char>, usize>,
    later: Map<Seq<char>, usize>,
) -> Set<Seq<char>> {
    Set::new(
        |s: Seq<char>|
            exists|base: Seq<char>, k: nat|
                count_of(earlier, base) < k <= count_of(later, base) && s == #[trigger] renamed(
                    base,
                    k,
                ),
    )
}

/// The names that the abstractions of `t` bind.
pub open spec fn binders(t: Tree) -> Set<Seq<char>>
    decreases t,
{
    match t {
        Tree::Apply { target, params } => binders(*target).union(binders_from(params, 0)),
        Tree::Abstract { params, body: TreeBody::Expr(b) } => params.to_set().union(binders(*b)),
        Tree::Abstract { params, body: TreeBody::Host(_) } => params.to_set(),
        _ => Set::empty(),
    }
}

/// The names that the abstractions of `ts[i..]` bind.
pub open spec fn binders_from(ts: Seq<Tree>, i: int) -> Set<Seq<char>>
    decreases ts, ts.len() - i,
{
    if i < 0 || i >= ts.len() {
        Set::empty()
    } else {
        binders(ts[i]).union(binders_from(ts, i + 1))
    }
}

/// Whether no two abstractions of `t` bind the same name.
pub open spec fn binds_once(t: Tree) -> bool
    decreases t,
{
    match t {
        Tree::Apply { target, params } => {
            &&& binds_once(*target)
            &&& binds_once_from(params, 0)
            &&& binders(*target).disjoint(binders_from(params, 0))
        },
        Tree::Abstract { params, body: TreeBody::Expr(b) } => binds_once(*b)
            && params.to_set().disjoint(binders(*b)),
        _ => true,
    }
}

/// Whether no two abstractions of `ts[i..]` bind the same name.
pub open spec fn binds_once_from(ts: Seq<Tree>, i: int) -> bool
    decreases ts, ts.len() - i,
{
    if i < 0 || i >= ts.len() {
        true
    } else {
        &&& binds_once(ts[i])
        &&& binders(ts[i]).disjoint(binders_from(ts, i + 1))
        &&& binds_once_from(ts, i + 1)
    }
}

/// Names that were given in one stretch of a renaming are not given in a
/// later stretch.
proof fn lemma_issued_apart(
    a: Map<Seq<char>, usize>,
    b: Map<Seq<char>, usize>,
    c: Map<Seq<char>, usize>,
)
    requires
        counts_on(b, a),
        counts_on(c, b),
    ensures
        issued_between(a, b).disjoint(issued_between(b, c)),
        issued_between(a, b).subset_of(issued_between(a, c)),
        issued_between(b, c).subset_of(issued_between(a, c)),
        counts_on(c, a),
{
    assert forall|s: Seq<char>| issued_between(a, b).contains(s) implies !issued_between(
        b,
        c,
    ).contains(s) && issued_between(a, c).contains(s) by {
        let (base, k) = choose|base: Seq<char>, k: nat|
            count_of(a, base) < k <= count_of(b, base) && s == #[trigger] renamed(base, k);
        if issued_between(b, c).contains(s) {
            let (other, m) = choose|other: Seq<char>, m: nat|
                count_of(b, other) < m <= count_of(c, other) && s == #[trigger] renamed(other, m);
            lemma_renamed_injective(base, k, other, m);
        }
    }
}

/// Binding parameters counts on, and the binding of a parameter that is in
/// force afterwards is one that was made for it.
proof fn lemma_bind_counts(st: RenameModel, params: Seq<Seq<char>>, i: int)
    requires
        0 <= i,
    ensures
        bind_from(st, params, i) matches Some(inner) ==> {
            &&& counts_on(inner.issued, st.issued)
            &&& forall|j: int|
                i <= j < params.len() ==> count_of(st.issued, #[trigger] params[j]) < (find_last(
                    inner.scope,
                    params[j],
                )->0) as nat <= count_of(inner.issued, params[j])
        },
    decreases params.len() - i,
{
    if i < params.len() {
        let p = params[i];
        let k = next_number(st.issued, p);
        if !(st.issued.contains_key(p) && st.issued[p] == usize::MAX) {
            let next = RenameModel { issued: st.issued.insert(p, k), scope: st.scope.push((p, k)) };
            lemma_bind_counts(next, params, i + 1);
            lemma_bind_names(next, params, i + 1);
        }
    }
}

/// After renaming, every binding has a name of its own: no two abstractions
/// of a renamed tree bind the same name, and the names they bind are those
/// that were given during the renaming.
pub proof fn lemma_rename_binds_once(t: Tree, st: RenameModel)
    ensures
        rename_tree(t, st) matches Ok((r, issued)) ==> {
            &&& counts_on(issued, st.issued)
            &&& binders(r).subset_of(issued_between(st.issued, issued))
            &&& binds_once(r)
        },
    decreases t,
{
    match t {
        Tree::Apply { target, params } => {
            lemma_rename_binds_once(*target, st);
            match rename_tree(*target, st) {
                Ok((new_target, mid)) => {
                    lemma_rename_list_binds_once(params, 0, RenameModel { issued: mid, scope: st.scope });
                    match rename_list(params, 0, RenameModel { issued: mid, scope: st.scope }) {
                        Ok((new_params, issued)) => {
                            lemma_issued_apart(st.issued, mid, issued);
                        },
                        Err(_) => {},
                    }
                },
                Err(_) => {},
            }
        },
        Tree::Abstract { params, body } => {
            match bind_all(st, params) {
                Some(inner) => {
                    lemma_bind_counts(st, params, 0);
                    let new_params = renamed_params(inner.scope, params);
                    match body {
                        TreeBody::Expr(b) => {
                            lemma_rename_binds_once(*b, inner);
                            match rename_tree(*b, inner) {
                                Ok((new_body, issued)) => {
                                    lemma_issued_apart(st.issued, inner.issued, issued);
                                },
                                Err(_) => {},
                            }
                        },
                        _ => {},
                    }
                },
                None => {},
            }
        },
        _ => {},
    }
}

/// The list form of `lemma_rename_binds_once`.
pub proof fn lemma_rename_list_binds_once(ts: Seq<Tree>, i: int, st: RenameModel)
    requires
        0 <= i,
    ensures
        rename_list(ts, i, st) matches Ok((rs, issued)) ==> {
            &&& counts_on(issued, st.issued)
            &&& binders_from(rs, 0).subset_of(issued_between(st.issued, issued))
            &&& binds_once_from(rs, 0)
        },
    decreases ts, ts.len() - i,
{
    if i < ts.len() {
        lemma_rename_binds_once(ts[i], st);
        match rename_tree(ts[i], st) {
            Ok((first, mid)) => {
                let next = RenameModel { issued: mid, scope: st.scope };
                lemma_rename_list_binds_once(ts, i + 1, next);
                match rename_list(ts, i + 1, next) {
                    Ok((rest, issued)) => {
                        lemma_issued_apart(st.issued, mid, issued);
                        let rs = seq![first] + rest;
                        assert(rest =~= rs.subrange(1, rs.len() as int));
                        lemma_binders_shift(rs, rest, 1);
                    },
                    Err(_) => {},
                }
            },
            Err(_) => {},
        }
    }
}

/// What is said of the terms of a list from a position on is said of the
/// list without its first term from the position before.
proof fn lemma_binders_shift(rs: Seq<Tree>, rest: Seq<Tree>, i: int)
    requires
        1 <= i <= rs.len(),
        rest == rs.subrange(1, rs.len() as int),
    ensures
        binders_from(rs, i) == binders_from(rest, i - 1),
        binds_once_from(rs, i) == binds_once_from(rest, i - 1),
    decreases rs.len() - i,
{
    if i < rs.len() {
        lemma_binders_shift(rs, rest, i + 1);
    }
}

} // verus!
