//! The types that the checker gives to expressions, and the substitutions
//! that a function type carries.

use crate::ast::{names_of, same_names, same_tree, tree_of, Ast, Expr, Node};
use crate::bindings::{
    map_of, entries_of, find_last, lemma_map_of_finite, lemma_map_of_push, lookup,
};
use crate::builtin::ValueType;
use vstd::prelude::*;

verus! {

/// A substitution: which expression each name stands for. It is kept as a
/// log, so that bindings made for a while can be taken back.
#[derive(Debug)]
pub struct Substitution {
    entries: Vec<(String, Expr)>,
}

impl View for Substitution {
    type V = Map<Seq<char>, Expr>;

    open spec fn view(&self) -> Map<Seq<char>, Expr> {
        map_of(self.log())
    }
}

/// A name has a last entry in a log exactly if it has an entry.
pub proof fn lemma_find_last_some<V>(log: Seq<(Seq<char>, V)>, k: Seq<char>)
    ensures
        find_last(log, k) is Some <==> exists|j: int| 0 <= j < log.len() && (#[trigger] log[j]).0 == k,
    decreases log.len(),
{
    if log.len() > 0 {
        lemma_find_last_some(log.drop_last(), k);
        if log.last().0 == k {
        } else if find_last(log.drop_last(), k) is Some {
        } else {
            assert forall|j: int| 0 <= j < log.len() implies (#[trigger] log[j]).0 != k by {
                if j < log.len() - 1 {
                    assert(log.drop_last()[j].0 != k);
                }
            }
        }
    }
}

impl Substitution {
    /// The bindings in the order in which they were made. The last binding
    /// of a name is the one in force.
    pub closed spec fn log(&self) -> Seq<(Seq<char>, Expr)> {
        entries_of(self.entries@)
    }

    /// The substitution that binds nothing.
    pub fn new() -> (r: Substitution)
        ensures
            r.log() == Seq::<(Seq<char>, Expr)>::empty(),
            r@ == Map::<Seq<char>, Expr>::empty(),
    {
        let r = Substitution { entries: Vec::new() };
        r
    }

    /// The expression that `k` stands for.
    pub fn get(&self, k: &String) -> (r: Option<Expr>)
        ensures
            r == (if self@.contains_key(k@) {
                Some(self@[k@])
            } else {
                None
            }),
    {
        lookup(&self.entries, k)
    }

    /// Binds `k` to `e`.
    pub fn insert(&mut self, k: String, e: Expr)
        ensures
            final(self).log() == old(self).log().push((k@, e)),
            final(self)@ == old(self)@.insert(k@, e),
    {
        let ghost name = k@;
        self.entries.push((k, e));
        proof {
            assert(self.log() =~= old(self).log().push((name, e)));
            lemma_map_of_push(old(self).log(), name, e);
        }
    }

    /// A substitution binds finitely many names.
    pub proof fn lemma_finite(&self)
        ensures
            self@.dom().finite(),
    {
        lemma_map_of_finite(self.log());
    }

    /// The number of bindings made.
    pub fn depth(&self) -> (n: usize)
        ensures
            n == self.log().len(),
    {
        self.entries.len()
    }

    /// Takes back the bindings made since the log had the length given.
    pub fn restore(&mut self, depth: usize)
        ensures
            depth <= old(self).log().len() ==> final(self).log() == old(self).log().take(
                depth as int,
            ),
            depth > old(self).log().len() ==> final(self).log() == old(self).log(),
    {
        self.entries.truncate(depth);
    }

    /// A copy with the same bindings.
    pub fn duplicate(&self) -> (r: Substitution)
        ensures
            r.log() == self.log(),
            r@ == self@,
    {
        let mut entries: Vec<(String, Expr)> = Vec::new();
        let mut i: usize = 0;
        while i < self.entries.len()
            invariant
                i <= self.entries@.len(),
                entries_of(entries@) == entries_of(self.entries@).take(i as int),
            decreases self.entries@.len() - i,
        {
            let ghost before = entries_of(entries@);
            let name = self.entries[i].0.clone();
            entries.push((name, self.entries[i].1));
            proof {
                assert(entries_of(entries@) =~= before.push(
                    (self.entries@[i as int].0@, self.entries@[i as int].1),
                ));
            }
            i = i + 1;
        }
        Substitution { entries }
    }
}

/// Whether two substitutions bind the same names to expressions of the same
/// shape.
pub open spec fn bindings_equal(
    nodes: Seq<Node>,
    a: Map<Seq<char>, Expr>,
    b: Map<Seq<char>, Expr>,
) -> bool {
    &&& forall|k: Seq<char>| a.contains_key(k) <==> b.contains_key(k)
    &&& forall|k: Seq<char>| #[trigger]
        a.contains_key(k) ==> tree_of(nodes, a[k]) == tree_of(nodes, b[k])
}

/// Whether two substitutions bind the same names to expressions of the same
/// shape.
pub fn same_bindings(ast: &Ast, a: &Substitution, b: &Substitution) -> (r: bool)
    requires
        ast.wf(),
    ensures
        r == bindings_equal(ast@, a@, b@),
{
    let mut i: usize = 0;
    while i < a.entries.len()
        invariant
            i <= a.entries@.len(),
            ast.wf(),
            forall|j: int|
                0 <= j < i ==> b@.contains_key((#[trigger] a.log()[j]).0) && tree_of(
                    ast@,
                    a@[a.log()[j].0],
                ) == tree_of(ast@, b@[a.log()[j].0]),
        decreases a.entries@.len() - i,
    {
        let k = &a.entries[i].0;
        proof {
            lemma_find_last_some(a.log(), k@);
            assert(a.log()[i as int].0 == k@);
        }
        let x = a.get(k).unwrap();
        match b.get(k) {
            Some(y) => {
                if !same_tree(ast, x, y) {
                    return false;
                }
            },
            None => {
                return false;
            },
        }
        i = i + 1;
    }
    let mut j: usize = 0;
    while j < b.entries.len()
        invariant
            j <= b.entries@.len(),
            forall|m: int| 0 <= m < j ==> a@.contains_key((#[trigger] b.log()[m]).0),
        decreases b.entries@.len() - j,
    {
        let k = &b.entries[j].0;
        proof {
            assert(b.log()[j as int].0 == k@);
        }
        if a.get(k).is_none() {
            proof {
                lemma_find_last_some(b.log(), k@);
            }
            return false;
        }
        j = j + 1;
    }
    proof {
        assert forall|k: Seq<char>| a@.contains_key(k) implies b@.contains_key(k) && tree_of(
            ast@,
            a@[k],
        ) == tree_of(ast@, b@[k]) by {
            lemma_find_last_some(a.log(), k);
        }
        assert forall|k: Seq<char>| b@.contains_key(k) implies a@.contains_key(k) by {
            lemma_find_last_some(b.log(), k);
        }
    }
    true
}

/// The type of an expression.
#[allow(inconsistent_fields)]
#[derive(Debug)]
pub enum DataType {
    /// The type of the empty constant.
    Empty,
    Value(ValueType),
    /// A function that was not applied: its parameters, the abstraction it
    /// comes from, and the substitution in force where the abstraction
    /// stood.
    FunctionDecl { params: Vec<String>, decl_expr: Expr, param_set: Substitution },
    /// The expression does not terminate, or depends on one that does not.
    Divergent,
}

/// The model of a `DataType`.
#[allow(inconsistent_fields)]
pub enum TypeModel {
    Empty,
    Value(ValueType),
    FunctionDecl { params: Seq<Seq<char>>, decl_expr: Expr, param_set: Map<Seq<char>, Expr> },
    Divergent,
}

impl View for DataType {
    type V = TypeModel;

    open spec fn view(&self) -> TypeModel {
        match self {
            DataType::Empty => TypeModel::Empty,
            DataType::Value(v) => TypeModel::Value(*v),
            DataType::FunctionDecl { params, decl_expr, param_set } => TypeModel::FunctionDecl {
                params: names_of(params@),
                decl_expr: *decl_expr,
                param_set: param_set@,
            },
            DataType::Divergent => TypeModel::Divergent,
        }
    }
}

/// The models of a sequence of types.
pub open spec fn types_of(v: Seq<DataType>) -> Seq<TypeModel> {
    Seq::new(v.len(), |i: int| v[i]@)
}

/// Whether two types are the same. Two function types are the same if they
/// have the same parameters, come from abstractions of the same shape and
/// carry substitutions that bind the same names to expressions of the same
/// shape.
pub open spec fn types_equal(nodes: Seq<Node>, a: TypeModel, b: TypeModel) -> bool {
    match (a, b) {
        (TypeModel::Empty, TypeModel::Empty) => true,
        (TypeModel::Value(x), TypeModel::Value(y)) => x == y,
        (
            TypeModel::FunctionDecl { params: ps, decl_expr: d, param_set: m },
            TypeModel::FunctionDecl { params: qs, decl_expr: e, param_set: n },
        ) => ps == qs && tree_of(nodes, d) == tree_of(nodes, e) && bindings_equal(nodes, m, n),
        (TypeModel::Divergent, TypeModel::Divergent) => true,
        _ => false,
    }
}

/// Whether two types are the same.
pub fn same_type(ast: &Ast, a: &DataType, b: &DataType) -> (r: bool)
    requires
        ast.wf(),
    ensures
        r == types_equal(ast@, a@, b@),
{
    match (a, b) {
        (DataType::Empty, DataType::Empty) => true,
        (DataType::Value(x), DataType::Value(y)) => *x == *y,
        (
            DataType::FunctionDecl { params: ps, decl_expr: d, param_set: m },
            DataType::FunctionDecl { params: qs, decl_expr: e, param_set: n },
        ) => same_names(ps, qs) && same_tree(ast, *d, *e) && same_bindings(ast, m, n),
        (DataType::Divergent, DataType::Divergent) => true,
        _ => false,
    }
}

impl DataType {
    /// Whether this is the type of an expression that does not terminate.
    pub fn is_divergent(&self) -> (r: bool)
        ensures
            r == (self@ is Divergent),
    {
        match self {
            DataType::Divergent => true,
            _ => false,
        }
    }

    /// A copy of this type.
    pub fn duplicate(&self) -> (r: DataType)
        ensures
            r@ == self@,
    {
        match self {
            DataType::Empty => DataType::Empty,
            DataType::Value(v) => DataType::Value(*v),
            DataType::FunctionDecl { params, decl_expr, param_set } => {
                let copy = params.clone();
                DataType::FunctionDecl {
                    params: copy,
                    decl_expr: *decl_expr,
                    param_set: param_set.duplicate(),
                }
            },
            DataType::Divergent => DataType::Divergent,
        }
    }
}

impl Clone for DataType {
    fn clone(&self) -> (r: DataType)
        ensures
            r@ == self@,
    {
        self.duplicate()
    }
}

} // verus!
