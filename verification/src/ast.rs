//! The syntax tree, kept in an arena.
//!
//! An `Expr` is a handle: the index of a node in an `Ast`. Copying a handle
//! shares the node, and two handles are the same expression exactly when
//! their indices are equal, which is what the checker's cycle guard goes by.
//! Contracts speak of an arena through its view, a sequence of `Node`s, and of
//! an expression's shape through `tree_of`, its unfolding into a `Tree`.

use vstd::prelude::*;

verus! {

/// A handle to a node of an `Ast`.
#[derive(Clone, Copy, Debug, PartialEq, Eq, Structural)]
pub struct Expr {
    pub id: usize,
}

/// A constant. A float is kept as the decimal notation it was written in:
/// the library carries such a value along and never computes with it.
#[derive(Debug)]
pub enum ConstExpr {
    Int(i64),
    Float(String),
    Bool(bool),
    Empty,
}

/// What an abstraction stands for: a built-in of the host, by name, or an
/// expression.
#[derive(Debug)]
pub enum AbstractBody {
    Host(String),
    Expr(Expr),
}

/// A node of the syntax tree.
#[derive(Debug)]
#[allow(inconsistent_fields)]
pub enum ExprBody {
    Const(ConstExpr),
    Name(String),
    Apply { target: Expr, params: Vec<Expr> },
    Abstract { params: Vec<String>, body: AbstractBody },
    /// Reserved: every operation of the library rejects it.
    Match { value: Expr, branches: Vec<(String, Expr)> },
    /// The checker's mark for a name that resolves in a circle. No parser
    /// produces it.
    Never,
}

/// The model of a `ConstExpr`.
pub enum Literal {
    Int(i64),
    Float(Seq<char>),
    Bool(bool),
    Empty,
}

/// The model of an `AbstractBody`.
pub enum Body {
    Host(Seq<char>),
    Expr(Expr),
}

/// The model of an `ExprBody`. Of a `Match` it keeps nothing, since nothing
/// reads one.
#[allow(inconsistent_fields)]
pub enum Node {
    Const(Literal),
    Name(Seq<char>),
    Apply { target: Expr, params: Seq<Expr> },
    Abstract { params: Seq<Seq<char>>, body: Body },
    Match,
    Never,
}

/// The views of a sequence of strings.
pub open spec fn names_of(v: Seq<String>) -> Seq<Seq<char>> {
    Seq::new(v.len(), |i: int| v[i]@)
}

impl View for ConstExpr {
    type V = Literal;

    open spec fn view(&self) -> Literal {
        match self {
            ConstExpr::Int(v) => Literal::Int(*v),
            ConstExpr::Float(s) => Literal::Float(s@),
            ConstExpr::Bool(b) => Literal::Bool(*b),
            ConstExpr::Empty => Literal::Empty,
        }
    }
}

impl View for AbstractBody {
    type V = Body;

    open spec fn view(&self) -> Body {
        match self {
            AbstractBody::Host(s) => Body::Host(s@),
            AbstractBody::Expr(e) => Body::Expr(*e),
        }
    }
}

impl View for ExprBody {
    type V = Node;

    open spec fn view(&self) -> Node {
        match self {
            ExprBody::Const(c) => Node::Const(c@),
            ExprBody::Name(s) => Node::Name(s@),
            ExprBody::Apply { target, params } => Node::Apply { target: *target, params: params@ },
            ExprBody::Abstract { params, body } => Node::Abstract {
                params: names_of(params@),
                body: body@,
            },
            ExprBody::Match { .. } => Node::Match,
            ExprBody::Never => Node::Never,
        }
    }
}

/// An expression unfolded: the shape that a handle stands for, without the
/// handles.
#[allow(inconsistent_fields)]
pub enum Tree {
    Const(Literal),
    Name(Seq<char>),
    Apply { target: Box<Tree>, params: Seq<Tree> },
    Abstract { params: Seq<Seq<char>>, body: TreeBody },
    Match,
    Never,
}

/// The body of an unfolded abstraction.
pub enum TreeBody {
    Host(Seq<char>),
    Expr(Box<Tree>),
}

/// Whether every handle in `node` is below `limit`.
pub open spec fn children_below(node: Node, limit: int) -> bool {
    match node {
        Node::Apply { target, params } => target.id < limit && forall|j: int|
            0 <= j < params.len() ==> (#[trigger] params[j]).id < limit,
        Node::Abstract { params, body: Body::Expr(b) } => b.id < limit,
        _ => true,
    }
}

/// Whether every node refers to earlier nodes only.
pub open spec fn well_formed(nodes: Seq<Node>) -> bool {
    forall|i: int| 0 <= i < nodes.len() ==> children_below(#[trigger] nodes[i], i)
}

/// The unfolding of the expression `e` of the arena `nodes`. A handle that
/// the arena does not hold, or that does not point backwards, unfolds to
/// `Never`.
pub open spec fn tree_of(nodes: Seq<Node>, e: Expr) -> Tree
    decreases e.id,
{
    if e.id >= nodes.len() {
        Tree::Never
    } else {
        match nodes[e.id as int] {
            Node::Const(c) => Tree::Const(c),
            Node::Name(s) => Tree::Name(s),
            Node::Apply { target, params } => Tree::Apply {
                target: Box::new(
                    if target.id < e.id {
                        tree_of(nodes, target)
                    } else {
                        Tree::Never
                    },
                ),
                params: Seq::new(
                    params.len(),
                    |j: int|
                        if 0 <= j < params.len() && params[j].id < e.id {
                            tree_of(nodes, params[j])
                        } else {
                            Tree::Never
                        },
                ),
            },
            Node::Abstract { params, body } => Tree::Abstract {
                params,
                body: match body {
                    Body::Host(h) => TreeBody::Host(h),
                    Body::Expr(b) => TreeBody::Expr(
                        Box::new(
                            if b.id < e.id {
                                tree_of(nodes, b)
                            } else {
                                Tree::Never
                            },
                        ),
                    ),
                },
            },
            Node::Match => Tree::Match,
            Node::Never => Tree::Never,
        }
    }
}

/// Whether `a` is the beginning of `b`.
pub open spec fn extends(b: Seq<Node>, a: Seq<Node>) -> bool {
    a.len() <= b.len() && forall|i: int| 0 <= i < a.len() ==> a[i] == b[i]
}

/// Adding nodes to an arena leaves the unfolding of its expressions as it
/// was.
pub proof fn lemma_tree_of_extends(a: Seq<Node>, b: Seq<Node>, e: Expr)
    requires
        extends(b, a),
        e.id < a.len(),
    ensures
        tree_of(b, e) == tree_of(a, e),
    decreases e.id,
{
    match a[e.id as int] {
        Node::Apply { target, params } => {
            if target.id < e.id {
                lemma_tree_of_extends(a, b, target);
            }
            assert forall|j: int| 0 <= j < params.len() && params[j].id < e.id implies tree_of(
                b,
                params[j],
            ) == tree_of(a, params[j]) by {
                lemma_tree_of_extends(a, b, params[j]);
            }
            assert(tree_of(b, e)->Apply_params =~= tree_of(a, e)->Apply_params);
        },
        Node::Abstract { params, body } => {
            match body {
                Body::Expr(x) => {
                    if x.id < e.id {
                        lemma_tree_of_extends(a, b, x);
                    }
                },
                _ => {},
            }
        },
        _ => {},
    }
}

/// An arena of nodes. Each node refers to nodes that were added before it,
/// so the expressions of an arena are finite trees, possibly sharing
/// subtrees.
#[derive(Debug)]
pub struct Ast {
    nodes: Vec<ExprBody>,
}

impl View for Ast {
    type V = Seq<Node>;

    closed spec fn view(&self) -> Seq<Node> {
        Seq::new(self.nodes@.len(), |i: int| self.nodes@[i]@)
    }
}

impl Ast {
    /// Whether every node refers to earlier nodes only. The operations of
    /// an arena keep it so.
    pub open spec fn wf(&self) -> bool {
        well_formed(self@)
    }

    /// An arena without nodes.
    pub fn new() -> (r: Ast)
        ensures
            r@.len() == 0,
            r.wf(),
    {
        Ast { nodes: Vec::new() }
    }

    /// The number of nodes.
    pub fn len(&self) -> (n: usize)
        ensures
            n == self@.len(),
    {
        self.nodes.len()
    }

    /// Whether the arena holds the expression `e`.
    pub open spec fn contains(&self, e: Expr) -> bool {
        e.id < self@.len()
    }

    /// The node of `e`, or `None` for a handle that the arena does not hold.
    pub fn get(&self, e: Expr) -> (r: Option<&ExprBody>)
        ensures
            match r {
                Some(b) => self.contains(e) && b@ == self@[e.id as int],
                None => !self.contains(e),
            },
    {
        if e.id < self.nodes.len() {
            Some(&self.nodes[e.id])
        } else {
            None
        }
    }

    /// The node of `e`.
    pub fn node(&self, e: Expr) -> (b: &ExprBody)
        requires
            self.contains(e),
        ensures
            b@ == self@[e.id as int],
    {
        &self.nodes[e.id]
    }

    /// Adds a node and returns its handle. The node may refer to nodes of
    /// this arena only: otherwise nothing is added and `None` comes back.
    pub fn add(&mut self, body: ExprBody) -> (r: Option<Expr>)
        requires
            old(self).wf(),
        ensures
            final(self).wf(),
            match r {
                Some(e) => {
                    &&& children_below(body@, old(self)@.len() as int)
                    &&& e.id == old(self)@.len()
                    &&& final(self)@ == old(self)@.push(body@)
                },
                None => !children_below(body@, old(self)@.len() as int) && final(self)@ == old(
                    self,
                )@,
            },
    {
        let n = self.nodes.len();
        let ok = match &body {
            ExprBody::Apply { target, params } => {
                let mut ok = target.id < n;
                let mut j: usize = 0;
                while j < params.len()
                    invariant
                        j <= params@.len(),
                        ok == (target.id < n && forall|k: int|
                            0 <= k < j ==> (#[trigger] params@[k]).id < n),
                    decreases params@.len() - j,
                {
                    if params[j].id >= n {
                        ok = false;
                    }
                    j = j + 1;
                }
                ok
            },
            ExprBody::Abstract { params, body: AbstractBody::Expr(b) } => b.id < n,
            _ => true,
        };
        if ok {
            let ghost before = self@;
            self.nodes.push(body);
            proof {
                assert(self@ =~= before.push(body@));
            }
            Some(Expr { id: n })
        } else {
            None
        }
    }
}


/// Whether two lists of names hold the same names in the same order.
pub fn same_names(a: &Vec<String>, b: &Vec<String>) -> (r: bool)
    ensures
        r == (names_of(a@) == names_of(b@)),
{
    if a.len() != b.len() {
        assert(names_of(a@).len() != names_of(b@).len());
        return false;
    }
    let mut i: usize = 0;
    while i < a.len()
        invariant
            i <= a@.len(),
            a@.len() == b@.len(),
            forall|j: int| 0 <= j < i ==> (#[trigger] a@[j])@ == b@[j]@,
        decreases a@.len() - i,
    {
        if !a[i].eq(&b[i]) {
            assert(names_of(a@)[i as int] != names_of(b@)[i as int]);
            return false;
        }
        i = i + 1;
    }
    assert(names_of(a@) =~= names_of(b@));
    true
}

/// Whether two constants are the same.
pub fn same_const(a: &ConstExpr, b: &ConstExpr) -> (r: bool)
    ensures
        r == (a@ == b@),
{
    match (a, b) {
        (ConstExpr::Int(x), ConstExpr::Int(y)) => *x == *y,
        (ConstExpr::Float(x), ConstExpr::Float(y)) => x.eq(y),
        (ConstExpr::Bool(x), ConstExpr::Bool(y)) => *x == *y,
        (ConstExpr::Empty, ConstExpr::Empty) => true,
        _ => false,
    }
}

/// Whether two expressions have the same shape: whether they unfold to the
/// same tree.
pub fn same_tree(ast: &Ast, a: Expr, b: Expr) -> (r: bool)
    requires
        ast.wf(),
    ensures
        r == (tree_of(ast@, a) == tree_of(ast@, b)),
    decreases a.id,
{
    let x = match ast.get(a) {
        Some(x) => x,
        None => {
            return match ast.get(b) {
                Some(ExprBody::Never) => true,
                Some(_) => false,
                None => true,
            };
        },
    };
    let y = match ast.get(b) {
        Some(y) => y,
        None => {
            return match x {
                ExprBody::Never => true,
                _ => false,
            };
        },
    };
    match (x, y) {
        (ExprBody::Const(c), ExprBody::Const(d)) => same_const(c, d),
        (ExprBody::Name(m), ExprBody::Name(n)) => m.eq(n),
        (
            ExprBody::Apply { target: f, params: ps },
            ExprBody::Apply { target: g, params: qs },
        ) => {
            let ghost ta = tree_of(ast@, a);
            let ghost tb = tree_of(ast@, b);
            if !same_tree(ast, *f, *g) {
                return false;
            }
            if ps.len() != qs.len() {
                assert(ta->Apply_params.len() != tb->Apply_params.len());
                return false;
            }
            let mut i: usize = 0;
            while i < ps.len()
                invariant
                    i <= ps@.len(),
                    ps@.len() == qs@.len(),
                    ast.wf(),
                    ast.contains(a),
                    ast.contains(b),
                    ast@[a.id as int] == (Node::Apply { target: *f, params: ps@ }),
                    ast@[b.id as int] == (Node::Apply { target: *g, params: qs@ }),
                    ta == tree_of(ast@, a),
                    tb == tree_of(ast@, b),
                    forall|j: int|
                        0 <= j < i ==> tree_of(ast@, #[trigger] ps@[j]) == tree_of(ast@, qs@[j]),
                decreases ps@.len() - i,
            {
                if !same_tree(ast, ps[i], qs[i]) {
                    assert(ta->Apply_params[i as int] != tb->Apply_params[i as int]);
                    return false;
                }
                i = i + 1;
            }
            assert(ta->Apply_params =~= tb->Apply_params);
            true
        },
        (
            ExprBody::Abstract { params: ps, body: u },
            ExprBody::Abstract { params: qs, body: v },
        ) => {
            if !same_names(ps, qs) {
                return false;
            }
            match (u, v) {
                (AbstractBody::Host(g), AbstractBody::Host(h)) => g.eq(h),
                (AbstractBody::Expr(g), AbstractBody::Expr(h)) => same_tree(ast, *g, *h),
                _ => false,
            }
        },
        (ExprBody::Match { .. }, ExprBody::Match { .. }) => true,
        (ExprBody::Never, ExprBody::Never) => true,
        _ => false,
    }
}

} // verus!
