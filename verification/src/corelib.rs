//! The built-ins: arithmetic, comparison and logic on two operands, and the
//! conditional.
//!
//! Each has a typing rule and an evaluation rule. The typing rules hand
//! `Divergent` on: an operator with a divergent operand is divergent, and a
//! conditional with one divergent branch has the type of the other. The
//! evaluation rules compute on integers and truth values. An operand that is
//! a float makes them fail: floating-point arithmetic is left to hosts that
//! bring their own operators.

use crate::ast::{Ast, Node};
use crate::bindings::entries_of;
use crate::builtin::ValueType;
use crate::datatype::{same_type, types_equal, DataType, TypeModel};
use crate::error::{RuntimeError, RuntimeErrorKind, TypeError};
use crate::host::HostFunction;
use crate::value::{HostStep, RuntimeValue, StepModel, ValueModel};
use vstd::prelude::*;

verus! {

/// An operation on two integers that yields an integer.
#[derive(Clone, Copy, Debug, PartialEq, Eq, Structural)]
pub enum Arith {
    Add,
    Sub,
    Mul,
    Div,
    Mod,
}

/// An operation on two operands that yields a truth value.
#[derive(Clone, Copy, Debug, PartialEq, Eq, Structural)]
pub enum Relation {
    Eq,
    Ne,
    And,
    Or,
    Lt,
    Le,
    Gt,
    Ge,
}

/// A built-in for arithmetic on two numbers.
#[derive(Clone, Copy, Debug)]
pub struct BasicBinop {
    pub int_op: Arith,
}

/// A built-in for comparison and logic on two operands.
#[derive(Clone, Copy, Debug)]
pub struct BasicRelop {
    pub op: Relation,
}

/// The conditional.
#[derive(Clone, Copy, Debug)]
pub struct IfOp;

/// Whether `t` is the type of a number.
pub open spec fn is_numeric(t: TypeModel) -> bool {
    t == TypeModel::Value(ValueType::Int) || t == TypeModel::Value(ValueType::Float)
}

/// The typing rule of arithmetic: two numbers give a number, an integer if
/// both are integers and a float otherwise; a divergent operand gives
/// `Divergent`.
pub open spec fn binop_type(params: Seq<TypeModel>) -> Option<TypeModel> {
    if params.len() != 2 {
        None
    } else if params[0] is Divergent || params[1] is Divergent {
        Some(TypeModel::Divergent)
    } else if is_numeric(params[0]) && is_numeric(params[1]) {
        if params[0] == TypeModel::Value(ValueType::Int) && params[1] == TypeModel::Value(
            ValueType::Int,
        ) {
            Some(TypeModel::Value(ValueType::Int))
        } else {
            Some(TypeModel::Value(ValueType::Float))
        }
    } else {
        None
    }
}

/// The typing rule of comparison and logic: two numbers or two truth values
/// give a truth value; a divergent operand gives `Divergent`.
pub open spec fn relop_type(params: Seq<TypeModel>) -> Option<TypeModel> {
    if params.len() != 2 {
        None
    } else if params[0] is Divergent || params[1] is Divergent {
        Some(TypeModel::Divergent)
    } else if is_numeric(params[0]) && is_numeric(params[1]) {
        Some(TypeModel::Value(ValueType::Bool))
    } else if params[0] == TypeModel::Value(ValueType::Bool) && params[1] == TypeModel::Value(
        ValueType::Bool,
    ) {
        Some(TypeModel::Value(ValueType::Bool))
    } else {
        None
    }
}

/// The typing rule of the conditional. A divergent predicate gives
/// `Divergent`; any other predicate must be a truth value. If one branch is
/// divergent, the type is that of the other branch; else the branches must
/// have the same type, which is the type of the conditional.
pub open spec fn if_type(nodes: Seq<Node>, params: Seq<TypeModel>) -> Option<TypeModel> {
    if params.len() != 3 {
        None
    } else if params[0] is Divergent {
        Some(TypeModel::Divergent)
    } else if params[0] != TypeModel::Value(ValueType::Bool) {
        None
    } else if params[1] is Divergent {
        Some(params[2])
    } else if params[2] is Divergent {
        Some(params[1])
    } else if types_equal(nodes, params[1], params[2]) {
        Some(params[1])
    } else {
        None
    }
}

/// The size of a number, without its sign.
pub open spec fn magnitude(a: int) -> int {
    if a < 0 {
        -a
    } else {
        a
    }
}

/// Division that rounds towards zero.
pub open spec fn trunc_div(a: int, b: int) -> int {
    let q = magnitude(a) / magnitude(b);
    if (a < 0) != (b < 0) {
        -q
    } else {
        q
    }
}

/// The remainder of the division that rounds towards zero: it has the sign
/// of the dividend.
pub open spec fn trunc_rem(a: int, b: int) -> int {
    let r = magnitude(a) % magnitude(b);
    if a < 0 {
        -r
    } else {
        r
    }
}

/// The number that an arithmetic operation yields on two integers, before
/// it is asked whether it fits in 64 bits. The divisor is not zero.
pub open spec fn arith_value(op: Arith, a: int, b: int) -> int {
    match op {
        Arith::Add => a + b,
        Arith::Sub => a - b,
        Arith::Mul => a * b,
        Arith::Div => trunc_div(a, b),
        Arith::Mod => trunc_rem(a, b),
    }
}

/// What an arithmetic operation yields on two integers: division and
/// remainder by zero fail with `DivByZero`, a result that does not fit in 64
/// bits fails with `Custom`.
pub open spec fn arith_step(op: Arith, a: i64, b: i64) -> StepModel {
    if (op == Arith::Div || op == Arith::Mod) && b == 0 {
        StepModel::Fail(RuntimeErrorKind::DivByZero)
    } else {
        let v = arith_value(op, a as int, b as int);
        if i64::MIN <= v <= i64::MAX {
            StepModel::Done(ValueModel::Int(v as i64))
        } else {
            StepModel::Fail(RuntimeErrorKind::Custom)
        }
    }
}

/// What a relation yields on two integers. The logical operations read an
/// integer as true if it is not zero.
pub open spec fn relate_ints(op: Relation, a: i64, b: i64) -> bool {
    match op {
        Relation::Eq => a == b,
        Relation::Ne => a != b,
        Relation::And => a != 0 && b != 0,
        Relation::Or => a != 0 || b != 0,
        Relation::Lt => a < b,
        Relation::Le => a <= b,
        Relation::Gt => a > b,
        Relation::Ge => a >= b,
    }
}

/// What a relation yields on two truth values, of which `false` is the
/// smaller.
pub open spec fn relate_bools(op: Relation, a: bool, b: bool) -> bool {
    match op {
        Relation::Eq => a == b,
        Relation::Ne => a != b,
        Relation::And => a && b,
        Relation::Or => a || b,
        Relation::Lt => !a && b,
        Relation::Le => !a || b,
        Relation::Gt => a && !b,
        Relation::Ge => a || !b,
    }
}

/// The evaluation rule of arithmetic: strict in both operands, left first.
pub open spec fn binop_step(op: Arith, args: Seq<Option<ValueModel>>) -> StepModel {
    if args.len() < 2 {
        StepModel::Fail(RuntimeErrorKind::Fatal)
    } else if args[0] is None {
        StepModel::Force(0)
    } else if args[1] is None {
        StepModel::Force(1)
    } else {
        match (args[0]->0, args[1]->0) {
            (ValueModel::Int(a), ValueModel::Int(b)) => arith_step(op, a, b),
            (ValueModel::Int(_), ValueModel::Float(_)) => StepModel::Fail(RuntimeErrorKind::Custom),
            (ValueModel::Float(_), ValueModel::Int(_)) => StepModel::Fail(RuntimeErrorKind::Custom),
            (ValueModel::Float(_), ValueModel::Float(_)) => StepModel::Fail(
                RuntimeErrorKind::Custom,
            ),
            _ => StepModel::Fail(RuntimeErrorKind::Fatal),
        }
    }
}

/// The evaluation rule of comparison and logic: strict in both operands,
/// left first.
pub open spec fn relop_step(op: Relation, args: Seq<Option<ValueModel>>) -> StepModel {
    if args.len() < 2 {
        StepModel::Fail(RuntimeErrorKind::Fatal)
    } else if args[0] is None {
        StepModel::Force(0)
    } else if args[1] is None {
        StepModel::Force(1)
    } else {
        match (args[0]->0, args[1]->0) {
            (ValueModel::Int(a), ValueModel::Int(b)) => StepModel::Done(
                ValueModel::Bool(relate_ints(op, a, b)),
            ),
            (ValueModel::Bool(a), ValueModel::Bool(b)) => StepModel::Done(
                ValueModel::Bool(relate_bools(op, a, b)),
            ),
            (ValueModel::Int(_), ValueModel::Float(_)) => StepModel::Fail(RuntimeErrorKind::Custom),
            (ValueModel::Float(_), ValueModel::Int(_)) => StepModel::Fail(RuntimeErrorKind::Custom),
            (ValueModel::Float(_), ValueModel::Float(_)) => StepModel::Fail(
                RuntimeErrorKind::Custom,
            ),
            _ => StepModel::Fail(RuntimeErrorKind::Fatal),
        }
    }
}

/// The evaluation rule of the conditional: strict in the predicate, then
/// exactly one of the branches is forced, and its value is the result.
pub open spec fn if_step(args: Seq<Option<ValueModel>>) -> StepModel {
    if args.len() < 3 {
        StepModel::Fail(RuntimeErrorKind::Fatal)
    } else {
        match args[0] {
            None => StepModel::Force(0),
            Some(ValueModel::Bool(true)) => match args[1] {
                None => StepModel::Force(1),
                Some(v) => StepModel::Done(v),
            },
            Some(ValueModel::Bool(false)) => match args[2] {
                None => StepModel::Force(2),
                Some(v) => StepModel::Done(v),
            },
            Some(_) => StepModel::Fail(RuntimeErrorKind::Fatal),
        }
    }
}

fn numeric(t: &DataType) -> (r: bool)
    ensures
        r == is_numeric(t@),
{
    match t {
        DataType::Value(ValueType::Int) => true,
        DataType::Value(ValueType::Float) => true,
        _ => false,
    }
}

fn integer(t: &DataType) -> (r: bool)
    ensures
        r == (t@ == TypeModel::Value(ValueType::Int)),
{
    match t {
        DataType::Value(ValueType::Int) => true,
        _ => false,
    }
}

fn truth(t: &DataType) -> (r: bool)
    ensures
        r == (t@ == TypeModel::Value(ValueType::Bool)),
{
    match t {
        DataType::Value(ValueType::Bool) => true,
        _ => false,
    }
}

/// The quotient of two integers, rounded towards zero, if it fits.
fn div_trunc(a: i64, b: i64) -> (r: Option<i64>)
    requires
        b != 0,
    ensures
        r == (if trunc_div(a as int, b as int) <= i64::MAX {
            Some(trunc_div(a as int, b as int) as i64)
        } else {
            None
        }),
        i64::MIN <= trunc_div(a as int, b as int),
{
    let x: i128 = a as i128;
    let y: i128 = b as i128;
    let ax: i128 = if x < 0 {
        -x
    } else {
        x
    };
    let ay: i128 = if y < 0 {
        -y
    } else {
        y
    };
    let q: i128 = ax / ay;
    proof {
        assert(0 <= q <= ax) by (nonlinear_arith)
            requires
                q == ax / ay,
                0 <= ax,
                0 < ay,
        ;
    }
    let signed: i128 = if (x < 0) != (y < 0) {
        -q
    } else {
        q
    };
    if signed > 9223372036854775807i128 {
        None
    } else {
        Some(signed as i64)
    }
}

/// The remainder of the division of two integers that rounds towards zero.
fn rem_trunc(a: i64, b: i64) -> (r: i64)
    requires
        b != 0,
    ensures
        r == trunc_rem(a as int, b as int),
{
    let x: i128 = a as i128;
    let y: i128 = b as i128;
    let ax: i128 = if x < 0 {
        -x
    } else {
        x
    };
    let ay: i128 = if y < 0 {
        -y
    } else {
        y
    };
    let m: i128 = ax % ay;
    proof {
        assert(0 <= m <= ax) by (nonlinear_arith)
            requires
                m == ax % ay,
                0 <= ax,
                0 < ay,
        ;
    }
    let signed: i128 = if x < 0 {
        -m
    } else {
        m
    };
    signed as i64
}

fn out_of_range() -> (r: HostStep)
    ensures
        r@ == StepModel::Fail(RuntimeErrorKind::Custom),
{
    HostStep::Fail(RuntimeError::Custom("integer overflow".to_string()))
}

fn no_floats() -> (r: HostStep)
    ensures
        r@ == StepModel::Fail(RuntimeErrorKind::Custom),
{
    HostStep::Fail(
        RuntimeError::Custom("floating-point operands need a host with float operators".to_string()),
    )
}

fn mismatch() -> (r: HostStep)
    ensures
        r@ == StepModel::Fail(RuntimeErrorKind::Fatal),
{
    HostStep::Fail(RuntimeError::Fatal("bug: type mismatch".to_string()))
}

/// An arithmetic operation on two integers.
pub fn arith(op: Arith, a: i64, b: i64) -> (r: HostStep)
    ensures
        r@ == arith_step(op, a, b),
{
    let v: Option<i64> = match op {
        Arith::Add => a.checked_add(b),
        Arith::Sub => a.checked_sub(b),
        Arith::Mul => a.checked_mul(b),
        Arith::Div => {
            if b == 0 {
                return HostStep::Fail(RuntimeError::DivByZero);
            }
            div_trunc(a, b)
        },
        Arith::Mod => {
            if b == 0 {
                return HostStep::Fail(RuntimeError::DivByZero);
            }
            Some(rem_trunc(a, b))
        },
    };
    match v {
        Some(v) => HostStep::Done(RuntimeValue::Int(v)),
        None => out_of_range(),
    }
}

/// A relation on two integers.
pub fn relate_i64(op: Relation, a: i64, b: i64) -> (r: bool)
    ensures
        r == relate_ints(op, a, b),
{
    match op {
        Relation::Eq => a == b,
        Relation::Ne => a != b,
        Relation::And => a != 0 && b != 0,
        Relation::Or => a != 0 || b != 0,
        Relation::Lt => a < b,
        Relation::Le => a <= b,
        Relation::Gt => a > b,
        Relation::Ge => a >= b,
    }
}

/// A relation on two truth values.
pub fn relate_bool(op: Relation, a: bool, b: bool) -> (r: bool)
    ensures
        r == relate_bools(op, a, b),
{
    match op {
        Relation::Eq => a == b,
        Relation::Ne => a != b,
        Relation::And => a && b,
        Relation::Or => a || b,
        Relation::Lt => !a && b,
        Relation::Le => !a || b,
        Relation::Gt => a && !b,
        Relation::Ge => a || !b,
    }
}

/// The type error with the message given.
fn type_error(msg: &str) -> (r: Result<DataType, TypeError>)
    ensures
        r matches Err(TypeError::Custom(text)) && text@ == msg@,
{
    Err(TypeError::Custom(String::from_str(msg)))
}

impl HostFunction for BasicBinop {
    open spec fn typeck_spec(&self, nodes: Seq<Node>, params: Seq<TypeModel>) -> Option<
        TypeModel,
    > {
        binop_type(params)
    }

    fn typeck(&self, ast: &Ast, params: &[DataType]) -> (r: Result<DataType, TypeError>) {
        if params.len() != 2 {
            return type_error("invalid param count for binary operator");
        }
        if params[0].is_divergent() || params[1].is_divergent() {
            return Ok(DataType::Divergent);
        }
        if numeric(&params[0]) && numeric(&params[1]) {
            if integer(&params[0]) && integer(&params[1]) {
                Ok(DataType::Value(ValueType::Int))
            } else {
                Ok(DataType::Value(ValueType::Float))
            }
        } else {
            type_error("unsupported types for binary operator")
        }
    }

    open spec fn eval_spec(&self, args: Seq<Option<ValueModel>>) -> StepModel {
        binop_step(self.int_op, args)
    }

    fn eval(&self, args: &[Option<RuntimeValue>]) -> (r: HostStep) {
        if args.len() < 2 {
            return mismatch();
        }
        let left = match &args[0] {
            None => {
                return HostStep::Force(0);
            },
            Some(v) => v,
        };
        let right = match &args[1] {
            None => {
                return HostStep::Force(1);
            },
            Some(v) => v,
        };
        match (left, right) {
            (RuntimeValue::Int(a), RuntimeValue::Int(b)) => arith(self.int_op, *a, *b),
            (RuntimeValue::Int(_), RuntimeValue::Float(_)) => no_floats(),
            (RuntimeValue::Float(_), RuntimeValue::Int(_)) => no_floats(),
            (RuntimeValue::Float(_), RuntimeValue::Float(_)) => no_floats(),
            _ => mismatch(),
        }
    }
}

impl HostFunction for BasicRelop {
    open spec fn typeck_spec(&self, nodes: Seq<Node>, params: Seq<TypeModel>) -> Option<
        TypeModel,
    > {
        relop_type(params)
    }

    fn typeck(&self, ast: &Ast, params: &[DataType]) -> (r: Result<DataType, TypeError>) {
        if params.len() != 2 {
            return type_error("invalid param count for rel operator");
        }
        if params[0].is_divergent() || params[1].is_divergent() {
            return Ok(DataType::Divergent);
        }
        if numeric(&params[0]) && numeric(&params[1]) {
            Ok(DataType::Value(ValueType::Bool))
        } else if truth(&params[0]) && truth(&params[1]) {
            Ok(DataType::Value(ValueType::Bool))
        } else {
            type_error("unsupported types for rel operator")
        }
    }

    open spec fn eval_spec(&self, args: Seq<Option<ValueModel>>) -> StepModel {
        relop_step(self.op, args)
    }

    fn eval(&self, args: &[Option<RuntimeValue>]) -> (r: HostStep) {
        if args.len() < 2 {
            return mismatch();
        }
        let left = match &args[0] {
            None => {
                return HostStep::Force(0);
            },
            Some(v) => v,
        };
        let right = match &args[1] {
            None => {
                return HostStep::Force(1);
            },
            Some(v) => v,
        };
        match (left, right) {
            (RuntimeValue::Int(a), RuntimeValue::Int(b)) => HostStep::Done(
                RuntimeValue::Bool(relate_i64(self.op, *a, *b)),
            ),
            (RuntimeValue::Bool(a), RuntimeValue::Bool(b)) => HostStep::Done(
                RuntimeValue::Bool(relate_bool(self.op, *a, *b)),
            ),
            (RuntimeValue::Int(_), RuntimeValue::Float(_)) => no_floats(),
            (RuntimeValue::Float(_), RuntimeValue::Int(_)) => no_floats(),
            (RuntimeValue::Float(_), RuntimeValue::Float(_)) => no_floats(),
            _ => mismatch(),
        }
    }
}

impl HostFunction for IfOp {
    open spec fn typeck_spec(&self, nodes: Seq<Node>, params: Seq<TypeModel>) -> Option<
        TypeModel,
    > {
        if_type(nodes, params)
    }

    fn typeck(&self, ast: &Ast, params: &[DataType]) -> (r: Result<DataType, TypeError>) {
        if params.len() != 3 {
            return type_error("invalid param count for if operator");
        }
        if params[0].is_divergent() {
            return Ok(DataType::Divergent);
        }
        if !truth(&params[0]) {
            return type_error("if predicate must be of bool type");
        }
        if params[1].is_divergent() {
            Ok(params[2].duplicate())
        } else if params[2].is_divergent() {
            Ok(params[1].duplicate())
        } else if same_type(ast, &params[1], &params[2]) {
            Ok(params[1].duplicate())
        } else {
            type_error("invalid operand types for if operator")
        }
    }

    open spec fn eval_spec(&self, args: Seq<Option<ValueModel>>) -> StepModel {
        if_step(args)
    }

    fn eval(&self, args: &[Option<RuntimeValue>]) -> (r: HostStep) {
        if args.len() < 3 {
            return mismatch();
        }
        match &args[0] {
            None => HostStep::Force(0),
            Some(RuntimeValue::Bool(true)) => match &args[1] {
                None => HostStep::Force(1),
                Some(v) => HostStep::Done(v.duplicate()),
            },
            Some(RuntimeValue::Bool(false)) => match &args[2] {
                None => HostStep::Force(2),
                Some(v) => HostStep::Done(v.duplicate()),
            },
            Some(_) => mismatch(),
        }
    }
}


/// A built-in of this library.
#[derive(Clone, Copy, Debug)]
pub enum CoreOp {
    Binop(BasicBinop),
    Relop(BasicRelop),
    If(IfOp),
}

impl HostFunction for CoreOp {
    open spec fn typeck_spec(&self, nodes: Seq<Node>, params: Seq<TypeModel>) -> Option<
        TypeModel,
    > {
        match self {
            CoreOp::Binop(op) => op.typeck_spec(nodes, params),
            CoreOp::Relop(op) => op.typeck_spec(nodes, params),
            CoreOp::If(op) => op.typeck_spec(nodes, params),
        }
    }

    fn typeck(&self, ast: &Ast, params: &[DataType]) -> (r: Result<DataType, TypeError>) {
        match self {
            CoreOp::Binop(op) => op.typeck(ast, params),
            CoreOp::Relop(op) => op.typeck(ast, params),
            CoreOp::If(op) => op.typeck(ast, params),
        }
    }

    open spec fn eval_spec(&self, args: Seq<Option<ValueModel>>) -> StepModel {
        match self {
            CoreOp::Binop(op) => op.eval_spec(args),
            CoreOp::Relop(op) => op.eval_spec(args),
            CoreOp::If(op) => op.eval_spec(args),
        }
    }

    fn eval(&self, args: &[Option<RuntimeValue>]) -> (r: HostStep) {
        match self {
            CoreOp::Binop(op) => op.eval(args),
            CoreOp::Relop(op) => op.eval(args),
            CoreOp::If(op) => op.eval(args),
        }
    }
}

/// An arithmetic operator with a divergent operand is divergent.
pub proof fn lemma_binop_divergent(op: BasicBinop, nodes: Seq<Node>, params: Seq<TypeModel>)
    requires
        params.len() == 2,
        params[0] is Divergent || params[1] is Divergent,
    ensures
        op.typeck_spec(nodes, params) == Some(TypeModel::Divergent),
{
}

/// A comparison or logical operator with a divergent operand is divergent.
pub proof fn lemma_relop_divergent(op: BasicRelop, nodes: Seq<Node>, params: Seq<TypeModel>)
    requires
        params.len() == 2,
        params[0] is Divergent || params[1] is Divergent,
    ensures
        op.typeck_spec(nodes, params) == Some(TypeModel::Divergent),
{
}

/// A conditional with a divergent predicate is divergent. With a predicate
/// that is a truth value, a divergent branch leaves the type of the other
/// branch, so two divergent branches are divergent.
pub proof fn lemma_if_divergent(op: IfOp, nodes: Seq<Node>, params: Seq<TypeModel>)
    requires
        params.len() == 3,
    ensures
        params[0] is Divergent ==> op.typeck_spec(nodes, params) == Some(TypeModel::Divergent),
        params[0] == TypeModel::Value(ValueType::Bool) && params[1] is Divergent
            ==> op.typeck_spec(nodes, params) == Some(params[2]),
        params[0] == TypeModel::Value(ValueType::Bool) && params[2] is Divergent
            && !(params[1] is Divergent) ==> op.typeck_spec(nodes, params) == Some(params[1]),
        params[0] == TypeModel::Value(ValueType::Bool) && params[1] is Divergent
            && params[2] is Divergent ==> op.typeck_spec(nodes, params) == Some(
            TypeModel::Divergent,
        ),
{
}

/// The same of the three kinds of built-in, taken as one type.
pub proof fn lemma_core_op_divergent(op: CoreOp, nodes: Seq<Node>, params: Seq<TypeModel>)
    ensures
        !(op is If) && params.len() == 2 && (params[0] is Divergent || params[1] is Divergent)
            ==> op.typeck_spec(nodes, params) == Some(TypeModel::Divergent),
        op is If && params.len() == 3 && params[0] is Divergent ==> op.typeck_spec(nodes, params)
            == Some(TypeModel::Divergent),
{
}

/// The names of the arithmetic built-ins, with what each computes.
pub open spec fn core_binops() -> Seq<(Seq<char>, CoreOp)> {
    seq![
        ("add"@, CoreOp::Binop(BasicBinop { int_op: Arith::Add })),
        ("sub"@, CoreOp::Binop(BasicBinop { int_op: Arith::Sub })),
        ("mul"@, CoreOp::Binop(BasicBinop { int_op: Arith::Mul })),
        ("div"@, CoreOp::Binop(BasicBinop { int_op: Arith::Div })),
        ("mod"@, CoreOp::Binop(BasicBinop { int_op: Arith::Mod })),
    ]
}

/// The names of the built-ins for comparison and logic, with what each
/// computes.
pub open spec fn core_relops() -> Seq<(Seq<char>, CoreOp)> {
    seq![
        ("eq"@, CoreOp::Relop(BasicRelop { op: Relation::Eq })),
        ("ne"@, CoreOp::Relop(BasicRelop { op: Relation::Ne })),
        ("and"@, CoreOp::Relop(BasicRelop { op: Relation::And })),
        ("or"@, CoreOp::Relop(BasicRelop { op: Relation::Or })),
        ("lt"@, CoreOp::Relop(BasicRelop { op: Relation::Lt })),
        ("le"@, CoreOp::Relop(BasicRelop { op: Relation::Le })),
        ("gt"@, CoreOp::Relop(BasicRelop { op: Relation::Gt })),
        ("ge"@, CoreOp::Relop(BasicRelop { op: Relation::Ge })),
    ]
}

/// The name of the conditional.
pub open spec fn core_ifop() -> Seq<(Seq<char>, CoreOp)> {
    seq![("if"@, CoreOp::If(IfOp))]
}

/// The built-ins of this library.
pub struct HostManager {
    binops: Vec<(String, BasicBinop)>,
    relops: Vec<(String, BasicRelop)>,
    ifop: IfOp,
}

fn binop(name: &str, int_op: Arith) -> (r: (String, BasicBinop))
    ensures
        r.0@ == name@,
        r.1.int_op == int_op,
{
    (String::from_str(name), BasicBinop { int_op })
}

fn relop(name: &str, op: Relation) -> (r: (String, BasicRelop))
    ensures
        r.0@ == name@,
        r.1.op == op,
{
    (String::from_str(name), BasicRelop { op })
}

impl HostManager {
    /// The arithmetic built-ins, as the manager holds them.
    pub closed spec fn binops(&self) -> Seq<(Seq<char>, CoreOp)> {
        Seq::new(
            self.binops@.len(),
            |i: int| (self.binops@[i].0@, CoreOp::Binop(self.binops@[i].1)),
        )
    }

    /// The built-ins for comparison and logic, as the manager holds them.
    pub closed spec fn relops(&self) -> Seq<(Seq<char>, CoreOp)> {
        Seq::new(
            self.relops@.len(),
            |i: int| (self.relops@[i].0@, CoreOp::Relop(self.relops@[i].1)),
        )
    }

    /// A manager of the built-ins: `add sub mul div mod`, `eq ne and or lt
    /// le gt ge`, and `if`.
    pub fn new() -> (r: HostManager)
        ensures
            r.binops() == core_binops(),
            r.relops() == core_relops(),
    {
        let mut binops: Vec<(String, BasicBinop)> = Vec::new();
        binops.push(binop("add", Arith::Add));
        binops.push(binop("sub", Arith::Sub));
        binops.push(binop("mul", Arith::Mul));
        binops.push(binop("div", Arith::Div));
        binops.push(binop("mod", Arith::Mod));
        let mut relops: Vec<(String, BasicRelop)> = Vec::new();
        relops.push(relop("eq", Relation::Eq));
        relops.push(relop("ne", Relation::Ne));
        relops.push(relop("and", Relation::And));
        relops.push(relop("or", Relation::Or));
        relops.push(relop("lt", Relation::Lt));
        relops.push(relop("le", Relation::Le));
        relops.push(relop("gt", Relation::Gt));
        relops.push(relop("ge", Relation::Ge));
        let r = HostManager { binops, relops, ifop: IfOp };
        r
    }

    /// The arithmetic built-ins, each under its name.
    pub fn get_binops(&self) -> (r: Vec<(String, CoreOp)>)
        ensures
            entries_of(r@) == self.binops(),
    {
        let mut r: Vec<(String, CoreOp)> = Vec::new();
        let mut i: usize = 0;
        while i < self.binops.len()
            invariant
                i <= self.binops@.len(),
                entries_of(r@) == self.binops().take(i as int),
            decreases self.binops@.len() - i,
        {
            let ghost before = entries_of(r@);
            let name = self.binops[i].0.clone();
            r.push((name, CoreOp::Binop(self.binops[i].1)));
            proof {
                assert(entries_of(r@) =~= before.push(self.binops()[i as int]));
            }
            i = i + 1;
        }
        r
    }

    /// The built-ins for comparison and logic, each under its name.
    pub fn get_relops(&self) -> (r: Vec<(String, CoreOp)>)
        ensures
            entries_of(r@) == self.relops(),
    {
        let mut r: Vec<(String, CoreOp)> = Vec::new();
        let mut i: usize = 0;
        while i < self.relops.len()
            invariant
                i <= self.relops@.len(),
                entries_of(r@) == self.relops().take(i as int),
            decreases self.relops@.len() - i,
        {
            let ghost before = entries_of(r@);
            let name = self.relops[i].0.clone();
            r.push((name, CoreOp::Relop(self.relops[i].1)));
            proof {
                assert(entries_of(r@) =~= before.push(self.relops()[i as int]));
            }
            i = i + 1;
        }
        r
    }

    /// The conditional, under its name.
    pub fn get_ifop(&self) -> (r: Vec<(String, CoreOp)>)
        ensures
            entries_of(r@) == core_ifop(),
    {
        let mut r: Vec<(String, CoreOp)> = Vec::new();
        r.push((String::from_str("if"), CoreOp::If(self.ifop)));
        r
    }
}

} // verus!
