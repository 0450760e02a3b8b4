use x_lang::ast::{AbstractBody, Ast, ConstExpr, Expr, ExprBody};
use x_lang::builtin::ValueType;
use x_lang::corelib::{
    arith, relate_bool, relate_i64, Arith, BasicBinop, BasicRelop, CoreOp, HostManager, IfOp,
    Relation,
};
use x_lang::datatype::{same_bindings, same_type, DataType, Substitution};
use x_lang::ast::same_tree;
use x_lang::error::RuntimeError;
use x_lang::host::{HostFunction, HostTable};
use x_lang::typeck::{Resolution, TypeResolveState};
use x_lang::value::{HostStep, RuntimeValue};

fn int_type() -> DataType {
    DataType::Value(ValueType::Int)
}

fn float_type() -> DataType {
    DataType::Value(ValueType::Float)
}

fn bool_type() -> DataType {
    DataType::Value(ValueType::Bool)
}

fn is(t: &Result<DataType, x_lang::error::TypeError>, v: ValueType) -> bool {
    matches!(t, Ok(DataType::Value(x)) if *x == v)
}

#[test]
fn arithmetic_types() {
    let ast = Ast::new();
    let op = BasicBinop { int_op: Arith::Add };
    assert!(is(&op.typeck(&ast, &[int_type(), int_type()]), ValueType::Int));
    assert!(is(&op.typeck(&ast, &[int_type(), float_type()]), ValueType::Float));
    assert!(is(&op.typeck(&ast, &[float_type(), int_type()]), ValueType::Float));
    assert!(is(&op.typeck(&ast, &[float_type(), float_type()]), ValueType::Float));
    assert!(op.typeck(&ast, &[int_type(), bool_type()]).is_err());
    assert!(op.typeck(&ast, &[DataType::Empty, int_type()]).is_err());
    assert!(op.typeck(&ast, &[int_type()]).is_err());
    assert!(op.typeck(&ast, &[int_type(), int_type(), int_type()]).is_err());
}

#[test]
fn comparison_types() {
    let ast = Ast::new();
    let op = BasicRelop { op: Relation::Lt };
    assert!(is(&op.typeck(&ast, &[int_type(), int_type()]), ValueType::Bool));
    assert!(is(&op.typeck(&ast, &[int_type(), float_type()]), ValueType::Bool));
    assert!(is(&op.typeck(&ast, &[bool_type(), bool_type()]), ValueType::Bool));
    assert!(op.typeck(&ast, &[bool_type(), int_type()]).is_err());
    assert!(op.typeck(&ast, &[int_type()]).is_err());
}

#[test]
fn divergent_operand_makes_the_operator_divergent() {
    let ast = Ast::new();
    let hm = HostManager::new();
    let mut ops = hm.get_binops();
    ops.extend(hm.get_relops());
    assert_eq!(ops.len(), 13);
    for (_, op) in ops {
        let left = op.typeck(&ast, &[DataType::Divergent, int_type()]);
        assert!(matches!(left, Ok(DataType::Divergent)));
        let right = op.typeck(&ast, &[bool_type(), DataType::Divergent]);
        assert!(matches!(right, Ok(DataType::Divergent)));
        let both = op.typeck(&ast, &[DataType::Divergent, DataType::Divergent]);
        assert!(matches!(both, Ok(DataType::Divergent)));
    }
}

#[test]
fn conditional_types() {
    let ast = Ast::new();
    let op = IfOp;
    assert!(is(&op.typeck(&ast, &[bool_type(), int_type(), int_type()]), ValueType::Int));
    assert!(op.typeck(&ast, &[bool_type(), int_type(), float_type()]).is_err());
    assert!(op.typeck(&ast, &[int_type(), int_type(), int_type()]).is_err());
    assert!(op.typeck(&ast, &[bool_type(), int_type()]).is_err());
    assert!(matches!(op.typeck(&ast, &[bool_type(), DataType::Empty, DataType::Empty]), Ok(DataType::Empty)));
    // Divergence.
    let d = || DataType::Divergent;
    assert!(matches!(op.typeck(&ast, &[d(), int_type(), float_type()]), Ok(DataType::Divergent)));
    assert!(is(&op.typeck(&ast, &[bool_type(), d(), float_type()]), ValueType::Float));
    assert!(is(&op.typeck(&ast, &[bool_type(), int_type(), d()]), ValueType::Int));
    assert!(matches!(op.typeck(&ast, &[bool_type(), d(), d()]), Ok(DataType::Divergent)));
    // A predicate that is no truth value is an error whatever the branches.
    assert!(op.typeck(&ast, &[int_type(), d(), d()]).is_err());
}

fn int_of(step: HostStep) -> i64 {
    match step {
        HostStep::Done(RuntimeValue::Int(v)) => v,
        _ => panic!("no integer"),
    }
}

#[test]
fn integer_arithmetic() {
    assert_eq!(int_of(arith(Arith::Add, 40, 2)), 42);
    assert_eq!(int_of(arith(Arith::Sub, 40, 2)), 38);
    assert_eq!(int_of(arith(Arith::Mul, -6, 7)), -42);
    assert_eq!(int_of(arith(Arith::Div, 7, 2)), 3);
    assert_eq!(int_of(arith(Arith::Div, -7, 2)), -3);
    assert_eq!(int_of(arith(Arith::Div, 7, -2)), -3);
    assert_eq!(int_of(arith(Arith::Div, -7, -2)), 3);
    assert_eq!(int_of(arith(Arith::Mod, 7, 2)), 1);
    assert_eq!(int_of(arith(Arith::Mod, -7, 2)), -1);
    assert_eq!(int_of(arith(Arith::Mod, 7, -2)), 1);
    assert_eq!(int_of(arith(Arith::Mod, -7, -2)), -1);
    assert_eq!(int_of(arith(Arith::Mod, i64::MIN, -1)), 0);
    assert_eq!(int_of(arith(Arith::Div, i64::MIN, 1)), i64::MIN);
    assert_eq!(int_of(arith(Arith::Add, i64::MAX, 0)), i64::MAX);
}

#[test]
fn integer_arithmetic_errors() {
    assert!(matches!(arith(Arith::Div, 5, 0), HostStep::Fail(RuntimeError::DivByZero)));
    assert!(matches!(arith(Arith::Mod, 5, 0), HostStep::Fail(RuntimeError::DivByZero)));
    assert!(matches!(arith(Arith::Add, i64::MAX, 1), HostStep::Fail(RuntimeError::Custom(_))));
    assert!(matches!(arith(Arith::Sub, i64::MIN, 1), HostStep::Fail(RuntimeError::Custom(_))));
    assert!(matches!(arith(Arith::Mul, i64::MAX, 2), HostStep::Fail(RuntimeError::Custom(_))));
    assert!(matches!(arith(Arith::Div, i64::MIN, -1), HostStep::Fail(RuntimeError::Custom(_))));
}

#[test]
fn relations_on_integers_and_truth_values() {
    assert!(relate_i64(Relation::Eq, 3, 3));
    assert!(!relate_i64(Relation::Eq, 3, 4));
    assert!(relate_i64(Relation::Ne, 3, 4));
    assert!(relate_i64(Relation::Lt, 3, 4));
    assert!(!relate_i64(Relation::Lt, 4, 4));
    assert!(relate_i64(Relation::Le, 4, 4));
    assert!(relate_i64(Relation::Gt, 5, 4));
    assert!(relate_i64(Relation::Ge, 4, 4));
    assert!(relate_i64(Relation::And, 2, -1));
    assert!(!relate_i64(Relation::And, 2, 0));
    assert!(relate_i64(Relation::Or, 0, 5));
    assert!(!relate_i64(Relation::Or, 0, 0));
    assert!(relate_bool(Relation::Lt, false, true));
    assert!(!relate_bool(Relation::Lt, true, true));
    assert!(relate_bool(Relation::Le, true, true));
    assert!(relate_bool(Relation::Gt, true, false));
    assert!(relate_bool(Relation::Ge, false, false));
    assert!(relate_bool(Relation::And, true, true));
    assert!(!relate_bool(Relation::And, true, false));
    assert!(relate_bool(Relation::Or, false, true));
    assert!(relate_bool(Relation::Ne, false, true));
    assert!(relate_bool(Relation::Eq, false, false));
}

#[test]
fn operators_force_left_then_right() {
    let op = BasicBinop { int_op: Arith::Sub };
    assert!(matches!(op.eval(&[None, None]), HostStep::Force(0)));
    assert!(matches!(op.eval(&[Some(RuntimeValue::Int(9)), None]), HostStep::Force(1)));
    let done = op.eval(&[Some(RuntimeValue::Int(9)), Some(RuntimeValue::Int(4))]);
    assert_eq!(int_of(done), 5);
    assert!(matches!(op.eval(&[None]), HostStep::Fail(RuntimeError::Fatal(_))));
    let rel = BasicRelop { op: Relation::Ge };
    assert!(matches!(rel.eval(&[None, Some(RuntimeValue::Int(1))]), HostStep::Force(0)));
    let done = rel.eval(&[Some(RuntimeValue::Bool(false)), Some(RuntimeValue::Bool(true))]);
    assert!(matches!(done, HostStep::Done(RuntimeValue::Bool(false))));
    let mixed = rel.eval(&[Some(RuntimeValue::Bool(false)), Some(RuntimeValue::Int(1))]);
    assert!(matches!(mixed, HostStep::Fail(RuntimeError::Fatal(_))));
}

#[test]
fn conditional_forces_the_predicate_and_one_branch() {
    let op = IfOp;
    assert!(matches!(op.eval(&[None, None, None]), HostStep::Force(0)));
    let t = || Some(RuntimeValue::Bool(true));
    let f = || Some(RuntimeValue::Bool(false));
    assert!(matches!(op.eval(&[t(), None, None]), HostStep::Force(1)));
    assert!(matches!(op.eval(&[f(), None, None]), HostStep::Force(2)));
    let first = op.eval(&[t(), Some(RuntimeValue::Int(1)), None]);
    assert_eq!(int_of(first), 1);
    let second = op.eval(&[f(), None, Some(RuntimeValue::Int(2))]);
    assert_eq!(int_of(second), 2);
    let bad = op.eval(&[Some(RuntimeValue::Int(1)), None, None]);
    assert!(matches!(bad, HostStep::Fail(RuntimeError::Fatal(_))));
    assert!(matches!(op.eval(&[t(), None]), HostStep::Fail(RuntimeError::Fatal(_))));
}

#[test]
fn host_manager_names() {
    let hm = HostManager::new();
    let names: Vec<String> = hm.get_binops().into_iter().map(|(n, _)| n).collect();
    assert_eq!(names, vec!["add", "sub", "mul", "div", "mod"]);
    let names: Vec<String> = hm.get_relops().into_iter().map(|(n, _)| n).collect();
    assert_eq!(names, vec!["eq", "ne", "and", "or", "lt", "le", "gt", "ge"]);
    let ifop = hm.get_ifop();
    assert_eq!(ifop.len(), 1);
    assert_eq!(ifop[0].0, "if");
    assert!(matches!(ifop[0].1, CoreOp::If(_)));
    let div = hm.get_binops().into_iter().find(|(n, _)| n == "div").unwrap().1;
    let done = div.eval(&[Some(RuntimeValue::Int(9)), Some(RuntimeValue::Int(2))]);
    assert_eq!(int_of(done), 4);
}

#[test]
fn host_table_keeps_the_last_entry_of_a_name() {
    let mut table: HostTable<u32> = HostTable::new();
    assert!(table.get(&"a".to_string()).is_none());
    table.add_hosts(vec![("a".to_string(), 1), ("b".to_string(), 2), ("a".to_string(), 3)]);
    assert_eq!(table.get(&"a".to_string()), Some(&3));
    assert_eq!(table.get(&"b".to_string()), Some(&2));
    table.add_hosts(vec![("b".to_string(), 4)]);
    assert_eq!(table.get(&"b".to_string()), Some(&4));
    assert_eq!(table.get(&"a".to_string()), Some(&3));
}

fn lambda(ast: &mut Ast, value: i64) -> Expr {
    let body = ast.add(ExprBody::Const(ConstExpr::Int(value))).unwrap();
    ast.add(ExprBody::Abstract { params: vec![], body: AbstractBody::Expr(body) }).unwrap()
}

#[test]
fn expressions_are_compared_by_shape() {
    let mut ast = Ast::new();
    let a = lambda(&mut ast, 1);
    let b = lambda(&mut ast, 1);
    let c = lambda(&mut ast, 2);
    assert_ne!(a, b);
    assert!(same_tree(&ast, a, b));
    assert!(!same_tree(&ast, a, c));
    let x = ast.add(ExprBody::Name("x".to_string())).unwrap();
    let y = ast.add(ExprBody::Name("y".to_string())).unwrap();
    let ax = ast.add(ExprBody::Apply { target: a, params: vec![x] }).unwrap();
    let bx = ast.add(ExprBody::Apply { target: b, params: vec![x] }).unwrap();
    let by = ast.add(ExprBody::Apply { target: b, params: vec![y] }).unwrap();
    let bxx = ast.add(ExprBody::Apply { target: b, params: vec![x, x] }).unwrap();
    assert!(same_tree(&ast, ax, bx));
    assert!(!same_tree(&ast, ax, by));
    assert!(!same_tree(&ast, ax, bxx));
    assert!(!same_tree(&ast, ax, a));
    // A handle that the arena does not hold unfolds like `Never`.
    let never = ast.add(ExprBody::Never).unwrap();
    assert!(same_tree(&ast, Expr { id: 999 }, never));
    assert!(!same_tree(&ast, Expr { id: 999 }, a));
}

#[test]
fn function_types_are_compared_by_shape() {
    let mut ast = Ast::new();
    let a = lambda(&mut ast, 1);
    let b = lambda(&mut ast, 1);
    let c = lambda(&mut ast, 2);
    let mut s1 = Substitution::new();
    s1.insert("f".to_string(), a);
    s1.insert("g".to_string(), c);
    let mut s2 = Substitution::new();
    s2.insert("g".to_string(), a);
    s2.insert("g".to_string(), c);
    s2.insert("f".to_string(), b);
    assert!(same_bindings(&ast, &s1, &s2));
    let mut s3 = s2.duplicate();
    s3.insert("h".to_string(), a);
    assert!(!same_bindings(&ast, &s1, &s3));
    assert!(!same_bindings(&ast, &s3, &s1));
    let mut s4 = Substitution::new();
    s4.insert("f".to_string(), c);
    s4.insert("g".to_string(), c);
    assert!(!same_bindings(&ast, &s1, &s4));
    let t1 = DataType::FunctionDecl { params: vec![], decl_expr: a, param_set: s1 };
    let t2 = DataType::FunctionDecl { params: vec![], decl_expr: b, param_set: s2 };
    let t3 = DataType::FunctionDecl { params: vec![], decl_expr: c, param_set: s4 };
    assert!(same_type(&ast, &t1, &t2));
    assert!(same_type(&ast, &t1, &t1.clone()));
    assert!(!same_type(&ast, &t1, &t3));
    assert!(!same_type(&ast, &t1, &int_type()));
    assert!(same_type(&ast, &int_type(), &int_type()));
    assert!(!same_type(&ast, &int_type(), &float_type()));
    assert!(same_type(&ast, &DataType::Divergent, &DataType::Divergent));
    assert!(same_type(&ast, &DataType::Empty, &DataType::Empty));
    let op = IfOp;
    assert!(matches!(op.typeck(&ast, &[bool_type(), t1, t2]), Ok(DataType::FunctionDecl { .. })));
}

#[test]
fn substitution_log() {
    let ast = Ast::new();
    let _ = ast;
    let mut s = Substitution::new();
    assert_eq!(s.depth(), 0);
    assert_eq!(s.get(&"x".to_string()), None);
    s.insert("x".to_string(), Expr { id: 1 });
    s.insert("x".to_string(), Expr { id: 2 });
    assert_eq!(s.depth(), 2);
    assert_eq!(s.get(&"x".to_string()), Some(Expr { id: 2 }));
    s.restore(1);
    assert_eq!(s.get(&"x".to_string()), Some(Expr { id: 1 }));
    s.restore(5);
    assert_eq!(s.depth(), 1);
    s.restore(0);
    assert_eq!(s.get(&"x".to_string()), None);
}

#[test]
fn names_resolve_through_names() {
    let mut ast = Ast::new();
    let one = ast.add(ExprBody::Const(ConstExpr::Int(1))).unwrap();
    let x = ast.add(ExprBody::Name("x".to_string())).unwrap();
    let y = ast.add(ExprBody::Name("y".to_string())).unwrap();
    let z = ast.add(ExprBody::Name("z".to_string())).unwrap();
    let mut trs: TypeResolveState<CoreOp> = TypeResolveState::new();
    assert_eq!(trs.resolve_name(&ast, &"x".to_string()), Resolution::Unbound);
    let mark = trs.with_resolved(&[("x".to_string(), y), ("y".to_string(), one)]);
    assert_eq!(mark, 0);
    assert_eq!(trs.resolve_name(&ast, &"x".to_string()), Resolution::To(one));
    assert_eq!(trs.resolve_name(&ast, &"y".to_string()), Resolution::To(one));
    let inner = trs.with_resolved(&[("y".to_string(), x)]);
    assert_eq!(trs.resolve_name(&ast, &"x".to_string()), Resolution::Cycle);
    trs.restore(inner);
    assert_eq!(trs.resolve_name(&ast, &"x".to_string()), Resolution::To(one));
    let _ = trs.with_resolved(&[("y".to_string(), z)]);
    assert_eq!(trs.resolve_name(&ast, &"x".to_string()), Resolution::Unbound);
}
