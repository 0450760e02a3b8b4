use x_lang::ast::{AbstractBody, Ast, ConstExpr, ExprBody};
use x_lang::builtin::ValueType;
use x_lang::datatype::DataType;
use x_lang::error::TypeError;
use x_lang::host::HostFunction;
use x_lang::typeck::{check_expr, TypeResolveState};
use x_lang::value::{HostStep, RuntimeValue};

struct NotFunction {}

impl HostFunction for NotFunction {
    fn typeck(&self, _ast: &Ast, params: &[DataType]) -> Result<DataType, TypeError> {
        if params.len() == 1 && matches!(params[0], DataType::Value(ValueType::Bool)) {
            Ok(DataType::Value(ValueType::Bool))
        } else {
            Err(TypeError::Custom("not: type mismatch".into()))
        }
    }

    fn eval(&self, _args: &[Option<RuntimeValue>]) -> HostStep {
        unreachable!()
    }
}

#[test]
fn test_typeck() {
    let mut ast = Ast::new();
    let falsehood = ast.add(ExprBody::Const(ConstExpr::Bool(false))).unwrap();
    let a = ast.add(ExprBody::Name("a".to_string())).unwrap();
    let not_stub = ast
        .add(ExprBody::Abstract {
            params: vec!["value".to_string()], // unused
            body: AbstractBody::Host("not".to_string()),
        })
        .unwrap();
    let inner = ast.add(ExprBody::Apply { target: not_stub, params: vec![a] }).unwrap();
    let lambda = ast
        .add(ExprBody::Abstract { params: vec!["a".to_string()], body: AbstractBody::Expr(inner) })
        .unwrap();
    let e = ast.add(ExprBody::Apply { target: lambda, params: vec![falsehood] }).unwrap();

    let not_f = NotFunction {};
    let mut trs = TypeResolveState::default();
    trs.add_hosts(vec![("not".to_string(), not_f)]);
    let out = check_expr(&ast, e, &mut trs).unwrap();
    if !matches!(out, DataType::Value(ValueType::Bool)) {
        panic!("output type mismatch");
    }
}

#[test]
fn host_function_decides_the_type_of_its_call() {
    let mut ast = Ast::new();
    let one = ast.add(ExprBody::Const(ConstExpr::Int(1))).unwrap();
    let not_stub = ast
        .add(ExprBody::Abstract { params: vec![], body: AbstractBody::Host("not".to_string()) })
        .unwrap();
    let e = ast.add(ExprBody::Apply { target: not_stub, params: vec![one] }).unwrap();
    let mut trs = TypeResolveState::default();
    trs.add_hosts(vec![("not".to_string(), NotFunction {})]);
    assert!(check_expr(&ast, e, &mut trs).is_err());
}

#[test]
fn unknown_host_function_is_a_type_error() {
    let mut ast = Ast::new();
    let one = ast.add(ExprBody::Const(ConstExpr::Bool(true))).unwrap();
    let stub = ast
        .add(ExprBody::Abstract { params: vec![], body: AbstractBody::Host("nope".to_string()) })
        .unwrap();
    let e = ast.add(ExprBody::Apply { target: stub, params: vec![one] }).unwrap();
    let mut trs: TypeResolveState<NotFunction> = TypeResolveState::default();
    assert!(matches!(check_expr(&ast, e, &mut trs), Err(TypeError::Custom(_))));
}
