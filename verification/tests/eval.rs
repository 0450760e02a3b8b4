use std::cell::Cell;
use std::rc::Rc;
use x_lang::ast::{AbstractBody, Ast, ConstExpr, ExprBody};
use x_lang::corelib::{CoreOp, HostManager};
use x_lang::datatype::DataType;
use x_lang::error::{RuntimeError, RuntimeErrorKind, TypeError};
use x_lang::eval::{eval_expr, EvalContext, SlotRef, SlotReleasePool};
use x_lang::host::HostFunction;
use x_lang::parser::parse_expr;
use x_lang::run::{check_then_eval, Failure};
use x_lang::typeck::{check_expr, TypeResolveState};
use x_lang::value::{HostStep, LazyValue, RuntimeValue};

const DEPTH: usize = 10_000;

/// The built-ins, and a host function that counts how often it is evaluated.
enum Counting {
    Core(CoreOp),
    Tick(Rc<Cell<u32>>),
}

impl HostFunction for Counting {
    fn typeck(&self, ast: &Ast, params: &[DataType]) -> Result<DataType, TypeError> {
        match self {
            Counting::Core(op) => op.typeck(ast, params),
            Counting::Tick(_) => Ok(DataType::Value(x_lang::builtin::ValueType::Int)),
        }
    }

    fn eval(&self, args: &[Option<RuntimeValue>]) -> HostStep {
        match self {
            Counting::Core(op) => op.eval(args),
            Counting::Tick(counter) => {
                counter.set(counter.get() + 1);
                HostStep::Done(RuntimeValue::Int(7))
            }
        }
    }
}

fn counting_hosts(counter: &Rc<Cell<u32>>) -> Vec<(String, Counting)> {
    let hm = HostManager::new();
    let mut hosts: Vec<(String, Counting)> = Vec::new();
    for (name, op) in hm.get_binops() {
        hosts.push((name, Counting::Core(op)));
    }
    for (name, op) in hm.get_relops() {
        hosts.push((name, Counting::Core(op)));
    }
    for (name, op) in hm.get_ifop() {
        hosts.push((name, Counting::Core(op)));
    }
    hosts.push(("tick".to_string(), Counting::Tick(counter.clone())));
    hosts
}

fn core_context() -> EvalContext<CoreOp> {
    let hm = HostManager::new();
    let mut ctx: EvalContext<CoreOp> = EvalContext::new();
    ctx.add_hosts(hm.get_binops());
    ctx.add_hosts(hm.get_relops());
    ctx.add_hosts(hm.get_ifop());
    ctx
}

fn eval_source(source: &str, depth: usize) -> Result<RuntimeValue, RuntimeError> {
    let (ast, root) = parse_expr(source).unwrap();
    let mut ctx = core_context();
    eval_expr(&ast, root, &mut ctx, depth)
}

#[test]
fn shared_thunk_is_evaluated_once() {
    let counter = Rc::new(Cell::new(0));
    let (ast, root) = parse_expr("((\\x ($add x ($add x x))) ($tick 0))").unwrap();
    let mut ctx: EvalContext<Counting> = EvalContext::new();
    ctx.add_hosts(counting_hosts(&counter));
    let v = eval_expr(&ast, root, &mut ctx, DEPTH).unwrap();
    assert!(matches!(v, RuntimeValue::Int(21)));
    assert_eq!(counter.get(), 1);
}

#[test]
fn thunk_passed_on_is_still_evaluated_once() {
    let counter = Rc::new(Cell::new(0));
    let source = "((\\x ((\\y ($add y y)) x)) ($tick 0))";
    let (ast, root) = parse_expr(source).unwrap();
    let mut ctx: EvalContext<Counting> = EvalContext::new();
    ctx.add_hosts(counting_hosts(&counter));
    let v = eval_expr(&ast, root, &mut ctx, DEPTH).unwrap();
    assert!(matches!(v, RuntimeValue::Int(14)));
    assert_eq!(counter.get(), 1);
}

#[test]
fn unused_thunk_is_never_evaluated() {
    let counter = Rc::new(Cell::new(0));
    let (ast, root) = parse_expr("((\\x (5)) ($tick 0))").unwrap();
    let mut ctx: EvalContext<Counting> = EvalContext::new();
    ctx.add_hosts(counting_hosts(&counter));
    let v = eval_expr(&ast, root, &mut ctx, DEPTH).unwrap();
    assert!(matches!(v, RuntimeValue::Int(5)));
    assert_eq!(counter.get(), 0);
    assert_eq!(ctx.thunk_count(), 1);
}

#[test]
fn if_evaluates_exactly_one_branch() {
    let counter = Rc::new(Cell::new(0));
    let (ast, root) = parse_expr("(($if false ($tick 0) 3))").unwrap();
    let mut ctx: EvalContext<Counting> = EvalContext::new();
    ctx.add_hosts(counting_hosts(&counter));
    let v = eval_expr(&ast, root, &mut ctx, DEPTH).unwrap();
    assert!(matches!(v, RuntimeValue::Int(3)));
    assert_eq!(counter.get(), 0);
    let (ast, root) = parse_expr("(($if true ($tick 0) ($div 1 0)))").unwrap();
    let v = eval_expr(&ast, root, &mut ctx, DEPTH).unwrap();
    assert!(matches!(v, RuntimeValue::Int(7)));
    assert_eq!(counter.get(), 1);
}

#[test]
fn divergent_program_is_not_evaluated() {
    let counter = Rc::new(Cell::new(0));
    let source = "((\\t ((\\x (x x)) (\\x (x x)))) ($tick 0))";
    let (ast, root) = parse_expr(source).unwrap();
    let mut trs: TypeResolveState<Counting> = TypeResolveState::new();
    trs.add_hosts(counting_hosts(&counter));
    let mut ctx: EvalContext<Counting> = EvalContext::new();
    ctx.add_hosts(counting_hosts(&counter));
    let out = check_then_eval(&ast, root, &mut trs, &mut ctx, DEPTH);
    assert!(matches!(out, Err(Failure::Divergent)));
    assert_eq!(ctx.thunk_count(), 0);
    assert_eq!(counter.get(), 0);
}

#[test]
fn evaluator_runs_out_of_depth_only_where_the_type_is_divergent() {
    let programs = [
        ("((\\x (x x)) (\\x (x x)))", true),
        ("((\\f (f f 1)) (\\g n (g g ($add n 1))))", true),
        ("((\\f ($add (f 1) (f 2))) (\\n ($mul n 3)))", false),
        ("((\\x ($if ($lt x 3) ($add x 1) ($sub x 1))) 2)", false),
        ("(((\\x (\\y ($add x y))) 1) 2)", false),
    ];
    for (source, divergent) in programs {
        let (ast, root) = parse_expr(source).unwrap();
        let hm = HostManager::new();
        let mut trs: TypeResolveState<CoreOp> = TypeResolveState::new();
        trs.add_hosts(hm.get_binops());
        trs.add_hosts(hm.get_relops());
        trs.add_hosts(hm.get_ifop());
        let ty = check_expr(&ast, root, &mut trs).unwrap();
        assert_eq!(ty.is_divergent(), divergent);
        let mut ctx = core_context();
        let out = eval_expr(&ast, root, &mut ctx, 200);
        let exhausted = matches!(out, Err(RuntimeError::Exhausted));
        assert_eq!(exhausted, divergent);
    }
}

#[test]
fn a_function_applied_to_its_own_result_is_labelled_divergent() {
    // While the body of the function is checked for the outer call, its
    // parameter leads to the inner call, which meets the body again.
    let source = "((\\f (f (f (f 1)))) (\\n ($mul n 3)))";
    let (ast, root) = parse_expr(source).unwrap();
    let hm = HostManager::new();
    let mut trs: TypeResolveState<CoreOp> = TypeResolveState::new();
    trs.add_hosts(hm.get_binops());
    let ty = check_expr(&ast, root, &mut trs).unwrap();
    assert!(ty.is_divergent());
    let mut ctx = core_context();
    assert!(matches!(eval_expr(&ast, root, &mut ctx, DEPTH), Ok(RuntimeValue::Int(27))));
}

#[test]
fn a_branch_that_diverges_is_not_seen_in_the_type_of_an_if() {
    // The conditional has the type of its other branch, so this program is
    // evaluated, and the evaluation takes the branch that does not end.
    let source = "(($if false 1 ((\\x (x x)) (\\x (x x)))))";
    let (ast, root) = parse_expr(source).unwrap();
    let hm = HostManager::new();
    let mut trs: TypeResolveState<CoreOp> = TypeResolveState::new();
    trs.add_hosts(hm.get_ifop());
    let ty = check_expr(&ast, root, &mut trs).unwrap();
    assert!(!ty.is_divergent());
    for depth in [10usize, 100, 1000] {
        let mut ctx = core_context();
        let out = eval_expr(&ast, root, &mut ctx, depth);
        assert!(matches!(out, Err(RuntimeError::Exhausted)));
    }
}

#[test]
fn unchecked_programs_end_in_fatal_errors() {
    // A value that is no function, with arguments.
    let e = eval_source("(1 2)", DEPTH).unwrap_err();
    assert_eq!(e.kind(), RuntimeErrorKind::Fatal);
    // A host function that nobody registered.
    let e = eval_source("(($nope 1))", DEPTH).unwrap_err();
    assert_eq!(e.kind(), RuntimeErrorKind::Fatal);
    // Operands of the wrong kind.
    let e = eval_source("(($add true 1))", DEPTH).unwrap_err();
    assert_eq!(e.kind(), RuntimeErrorKind::Fatal);
    let e = eval_source("(($if 1 2 3))", DEPTH).unwrap_err();
    assert_eq!(e.kind(), RuntimeErrorKind::Fatal);
    // More arguments than parameters.
    let e = eval_source("((\\x (x)) 1 2)", DEPTH).unwrap_err();
    assert_eq!(e.kind(), RuntimeErrorKind::Fatal);
}

#[test]
fn unbound_name_is_fatal() {
    let mut ast = Ast::new();
    let x = ast.add(ExprBody::Name("x".to_string())).unwrap();
    let mut ctx = core_context();
    let e = eval_expr(&ast, x, &mut ctx, DEPTH).unwrap_err();
    assert!(matches!(e, RuntimeError::Fatal(_)));
}

#[test]
fn never_and_match_are_fatal() {
    let mut ast = Ast::new();
    let never = ast.add(ExprBody::Never).unwrap();
    let one = ast.add(ExprBody::Const(ConstExpr::Int(1))).unwrap();
    let m = ast.add(ExprBody::Match { value: one, branches: vec![] }).unwrap();
    let mut ctx = core_context();
    assert!(matches!(eval_expr(&ast, never, &mut ctx, DEPTH), Err(RuntimeError::Fatal(_))));
    assert!(matches!(eval_expr(&ast, m, &mut ctx, DEPTH), Err(RuntimeError::Fatal(_))));
}

#[test]
fn thunk_that_needs_itself_is_fatal() {
    // A thunk whose expression is the name it is bound to cannot come from
    // an application, so it is made by hand: handle 0, bound to `x`.
    struct Looping;
    impl HostFunction for Looping {
        fn typeck(&self, _ast: &Ast, _params: &[DataType]) -> Result<DataType, TypeError> {
            Err(TypeError::Custom("no type".into()))
        }
        fn eval(&self, args: &[Option<RuntimeValue>]) -> HostStep {
            // Asks for the same argument again, which is against the rules.
            match &args[0] {
                None => HostStep::Force(0),
                Some(_) => HostStep::Force(0),
            }
        }
    }
    let mut ast = Ast::new();
    let one = ast.add(ExprBody::Const(ConstExpr::Int(1))).unwrap();
    let stub = ast
        .add(ExprBody::Abstract { params: vec![], body: AbstractBody::Host("again".to_string()) })
        .unwrap();
    let call = ast.add(ExprBody::Apply { target: stub, params: vec![one] }).unwrap();
    let mut ctx: EvalContext<Looping> = EvalContext::new();
    ctx.add_hosts(vec![("again".to_string(), Looping)]);
    let e = eval_expr(&ast, call, &mut ctx, DEPTH).unwrap_err();
    assert!(matches!(e, RuntimeError::Fatal(_)));
    // A lazy value that the context does not hold.
    let lost = LazyValue { id: 99 };
    assert!(matches!(lost.eval(&ast, &mut ctx, DEPTH), Err(RuntimeError::Fatal(_))));
}

#[test]
fn application_without_arguments_returns_the_target() {
    let mut ast = Ast::new();
    let five = ast.add(ExprBody::Const(ConstExpr::Int(5))).unwrap();
    let call = ast.add(ExprBody::Apply { target: five, params: vec![] }).unwrap();
    let mut ctx = core_context();
    assert!(matches!(eval_expr(&ast, call, &mut ctx, DEPTH), Ok(RuntimeValue::Int(5))));
}

#[test]
fn constants_evaluate_to_themselves() {
    assert!(matches!(eval_source("(~)", DEPTH), Ok(RuntimeValue::Empty)));
    assert!(matches!(eval_source("(true)", DEPTH), Ok(RuntimeValue::Bool(true))));
    assert!(matches!(eval_source("(2.50)", DEPTH), Ok(RuntimeValue::Float(s)) if s == "2.50"));
    assert!(matches!(eval_source("($add)", DEPTH), Ok(RuntimeValue::Host(s)) if s == "add"));
}

#[test]
fn float_operands_are_left_to_the_host() {
    assert!(matches!(eval_source("(($add 1.5 2))", DEPTH), Err(RuntimeError::Custom(_))));
    assert!(matches!(eval_source("(($lt 1 2.0))", DEPTH), Err(RuntimeError::Custom(_))));
}

#[test]
fn later_host_of_a_name_replaces_the_earlier() {
    let hm = HostManager::new();
    let mut ctx: EvalContext<CoreOp> = EvalContext::new();
    let mut first = hm.get_binops();
    // `add` computes a difference until the real `add` is registered again.
    let sub = first.iter().find(|(n, _)| n == "sub").unwrap().1;
    first.push(("add".to_string(), sub));
    ctx.add_hosts(first);
    let (ast, root) = parse_expr("(($add 5 3))").unwrap();
    assert!(matches!(eval_expr(&ast, root, &mut ctx, DEPTH), Ok(RuntimeValue::Int(2))));
    ctx.add_hosts(hm.get_binops());
    assert!(matches!(eval_expr(&ast, root, &mut ctx, DEPTH), Ok(RuntimeValue::Int(8))));
}

#[test]
fn slots_keep_lazy_values_until_released() {
    let mut ctx = core_context();
    let a = ctx.write_slot(LazyValue { id: 11 });
    let b = ctx.write_slot(LazyValue { id: 22 });
    assert_ne!(a, b);
    assert_eq!(ctx.read_slot(a), Some(LazyValue { id: 11 }));
    assert_eq!(ctx.read_slot(b), Some(LazyValue { id: 22 }));
    assert_eq!(ctx.read_slot(SlotRef { id: 1000 }), None);
    ctx.release_slot(a);
    assert_eq!(ctx.read_slot(a), Some(LazyValue { id: 11 }));
    let (ast, root) = parse_expr("(1)").unwrap();
    eval_expr(&ast, root, &mut ctx, DEPTH).unwrap();
    assert_eq!(ctx.read_slot(a), None);
    assert_eq!(ctx.read_slot(b), Some(LazyValue { id: 22 }));
}

#[test]
fn release_pool_forgets_what_it_released() {
    let mut ctx = core_context();
    let a = ctx.write_slot(LazyValue { id: 1 });
    let mut pool = SlotReleasePool::new();
    pool.put(a);
    pool.put(SlotRef { id: 500 });
    let (ast, root) = parse_expr("(1)").unwrap();
    // The pool of the context is empty, so the slot stays.
    eval_expr(&ast, root, &mut ctx, DEPTH).unwrap();
    assert_eq!(ctx.read_slot(a), Some(LazyValue { id: 1 }));
}
