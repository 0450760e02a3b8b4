use x_lang::builtin::ValueType;
use x_lang::corelib::{CoreOp, HostManager};
use x_lang::datatype::DataType;
use x_lang::error::RuntimeError;
use x_lang::parser::parse_expr;
use x_lang::run::{run_source, Failure};
use x_lang::typeck::{check_expr, TypeResolveState};
use x_lang::value::RuntimeValue;

const DEPTH: usize = 10_000;

fn int_result(source: &str) -> i64 {
    let report = run_source(source, DEPTH).unwrap();
    match report.outcome {
        Ok((DataType::Value(ValueType::Int), RuntimeValue::Int(v))) => v,
        _ => panic!("not an integer of type Int"),
    }
}

#[test]
fn lambda_adds_one() {
    assert_eq!(int_result("((\\x ($add x 1)) 41)"), 42);
}

#[test]
fn if_true_takes_first_branch() {
    assert_eq!(int_result("(($if true 1 2))"), 1);
}

#[test]
fn if_on_comparison() {
    assert_eq!(int_result("(($if ($lt 3 2) 10 20))"), 20);
}

#[test]
fn division_by_zero() {
    let report = run_source("(($div 5 0))", DEPTH).unwrap();
    assert!(matches!(
        report.outcome,
        Err(Failure::Runtime {
            ty: DataType::Value(ValueType::Int),
            error: RuntimeError::DivByZero
        })
    ));
}

#[test]
fn division_by_zero_has_type_int() {
    let (ast, root) = parse_expr("(($div 5 0))").unwrap();
    let hm = HostManager::new();
    let mut trs: TypeResolveState<CoreOp> = TypeResolveState::new();
    trs.add_hosts(hm.get_binops());
    let ty = check_expr(&ast, root, &mut trs).unwrap();
    assert!(matches!(ty, DataType::Value(ValueType::Int)));
}

#[test]
fn function_as_argument() {
    assert_eq!(int_result("((\\f (f 1)) (\\x ($add x x)))"), 2);
}

#[test]
fn self_application_is_divergent_and_not_evaluated() {
    let report = run_source("((\\x (x x)) (\\x (x x)))", DEPTH).unwrap();
    assert!(matches!(report.outcome, Err(Failure::Divergent)));
}

#[test]
fn recursion_through_an_argument_is_divergent() {
    let report = run_source("((\\f (f f 1)) (\\g n (g g ($add n 1))))", DEPTH).unwrap();
    assert!(matches!(report.outcome, Err(Failure::Divergent)));
}

#[test]
fn a_bracket_around_one_name_is_the_name() {
    // `(loop)` is the name `loop`, so each abstraction is the identity and
    // the program yields the second one.
    let report = run_source("((\\loop (loop)) (\\loop (loop)))", DEPTH).unwrap();
    assert!(matches!(
        report.outcome,
        Ok((DataType::FunctionDecl { .. }, RuntimeValue::Function { .. }))
    ));
}

#[test]
fn type_error_stops_before_evaluation() {
    let report = run_source("(($add true 1))", DEPTH).unwrap();
    assert!(matches!(report.outcome, Err(Failure::Type(_))));
}

#[test]
fn if_with_divergent_branch_has_the_type_of_the_other() {
    let source = "((\\w ($if true 1 (w w))) (\\x (x x)))";
    let report = run_source(source, DEPTH).unwrap();
    match report.outcome {
        Ok((DataType::Value(ValueType::Int), RuntimeValue::Int(v))) => assert_eq!(v, 1),
        _ => panic!("expected the value of the first branch"),
    }
}

#[test]
fn nested_closures_capture_their_environment() {
    assert_eq!(int_result("((\\x ((\\y ($sub x y)) 2)) 10)"), 8);
    assert_eq!(int_result("(((\\x (\\y ($mul x y))) 6) 7)"), 42);
}

#[test]
fn inner_binding_hides_outer_binding_only_inside() {
    assert_eq!(int_result("((\\x ($add ((\\x (x)) 1) x)) 10)"), 11);
}

#[test]
fn unused_argument_is_not_evaluated() {
    assert_eq!(int_result("((\\x y (x)) 7 ($div 1 0))"), 7);
}

#[test]
fn depth_zero_is_exhausted() {
    let report = run_source("(1)", 0).unwrap();
    assert!(matches!(report.outcome, Err(Failure::Runtime { error: RuntimeError::Exhausted, .. })));
}

#[test]
fn depth_one_evaluates_a_constant() {
    let report = run_source("(1)", 1).unwrap();
    assert!(matches!(report.outcome, Ok((_, RuntimeValue::Int(1)))));
}

#[test]
fn function_branches_of_the_same_shape_have_a_common_type() {
    let report = run_source("(($if true (\\ (1)) (\\ (1))))", DEPTH).unwrap();
    assert!(matches!(report.outcome, Ok((DataType::FunctionDecl { .. }, _))));
    let report = run_source("(($if true (\\ (1)) (\\ (2))))", DEPTH).unwrap();
    assert!(matches!(report.outcome, Err(Failure::Type(_))));
}

#[test]
fn arguments_to_a_divergent_target_are_divergent() {
    let report = run_source("(((\\x (x x)) (\\x (x x))) 1)", DEPTH).unwrap();
    assert!(matches!(report.outcome, Err(Failure::Divergent)));
}

#[test]
fn arguments_to_a_constant_are_a_type_error() {
    let report = run_source("(1 2)", DEPTH).unwrap();
    assert!(matches!(report.outcome, Err(Failure::Type(_))));
}
