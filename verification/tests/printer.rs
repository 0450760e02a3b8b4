use x_lang::ast::{AbstractBody, Ast, ConstExpr, Expr, ExprBody};
use x_lang::ast::same_tree;
use x_lang::parser::parse_expr;
use x_lang::printer::pretty_print;

fn printed(source: &str) -> String {
    let (ast, root) = parse_expr(source).unwrap();
    pretty_print(&ast, root)
}

#[test]
fn printing_leaves_out_the_numbers_of_names() {
    assert_eq!(printed("((\\x ($add x 1)) 41)"), "(\\x ($add x 1) 41)");
    assert_eq!(printed("((\\x (x)) (\\x (x)))"), "(\\x (x) \\x (x))");
}

#[test]
fn printing_normalises_the_layout() {
    assert_eq!(printed("  (  $if   true\n 1 # one\n 2 )  "), "($if true 1 2)");
    assert_eq!(printed("(((7)))"), "(7)");
    assert_eq!(printed("((($add) (1) ((2))))"), "($add 1 2)");
    assert_eq!(printed("(\\ a  b(a))"), "(\\a b (a))");
    assert_eq!(printed("(\\(\\x(x)))"), "(\\(\\x (x)))");
    assert_eq!(printed("(007)"), "(7)");
    assert_eq!(printed("(1.50)"), "(1.50)");
    assert_eq!(printed("(~)"), "(~)");
    assert_eq!(printed("($)"), "($)");
    assert_eq!(printed("(false)"), "(false)");
}

#[test]
fn printed_programs_parse_to_the_same_program() {
    let sources = [
        "((\\x ($add x 1)) 41)",
        "(($if ($lt 3 2) 10 20))",
        "((\\f (f 1)) (\\x ($add x x)))",
        "((\\loop (loop)) (\\loop (loop)))",
        "(\\x ((\\x (x)) x))",
        "(\\x x (x))",
        "(\\true (true))",
        "((\\a (\\b (\\c ($if a b c)))) true 1.5 ~)",
        "(9223372036854775807)",
        " ( \\ f g ( f ( g 1 ) ( \\ ( g ) ) ) ) \n",
        "(# a comment\n 1 # another\n)",
    ];
    for source in sources {
        let (ast, root) = parse_expr(source).unwrap();
        let text = pretty_print(&ast, root);
        let (again, root_again) = parse_expr(&text).unwrap();
        assert_eq!(pretty_print(&again, root_again), text);
        // The same program: both arenas were filled in the same order.
        assert_eq!(ast.len(), again.len());
        assert_eq!(root, root_again);
        for id in 0..ast.len() {
            let e = Expr { id };
            assert_eq!(format!("{:?}", ast.get(e)), format!("{:?}", again.get(e)));
        }
    }
}

#[test]
fn trees_that_no_source_text_holds_are_printed_too() {
    let mut ast = Ast::new();
    let minus = ast.add(ExprBody::Const(ConstExpr::Int(-12))).unwrap();
    assert_eq!(pretty_print(&ast, minus), "(-12)");
    let least = ast.add(ExprBody::Const(ConstExpr::Int(i64::MIN))).unwrap();
    assert_eq!(pretty_print(&ast, least), "(-9223372036854775808)");
    let never = ast.add(ExprBody::Never).unwrap();
    assert_eq!(pretty_print(&ast, never), "(!)");
    let m = ast.add(ExprBody::Match { value: minus, branches: vec![] }).unwrap();
    assert_eq!(pretty_print(&ast, m), "(?)");
    let call = ast.add(ExprBody::Apply { target: minus, params: vec![] }).unwrap();
    assert_eq!(pretty_print(&ast, call), "(-12)");
    assert_eq!(pretty_print(&ast, Expr { id: 99 }), "(!)");
    let named = ast.add(ExprBody::Name("y#7#8".to_string())).unwrap();
    let host = ast
        .add(ExprBody::Abstract {
            params: vec!["p".to_string()],
            body: AbstractBody::Host("h".to_string()),
        })
        .unwrap();
    let both = ast.add(ExprBody::Apply { target: host, params: vec![named, named] }).unwrap();
    assert_eq!(pretty_print(&ast, both), "($h y y)");
    assert!(same_tree(&ast, named, named));
}
