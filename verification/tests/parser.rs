use x_lang::ast::{AbstractBody, Ast, ConstExpr, Expr, ExprBody};
use x_lang::error::{ParseError, ParseErrorKind};
use x_lang::parser::{parse_expr, token_end, Token, TokenStream};
use x_lang::rename::{rename_expr, RenameContext};

fn kind_of(source: &str) -> ParseErrorKind {
    match parse_expr(source) {
        Ok(_) => panic!("parsed"),
        Err(e) => e.kind(),
    }
}

fn name_of(ast: &Ast, e: Expr) -> String {
    match ast.get(e) {
        Some(ExprBody::Name(n)) => n.clone(),
        _ => panic!("not a name"),
    }
}

#[test]
fn tokens_of_a_program() {
    let mut ts = TokenStream::new("(\\x ~ $add foo_1 12 3.5 # note\n )");
    assert!(matches!(ts.next_token(), Ok(Token::ExprBegin)));
    assert!(matches!(ts.next_token(), Ok(Token::Lambda)));
    assert!(matches!(ts.next_token(), Ok(Token::Identifier(s)) if s == "x"));
    assert!(matches!(ts.next_token(), Ok(Token::EmptyLiteral)));
    assert!(matches!(ts.next_token(), Ok(Token::HostFunction(s)) if s == "add"));
    assert!(matches!(ts.next_token(), Ok(Token::Identifier(s)) if s == "foo_1"));
    assert!(matches!(ts.next_token(), Ok(Token::IntLiteral(12))));
    assert!(matches!(ts.next_token(), Ok(Token::FloatLiteral(s)) if s == "3.5"));
    assert!(matches!(ts.next_token(), Ok(Token::ExprEnd)));
    assert!(matches!(ts.next_token(), Err(ParseError::UnexpectedEnd)));
}

#[test]
fn token_end_finds_the_first_match() {
    let raw = b"abc def";
    assert_eq!(token_end(raw, 0, |b| b == b' '), 3);
    assert_eq!(token_end(raw, 4, |b| b == b' '), 7);
    assert_eq!(token_end(raw, 7, |b| b == b' '), 7);
    assert_eq!(token_end(raw, 3, |b| b == b' '), 3);
}

#[test]
fn largest_integer_literal() {
    let mut ts = TokenStream::new("9223372036854775807");
    assert!(matches!(ts.next_token(), Ok(Token::IntLiteral(9223372036854775807))));
    let mut ts = TokenStream::new("9223372036854775808");
    assert!(matches!(ts.next_token(), Err(ParseError::InvalidNumber)));
    let mut ts = TokenStream::new("007");
    assert!(matches!(ts.next_token(), Ok(Token::IntLiteral(7))));
}

#[test]
fn float_literals_have_one_dot() {
    let mut ts = TokenStream::new("1. 1.2.3");
    assert!(matches!(ts.next_token(), Ok(Token::FloatLiteral(s)) if s == "1."));
    assert!(matches!(ts.next_token(), Err(ParseError::InvalidNumber)));
}

#[test]
fn each_parse_error() {
    assert_eq!(kind_of(""), ParseErrorKind::UnexpectedEnd);
    assert_eq!(kind_of("(1"), ParseErrorKind::UnexpectedEnd);
    assert_eq!(kind_of("(99999999999999999999)"), ParseErrorKind::InvalidNumber);
    assert_eq!(kind_of("(@)"), ParseErrorKind::InvalidToken);
    assert_eq!(kind_of("1"), ParseErrorKind::ExpectingExprBegin);
    assert_eq!(kind_of("(\\x 1)"), ParseErrorKind::ExpectingExprBegin);
    assert_eq!(kind_of("()"), ParseErrorKind::ExpectingExprBody);
    assert_eq!(kind_of("(1) 2"), ParseErrorKind::BracketMismatch);
    assert_eq!(kind_of("(1))"), ParseErrorKind::BracketMismatch);
    assert_eq!(kind_of("(x)"), ParseErrorKind::Custom);
}

#[test]
fn trailing_white_space_is_accepted() {
    assert!(parse_expr("(1) \n\t ").is_ok());
}

#[test]
fn trailing_comment_is_not_white_space() {
    assert_eq!(kind_of("(1) # done"), ParseErrorKind::BracketMismatch);
}

#[test]
fn one_term_in_brackets_is_the_term() {
    let (ast, root) = parse_expr("(((7)))").unwrap();
    assert!(matches!(ast.get(root), Some(ExprBody::Const(ConstExpr::Int(7)))));
}

#[test]
fn true_and_false_are_constants() {
    let (ast, root) = parse_expr("(true)").unwrap();
    assert!(matches!(ast.get(root), Some(ExprBody::Const(ConstExpr::Bool(true)))));
    let (ast, root) = parse_expr("(false)").unwrap();
    assert!(matches!(ast.get(root), Some(ExprBody::Const(ConstExpr::Bool(false)))));
}

#[test]
fn host_reference_is_an_abstraction_without_parameters() {
    let (ast, root) = parse_expr("($add)").unwrap();
    match ast.get(root) {
        Some(ExprBody::Abstract { params, body: AbstractBody::Host(h) }) => {
            assert!(params.is_empty());
            assert_eq!(h, "add");
        }
        _ => panic!("not a host reference"),
    }
}

#[test]
fn sibling_bindings_get_different_names() {
    let (ast, root) = parse_expr("((\\x (x)) (\\x (x)))").unwrap();
    let (target, params) = match ast.get(root) {
        Some(ExprBody::Apply { target, params }) => (*target, params.clone()),
        _ => panic!("not an application"),
    };
    match ast.get(target) {
        Some(ExprBody::Abstract { params, body: AbstractBody::Expr(b) }) => {
            assert_eq!(params, &vec!["x#1".to_string()]);
            assert_eq!(name_of(&ast, *b), "x#1");
        }
        _ => panic!("not a lambda"),
    }
    match ast.get(params[0]) {
        Some(ExprBody::Abstract { params, body: AbstractBody::Expr(b) }) => {
            assert_eq!(params, &vec!["x#2".to_string()]);
            assert_eq!(name_of(&ast, *b), "x#2");
        }
        _ => panic!("not a lambda"),
    }
}

#[test]
fn a_name_refers_to_the_innermost_binding_around_it() {
    // The last `x` stands outside the inner abstraction.
    let (ast, root) = parse_expr("(\\x ((\\x (x)) x))").unwrap();
    let body = match ast.get(root) {
        Some(ExprBody::Abstract { params, body: AbstractBody::Expr(b) }) => {
            assert_eq!(params, &vec!["x#1".to_string()]);
            *b
        }
        _ => panic!("not a lambda"),
    };
    match ast.get(body) {
        Some(ExprBody::Apply { target, params }) => {
            match ast.get(*target) {
                Some(ExprBody::Abstract { params, body: AbstractBody::Expr(b) }) => {
                    assert_eq!(params, &vec!["x#2".to_string()]);
                    assert_eq!(name_of(&ast, *b), "x#2");
                }
                _ => panic!("not a lambda"),
            }
            assert_eq!(name_of(&ast, params[0]), "x#1");
        }
        _ => panic!("not an application"),
    }
}

#[test]
fn a_name_outside_its_binding_is_free() {
    assert_eq!(kind_of("((\\x (x)) x)"), ParseErrorKind::Custom);
}

#[test]
fn repeated_parameter_takes_the_last_number() {
    let (ast, root) = parse_expr("(\\x x (x))").unwrap();
    match ast.get(root) {
        Some(ExprBody::Abstract { params, body: AbstractBody::Expr(b) }) => {
            assert_eq!(params, &vec!["x#2".to_string(), "x#2".to_string()]);
            assert_eq!(name_of(&ast, *b), "x#2");
        }
        _ => panic!("not a lambda"),
    }
}

#[test]
fn tenth_binding_has_a_two_digit_number() {
    let source = "(\\a (\\a (\\a (\\a (\\a (\\a (\\a (\\a (\\a (\\a (a)))))))))))";
    let (ast, mut e) = parse_expr(source).unwrap();
    let mut last = String::new();
    while let Some(ExprBody::Abstract { params, body: AbstractBody::Expr(b) }) = ast.get(e) {
        last = params[0].clone();
        e = *b;
    }
    assert_eq!(last, "a#10");
    assert_eq!(name_of(&ast, e), "a#10");
}

#[test]
fn rename_context_numbers_and_scopes() {
    let mut ctx = RenameContext::new();
    assert!(ctx.get_renamed(&"x".to_string()).is_err());
    let depth = ctx.with_renamed(&["x".to_string(), "y".to_string()]).unwrap();
    assert_eq!(depth, 0);
    assert_eq!(ctx.get_renamed(&"x".to_string()).unwrap(), "x#1");
    let inner = ctx.with_renamed(&["x".to_string()]).unwrap();
    assert_eq!(inner, 2);
    assert_eq!(ctx.get_renamed(&"x".to_string()).unwrap(), "x#2");
    assert_eq!(ctx.get_renamed(&"y".to_string()).unwrap(), "y#1");
    ctx.leave(inner);
    assert_eq!(ctx.get_renamed(&"x".to_string()).unwrap(), "x#1");
    ctx.leave(depth);
    assert!(matches!(ctx.get_renamed(&"x".to_string()), Err(ParseError::Custom(_))));
    let again = ctx.with_renamed(&["x".to_string()]).unwrap();
    assert_eq!(again, 0);
    assert_eq!(ctx.get_renamed(&"x".to_string()).unwrap(), "x#3");
}

#[test]
fn rename_rejects_never_and_match() {
    let mut src = Ast::new();
    let never = src.add(ExprBody::Never).unwrap();
    let mut dst = Ast::new();
    let mut ctx = RenameContext::default();
    assert!(matches!(
        rename_expr(&src, never, &mut ctx, &mut dst),
        Err(ParseError::Custom(_))
    ));
    let one = src.add(ExprBody::Const(ConstExpr::Int(1))).unwrap();
    let m = src.add(ExprBody::Match { value: one, branches: vec![] }).unwrap();
    assert!(matches!(rename_expr(&src, m, &mut ctx, &mut dst), Err(ParseError::Custom(_))));
}

#[test]
fn arena_refuses_a_node_that_points_outside() {
    let mut ast = Ast::new();
    assert!(ast.add(ExprBody::Apply { target: Expr { id: 0 }, params: vec![] }).is_none());
    let one = ast.add(ExprBody::Const(ConstExpr::Int(1))).unwrap();
    assert_eq!(one, Expr { id: 0 });
    assert!(ast.add(ExprBody::Apply { target: one, params: vec![Expr { id: 1 }] }).is_none());
    assert!(ast.add(ExprBody::Apply { target: one, params: vec![one] }).is_some());
    assert_eq!(ast.len(), 2);
    assert!(ast.get(Expr { id: 2 }).is_none());
}

/// Walks the program and reports each name that no enclosing abstraction
/// binds, and each abstraction that binds a name bound elsewhere.
fn walk(ast: &Ast, e: Expr, bound: &mut Vec<String>, seen: &mut Vec<String>, faults: &mut u32) {
    match ast.get(e).unwrap() {
        ExprBody::Name(n) => {
            if !bound.contains(n) {
                *faults += 1;
            }
        }
        ExprBody::Apply { target, params } => {
            walk(ast, *target, bound, seen, faults);
            for p in params {
                walk(ast, *p, bound, seen, faults);
            }
        }
        ExprBody::Abstract { params, body } => {
            let mut own: Vec<String> = params.clone();
            own.dedup();
            for p in &own {
                if seen.contains(p) {
                    *faults += 1;
                }
                seen.push(p.clone());
            }
            if let AbstractBody::Expr(b) = body {
                let depth = bound.len();
                bound.extend(params.iter().cloned());
                walk(ast, *b, bound, seen, faults);
                bound.truncate(depth);
            }
        }
        _ => {}
    }
}

#[test]
fn every_name_of_a_parsed_program_is_bound_and_every_binding_has_its_own_name() {
    let sources = [
        "((\\x ($add x 1)) 41)",
        "((\\f (f 1)) (\\x ($add x x)))",
        "(\\x ((\\x (x)) x))",
        "(\\x x (x))",
        "((\\a (\\b (\\a (a b)))) (\\a (\\b (b a))) (\\b (b)))",
        "((\\x (x x)) (\\x (x x)))",
    ];
    for source in sources {
        let (ast, root) = parse_expr(source).unwrap();
        let mut faults = 0;
        walk(&ast, root, &mut Vec::new(), &mut Vec::new(), &mut faults);
        assert_eq!(faults, 0);
    }
}
