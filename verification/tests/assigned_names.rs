use std::collections::HashSet;

use ry_checker::assigned::assigned_names_in_body;
use ry_checker::ast::{Arg, BinOpKind, DoubleLit, Expr, Span, Stmt};

const S: Span = Span { start: 0, end: 0 };

fn ident(name: &str) -> Expr {
    Expr::Ident { name: name.to_string(), span: S }
}

fn num(value: i64) -> Expr {
    Expr::Double(DoubleLit { whole: Some(value), positive: value > 0, trunc: if value >= 0 { Some(value as usize) } else { None } }, S)
}

fn call(func: &str, args: Vec<Expr>) -> Expr {
    Expr::Call {
        func: Box::new(ident(func)),
        args: args.into_iter().map(|value| Arg { name: None, value, span: S }).collect(),
        span: S,
    }
}

fn assign_expr(name: &str, value: Expr) -> Expr {
    Expr::BinOp { op: BinOpKind::Assign, lhs: Box::new(ident(name)), rhs: Box::new(value), span: S }
}

fn assign(name: &str, value: Expr) -> Stmt {
    Stmt::Assign { target: ident(name), value, span: S }
}

fn assert_exact(body: Vec<Stmt>, expected: &[&str]) {
    let found: HashSet<String> = assigned_names_in_body(&body).into_iter().collect();
    let expected: HashSet<String> = expected.iter().map(|name| name.to_string()).collect();
    assert_eq!(found, expected);
}

#[test]
fn records_names_assigned_inside_braced_block_values() {
    // out <- { x <- 1; out }
    assert_exact(
        vec![assign("out", Expr::Block { body: vec![assign("x", num(1)), Stmt::Expr(ident("out"))], span: S })],
        &["out", "x"],
    );
}

#[test]
fn records_names_assigned_inside_if_expression_branches() {
    // res <- if (c) a else { b <- 1 }
    assert_exact(
        vec![assign(
            "res",
            Expr::If {
                cond: Box::new(ident("c")),
                then: Box::new(ident("a")),
                else_: Some(Box::new(Expr::Block { body: vec![assign("b", num(1))], span: S })),
                span: S,
            },
        )],
        &["res", "b"],
    );
}

#[test]
fn does_not_record_control_test_assignments() {
    // for (i in g(a <- 1)) print(i)
    assert_exact(
        vec![Stmt::For {
            name: "i".to_string(),
            iter: call("g", vec![assign_expr("a", num(1))]),
            body: vec![Stmt::Expr(call("print", vec![ident("i")]))],
            span: S,
        }],
        &["i"],
    );
    // res <- if (mk(w <- 1)) a else b
    assert_exact(
        vec![assign(
            "res",
            Expr::If {
                cond: Box::new(call("mk", vec![assign_expr("w", num(1))])),
                then: Box::new(ident("a")),
                else_: Some(Box::new(ident("b"))),
                span: S,
            },
        )],
        &["res"],
    );
}

#[test]
fn records_expression_position_assignment_names_without_walking_lhs() {
    // z <- (y <- f(x <- 1))
    assert_exact(
        vec![assign("z", assign_expr("y", call("f", vec![assign_expr("x", num(1))])))],
        &["z", "y"],
    );
}
