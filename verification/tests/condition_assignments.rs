use std::collections::HashSet;

use ry_checker::ast::{Arg, BinOpKind, DoubleLit, Expr, IndexKind, Span, Stmt};
use ry_checker::condition::collect_condition_assignment_names;

const S: Span = Span { start: 0, end: 0 };

fn ident(name: &str) -> Expr {
    Expr::Ident { name: name.to_string(), span: S }
}

fn num(value: i64) -> Expr {
    Expr::Double(DoubleLit { whole: Some(value), positive: value > 0, trunc: if value >= 0 { Some(value as usize) } else { None } }, S)
}

fn call(func: &str, args: Vec<Expr>) -> Expr {
    Expr::Call {
        func: Box::new(ident(func)),
        args: args.into_iter().map(|value| Arg { name: None, value, span: S }).collect(),
        span: S,
    }
}

fn binop(op: BinOpKind, lhs: Expr, rhs: Expr) -> Expr {
    Expr::BinOp { op, lhs: Box::new(lhs), rhs: Box::new(rhs), span: S }
}

fn assign_expr(name: &str, value: Expr) -> Expr {
    binop(BinOpKind::Assign, ident(name), value)
}

fn block(body: Vec<Stmt>) -> Expr {
    Expr::Block { body, span: S }
}

fn collected(operand: Expr) -> HashSet<String> {
    let mut names = Vec::new();
    collect_condition_assignment_names(&operand, &mut names);
    names.into_iter().collect()
}

fn assert_exact(operand: Expr, expected: &[&str]) {
    let expected: HashSet<String> = expected.iter().map(|name| name.to_string()).collect();
    assert_eq!(collected(operand), expected);
}

#[test]
fn records_assignments_inside_condition_value_blocks() {
    // ({ total <- total + (delta <- f()); total })
    assert_exact(
        block(vec![
            Stmt::Assign {
                target: ident("total"),
                value: binop(BinOpKind::Add, ident("total"), assign_expr("delta", call("f", vec![]))),
                span: S,
            },
            Stmt::Expr(ident("total")),
        ]),
        &["total", "delta"],
    );
}

#[test]
fn records_value_assignments_behind_complex_statement_targets() {
    // { d$k <- (y <- 1); TRUE }
    let target = Expr::Index {
        base: Box::new(ident("d")),
        kind: IndexKind::Dollar,
        args: vec![Arg { name: Some("k".to_string()), value: ident("k"), span: S }],
        span: S,
    };
    assert_exact(
        block(vec![
            Stmt::Assign { target, value: assign_expr("y", num(1)), span: S },
            Stmt::Expr(Expr::Logical(true, S)),
        ]),
        &["y"],
    );
}

#[test]
fn records_bare_expression_assignments_inside_condition_blocks() {
    // { (z <- 2); TRUE }
    assert_exact(
        block(vec![Stmt::Expr(assign_expr("z", num(2))), Stmt::Expr(Expr::Logical(true, S))]),
        &["z"],
    );
}

#[test]
fn walks_expression_position_assignment_lhs() {
    // (m[i <- compute()] <- v)
    let target = Expr::Index {
        base: Box::new(ident("m")),
        kind: IndexKind::Single,
        args: vec![Arg { name: None, value: assign_expr("i", call("compute", vec![])), span: S }],
        span: S,
    };
    assert_exact(binop(BinOpKind::Assign, target, ident("v")), &["i"]);
}

#[test]
fn prunes_control_statements_but_not_call_arguments() {
    // g(a <- 1)
    assert_exact(call("g", vec![assign_expr("a", num(1))]), &["a"]);
    // m[b <- 1]
    assert_exact(
        Expr::Index {
            base: Box::new(ident("m")),
            kind: IndexKind::Single,
            args: vec![Arg { name: None, value: assign_expr("b", num(1)), span: S }],
            span: S,
        },
        &["b"],
    );
    // { for (q in 1:3) { w <- 1 }; TRUE }
    assert_exact(
        block(vec![
            Stmt::For {
                name: "q".to_string(),
                iter: binop(BinOpKind::Colon, num(1), num(3)),
                body: vec![Stmt::Assign { target: ident("w"), value: num(1), span: S }],
                span: S,
            },
            Stmt::Expr(Expr::Logical(true, S)),
        ]),
        &[],
    );
}
