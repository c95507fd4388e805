use std::collections::HashSet;

use ry_checker::assigned::{SuperassignmentWrites, superassignment_writes, superassignment_writes_in_expr};
use ry_checker::ast::{Arg, BinOpKind, DoubleLit, Expr, IndexKind, Param, Span, Stmt};

const S: Span = Span { start: 0, end: 0 };

fn ident(name: &str) -> Expr {
    Expr::Ident { name: name.to_string(), span: S }
}

fn num(value: i64) -> Expr {
    Expr::Double(DoubleLit { whole: Some(value), positive: value > 0, trunc: if value >= 0 { Some(value as usize) } else { None } }, S)
}

fn string(text: &str) -> Expr {
    Expr::String(text.to_string(), S)
}

fn call(func: &str, args: Vec<Expr>) -> Expr {
    Expr::Call {
        func: Box::new(ident(func)),
        args: args.into_iter().map(|value| Arg { name: None, value, span: S }).collect(),
        span: S,
    }
}

fn super_assign(target: Expr, value: Expr) -> Expr {
    Expr::BinOp { op: BinOpKind::SuperAssign, lhs: Box::new(target), rhs: Box::new(value), span: S }
}

/// `target <<- value` as a statement.
fn super_stmt(target: Expr, value: Expr) -> Stmt {
    let copy = duplicate(&target);
    Stmt::Assign { target, value: super_assign(copy, value), span: S }
}

fn assign(name: &str, value: Expr) -> Stmt {
    Stmt::Assign { target: ident(name), value, span: S }
}

fn function(params: &[&str], body: Vec<Stmt>) -> Expr {
    Expr::Function {
        params: params.iter().map(|name| Param { name: name.to_string(), default: None }).collect(),
        body,
        span: S,
    }
}

fn dollar(base: Expr, field: &str) -> Expr {
    Expr::Index {
        base: Box::new(base),
        kind: IndexKind::Dollar,
        args: vec![Arg { name: Some(field.to_string()), value: ident(field), span: S }],
        span: S,
    }
}

/// A structural copy of the few target shapes these tests build.
fn duplicate(e: &Expr) -> Expr {
    match e {
        Expr::Ident { name, .. } => ident(name),
        Expr::String(text, _) => string(text),
        Expr::Index { base, kind, args, .. } => Expr::Index {
            base: Box::new(duplicate(base)),
            kind: *kind,
            args: args
                .iter()
                .map(|a| Arg { name: a.name.clone(), value: duplicate(&a.value), span: S })
                .collect(),
            span: S,
        },
        Expr::Call { func, args, .. } => Expr::Call {
            func: Box::new(duplicate(func)),
            args: args
                .iter()
                .map(|a| Arg { name: a.name.clone(), value: duplicate(&a.value), span: S })
                .collect(),
            span: S,
        },
        _ => panic!("unsupported target shape"),
    }
}

fn names(writes: &SuperassignmentWrites) -> HashSet<String> {
    writes.names.iter().cloned().collect()
}

fn expected(names: &[&str]) -> HashSet<String> {
    names.iter().map(|name| name.to_string()).collect()
}

fn assert_formal_names(params: &[&str], body: Vec<Stmt>, want: &[&str]) {
    let params: Vec<Param> = params.iter().map(|name| Param { name: name.to_string(), default: None }).collect();
    let writes = superassignment_writes(&params, &body);
    assert_eq!(names(&writes), expected(want));
    assert!(!writes.opaque);
}

fn assert_names(body: Vec<Stmt>, want: &[&str]) {
    assert_formal_names(&[], body, want);
}

#[test]
fn records_targets_inside_nested_closure_bodies() {
    // token <- NULL; read <- function() token <<- 'EOF'; while (token) break
    assert_names(
        vec![
            assign("token", Expr::Null(S)),
            assign("read", function(&[], vec![super_stmt(ident("token"), string("EOF"))])),
            Stmt::While { cond: ident("token"), body: vec![Stmt::Expr(ident("break"))], span: S },
        ],
        &["token"],
    );
}

#[test]
fn records_statement_expression_and_arrow_forms() {
    // x <<- 1
    assert_names(vec![super_stmt(ident("x"), num(1))], &["x"]);
    // y <- (x <<- 1)
    assert_names(vec![assign("y", super_assign(ident("x"), num(1)))], &["x"]);
    // 1 ->> x
    assert_names(vec![super_stmt(ident("x"), num(1))], &["x"]);
}

#[test]
fn resolves_complex_targets_to_their_root() {
    // state$key <<- 1
    assert_names(vec![super_stmt(dollar(ident("state"), "key"), num(1))], &["state"]);
    // class(x) <<- 1
    assert_names(vec![super_stmt(call("class", vec![ident("x")]), num(1))], &["x"]);
    // make()$key <<- 1
    let body = vec![super_stmt(dollar(call("make", vec![]), "key"), num(1))];
    let opaque = superassignment_writes(&vec![], &body);
    assert!(opaque.opaque, "call-rooted target must be opaque");
}

#[test]
fn ignores_plain_assignment_in_nested_bodies() {
    // inner <- function() { local_x <- 1 }
    assert_names(vec![assign("inner", function(&[], vec![assign("local_x", num(1))]))], &[]);
}

#[test]
fn excludes_targets_intercepted_by_intervening_formals() {
    let inner_writes_x = || assign("inner", function(&[], vec![super_stmt(ident("x"), Expr::Logical(true, S))]));
    assert_formal_names(&["x"], vec![inner_writes_x()], &[]);
    assert_names(vec![assign("mid", function(&["x"], vec![inner_writes_x()]))], &[]);
    assert_formal_names(&["y"], vec![inner_writes_x()], &["x"]);
    assert_names(
        vec![assign("inner", function(&["x"], vec![super_stmt(ident("x"), Expr::Logical(true, S))]))],
        &["x"],
    );
    assert_names(
        vec![
            assign("a", function(&["s"], vec![Stmt::Expr(Expr::Null(S))])),
            assign("b", function(&[], vec![super_stmt(ident("s"), Expr::Logical(true, S))])),
        ],
        &["s"],
    );
}

#[test]
fn complex_targets_bypass_the_interception_rule() {
    let state_key =
        || assign("inner", function(&[], vec![super_stmt(dollar(ident("state"), "key"), Expr::Logical(true, S))]));
    assert_formal_names(&["state"], vec![state_key()], &["state"]);
    assert_formal_names(&["other"], vec![state_key()], &["state"]);
    assert_formal_names(
        &["e2"],
        vec![assign("inner", function(&[], vec![super_stmt(call("class", vec![ident("e2")]), string("foo"))]))],
        &["e2"],
    );
}

#[test]
fn collects_from_expression_position() {
    // local({ token <- NULL; read <- function() token <<- 'EOF' })
    let block = Expr::Block {
        body: vec![
            assign("token", Expr::Null(S)),
            assign("read", function(&[], vec![super_stmt(ident("token"), string("EOF"))])),
        ],
        span: S,
    };
    let writes = superassignment_writes_in_expr(&block);
    assert_eq!(names(&writes), expected(&["token"]));
    assert!(!writes.opaque);
}

#[test]
fn expression_position_prunes_intercepted_writes() {
    // local({ outer <- function(token) { inner <- function() token <<- 'EOF' } })
    let block = Expr::Block {
        body: vec![assign(
            "outer",
            function(
                &["token"],
                vec![assign("inner", function(&[], vec![super_stmt(ident("token"), string("EOF"))]))],
            ),
        )],
        span: S,
    };
    let writes = superassignment_writes_in_expr(&block);
    assert!(writes.names.is_empty(), "{:?}", writes.names);
    assert!(!writes.opaque);
}
