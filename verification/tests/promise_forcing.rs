use ry_checker::ast::{Arg, BinOpKind, Expr, IndexKind, Param, Span, Stmt};
use ry_checker::force::{
    collect_executed_identifiers, definitely_forced_identifier, first_executed_identifier,
    guaranteed_force_before_replacement, is_defusing_call, qualifier_package,
};
use ry_checker::reads::{formal_reads_for, index_formal_reads};

fn sp(start: usize, end: usize) -> Span {
    Span { start, end }
}

const S: Span = Span { start: 0, end: 0 };

fn ident_at(name: &str, span: Span) -> Expr {
    Expr::Ident { name: name.to_string(), span }
}

fn ident(name: &str) -> Expr {
    ident_at(name, S)
}

fn call(func: &str, args: Vec<Expr>) -> Expr {
    Expr::Call {
        func: Box::new(ident(func)),
        args: args.into_iter().map(|value| Arg { name: None, value, span: S }).collect(),
        span: S,
    }
}

fn binop(op: BinOpKind, lhs: Expr, rhs: Expr) -> Expr {
    Expr::BinOp { op, lhs: Box::new(lhs), rhs: Box::new(rhs), span: S }
}

fn no_trusted() -> Vec<String> {
    Vec::new()
}

#[test]
fn defusing_calls_and_qualifier_packages() {
    assert!(is_defusing_call("quote"));
    assert!(is_defusing_call("enquo"));
    assert!(!is_defusing_call("eval"));
    assert_eq!(qualifier_package("rlang::enquo"), Some("rlang".to_string()));
    assert_eq!(qualifier_package("base:::quote"), Some("base".to_string()));
    assert_eq!(qualifier_package("quote"), None);
}

#[test]
fn first_evaluation_in_evaluation_order() {
    let t = no_trusted();
    // x + y evaluates x first.
    let e = binop(BinOpKind::Add, ident_at("y", sp(1, 2)), ident_at("x", sp(5, 6)));
    assert_eq!(first_executed_identifier(&e, "x", &t), Some(sp(5, 6)));
    // Quoting defuses its argument.
    let q = call("quote", vec![ident_at("x", sp(7, 8))]);
    assert_eq!(first_executed_identifier(&q, "x", &t), None);
    // An ordinary call's arguments are promises.
    let f = call("f", vec![ident_at("x", sp(7, 8))]);
    assert_eq!(first_executed_identifier(&f, "x", &t), None);
    // A qualified strict builtin forces them.
    let stop = call("base::stop", vec![ident_at("x", sp(9, 10))]);
    assert_eq!(first_executed_identifier(&stop, "x", &t), Some(sp(9, 10)));
    // The name of a `$` access is not evaluated.
    let dollar = Expr::Index {
        base: Box::new(ident("obj")),
        kind: IndexKind::Dollar,
        args: vec![Arg { name: Some("x".to_string()), value: ident_at("x", sp(3, 4)), span: S }],
        span: S,
    };
    assert_eq!(first_executed_identifier(&dollar, "x", &t), None);
    // A function literal evaluates nothing.
    let lit = Expr::Function { params: Vec::new(), body: vec![Stmt::Expr(ident("x"))], span: S };
    assert_eq!(first_executed_identifier(&lit, "x", &t), None);
}

#[test]
fn definite_forces_follow_literal_conditions_and_short_circuits() {
    let t = no_trusted();
    let taken = Expr::If {
        cond: Box::new(Expr::Logical(true, S)),
        then: Box::new(ident_at("x", sp(2, 3))),
        else_: None,
        span: S,
    };
    assert_eq!(definitely_forced_identifier(&taken, "x", &t), Some(sp(2, 3)));
    let open = Expr::If {
        cond: Box::new(ident("c")),
        then: Box::new(ident_at("x", sp(2, 3))),
        else_: None,
        span: S,
    };
    assert_eq!(definitely_forced_identifier(&open, "x", &t), None);
    let and = binop(BinOpKind::AndAnd, ident_at("x", sp(4, 5)), ident("y"));
    assert_eq!(definitely_forced_identifier(&and, "x", &t), Some(sp(4, 5)));
    let rhs_only = binop(BinOpKind::AndAnd, ident("c"), ident_at("x", sp(4, 5)));
    assert_eq!(definitely_forced_identifier(&rhs_only, "x", &t), None);
}

#[test]
fn forcing_before_replacement() {
    let t = no_trusted();
    let forced = vec![
        Stmt::Expr(ident("x")),
        Stmt::Assign { target: ident("x"), value: Expr::Integer(1, S), span: S },
    ];
    assert!(guaranteed_force_before_replacement(&forced, "x", &t));
    let replaced = vec![
        Stmt::Assign { target: ident("x"), value: Expr::Integer(1, S), span: S },
        Stmt::Expr(ident("x")),
    ];
    assert!(!guaranteed_force_before_replacement(&replaced, "x", &t));
    let self_read = vec![Stmt::Assign { target: ident("x"), value: binop(BinOpKind::Add, ident("x"), Expr::Integer(1, S)), span: S }];
    assert!(guaranteed_force_before_replacement(&self_read, "x", &t));
    let guarded = vec![
        Stmt::If { cond: ident("c"), then: vec![Stmt::Return { value: None, span: S }], else_: None, span: S },
        Stmt::Expr(ident("x")),
    ];
    assert!(!guaranteed_force_before_replacement(&guarded, "x", &t));
}

#[test]
fn executed_identifiers_skip_assignment_targets() {
    let mut names = Vec::new();
    let e = binop(BinOpKind::Assign, ident("target"), call("f", vec![ident("a"), binop(BinOpKind::Mul, ident("b"), ident("a"))]));
    collect_executed_identifiers(&e, &mut names);
    names.sort();
    assert_eq!(names, vec!["a".to_string(), "b".to_string(), "f".to_string()]);
}

#[test]
fn formal_reads_are_indexed_per_function() {
    let inner_span = sp(30, 50);
    let outer_span = sp(0, 80);
    let inner = Expr::Function {
        params: vec![Param { name: "y".to_string(), default: None }],
        body: vec![Stmt::Expr(binop(BinOpKind::Add, ident("y"), ident("k")))],
        span: inner_span,
    };
    let outer = Expr::Function {
        params: vec![
            Param { name: "x".to_string(), default: None },
            Param { name: "k".to_string(), default: None },
            Param { name: "unused".to_string(), default: Some(ident("x")) },
        ],
        body: vec![Stmt::Assign { target: ident("g"), value: inner, span: S }],
        span: outer_span,
    };
    let file = vec![Stmt::Assign { target: ident("f"), value: outer, span: S }];
    let mut map = Vec::new();
    index_formal_reads(&file, &mut map);
    let mut outer_reads = formal_reads_for(&map, outer_span).expect("indexed").clone();
    outer_reads.sort();
    // `x` is read by a default and `k` by the nested closure.
    assert_eq!(outer_reads, vec!["k".to_string(), "x".to_string()]);
    assert_eq!(formal_reads_for(&map, inner_span), Some(&vec!["y".to_string()]));
    assert_eq!(formal_reads_for(&map, sp(1, 2)), None);
}
