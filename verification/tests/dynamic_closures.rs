use ry_checker::ast::{Arg, Expr, IndexKind, Span, Stmt};
use ry_checker::dynamic_closure::{
    PlaceholderKind, index_dynamic_closure_literals, nested_function_literal_spans, replacement_targets,
    scope_placeholder_spans,
};

const S: Span = Span { start: 0, end: 0 };

fn sp(start: usize) -> Span {
    Span { start, end: start + 1 }
}

fn ident(name: &str) -> Expr {
    Expr::Ident { name: name.to_string(), span: S }
}

fn call(func: &str, args: Vec<Expr>) -> Expr {
    Expr::Call {
        func: Box::new(ident(func)),
        args: args.into_iter().map(|value| Arg { name: None, value, span: S }).collect(),
        span: S,
    }
}

fn function(body: Vec<Stmt>, span: Span) -> Expr {
    Expr::Function { params: Vec::new(), body, span }
}

fn assign(target: Expr, value: Expr) -> Stmt {
    Stmt::Assign { target, value, span: S }
}

fn replace(accessor: &str, name: &str) -> Stmt {
    assign(call(accessor, vec![ident(name)]), call("alist", vec![]))
}

fn sorted(mut v: Vec<(Span, PlaceholderKind)>) -> Vec<(Span, PlaceholderKind)> {
    v.sort_by_key(|(s, k)| (s.start, *k == PlaceholderKind::BodyReplaced));
    v.dedup();
    v
}

#[test]
fn formals_replacement_marks_the_placeholder_literal() {
    // trafo <- function() return(x); formals(trafo) <- alist(x = )
    let stmts = vec![
        assign(ident("trafo"), function(vec![Stmt::Return { value: Some(ident("x")), span: S }], sp(10))),
        replace("formals", "trafo"),
    ];
    let mut out = Vec::new();
    index_dynamic_closure_literals(&stmts, &mut out);
    assert_eq!(sorted(out), vec![(sp(10), PlaceholderKind::FormalsOnly)]);
}

#[test]
fn body_replacement_wins_over_formals_in_either_order() {
    for order in [["formals", "body"], ["body", "formals"]] {
        let stmts = vec![
            assign(ident("f"), function(vec![], sp(20))),
            replace(order[0], "f"),
            replace(order[1], "f"),
        ];
        let targets = replacement_targets(&stmts);
        assert_eq!(targets.len(), 1);
        assert_eq!(targets[0].1, PlaceholderKind::BodyReplaced);
        let mut out = Vec::new();
        index_dynamic_closure_literals(&stmts, &mut out);
        assert_eq!(sorted(out), vec![(sp(20), PlaceholderKind::BodyReplaced)]);
    }
}

#[test]
fn qualified_accessor_counts_and_other_accessors_do_not() {
    let stmts = vec![replace("base::formals", "g"), replace("attr", "h")];
    let targets = replacement_targets(&stmts);
    assert_eq!(targets.len(), 1);
    assert_eq!(targets[0].0, "g");
    assert_eq!(targets[0].1, PlaceholderKind::FormalsOnly);
}

#[test]
fn computed_receiver_is_not_a_placeholder_target() {
    // f <- function() NULL; formals(self$pdf) <- alist()
    let receiver = Expr::Index {
        base: Box::new(ident("self")),
        kind: IndexKind::Dollar,
        args: vec![Arg { name: None, value: ident("pdf"), span: S }],
        span: S,
    };
    let stmts = vec![
        assign(ident("f"), function(vec![], sp(30))),
        assign(call("formals", vec![receiver]), call("alist", vec![])),
    ];
    assert!(replacement_targets(&stmts).is_empty());
    let mut out = Vec::new();
    index_dynamic_closure_literals(&stmts, &mut out);
    assert!(out.is_empty());
}

#[test]
fn replacement_in_another_scope_does_not_reach_the_literal() {
    // f <- function() NULL; g <- function() { formals(f) <- alist() }
    let stmts = vec![
        assign(ident("f"), function(vec![], sp(40))),
        assign(ident("g"), function(vec![replace("formals", "f")], sp(41))),
    ];
    let mut out = Vec::new();
    index_dynamic_closure_literals(&stmts, &mut out);
    assert!(out.is_empty());
}

#[test]
fn nested_scopes_are_scanned_on_their_own() {
    // outer <- function() { h <- function() NULL; body(h) <- quote(1) }
    let inner = vec![assign(ident("h"), function(vec![], sp(50))), replace("body", "h")];
    let stmts = vec![assign(ident("outer"), function(inner, sp(51)))];
    let mut out = Vec::new();
    index_dynamic_closure_literals(&stmts, &mut out);
    assert_eq!(sorted(out), vec![(sp(50), PlaceholderKind::BodyReplaced)]);
}

#[test]
fn placeholder_spans_need_a_target_table_entry() {
    let stmts = vec![assign(ident("a"), function(vec![], sp(60))), assign(ident("b"), function(vec![], sp(61)))];
    let targets = vec![("b".to_string(), PlaceholderKind::FormalsOnly)];
    let mut out = Vec::new();
    scope_placeholder_spans(&stmts, &targets, &mut out);
    assert_eq!(out, vec![(sp(61), PlaceholderKind::FormalsOnly)]);
}

#[test]
fn nested_function_literals_are_found_at_any_depth() {
    // function() { k <- function() { function() 1 } }
    let deepest = function(vec![Stmt::Expr(Expr::Integer(1, S))], sp(72));
    let middle = function(vec![Stmt::Expr(deepest)], sp(71));
    let body = vec![assign(ident("k"), middle)];
    let mut spans: Vec<usize> = nested_function_literal_spans(&body).into_iter().map(|s| s.start).collect();
    spans.sort();
    assert_eq!(spans, vec![71, 72]);
}
