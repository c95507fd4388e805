use ry_checker::ast::{BinOpKind, DoubleLit, Expr, Param, Span, Stmt};
use ry_checker::quoting::{
    DefaultCapture, default_capture_mode, expression_preserves_binding, opaque_binary_operator,
    plain_distinct_bindings, statement_preserves_binding,
};

const S: Span = Span { start: 0, end: 0 };

fn ident(name: &str) -> Expr {
    Expr::Ident { name: name.to_string(), span: S }
}

fn assign_expr(name: &str, value: Expr) -> Expr {
    Expr::BinOp { op: BinOpKind::Assign, lhs: Box::new(ident(name)), rhs: Box::new(value), span: S }
}

fn assign(name: &str, value: Expr) -> Stmt {
    Stmt::Assign { target: ident(name), value, span: S }
}

fn call(func: &str) -> Expr {
    Expr::Call { func: Box::new(ident(func)), args: Vec::new(), span: S }
}

#[test]
fn pipes_and_in_are_lazy_operators() {
    assert!(opaque_binary_operator(&BinOpKind::PipeNative));
    assert!(opaque_binary_operator(&BinOpKind::PipeForward));
    assert!(opaque_binary_operator(&BinOpKind::In));
    assert!(!opaque_binary_operator(&BinOpKind::Add));
    assert!(!opaque_binary_operator(&BinOpKind::AndAnd));
    assert!(!opaque_binary_operator(&BinOpKind::Assign));
}

#[test]
fn backticked_names_are_never_plainly_distinct() {
    assert!(plain_distinct_bindings("x", "y"));
    assert!(!plain_distinct_bindings("x", "x"));
    assert!(!plain_distinct_bindings("`x`", "y"));
    assert!(!plain_distinct_bindings("x", "`y`"));
    assert!(plain_distinct_bindings("", "y"));
}

#[test]
fn literal_assignments_of_other_names_preserve_a_binding() {
    assert!(statement_preserves_binding(&assign("y", Expr::Integer(1, S)), "x"));
    assert!(!statement_preserves_binding(&assign("x", Expr::Integer(1, S)), "x"));
    // The value could run user code.
    assert!(!statement_preserves_binding(&assign("y", call("f")), "x"));
    // Reading another identifier may force an active binding.
    assert!(!statement_preserves_binding(&assign("y", ident("z")), "x"));
    assert!(statement_preserves_binding(
        &Stmt::FunctionDef { name: Some("g".to_string()), params: Vec::<Param>::new(), body: Vec::new(), span: S },
        "x"
    ));
    let double = Expr::Double(DoubleLit { whole: None, positive: true, trunc: Some(0) }, S);
    assert!(expression_preserves_binding(&assign_expr("y", double), "x"));
}

#[test]
fn literal_conditions_decide_by_the_taken_branch() {
    let taken_true = Stmt::If {
        cond: Expr::Logical(true, S),
        then: vec![assign("y", Expr::Null(S))],
        else_: Some(vec![assign("x", Expr::Null(S))]),
        span: S,
    };
    assert!(statement_preserves_binding(&taken_true, "x"));
    let taken_false = Stmt::If {
        cond: Expr::Logical(false, S),
        then: vec![assign("y", Expr::Null(S))],
        else_: Some(vec![assign("x", Expr::Null(S))]),
        span: S,
    };
    assert!(!statement_preserves_binding(&taken_false, "x"));
    let open = Stmt::If { cond: ident("c"), then: Vec::new(), else_: None, span: S };
    assert!(!statement_preserves_binding(&open, "x"));
    let block = Expr::Block { body: vec![assign("a", Expr::Integer(1, S)), assign("b", Expr::Integer(2, S))], span: S };
    assert!(expression_preserves_binding(&block, "x"));
    let if_expr = Expr::If {
        cond: Box::new(Expr::Logical(false, S)),
        then: Box::new(call("f")),
        else_: None,
        span: S,
    };
    assert!(expression_preserves_binding(&if_expr, "x"));
}

#[test]
fn only_qualified_capture_helpers_have_a_capture_mode() {
    assert_eq!(default_capture_mode("base::quote"), Some(DefaultCapture::Literal));
    assert_eq!(default_capture_mode("base:::substitute"), Some(DefaultCapture::Literal));
    assert_eq!(default_capture_mode("base::expression"), Some(DefaultCapture::Literal));
    assert_eq!(default_capture_mode("rlang::expr"), Some(DefaultCapture::Tidy));
    assert_eq!(default_capture_mode("quote"), None);
    assert_eq!(default_capture_mode("rlang::quote"), None);
    assert_eq!(default_capture_mode("base::bquote"), None);
}
