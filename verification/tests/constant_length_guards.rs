use ry_checker::ast::{Arg, BinOpKind, DoubleLit, Expr, Span, UnaryOpKind};
use ry_checker::checker::Checker;
use ry_checker::recall::ResolutionFacts;
use ry_checker::scope::Scope;
use ry_checker::types::{ClassVector, Length, Mode, RType};

const S: Span = Span { start: 0, end: 0 };
const SITE: Span = Span { start: 3, end: 30 };

fn checker() -> Checker {
    Checker {
        diagnostics: Vec::new(),
        discarding: false,
        source: String::new(),
        validate_user_call_arguments: false,
        fn_table: Vec::new(),
        enclosing_formals: Vec::new(),
        formal_reads: Vec::new(),
        loop_frames: Vec::new(),
        trusted_defusers: None,
        stubs: Default::default(),
    }
}

fn ident(name: &str) -> Expr {
    Expr::Ident { name: name.to_string(), span: S }
}

fn integer(value: i64) -> Expr {
    Expr::Integer(value, S)
}

fn num(value: i64) -> Expr {
    Expr::Double(DoubleLit { whole: Some(value), positive: value > 0, trunc: if value >= 0 { Some(value as usize) } else { None } }, S)
}

fn call(func: &str, args: Vec<Expr>) -> Expr {
    Expr::Call {
        func: Box::new(ident(func)),
        args: args.into_iter().map(|value| Arg { name: None, value, span: S }).collect(),
        span: S,
    }
}

fn names(list: &[&str]) -> Vec<String> {
    list.iter().map(|n| n.to_string()).collect()
}

/// A fresh file: the base functions resolve to base, their stubs declare
/// the scalar reductions, and nothing rebinds an operator.
fn base_facts(scalar_reductions: &[&str]) -> ResolutionFacts {
    ResolutionFacts {
        base_callees: names(&["length", "sum", "any", "all", "isTRUE", "identical", "unique"]),
        scalar_reductions: names(scalar_reductions),
        dispatching_generics: names(&["sum", "any", "all", "unique"]),
        bare_loaded: false,
        syntax_rebound: false,
        rebound_operators: Vec::new(),
    }
}

fn codes(c: &Checker) -> Vec<String> {
    c.diagnostics.iter().map(|d| d.code.clone()).collect()
}

#[test]
fn known_scalar_reductions_fire_ry105() {
    let reductions = ["sum", "any", "all", "length", "isTRUE", "identical"];
    for callee in reductions {
        // if (length(callee(1L)) > 0) 1   -- identical takes two arguments
        let args = match callee {
            "identical" => vec![integer(1), integer(1)],
            _ => vec![integer(1)],
        };
        let lhs = call("length", vec![call(callee, args)]);
        let mut c = checker();
        c.check_constant_length_comparison(BinOpKind::Gt, &lhs, &num(0), SITE, &Scope::new(), &base_facts(&reductions));
        assert!(codes(&c).iter().any(|code| code == "RY105"), "`{callee}` should make the length guard constant");
    }
}

#[test]
fn message_names_the_reduction_and_the_outcome() {
    let mut c = checker();
    let lhs = call("length", vec![call("sum", vec![integer(1)])]);
    c.check_constant_length_comparison(BinOpKind::Gt, &lhs, &num(0), SITE, &Scope::new(), &base_facts(&["sum"]));
    assert_eq!(c.diagnostics.len(), 1);
    assert_eq!(c.diagnostics[0].span, SITE);
    assert_eq!(
        c.diagnostics[0].message,
        "`sum()` always returns a single value, so `length(...)` is 1 here and this length guard is always TRUE"
    );
}

#[test]
fn literal_on_the_left_mirrors_the_comparison() {
    // 0 >= length(x) reads as length(x) <= 0: always FALSE
    let mut c = checker();
    let mut scope = Scope::new();
    scope.insert("x", RType::new(Mode::Double, Length::One));
    let rhs = call("length", vec![ident("x")]);
    c.check_constant_length_comparison(BinOpKind::Ge, &num(0), &rhs, SITE, &scope, &base_facts(&[]));
    assert_eq!(c.diagnostics.len(), 1);
    assert_eq!(
        c.diagnostics[0].message,
        "`x` is a length-1 double, so `length(...)` is 1 here and this length guard is always FALSE"
    );
}

#[test]
fn negative_bound_counts_like_zero() {
    let mut c = checker();
    let lhs = call("length", vec![call("any", vec![Expr::Logical(true, S)])]);
    let minus_one = Expr::UnaryOp { op: UnaryOpKind::Neg, expr: Box::new(num(1)), span: S };
    c.check_constant_length_comparison(BinOpKind::Ne, &lhs, &minus_one, SITE, &Scope::new(), &base_facts(&["any"]));
    assert_eq!(codes(&c), vec!["RY105".to_string()]);
}

#[test]
fn stays_silent_without_a_proven_scalar() {
    let facts = base_facts(&["sum"]);
    // A parameter's length is not known.
    let mut scope = Scope::new();
    scope.insert_parameter("p", RType::new(Mode::Double, Length::One));
    let mut c = checker();
    c.check_constant_length_comparison(BinOpKind::Gt, &call("length", vec![ident("p")]), &num(0), SITE, &scope, &facts);
    // A classed argument may dispatch to a method of any length.
    let mut classed = Scope::new();
    classed.insert("k", RType::new(Mode::Double, Length::One).with_class(ClassVector::single("units")));
    c.check_constant_length_comparison(
        BinOpKind::Gt,
        &call("length", vec![call("sum", vec![ident("k")])]),
        &num(0),
        SITE,
        &classed,
        &facts,
    );
    // A function whose stub is not a scalar reduction.
    c.check_constant_length_comparison(
        BinOpKind::Gt,
        &call("length", vec![call("unique", vec![integer(1)])]),
        &num(0),
        SITE,
        &Scope::new(),
        &facts,
    );
    // A positive bound is a real test.
    c.check_constant_length_comparison(BinOpKind::Gt, &call("length", vec![call("sum", vec![integer(1)])]), &num(1), SITE, &Scope::new(), &facts);
    assert!(c.diagnostics.is_empty());
}

#[test]
fn stays_silent_when_length_is_not_base() {
    let mut facts = base_facts(&["sum"]);
    facts.base_callees = names(&["sum"]);
    let mut c = checker();
    let lhs = call("length", vec![call("sum", vec![integer(1)])]);
    c.check_constant_length_comparison(BinOpKind::Gt, &lhs, &num(0), SITE, &Scope::new(), &facts);
    assert!(c.diagnostics.is_empty());
}

#[test]
fn rebound_arithmetic_hides_classlessness() {
    // length(sum(1 + 2)) > 0 with `+` possibly rebound
    let arg = Expr::BinOp { op: BinOpKind::Add, lhs: Box::new(num(1)), rhs: Box::new(num(2)), span: S };
    let lhs = call("length", vec![call("sum", vec![arg])]);
    let mut facts = base_facts(&["sum"]);
    let mut c = checker();
    c.check_constant_length_comparison(BinOpKind::Gt, &lhs, &num(0), SITE, &Scope::new(), &facts);
    assert_eq!(c.diagnostics.len(), 1);
    facts.rebound_operators = names(&["+"]);
    let mut quiet = checker();
    quiet.check_constant_length_comparison(BinOpKind::Gt, &lhs, &num(0), SITE, &Scope::new(), &facts);
    assert!(quiet.diagnostics.is_empty());
}
