use ry_checker::ast::{Arg, BinOpKind, DoubleLit, Expr, Span, UnaryOpKind};
use ry_checker::scope::Scope;
use ry_checker::checker::Checker;
use ry_checker::types::{Length, Mode, RType};

const S: Span = Span { start: 0, end: 0 };

fn checker() -> Checker {
    Checker {
        diagnostics: Vec::new(),
        discarding: false,
        source: String::new(),
        validate_user_call_arguments: false,
        fn_table: Vec::new(),
        enclosing_formals: Vec::new(),
        formal_reads: Vec::new(),
        loop_frames: Vec::new(),
        trusted_defusers: None,
        stubs: Default::default(),
    }
}

fn arg(name: Option<&str>, value: Expr) -> Arg {
    Arg { name: name.map(str::to_string), value, span: S }
}

fn num(value: i64) -> Expr {
    Expr::Double(DoubleLit { whole: Some(value), positive: value > 0, trunc: if value >= 0 { Some(value as usize) } else { None } }, S)
}

fn int_lit(value: i64) -> Expr {
    Expr::Integer(value, S)
}

fn ident(name: &str) -> Expr {
    Expr::Ident { name: name.to_string(), span: S }
}

fn dbl(length: Length) -> RType {
    RType::new(Mode::Double, length)
}

#[test]
fn rep_multiplies_the_length_by_times_and_each() {
    let c = checker();
    // rep(x, times = 2, each = 3) with x of length 4
    let args = vec![arg(None, ident("x")), arg(Some("times"), num(2)), arg(Some("each"), num(3))];
    let types = vec![dbl(Length::Known(4)), dbl(Length::One), dbl(Length::One)];
    let r = c.infer_rep(&args, &types);
    assert_eq!(r.length, Length::Known(24));
    assert_eq!(r.mode, Mode::Double);
}

#[test]
fn rep_counts_default_to_one_and_normalize_the_length() {
    let c = checker();
    // rep(x) keeps a scalar; rep(x, 0) is empty
    let types = vec![dbl(Length::One)];
    assert_eq!(c.infer_rep(&vec![arg(None, ident("x"))], &types).length, Length::One);
    let types = vec![dbl(Length::One), dbl(Length::One)];
    assert_eq!(c.infer_rep(&vec![arg(None, ident("x")), arg(None, num(0))], &types).length, Length::Zero);
    // rep(each = 2, x, 3): x is the first unnamed argument, times the second
    let args = vec![arg(Some("each"), num(2)), arg(None, ident("x")), arg(None, num(3))];
    let types = vec![dbl(Length::One), dbl(Length::Known(2)), dbl(Length::One)];
    assert_eq!(c.infer_rep(&args, &types).length, Length::Known(12));
}

#[test]
fn rep_with_a_dynamic_or_negative_count_has_unknown_length() {
    let c = checker();
    let types = vec![dbl(Length::One), dbl(Length::One)];
    let dynamic = vec![arg(None, ident("x")), arg(Some("times"), ident("n"))];
    assert_eq!(c.infer_rep(&dynamic, &types).length, Length::Unknown);
    let negative = vec![arg(None, ident("x")), arg(Some("times"), int_lit(-1))];
    assert_eq!(c.infer_rep(&negative, &types).length, Length::Unknown);
    // Without a type for x, nothing is known.
    let r = c.infer_rep(&vec![arg(Some("times"), num(2))], &vec![dbl(Length::One)]);
    assert_eq!(r.mode, Mode::Opaque);
    assert_eq!(r.length, Length::Unknown);
}

#[test]
fn seq_length_follows_its_literal_arguments() {
    let c = checker();
    let one = dbl(Length::One);
    // seq(1, 10)
    let r = c.infer_seq(&vec![arg(None, num(1)), arg(None, num(10))], &vec![one.clone(), one.clone()]);
    assert_eq!((r.mode, r.length), (Mode::Double, Length::Known(10)));
    // seq(0, 10, by = 3) has 0, 3, 6, 9
    let r = c.infer_seq(&vec![arg(None, num(0)), arg(None, num(10)), arg(Some("by"), num(3))], &vec![one.clone(); 3]);
    assert_eq!(r.length, Length::Known(4));
    // seq(10, 1) counts down
    let r = c.infer_seq(&vec![arg(None, num(10)), arg(None, num(1))], &vec![one.clone(); 2]);
    assert_eq!(r.length, Length::Known(10));
    // length.out wins over by
    let r = c.infer_seq(
        &vec![arg(None, num(1)), arg(None, num(10)), arg(Some("by"), num(2)), arg(Some("length.out"), num(5))],
        &vec![one.clone(); 4],
    );
    assert_eq!(r.length, Length::Known(5));
}

#[test]
fn seq_mode_is_integer_for_an_integer_start() {
    let c = checker();
    let int_one = RType::new(Mode::Integer, Length::One);
    let r = c.infer_seq(&vec![arg(None, int_lit(1)), arg(None, int_lit(5))], &vec![int_one.clone(), int_one]);
    assert_eq!((r.mode, r.length), (Mode::Integer, Length::Known(5)));
}

#[test]
fn seq_with_zero_or_dynamic_step_has_unknown_length() {
    let c = checker();
    let one = dbl(Length::One);
    let zero = c.infer_seq(&vec![arg(None, num(1)), arg(None, num(10)), arg(Some("by"), num(0))], &vec![one.clone(); 3]);
    assert_eq!(zero.length, Length::Unknown);
    let dynamic = c.infer_seq(&vec![arg(None, num(1)), arg(None, num(10)), arg(Some("by"), ident("k"))], &vec![one.clone(); 3]);
    assert_eq!(dynamic.length, Length::Unknown);
    let open = c.infer_seq(&vec![arg(None, num(1)), arg(None, ident("n"))], &vec![one.clone(); 2]);
    assert_eq!(open.length, Length::Unknown);
}

#[test]
fn vector_reads_mode_and_length() {
    let c = checker();
    let r = c.infer_vector(&vec![arg(None, Expr::String("character".to_string(), S)), arg(None, num(3))]);
    assert_eq!((r.mode, r.length), (Mode::Character, Length::Known(3)));
    let r = c.infer_vector(&vec![]);
    assert_eq!((r.mode, r.length), (Mode::Logical, Length::Zero));
    let r = c.infer_vector(&vec![arg(Some("length"), num(1)), arg(Some("mode"), Expr::String("numeric".to_string(), S))]);
    assert_eq!((r.mode, r.length), (Mode::Double, Length::One));
    let r = c.infer_vector(&vec![arg(None, ident("m"))]);
    assert_eq!(r.mode, Mode::Opaque);
    let r = c.infer_vector(&vec![arg(None, Expr::String("foo".to_string(), S))]);
    assert_eq!(r.mode, Mode::Opaque);
}

#[test]
fn list_schema_is_local_and_closed_without_splices() {
    let c = checker();
    let one = dbl(Length::One);
    let r = c.infer_list(&vec![one.clone(), one.clone()], &vec![arg(Some("a"), num(1)), arg(None, num(2))]);
    assert_eq!((r.mode, r.length), (Mode::List, Length::Known(2)));
    let schema = r.columns.expect("schema");
    assert_eq!(schema.columns.len(), 2);
    assert_eq!(schema.columns[0].0, "a");
    assert!(schema.complete);
    assert!(schema.locally_constructed);
    let r = c.infer_list(&vec![one.clone()], &vec![arg(None, ident("..."))]);
    assert!(!r.columns.expect("schema").complete);
    let r = c.infer_list(&vec![], &vec![]);
    let schema = r.columns.expect("schema");
    assert!(schema.columns.is_empty() && schema.complete);
}

#[test]
fn literal_length_constructors_are_dispatched_by_name() {
    let c = checker();
    let one = dbl(Length::One);
    let args = vec![arg(None, num(2)), arg(None, num(4))];
    let types = vec![one.clone(), one.clone()];
    assert_eq!(c.infer_literal_length_call("seq.int", &args, &types).map(|t| t.length), Some(Length::Known(3)));
    assert_eq!(c.infer_literal_length_call("rep", &args, &types).map(|t| t.length), Some(Length::Known(4)));
    assert_eq!(c.infer_literal_length_call("vector", &vec![], &vec![]).map(|t| t.mode), Some(Mode::Logical));
    assert!(c.infer_literal_length_call("c", &args, &types).is_none());
}

fn call1(func: &str, value: Expr) -> Expr {
    Expr::Call { func: Box::new(ident(func)), args: vec![arg(None, value)], span: S }
}

fn binop(op: BinOpKind, lhs: Expr, rhs: Expr) -> Expr {
    Expr::BinOp { op, lhs: Box::new(lhs), rhs: Box::new(rhs), span: S }
}

fn with_parameter(name: &str) -> Scope {
    let mut scope = Scope::new();
    scope.insert_parameter(name, RType::unknown());
    scope
}

#[test]
fn null_guard_then_comparison_on_a_parameter_is_a_vector_guard() {
    // is.null(p) || p == "a"
    let c = checker();
    let scope = with_parameter("p");
    let lhs = call1("is.null", ident("p"));
    let rhs = binop(BinOpKind::Eq, ident("p"), Expr::String("a".to_string(), S));
    assert!(c.short_circuit_parameter_vector(BinOpKind::OrOr, &lhs, &rhs, &scope));
    // The same shape on a local that is not a parameter is not.
    let local = Scope::new();
    assert!(!c.short_circuit_parameter_vector(BinOpKind::OrOr, &lhs, &rhs, &local));
    // `&&` needs a length guard, not a null test.
    assert!(!c.short_circuit_parameter_vector(BinOpKind::AndAnd, &lhs, &rhs, &scope));
}

#[test]
fn length_guard_then_negated_predicate_is_a_vector_guard() {
    // length(p) > 0 && !is.na(p)
    let c = checker();
    let scope = with_parameter("p");
    let lhs = binop(BinOpKind::Gt, call1("length", ident("p")), num(0));
    let rhs = Expr::UnaryOp { op: UnaryOpKind::Not, expr: Box::new(call1("base::is.na", ident("p"))), span: S };
    assert!(c.short_circuit_parameter_vector(BinOpKind::AndAnd, &lhs, &rhs, &scope));
    // A predicate on another parameter does not match the guard.
    let mut two = with_parameter("p");
    two.insert_parameter("q", RType::unknown());
    let other = call1("nzchar", ident("q"));
    assert!(!c.short_circuit_parameter_vector(BinOpKind::AndAnd, &lhs, &other, &two));
}

#[test]
fn assertion_helpers_bind_their_subject() {
    let mut c = checker();
    let mut scope = Scope::new();
    let r = c.infer_assert_scalar_call("assert_character_scalar", &[arg(None, ident("x"))], &mut scope);
    let r = r.expect("assertion helper");
    assert_eq!((r.mode, r.length), (Mode::Null, Length::Zero));
    let bound = scope.get("x").expect("subject bound");
    assert_eq!((bound.mode, bound.length), (Mode::Character, Length::One));
    assert!(c.infer_assert_scalar_call("stopifnot", &[arg(None, ident("y"))], &mut scope).is_none());
    assert!(scope.get("y").is_none());
}

#[test]
fn class_replacement_keeps_the_type_and_sets_the_class() {
    let mut c = checker();
    let mut scope = Scope::new();
    scope.insert("x", RType::new(Mode::List, Length::Known(2)));
    let target = call1("class", ident("x"));
    assert!(c.assign_class_attribute(&target, &Expr::String("myclass".to_string(), S), &mut scope));
    let t = scope.get("x").expect("bound");
    assert_eq!((t.mode, t.length), (Mode::List, Length::Known(2)));
    assert!(t.class.known);
    assert_eq!(t.class.names, vec!["myclass".to_string()]);
    // A dynamic class value leaves the class unknown.
    assert!(c.assign_class_attribute(&target, &ident("k"), &mut scope));
    assert!(!scope.get("x").expect("bound").class.known);
    // An unbound subject is not handled here.
    assert!(!c.assign_class_attribute(&call1("class", ident("z")), &Expr::String("a".to_string(), S), &mut scope));
}

#[test]
fn unproven_constructor_records_an_unknown_effect() {
    let mut scope = Scope::new();
    let r = Checker::infer_unknown_constructor(&mut scope);
    assert!(scope.effects_unknown);
    assert_eq!((r.mode, r.length), (Mode::Opaque, Length::Unknown));
}
