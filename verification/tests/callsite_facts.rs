use ry_checker::ast::{Arg, BinOpKind, Expr, Span, UnaryOpKind};
use ry_checker::callsites::{
    callee_name, find_arg, foreach_iteration_bindings, injected_string_bindings, is_atomic_branch_mode,
    is_user_infix_name, printf_argument_count, r6_call_is_non_portable, rep_count, shared_branch_mode,
    strip_negation, test_definitely_na,
};
use ry_checker::matching::match_arguments;
use ry_checker::types::{Length, Mode, RType};

const S: Span = Span { start: 0, end: 0 };

fn ident(name: &str) -> Expr {
    Expr::Ident { name: name.to_string(), span: S }
}

fn string(s: &str) -> Expr {
    Expr::String(s.to_string(), S)
}

fn call(func: &str, args: Vec<(Option<&str>, Expr)>) -> Expr {
    Expr::Call {
        func: Box::new(ident(func)),
        args: args
            .into_iter()
            .map(|(name, value)| Arg { name: name.map(str::to_string), value, span: S })
            .collect(),
        span: S,
    }
}

fn arg(name: Option<&str>, value: Expr) -> Arg {
    Arg { name: name.map(str::to_string), value, span: S }
}

fn not(e: Expr) -> Expr {
    Expr::UnaryOp { op: UnaryOpKind::Not, expr: Box::new(e), span: S }
}

#[test]
fn user_infix_operators_are_percent_delimited() {
    assert!(is_user_infix_name("%+%"));
    assert!(is_user_infix_name("%in_range%"));
    assert!(!is_user_infix_name("%%"));
    assert!(!is_user_infix_name("+"));
    assert!(!is_user_infix_name("%a"));
}

#[test]
fn callee_names_come_from_identifiers_and_strings() {
    assert_eq!(callee_name(&ident("f")), Some("f".to_string()));
    assert_eq!(callee_name(&string("g")), Some("g".to_string()));
    assert_eq!(callee_name(&call("h", vec![])), None);
}

#[test]
fn foreach_binds_its_non_dot_argument_names() {
    let inner = call("foreach", vec![(Some("i"), ident("xs")), (Some(".combine"), ident("c"))]);
    assert_eq!(foreach_iteration_bindings(&inner), Some(vec!["i".to_string()]));
    let nested = call(
        "%:%",
        vec![(None, inner), (None, call("foreach", vec![(Some("j"), ident("ys")), (None, ident("z"))]))],
    );
    assert_eq!(foreach_iteration_bindings(&nested), Some(vec!["i".to_string(), "j".to_string()]));
    assert_eq!(foreach_iteration_bindings(&call("lapply", vec![])), None);
}

#[test]
fn injected_names_are_string_literals_and_their_c_vectors() {
    assert_eq!(injected_string_bindings(&string("a")), vec!["a".to_string()]);
    let v = call("c", vec![(None, string("a")), (None, ident("b")), (None, call("c", vec![(None, string("d"))]))]);
    assert_eq!(injected_string_bindings(&v), vec!["a".to_string(), "d".to_string()]);
    assert!(injected_string_bindings(&call("list", vec![(None, string("a"))])).is_empty());
}

#[test]
fn printf_counts_conversions() {
    assert_eq!(printf_argument_count("%s and %d"), Some(2));
    assert_eq!(printf_argument_count("100%% sure"), Some(0));
    assert_eq!(printf_argument_count("%5.2f"), Some(1));
    assert_eq!(printf_argument_count("%*d"), None);
    assert_eq!(printf_argument_count("%1$s"), None);
    assert_eq!(printf_argument_count("plain"), Some(0));
}

#[test]
fn r6_portable_false_is_non_portable() {
    let params = ["classname", "public", "portable"];
    let args = [arg(None, string("A")), arg(Some("portable"), Expr::Logical(false, S))];
    let m = match_arguments(&params, &args);
    assert!(r6_call_is_non_portable(&args, &params, &m));
    let args = [arg(None, string("A")), arg(Some("portable"), Expr::Logical(true, S))];
    let m = match_arguments(&params, &args);
    assert!(!r6_call_is_non_portable(&args, &params, &m));
    let args = [arg(None, string("A")), arg(None, ident("p")), arg(None, Expr::Logical(false, S))];
    let m = match_arguments(&params, &args);
    assert!(r6_call_is_non_portable(&args, &params, &m));
}

#[test]
fn rep_counts_default_to_one() {
    assert_eq!(rep_count(None), Some(1));
    assert_eq!(rep_count(Some(Some(4))), Some(4));
    assert_eq!(rep_count(Some(Some(-1))), None);
    assert_eq!(rep_count(Some(None)), None);
}

#[test]
fn arguments_are_found_by_name_then_by_position() {
    let args = [arg(Some("each"), ident("e")), arg(None, ident("x")), arg(None, ident("t"))];
    assert_eq!(find_arg(&args, "each", 1), Some(0));
    assert_eq!(find_arg(&args, "x", 0), Some(1));
    assert_eq!(find_arg(&args, "times", 1), Some(2));
    assert_eq!(find_arg(&args, "length.out", 2), None);
}

#[test]
fn shared_atomic_branch_modes() {
    assert!(is_atomic_branch_mode(Mode::Character));
    assert!(!is_atomic_branch_mode(Mode::Logical));
    assert!(!is_atomic_branch_mode(Mode::List));
    let a = RType::new(Mode::Double, Length::One);
    let b = RType::new(Mode::Double, Length::Known(3));
    let c = RType::new(Mode::Integer, Length::One);
    assert_eq!(shared_branch_mode(&[&a, &b]), Some(Mode::Double));
    assert_eq!(shared_branch_mode(&[&a, &c]), None);
    assert_eq!(shared_branch_mode(&[]), None);
    let l = RType::new(Mode::Logical, Length::One);
    assert_eq!(shared_branch_mode(&[&l, &l]), None);
}

#[test]
fn negations_strip_and_na_tests() {
    let na = Expr::Na(RType::new(Mode::Logical, Length::One), S);
    assert!(matches!(strip_negation(&not(not(ident("x")))), Expr::Ident { name, .. } if name == "x"));
    assert!(test_definitely_na(&not(Expr::Na(RType::new(Mode::Logical, Length::One), S))));
    let cmp = Expr::BinOp { op: BinOpKind::Eq, lhs: Box::new(ident("x")), rhs: Box::new(na), span: S };
    assert!(test_definitely_na(&cmp));
    let sum = Expr::BinOp {
        op: BinOpKind::Add,
        lhs: Box::new(ident("x")),
        rhs: Box::new(Expr::Na(RType::new(Mode::Logical, Length::One), S)),
        span: S,
    };
    assert!(!test_definitely_na(&sum));
    assert!(!test_definitely_na(&ident("x")));
}
