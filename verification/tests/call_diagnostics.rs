use ry_checker::ast::{Arg, BinOpKind, Expr, Span};
use ry_checker::checker::{Checker, Severity};
use ry_checker::literals::build_data_frame_schema;
use ry_checker::types::{ColumnSchema, Length, Mode, RType};

fn sp(start: usize, end: usize) -> Span {
    Span { start, end }
}

const S: Span = Span { start: 0, end: 0 };

fn checker() -> Checker {
    Checker {
        diagnostics: Vec::new(),
        discarding: false,
        source: String::new(),
        validate_user_call_arguments: false,
        fn_table: Vec::new(),
        enclosing_formals: Vec::new(),
        formal_reads: Vec::new(),
        loop_frames: Vec::new(),
        trusted_defusers: None,
        stubs: Default::default(),
    }
}

fn pos(value: Expr) -> Arg {
    Arg { name: None, value, span: S }
}

fn comparison(span: Span) -> Expr {
    Expr::BinOp {
        op: BinOpKind::Gt,
        lhs: Box::new(Expr::Ident { name: "x".to_string(), span: S }),
        rhs: Box::new(Expr::Integer(0, S)),
        span,
    }
}

#[test]
fn comparisons_inside_length_and_nchar_fire_ry093() {
    let mut c = checker();
    c.check_comparison_inside_aggregate("length", &[pos(comparison(sp(7, 12)))]);
    assert_eq!(c.diagnostics.len(), 1);
    assert_eq!(c.diagnostics[0].code, "RY093");
    assert_eq!(c.diagnostics[0].span, sp(7, 12));
    assert_eq!(c.diagnostics[0].message, "comparison is inside `length()`; compare `length(x)` instead");
    c.check_comparison_inside_aggregate("sum", &[pos(comparison(S))]);
    c.check_comparison_inside_aggregate("nchar", &[pos(Expr::Integer(1, S))]);
    assert_eq!(c.diagnostics.len(), 1);
}

#[test]
fn comparisons_inside_math_functions_fire_ry100() {
    let mut c = checker();
    c.check_comparison_inside_math_fn("abs", &[pos(comparison(sp(4, 9)))]);
    c.check_comparison_inside_math_fn("trunc", &[pos(comparison(sp(20, 25)))]);
    c.check_comparison_inside_math_fn("mean", &[pos(comparison(S))]);
    c.check_comparison_inside_math_fn("sqrt", &[]);
    assert_eq!(c.diagnostics.len(), 2);
    assert!(c.diagnostics.iter().all(|d| d.code == "RY100" && d.severity == Severity::Warning));
    assert_eq!(c.diagnostics[1].span, sp(20, 25));
}

#[test]
fn short_sprintf_calls_fire_ry094() {
    let mut c = checker();
    let format = Expr::String("%s has %d rows".to_string(), sp(8, 24));
    c.check_printf_format_arity("sprintf", &[pos(format), pos(Expr::Integer(1, S))]);
    assert_eq!(c.diagnostics.len(), 1);
    assert_eq!(c.diagnostics[0].code, "RY094");
    assert_eq!(c.diagnostics[0].span, sp(8, 24));
    assert_eq!(c.diagnostics[0].message, "format string requires 2 value argument(s), but 1 provided");
    let enough = Expr::String("%s".to_string(), S);
    c.check_printf_format_arity("gettextf", &[pos(enough), pos(Expr::Integer(1, S))]);
    let dynamic = Expr::String("%*d".to_string(), S);
    c.check_printf_format_arity("sprintf", &[pos(dynamic)]);
    c.check_printf_format_arity("paste", &[pos(Expr::String("%s".to_string(), S))]);
    assert_eq!(c.diagnostics.len(), 1);
}

#[test]
fn vector_operands_of_scalar_logicals_fire_ry032() {
    let mut c = checker();
    c.emit_scalar_logical_length(BinOpKind::AndAnd, Length::Known(3), sp(1, 2));
    c.emit_scalar_logical_length(BinOpKind::OrOr, Length::One, S);
    c.emit_scalar_logical_length(BinOpKind::OrOr, Length::Unknown, S);
    assert_eq!(c.diagnostics.len(), 1);
    assert_eq!(c.diagnostics[0].message, "`&&` applied to a length-3 operand; only the first element is used");
}

#[test]
fn calling_a_non_function_fires_ry070() {
    let mut c = checker();
    let t = c.emit_not_callable("x", Mode::Double, sp(0, 4));
    assert_eq!(t.mode, Mode::Opaque);
    assert_eq!(c.diagnostics[0].severity, Severity::Error);
    assert_eq!(c.diagnostics[0].code, "RY070");
    assert_eq!(c.diagnostics[0].message, "`x` is `double`, not a function; cannot call it");
}

#[test]
fn missing_columns_fire_ry060_with_a_preview() {
    let schema = |names: &[&str]| ColumnSchema {
        columns: names.iter().map(|n| (n.to_string(), RType::new(Mode::Double, Length::One))).collect(),
        complete: true,
        locally_constructed: false,
    };
    let mut c = checker();
    c.emit_undefined_column("z", &schema(&["a", "b"]), sp(3, 4));
    c.emit_undefined_column("z", &schema(&[]), S);
    c.emit_undefined_column("z", &schema(&["a", "b", "c", "d", "e", "f"]), S);
    c.emit_undefined_column("z", &schema(&["a", "b", "c", "d", "e"]), S);
    let messages: Vec<&str> = c.diagnostics.iter().map(|d| d.message.as_str()).collect();
    assert_eq!(messages, vec![
        "column `z` not found in data frame schema; available columns: a, b",
        "column `z` not found in data frame schema; available columns: (none)",
        "column `z` not found in data frame schema; available columns: a, b, c, d, e, ...",
        "column `z` not found in data frame schema; available columns: a, b, c, d, e",
    ]);
    assert!(c.diagnostics.iter().all(|d| d.code == "RY060" && d.severity == Severity::Error));
}

#[test]
fn misspelled_data_frame_column_lists_the_available_ones() {
    // d <- data.frame(mpg = c(21, 22.8), disp = c(160, 160)); mean(d$dispp)
    let column = |name: &str| Arg { name: Some(name.to_string()), value: Expr::Integer(0, S), span: S };
    let args = vec![column("mpg"), column("disp")];
    let types = vec![RType::new(Mode::Double, Length::Known(2)), RType::new(Mode::Double, Length::Known(2))];
    let schema = build_data_frame_schema(&types, &args).expect("schema");
    let mut c = checker();
    c.emit_undefined_column("dispp", &schema, sp(40, 45));
    assert_eq!(c.diagnostics.len(), 1);
    assert_eq!(c.diagnostics[0].code, "RY060");
    assert_eq!(c.diagnostics[0].message, "column `dispp` not found in data frame schema; available columns: mpg, disp");
}
