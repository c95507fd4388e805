use ry_checker::ast::{Arg, BinOpKind, Expr, IndexKind, Span};
use ry_checker::checker::{Checker, Severity};
use ry_checker::scope::Scope;
use ry_checker::types::{ClassVector, ColumnSchema, Length, Mode, RType};

const S: Span = Span { start: 0, end: 0 };

fn checker() -> Checker {
    Checker {
        diagnostics: Vec::new(),
        discarding: false,
        source: String::new(),
        validate_user_call_arguments: false,
        fn_table: Vec::new(),
        enclosing_formals: Vec::new(),
        formal_reads: Vec::new(),
        loop_frames: Vec::new(),
        trusted_defusers: None,
        stubs: Default::default(),
    }
}

fn plain(mode: Mode, length: Length) -> RType {
    RType::new(mode, length)
}

fn scalar(mode: Mode) -> RType {
    RType::new(mode, Length::One)
}

fn codes(c: &Checker) -> Vec<String> {
    c.diagnostics.iter().map(|d| d.code.clone()).collect()
}

fn cars() -> RType {
    RType::new(Mode::List, Length::One).with_class(ClassVector::single("data.frame")).with_columns(ColumnSchema {
        columns: vec![
            ("mpg".to_string(), plain(Mode::Double, Length::Unknown)),
            ("disp".to_string(), plain(Mode::Double, Length::Unknown)),
        ],
        complete: true,
        locally_constructed: false,
    })
}

fn record() -> RType {
    RType::new(Mode::List, Length::Known(2)).with_columns(ColumnSchema {
        columns: vec![
            ("a".to_string(), scalar(Mode::Integer)),
            ("b".to_string(), scalar(Mode::Character)),
        ],
        complete: true,
        locally_constructed: true,
    })
}

fn dollar(name: &str) -> Vec<Arg> {
    vec![Arg { name: Some(name.to_string()), value: Expr::Ident { name: name.to_string(), span: S }, span: S }]
}

fn pos(value: Expr) -> Arg {
    Arg { name: None, value, span: S }
}

fn index(c: &mut Checker, bt: RType, kind: IndexKind, args: &Vec<Arg>) -> (RType, Scope) {
    let mut scope = Scope::new();
    let index_types: Vec<RType> = args.iter().map(|_| RType::unknown()).collect();
    let r = c.infer_index(bt, kind, args, Span { start: 3, end: 9 }, false, &mut scope, &index_types);
    (r, scope)
}

#[test]
fn character_arithmetic_reports_ry040() {
    let mut c = checker();
    let r = c.infer_binop(BinOpKind::Add, scalar(Mode::Character), scalar(Mode::Integer), S, false, None);
    assert_eq!(r.mode, Mode::Opaque);
    assert_eq!(codes(&c), vec!["RY040".to_string()]);
    assert_eq!(c.diagnostics[0].severity, Severity::Error);
    assert_eq!(c.diagnostics[0].message, "cannot apply arithmetic op to `character` and `integer`");
}

#[test]
fn numeric_arithmetic_widens_and_recycles() {
    let mut c = checker();
    let r = c.infer_binop(BinOpKind::Mul, scalar(Mode::Integer), plain(Mode::Double, Length::Known(4)), S, false, None);
    assert_eq!(r.mode, Mode::Double);
    assert_eq!(r.length, Length::Known(4));
    assert!(c.diagnostics.is_empty());
    let r = c.infer_binop(BinOpKind::Add, scalar(Mode::Logical), scalar(Mode::Integer), S, false, None);
    assert_eq!(r.mode, Mode::Integer);
    assert_eq!(r.length, Length::One);
}

#[test]
fn uneven_recycling_reports_ry041() {
    let mut c = checker();
    let r = c.infer_binop(
        BinOpKind::Add,
        plain(Mode::Double, Length::Known(3)),
        plain(Mode::Double, Length::Known(2)),
        S,
        false,
        None,
    );
    assert_eq!(r.mode, Mode::Double);
    assert_eq!(r.length, Length::Known(3));
    assert_eq!(codes(&c), vec!["RY041".to_string()]);
    assert_eq!(c.diagnostics[0].severity, Severity::Warning);
    assert_eq!(c.diagnostics[0].message, "vector lengths 3 and 2 do not divide evenly; R will recycle with a warning");
}

#[test]
fn factor_arithmetic_reports_ry042() {
    let mut c = checker();
    let f = scalar(Mode::Integer).with_class(ClassVector::single("factor"));
    c.infer_binop(BinOpKind::Sub, f, scalar(Mode::Double), S, false, None);
    assert_eq!(codes(&c), vec!["RY042".to_string()]);
}

#[test]
fn known_null_arithmetic_reports_ry040() {
    let mut c = checker();
    let r = c.infer_binop(BinOpKind::Add, plain(Mode::Null, Length::Zero), scalar(Mode::Double), S, true, None);
    assert_eq!(r.mode, Mode::Opaque);
    assert_eq!(codes(&c), vec!["RY040".to_string()]);
    assert_eq!(c.diagnostics[0].message, "arithmetic with `NULL` produces `numeric(0)`; the operand is known to be NULL");
    let mut quiet = checker();
    let r = quiet.infer_binop(BinOpKind::Add, plain(Mode::Null, Length::Zero), scalar(Mode::Double), S, false, None);
    assert_eq!(r.mode, Mode::Double);
    assert_eq!(r.length, Length::Zero);
    assert!(quiet.diagnostics.is_empty());
}

#[test]
fn in_gives_logical_of_left_length() {
    let mut c = checker();
    let r = c.infer_binop(
        BinOpKind::In,
        scalar(Mode::Character),
        plain(Mode::Character, Length::Known(2)),
        S,
        false,
        None,
    );
    assert_eq!(r.mode, Mode::Logical);
    assert_eq!(r.length, Length::One);
    assert!(c.diagnostics.is_empty());
}

#[test]
fn mixed_character_comparison_reports_ry033() {
    let mut c = checker();
    let r = c.infer_binop(BinOpKind::Lt, scalar(Mode::Character), scalar(Mode::Double), S, false, None);
    assert_eq!(r.mode, Mode::Logical);
    assert_eq!(codes(&c), vec!["RY033".to_string()]);
    assert_eq!(
        c.diagnostics[0].message,
        "comparing `character` with `double`; R coerces the numeric value to character and compares lexicographically, which is rarely intended"
    );
}

#[test]
fn comparing_a_function_reports_ry030() {
    let mut c = checker();
    let r = c.infer_binop(BinOpKind::Eq, scalar(Mode::Function), scalar(Mode::Double), S, false, None);
    assert_eq!(r.mode, Mode::Opaque);
    assert_eq!(codes(&c), vec!["RY030".to_string()]);
    assert_eq!(c.diagnostics[0].message, "cannot compare `function` with `double`");
}

#[test]
fn logic_on_character_reports_ry031() {
    let mut c = checker();
    let r = c.infer_binop(BinOpKind::And, scalar(Mode::Character), scalar(Mode::Logical), S, false, None);
    assert_eq!(r.mode, Mode::Opaque);
    assert_eq!(codes(&c), vec!["RY031".to_string()]);
    assert_eq!(c.diagnostics[0].message, "logical op applied to `character` and `logical`");
}

#[test]
fn scalar_logic_on_a_vector_reports_ry032() {
    let mut c = checker();
    let r = c.infer_binop(
        BinOpKind::AndAnd,
        plain(Mode::Logical, Length::Known(3)),
        scalar(Mode::Logical),
        S,
        false,
        None,
    );
    assert_eq!(r.mode, Mode::Logical);
    assert_eq!(r.length, Length::One);
    assert_eq!(codes(&c), vec!["RY032".to_string()]);
}

#[test]
fn s3_result_is_taken_for_dispatching_operators() {
    let mut c = checker();
    let method = scalar(Mode::Character);
    let r = c.infer_binop(BinOpKind::Add, scalar(Mode::Character), scalar(Mode::Integer), S, false, Some(method));
    assert_eq!(r.mode, Mode::Character);
    assert!(c.diagnostics.is_empty());
}

#[test]
fn colon_of_integers_is_integer() {
    let mut c = checker();
    let r = c.infer_binop(BinOpKind::Colon, scalar(Mode::Integer), scalar(Mode::Integer), S, false, None);
    assert_eq!(r.mode, Mode::Integer);
    let r = c.infer_binop(BinOpKind::Colon, scalar(Mode::Character), scalar(Mode::Integer), S, false, None);
    assert_eq!(r.mode, Mode::Opaque);
    assert!(c.diagnostics.is_empty());
}

#[test]
fn misspelt_data_frame_column_reports_ry060() {
    let mut c = checker();
    let (r, scope) = index(&mut c, cars(), IndexKind::Dollar, &dollar("dispp"));
    assert_eq!(codes(&c), vec!["RY060".to_string()]);
    assert_eq!(c.diagnostics[0].severity, Severity::Error);
    assert_eq!(c.diagnostics[0].span, Span { start: 3, end: 9 });
    assert_eq!(
        c.diagnostics[0].message,
        "column `dispp` not found in data frame schema; available columns: mpg, disp"
    );
    assert_eq!(r.mode, Mode::Opaque);
    assert!(!scope.effects_unknown);
}

#[test]
fn present_data_frame_column_has_its_type() {
    let mut c = checker();
    let (r, _) = index(&mut c, cars(), IndexKind::Dollar, &dollar("disp"));
    assert_eq!(r.mode, Mode::Double);
    assert_eq!(r.length, Length::Unknown);
    assert!(c.diagnostics.is_empty());
}

#[test]
fn missing_field_of_a_plain_list_is_null() {
    let mut c = checker();
    let (r, _) = index(&mut c, record(), IndexKind::Dollar, &dollar("c"));
    assert_eq!(r.mode, Mode::Null);
    assert_eq!(r.length, Length::Zero);
    assert!(c.diagnostics.is_empty());
    let (r, _) = index(&mut c, record(), IndexKind::Dollar, &dollar("b"));
    assert_eq!(r.mode, Mode::Character);
}

#[test]
fn dollar_on_an_atomic_vector_reports_ry061() {
    let mut c = checker();
    let (r, _) = index(&mut c, plain(Mode::Double, Length::Known(3)), IndexKind::Dollar, &dollar("x"));
    assert_eq!(r.mode, Mode::Opaque);
    assert_eq!(codes(&c), vec!["RY061".to_string()]);
    assert_eq!(c.diagnostics[0].message, "$ operator is invalid for atomic vectors of mode `double`");
}

#[test]
fn dollar_on_a_classed_atomic_value_may_dispatch() {
    let mut c = checker();
    let classed = scalar(Mode::Double).with_class(ClassVector::single("money"));
    let (r, scope) = index(&mut c, classed, IndexKind::Dollar, &dollar("x"));
    assert_eq!(r.mode, Mode::Opaque);
    assert!(c.diagnostics.is_empty());
    assert!(scope.effects_unknown);
}

#[test]
fn double_bracket_reads_fields_by_name() {
    let mut c = checker();
    let (r, _) = index(&mut c, record(), IndexKind::Double, &vec![pos(Expr::String("a".to_string(), S))]);
    assert_eq!(r.mode, Mode::Integer);
    let (_, _) = index(&mut c, cars(), IndexKind::Double, &vec![pos(Expr::String("mgp".to_string(), S))]);
    assert_eq!(codes(&c), vec!["RY060".to_string()]);
}

#[test]
fn double_bracket_position_on_a_homogeneous_list() {
    let mut c = checker();
    let same = RType::new(Mode::List, Length::Known(2)).with_columns(ColumnSchema {
        columns: vec![("x".to_string(), scalar(Mode::Double)), ("y".to_string(), scalar(Mode::Double))],
        complete: true,
        locally_constructed: true,
    });
    let (r, _) = index(&mut c, same, IndexKind::Double, &vec![pos(Expr::Integer(2, S))]);
    assert_eq!(r.mode, Mode::Double);
    assert_eq!(r.length, Length::One);
    assert!(c.diagnostics.is_empty());
}

#[test]
fn single_bracket_column_of_a_data_frame() {
    let mut c = checker();
    let args = vec![pos(Expr::Missing(S)), pos(Expr::String("mpg".to_string(), S))];
    let (r, _) = index(&mut c, cars(), IndexKind::Single, &args);
    assert_eq!(r.mode, Mode::Double);
    let kept = vec![
        pos(Expr::Missing(S)),
        pos(Expr::String("mpg".to_string(), S)),
        Arg { name: Some("drop".to_string()), value: Expr::Logical(false, S), span: S },
    ];
    let (r, _) = index(&mut c, cars(), IndexKind::Single, &kept);
    assert_eq!(r.mode, Mode::List);
    assert!(r.class.contains("data.frame"));
    let schema = r.columns.expect("one-column frame");
    assert_eq!(schema.columns.len(), 1);
    assert_eq!(schema.columns[0].0, "mpg");
    assert!(c.diagnostics.is_empty());
}
