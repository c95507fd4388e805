use ry_checker::ast::{Arg, Expr, IndexKind, Span};
use ry_checker::checker::{Checker, Severity};
use ry_checker::index_write::IndexWrite;
use ry_checker::scope::Scope;
use ry_checker::types::{ClassVector, ColumnSchema, Length, Mode, RType};

const S: Span = Span { start: 0, end: 0 };

fn checker() -> Checker {
    Checker {
        diagnostics: Vec::new(),
        discarding: false,
        source: String::new(),
        validate_user_call_arguments: false,
        fn_table: Vec::new(),
        enclosing_formals: Vec::new(),
        formal_reads: Vec::new(),
        loop_frames: Vec::new(),
        trusted_defusers: None,
        stubs: Default::default(),
    }
}

fn ident(name: &str) -> Expr {
    Expr::Ident { name: name.to_string(), span: S }
}

fn pos(value: Expr) -> Arg {
    Arg { name: None, value, span: S }
}

fn dollar(name: &str) -> Vec<Arg> {
    vec![Arg { name: Some(name.to_string()), value: ident(name), span: S }]
}

fn string(s: &str) -> Expr {
    Expr::String(s.to_string(), S)
}

fn field<'a>(t: &'a RType, name: &str) -> Option<&'a RType> {
    t.columns.as_ref().and_then(|s| s.columns.iter().find(|(n, _)| n == name).map(|(_, t)| t))
}

fn record() -> RType {
    RType::new(Mode::List, Length::Known(1)).with_columns(ColumnSchema {
        columns: vec![("a".to_string(), RType::new(Mode::Integer, Length::One))],
        complete: true,
        locally_constructed: true,
    })
}

fn cars() -> RType {
    RType::new(Mode::List, Length::One).with_class(ClassVector::single("data.frame")).with_columns(ColumnSchema {
        columns: vec![
            ("mpg".to_string(), RType::new(Mode::Double, Length::Unknown)),
            ("disp".to_string(), RType::new(Mode::Double, Length::Unknown)),
        ],
        complete: true,
        locally_constructed: false,
    })
}

#[test]
fn dollar_write_adds_a_field() {
    let mut c = checker();
    let mut scope = Scope::new();
    scope.insert("x", record());
    let r = c.assign_index_target(&ident("x"), IndexKind::Dollar, &dollar("b"), RType::new(Mode::Character, Length::One), S, &mut scope);
    assert_eq!(r, IndexWrite::Written);
    let x = scope.get("x").expect("x stays bound");
    assert_eq!(field(x, "b").map(|t| t.mode), Some(Mode::Character));
    assert_eq!(field(x, "a").map(|t| t.mode), Some(Mode::Integer));
    assert!(x.columns.as_ref().map(|s| s.complete).unwrap_or(false));
    assert!(c.diagnostics.is_empty());
}

#[test]
fn dollar_write_into_an_atomic_vector_reports_ry061() {
    let mut c = checker();
    let mut scope = Scope::new();
    scope.insert("v", RType::new(Mode::Double, Length::Known(3)));
    let r = c.assign_index_target(&ident("v"), IndexKind::Dollar, &dollar("a"), RType::new(Mode::Double, Length::One), Span { start: 2, end: 8 }, &mut scope);
    assert_eq!(r, IndexWrite::Written);
    assert_eq!(c.diagnostics.len(), 1);
    assert_eq!(c.diagnostics[0].code, "RY061");
    assert_eq!(c.diagnostics[0].severity, Severity::Error);
    assert_eq!(c.diagnostics[0].span, Span { start: 2, end: 8 });
    assert_eq!(c.diagnostics[0].message, "$ operator is invalid for atomic vectors of mode `double`");
    assert!(scope.get("v").expect("v stays bound").columns.is_none());
}

#[test]
fn write_through_an_unbound_name_is_left_to_the_caller() {
    let mut c = checker();
    let mut scope = Scope::new();
    let r = c.assign_index_target(&ident("y"), IndexKind::Dollar, &dollar("a"), RType::unknown(), S, &mut scope);
    assert_eq!(r, IndexWrite::UnboundBase);
    assert!(scope.get("y").is_none());
    assert!(c.diagnostics.is_empty());
}

#[test]
fn element_write_into_a_near_miss_column_reports_ry060() {
    let mut c = checker();
    let mut scope = Scope::new();
    scope.insert("d", cars());
    let target = Expr::Index { base: Box::new(ident("d")), kind: IndexKind::Dollar, args: dollar("dis"), span: S };
    let r = c.assign_index_target(&target, IndexKind::Single, &vec![pos(Expr::Integer(1, S))], RType::new(Mode::Double, Length::One), S, &mut scope);
    assert_eq!(r, IndexWrite::Written);
    assert_eq!(c.diagnostics.len(), 1);
    assert_eq!(c.diagnostics[0].code, "RY060");
    assert_eq!(c.diagnostics[0].message, "column `dis` not found in data frame schema; available columns: mpg, disp");
    let d = scope.get("d").expect("d stays bound");
    assert_eq!(field(d, "dis").map(|t| t.length), Some(Length::One));
}

#[test]
fn element_write_into_an_existing_column_keeps_its_type() {
    let mut c = checker();
    let mut scope = Scope::new();
    scope.insert("d", cars());
    let target = Expr::Index { base: Box::new(ident("d")), kind: IndexKind::Dollar, args: dollar("mpg"), span: S };
    let r = c.assign_index_target(&target, IndexKind::Single, &vec![pos(Expr::Integer(1, S))], RType::new(Mode::Integer, Length::One), S, &mut scope);
    assert_eq!(r, IndexWrite::Written);
    assert!(c.diagnostics.is_empty());
    let d = scope.get("d").expect("d stays bound");
    let mpg = field(d, "mpg").expect("mpg kept");
    assert_eq!(mpg.mode, Mode::Double);
    assert_eq!(mpg.length, Length::Unknown);
}

#[test]
fn new_column_without_a_near_miss_is_silent() {
    let mut c = checker();
    let mut scope = Scope::new();
    scope.insert("d", cars());
    let target = Expr::Index { base: Box::new(ident("d")), kind: IndexKind::Dollar, args: dollar("wt"), span: S };
    c.assign_index_target(&target, IndexKind::Single, &vec![pos(Expr::Integer(1, S))], RType::new(Mode::Double, Length::One), S, &mut scope);
    assert!(c.diagnostics.is_empty());
}

#[test]
fn single_bracket_write_of_named_fields() {
    let mut c = checker();
    let mut scope = Scope::new();
    scope.insert("x", record());
    let names = Expr::Call { func: Box::new(ident("c")), args: vec![pos(string("b")), pos(string("c"))], span: S };
    let r = c.assign_index_target(&ident("x"), IndexKind::Single, &vec![pos(names)], RType::new(Mode::Logical, Length::One), S, &mut scope);
    assert_eq!(r, IndexWrite::Written);
    let x = scope.get("x").expect("x stays bound");
    assert_eq!(field(x, "b").map(|t| t.mode), Some(Mode::Logical));
    assert_eq!(field(x, "c").map(|t| t.mode), Some(Mode::Logical));
    assert_eq!(field(x, "a").map(|t| t.mode), Some(Mode::Integer));
}

#[test]
fn dynamic_field_write_opens_the_schema() {
    let mut c = checker();
    let mut scope = Scope::new();
    scope.insert("x", record());
    let r = c.assign_index_target(&ident("x"), IndexKind::Double, &vec![pos(ident("key"))], RType::unknown(), S, &mut scope);
    assert_eq!(r, IndexWrite::Written);
    let x = scope.get("x").expect("x stays bound");
    let schema = x.columns.as_ref().expect("schema kept");
    assert!(!schema.complete);
    assert_eq!(schema.columns.len(), 1);
    let mut v = Scope::new();
    v.insert("v", RType::new(Mode::Double, Length::One));
    let r = c.assign_index_target(&ident("v"), IndexKind::Double, &vec![pos(ident("key"))], RType::unknown(), S, &mut v);
    assert_eq!(r, IndexWrite::Unmodelled);
}

#[test]
fn write_through_a_call_is_not_modelled() {
    let mut c = checker();
    let mut scope = Scope::new();
    let target = Expr::Call { func: Box::new(ident("f")), args: Vec::new(), span: S };
    let r = c.assign_index_target(&target, IndexKind::Dollar, &dollar("a"), RType::unknown(), S, &mut scope);
    assert_eq!(r, IndexWrite::Unmodelled);
}

#[test]
fn dollar_read_gives_back_the_written_field() {
    let mut c = checker();
    let mut scope = Scope::new();
    scope.insert("x", record());
    c.assign_index_target(&ident("x"), IndexKind::Dollar, &dollar("b"), RType::new(Mode::Character, Length::Known(2)), S, &mut scope);
    let x = scope.get("x").expect("x stays bound").clone();
    let args = dollar("b");
    let index_types = vec![RType::unknown()];
    let mut read_scope = Scope::new();
    let r = c.infer_index(x, IndexKind::Dollar, &args, S, false, &mut read_scope, &index_types);
    assert_eq!(r.mode, Mode::Character);
    assert_eq!(r.length, Length::Known(2));
    assert!(c.diagnostics.is_empty());
}
