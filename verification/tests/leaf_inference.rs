use ry_checker::ast::{BinOpKind, DoubleLit, Expr, Span, UnaryOpKind};
use ry_checker::checker::{Checker, Severity};
use ry_checker::infer_leaf::{NameFacts, colon_literal_type, infer_literal};
use ry_checker::types::{Length, Mode, RType};

const S: Span = Span { start: 0, end: 0 };

fn checker() -> Checker {
    Checker {
        diagnostics: Vec::new(),
        discarding: false,
        source: String::new(),
        validate_user_call_arguments: false,
        fn_table: Vec::new(),
        enclosing_formals: Vec::new(),
        formal_reads: Vec::new(),
        loop_frames: Vec::new(),
        trusted_defusers: None,
        stubs: Default::default(),
    }
}

fn no_facts() -> NameFacts {
    NameFacts { ambient: false, external: false, dataset: None, function: false, project_variable: false }
}

fn double(v: i64) -> Expr {
    Expr::Double(DoubleLit { whole: Some(v), positive: v > 0, trunc: if v >= 0 { Some(v as usize) } else { None } }, S)
}

#[test]
fn literals_are_scalars_of_their_mode() {
    let t = infer_literal(&Expr::String("a".to_string(), S)).expect("a literal");
    assert_eq!((t.mode, t.length), (Mode::Character, Length::One));
    let t = infer_literal(&Expr::Integer(3, S)).expect("a literal");
    assert_eq!((t.mode, t.length), (Mode::Integer, Length::One));
    let t = infer_literal(&Expr::Null(S)).expect("a literal");
    assert_eq!((t.mode, t.length), (Mode::Null, Length::Zero));
    let t = infer_literal(&Expr::Na(RType::scalar(Mode::Double), S)).expect("a literal");
    assert_eq!(t.mode, Mode::Double);
    assert!(infer_literal(&Expr::Ident { name: "x".to_string(), span: S }).is_none());
}

#[test]
fn unbound_name_reports_ry010() {
    let mut c = checker();
    let r = c.infer_unbound_name("undefined_thing", no_facts(), false, Span { start: 4, end: 19 });
    assert_eq!(r.mode, Mode::Opaque);
    assert_eq!(c.diagnostics.len(), 1);
    assert_eq!(c.diagnostics[0].code, "RY010");
    assert_eq!(c.diagnostics[0].severity, Severity::Warning);
    assert_eq!(c.diagnostics[0].message, "variable `undefined_thing` is not bound in this scope");
}

#[test]
fn explained_unbound_names_are_silent() {
    let mut c = checker();
    let r = c.infer_unbound_name("pkg::thing", no_facts(), false, S);
    assert_eq!(r.mode, Mode::Opaque);
    c.infer_unbound_name("`%+%`", no_facts(), false, S);
    c.infer_unbound_name("%||%", no_facts(), false, S);
    c.infer_unbound_name("<<-", no_facts(), false, S);
    c.infer_unbound_name("col", no_facts(), true, S);
    let r = c.infer_unbound_name("sqrt", NameFacts { function: true, ..no_facts() }, false, S);
    assert_eq!(r.mode, Mode::Function);
    let r = c.infer_unbound_name(
        "mtcars",
        NameFacts { dataset: Some(RType::new(Mode::List, Length::Known(11))), ..no_facts() },
        false,
        S,
    );
    assert_eq!(r.mode, Mode::List);
    assert_eq!(r.length, Length::Known(11));
    c.infer_unbound_name("T", NameFacts { ambient: true, ..no_facts() }, false, S);
    c.infer_unbound_name("helper", NameFacts { project_variable: true, ..no_facts() }, false, S);
    assert!(c.diagnostics.is_empty());
}

#[test]
fn negating_character_reports_ry020() {
    let mut c = checker();
    let r = c.infer_unary(UnaryOpKind::Neg, RType::scalar(Mode::Character), S, None);
    assert_eq!(r.mode, Mode::Opaque);
    assert_eq!(c.diagnostics[0].code, "RY020");
    assert_eq!(c.diagnostics[0].message, "cannot apply unary `-` to `character`");
    let r = c.infer_unary(UnaryOpKind::Neg, RType::new(Mode::Logical, Length::Known(3)), S, None);
    assert_eq!((r.mode, r.length), (Mode::Integer, Length::Known(3)));
    assert_eq!(c.diagnostics.len(), 1);
}

#[test]
fn not_on_a_list_reports_ry021() {
    let mut c = checker();
    let r = c.infer_unary(UnaryOpKind::Not, RType::new(Mode::List, Length::Known(2)), S, None);
    assert_eq!((r.mode, r.length), (Mode::Logical, Length::Known(2)));
    assert_eq!(c.diagnostics[0].code, "RY021");
    assert_eq!(c.diagnostics[0].message, "cannot apply `!` to `list`");
    let r = c.infer_unary(UnaryOpKind::Not, RType::scalar(Mode::Character), S, Some(RType::scalar(Mode::Double)));
    assert_eq!(r.mode, Mode::Double);
    assert_eq!(c.diagnostics.len(), 1);
}

#[test]
fn comparing_with_na_reports_ry034() {
    let mut c = checker();
    let x = Expr::Ident { name: "x".to_string(), span: S };
    let na = Expr::Na(RType::scalar(Mode::Logical), S);
    c.check_na_comparison(BinOpKind::Eq, &x, &na, S);
    assert_eq!(c.diagnostics.len(), 1);
    assert_eq!(c.diagnostics[0].code, "RY034");
    assert_eq!(c.diagnostics[0].message, "comparison with `NA` always produces `NA`; use `is.na()` instead");
    c.check_na_comparison(BinOpKind::Lt, &x, &na, S);
    c.check_na_comparison(BinOpKind::Ne, &x, &Expr::Integer(1, S), S);
    assert_eq!(c.diagnostics.len(), 1);
}

#[test]
fn colon_between_literals_has_a_known_length() {
    let t = colon_literal_type(&double(1), &double(10)).expect("literal ends");
    assert_eq!((t.mode, t.length), (Mode::Integer, Length::Known(10)));
    let t = colon_literal_type(&Expr::Integer(5, S), &Expr::Integer(1, S)).expect("literal ends");
    assert_eq!(t.length, Length::Known(5));
    let t = colon_literal_type(&double(-2), &double(2)).expect("literal ends");
    assert_eq!(t.length, Length::Known(5));
    assert!(colon_literal_type(&Expr::Ident { name: "n".to_string(), span: S }, &double(2)).is_none());
}
