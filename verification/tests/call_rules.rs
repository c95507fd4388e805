use ry_checker::ast::{Arg, Expr, IndexKind, Span};
use ry_checker::call_rules::identical_list_subset_site;
use ry_checker::checker::{Checker, EnclosingFrame, Severity};
use ry_checker::scope::Scope;
use ry_checker::types::{Length, Mode, RType};

const S: Span = Span { start: 0, end: 0 };

fn checker() -> Checker {
    Checker {
        diagnostics: Vec::new(),
        discarding: false,
        source: String::new(),
        validate_user_call_arguments: false,
        fn_table: Vec::new(),
        enclosing_formals: Vec::new(),
        formal_reads: Vec::new(),
        loop_frames: Vec::new(),
        trusted_defusers: None,
        stubs: Default::default(),
    }
}

fn ident(name: &str) -> Expr {
    Expr::Ident { name: name.to_string(), span: S }
}

fn pos(value: Expr) -> Arg {
    Arg { name: None, value, span: S }
}

fn subset(base: &str, key: &str, span: Span) -> Arg {
    Arg {
        name: None,
        value: Expr::Index {
            base: Box::new(ident(base)),
            kind: IndexKind::Single,
            args: vec![pos(Expr::String(key.to_string(), S))],
            span,
        },
        span,
    }
}

#[test]
fn identical_on_a_list_subset_reports_ry101() {
    let mut c = checker();
    let args = vec![subset("cfg", "mode", Span { start: 10, end: 21 }), pos(Expr::String("fast".to_string(), S))];
    let site = identical_list_subset_site("identical", &args).expect("a subset compared with a literal");
    assert_eq!(site, 0);
    c.check_identical_list_subset(&args, site, &RType::new(Mode::List, Length::Known(2)), &Scope::new());
    assert_eq!(c.diagnostics.len(), 1);
    assert_eq!(c.diagnostics[0].code, "RY101");
    assert_eq!(c.diagnostics[0].severity, Severity::Warning);
    assert_eq!(c.diagnostics[0].span, Span { start: 10, end: 21 });
    assert_eq!(
        c.diagnostics[0].message,
        "single-bracket list subset remains a list, so `identical()` with an atomic scalar is always FALSE; use `[[` to extract the element"
    );
}

#[test]
fn identical_on_an_atomic_subset_is_silent() {
    let mut c = checker();
    let args = vec![pos(Expr::Integer(1, S)), subset("v", "a", S)];
    let site = identical_list_subset_site("identical", &args).expect("a subset compared with a literal");
    assert_eq!(site, 1);
    c.check_identical_list_subset(&args, site, &RType::new(Mode::Double, Length::Known(3)), &Scope::new());
    assert!(c.diagnostics.is_empty());
    assert!(identical_list_subset_site("all.equal", &args).is_none());
    assert!(identical_list_subset_site("identical", &vec![subset("v", "a", S), pos(ident("w"))]).is_none());
}

#[test]
fn has_arg_on_a_non_formal_reports_ry096() {
    let mut c = checker();
    c.enclosing_formals.push(EnclosingFrame { function_span: S, names: vec!["a".to_string(), "b".to_string()] });
    let r = c.check_has_arg(&[pos(ident("z"))], Span { start: 1, end: 9 });
    assert_eq!((r.mode, r.length), (Mode::Logical, Length::One));
    assert_eq!(c.diagnostics.len(), 1);
    assert_eq!(c.diagnostics[0].code, "RY096");
    assert_eq!(c.diagnostics[0].message, "`hasArg(z)` names a parameter that is not a formal; it is always FALSE");
    c.check_has_arg(&[pos(ident("a"))], S);
    assert_eq!(c.diagnostics.len(), 1);
    c.enclosing_formals.push(EnclosingFrame { function_span: S, names: vec!["...".to_string()] });
    c.check_has_arg(&[pos(ident("z"))], S);
    assert_eq!(c.diagnostics.len(), 1);
}
