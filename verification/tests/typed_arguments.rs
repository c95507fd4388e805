use ry_checker::ast::{Arg, Expr, Span};
use ry_checker::checker::{Checker, Severity, UserFn, UserParam};
use ry_checker::types::{ClassVector, Length, Mode, RType};
use ry_checker::typeshed::{FunctionSig, JsonRType, ParamSpec};

const S: Span = Span { start: 0, end: 0 };

fn checker() -> Checker {
    Checker {
        diagnostics: Vec::new(),
        discarding: false,
        source: String::new(),
        validate_user_call_arguments: false,
        fn_table: Vec::new(),
        enclosing_formals: Vec::new(),
        formal_reads: Vec::new(),
        loop_frames: Vec::new(),
        trusted_defusers: None,
        stubs: Default::default(),
    }
}

fn json(mode: &str) -> JsonRType {
    JsonRType { mode: mode.to_string(), length: "1".to_string(), members: Vec::new(), class: Vec::new(), columns: Vec::new() }
}

fn typed(name: &str, mode: &str, demand_only: bool) -> ParamSpec {
    ParamSpec { name: name.to_string(), type_: Some(json(mode)), required: true, default: None, demand_only }
}

fn sig(params: Vec<ParamSpec>) -> FunctionSig {
    FunctionSig {
        params,
        scope_effect: None,
        conditional_scope_effect: None,
        eval: Vec::new(),
        data_mask_source: None,
        schema_effect: None,
        injection: Vec::new(),
        return_spec: None,
    }
}

fn pos(span: Span) -> Arg {
    Arg { name: None, value: Expr::Ident { name: "x".to_string(), span }, span }
}

#[test]
fn argument_of_a_contradicting_mode_reports_ry092() {
    let mut c = checker();
    let s = sig(vec![typed("x", "character", false)]);
    let expected = vec![Some(RType::scalar(Mode::Character))];
    let span = Span { start: 6, end: 7 };
    c.check_typeshed_call_arguments("nchar", &s, &[pos(span)], &[RType::new(Mode::List, Length::Known(2))], S, &expected, false);
    assert_eq!(c.diagnostics.len(), 1);
    assert_eq!(c.diagnostics[0].code, "RY092");
    assert_eq!(c.diagnostics[0].severity, Severity::Error);
    assert_eq!(c.diagnostics[0].span, span);
    assert_eq!(c.diagnostics[0].message, "argument `x` to `nchar` is `list`, expected character");
}

#[test]
fn numeric_coercion_and_unknown_types_are_silent() {
    let mut c = checker();
    let s = sig(vec![typed("x", "double", false)]);
    let expected = vec![Some(RType::scalar(Mode::Double))];
    c.check_typeshed_call_arguments("sqrt", &s, &[pos(S)], &[RType::scalar(Mode::Logical)], S, &expected, false);
    c.check_typeshed_call_arguments("sqrt", &s, &[pos(S)], &[RType::unknown()], S, &expected, false);
    assert!(c.diagnostics.is_empty());
}

#[test]
fn dispatching_generics_and_demands_are_silent() {
    let mut c = checker();
    let s = sig(vec![typed("x", "double", false)]);
    let expected = vec![Some(RType::scalar(Mode::Double))];
    let classed = RType::scalar(Mode::Character).with_class(ClassVector::single("money"));
    c.check_typeshed_call_arguments("mean", &s, &[pos(S)], &[classed], S, &expected, true);
    let demand = sig(vec![typed("x", "double", true)]);
    c.check_typeshed_call_arguments("vec_cast", &demand, &[pos(S)], &[RType::scalar(Mode::Character)], S, &expected, false);
    assert!(c.diagnostics.is_empty());
    let plain = RType::scalar(Mode::Character);
    c.check_typeshed_call_arguments("mean", &s, &[pos(S)], &[plain], S, &expected, true);
    assert_eq!(c.diagnostics.len(), 1);
    assert_eq!(c.diagnostics[0].code, "RY092");
}

#[test]
fn missing_required_argument_reports_ry091() {
    let mut c = checker();
    let s = sig(vec![typed("x", "character", false)]);
    let expected = vec![Some(RType::scalar(Mode::Character))];
    c.check_typeshed_call_arguments("nchar", &s, &[], &[], S, &expected, false);
    assert_eq!(c.diagnostics.len(), 1);
    assert_eq!(c.diagnostics[0].code, "RY091");
}

fn user_fn(required: &[&str]) -> UserFn {
    UserFn {
        params: required
            .iter()
            .map(|n| UserParam { name: n.to_string(), required: true, quoting: false, defused: false })
            .collect(),
    }
}

#[test]
fn call_checks_pick_the_definition_or_the_stub() {
    let s = sig(vec![typed("x", "character", false)]);
    let expected = vec![Some(RType::scalar(Mode::Character))];
    let f = user_fn(&["a"]);

    let mut validating = checker();
    validating.validate_user_call_arguments = true;
    validating.check_call_arguments("g", Some(&f), Some(&s), false, &[], &[], &expected, false, S);
    assert_eq!(validating.diagnostics.len(), 1);
    assert_eq!(validating.diagnostics[0].code, "RY091");
    assert!(validating.diagnostics[0].message.contains("`a`"));

    let mut defined = checker();
    defined.fn_table.push(("nchar".to_string(), user_fn(&[])));
    defined.check_call_arguments("nchar", None, Some(&s), false, &[], &[], &expected, false, S);
    assert!(defined.diagnostics.is_empty());

    let mut stub = checker();
    stub.check_call_arguments("nchar", None, Some(&s), false, &[], &[], &expected, false, S);
    assert_eq!(stub.diagnostics.len(), 1);
    assert_eq!(stub.diagnostics[0].code, "RY091");

    let mut lexical = checker();
    lexical.check_call_arguments("nchar", None, Some(&s), true, &[], &[], &expected, false, S);
    assert!(lexical.diagnostics.is_empty());
}
