use ry_checker::ast::{Arg, Expr, Span};
use ry_checker::checker::{Checker, Severity};
use ry_checker::matching::match_arguments;
use ry_checker::scope::Scope;
use ry_checker::types::{Length, Mode, RType};

const S: Span = Span { start: 0, end: 0 };

fn checker(discarding: bool) -> Checker {
    Checker {
        diagnostics: Vec::new(),
        discarding,
        source: String::new(),
        validate_user_call_arguments: false,
        fn_table: Vec::new(),
        enclosing_formals: Vec::new(),
        formal_reads: Vec::new(),
        loop_frames: Vec::new(),
        trusted_defusers: None,
        stubs: Default::default(),
    }
}

fn argument(name: Option<&str>) -> Arg {
    Arg { name: name.map(str::to_string), value: Expr::Null(S), span: S }
}

#[test]
fn bound_formals_are_exactly_the_matched_ones() {
    let args = [argument(Some("b")), argument(None), argument(Some("zz")), argument(None)];
    let m = match_arguments(&["a", "b", "c"], &args);
    for j in 0..3 {
        let matched = m.param_for_arg.iter().any(|p| *p == Some(j));
        assert_eq!(m.bound_params[j], matched);
    }
    assert!(m.param_for_arg.iter().all(|p| p.map_or(true, |j| j < 3)));
    assert_eq!(m.param_for_arg, vec![Some(1), Some(0), None, Some(2)]);
}

#[test]
fn a_read_gives_back_what_a_write_wrote() {
    let mut scope = Scope::new();
    scope.insert("x", RType::new(Mode::Integer, Length::One));
    scope.insert("y", RType::new(Mode::Character, Length::Known(2)));
    scope.insert("x", RType::new(Mode::Double, Length::One));
    assert_eq!(scope.get("x").map(|t| t.mode), Some(Mode::Double));
    assert_eq!(scope.get("y").map(|t| t.length), Some(Length::Known(2)));
    assert!(scope.get("z").is_none());
}

#[test]
fn join_of_equal_types_and_of_opaque_types() {
    let a = RType::new(Mode::Integer, Length::One);
    let b = RType::new(Mode::Integer, Length::One);
    let joined = a.join(b);
    assert_eq!(joined.mode, Mode::Integer);
    assert_eq!(joined.length, Length::One);
    let opaque = RType::new(Mode::Integer, Length::One).join(RType::unknown());
    assert_eq!(opaque.mode, Mode::Opaque);
    assert_eq!(opaque.length, Length::Unknown);
}

#[test]
fn discarding_inference_reports_nothing() {
    let mut quiet = checker(true);
    quiet.emit(Severity::Warning, S, "RY010", "variable `x` is not bound in this scope".to_string());
    assert!(quiet.diagnostics.is_empty());
    let mut loud = checker(false);
    loud.emit(Severity::Warning, S, "RY010", "first".to_string());
    loud.emit(Severity::Error, S, "RY020", "second".to_string());
    assert_eq!(loud.diagnostics.len(), 2);
    assert_eq!(loud.diagnostics[0].code, "RY010");
    assert_eq!(loud.diagnostics[1].message, "second");
}

#[test]
fn edit_distance_examples_and_symmetry() {
    use_edit_distance();
}

fn use_edit_distance() {
    let d = ry_checker::matching::edit_distance;
    assert_eq!(d("lenght", "length"), 2);
    assert_eq!(d("kitten", "sitting"), 3);
    assert_eq!(d("sitting", "kitten"), 3);
    assert_eq!(d("", "abc"), 3);
    assert_eq!(d("abc", "abc"), 0);
}
