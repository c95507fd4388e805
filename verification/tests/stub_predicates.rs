use ry_checker::ast::{Arg, Expr, Span, UnaryOpKind};
use ry_checker::checker::Checker;
use ry_checker::narrow::Narrowing;
use ry_checker::scope::Scope;
use ry_checker::stub_narrowing::PredicateStub;
use ry_checker::types::{Length, Mode, RType};
use ry_checker::typeshed::ParamSpec;

const S: Span = Span { start: 0, end: 0 };

fn checker() -> Checker {
    Checker {
        diagnostics: Vec::new(),
        discarding: false,
        source: String::new(),
        validate_user_call_arguments: false,
        fn_table: Vec::new(),
        enclosing_formals: Vec::new(),
        formal_reads: Vec::new(),
        loop_frames: Vec::new(),
        trusted_defusers: None,
        stubs: Default::default(),
    }
}

fn ident(name: &str) -> Expr {
    Expr::Ident { name: name.to_string(), span: S }
}

fn call(name: &str, args: Vec<Arg>) -> Expr {
    Expr::Call { func: Box::new(ident(name)), args, span: S }
}

fn pos(value: Expr) -> Arg {
    Arg { name: None, value, span: S }
}

fn table(name: &str) -> Vec<PredicateStub> {
    vec![PredicateStub {
        name: name.to_string(),
        params: vec![ParamSpec { name: "x".to_string(), type_: None, required: true, default: None, demand_only: false }],
        subject_param: "x".to_string(),
        target: RType::new(Mode::Character, Length::One),
    }]
}

#[test]
fn stub_predicate_narrows_its_subject() {
    let c = checker();
    let r = c.extract_type_narrowing(&call("is_string", vec![pos(ident("y"))]), &Scope::new(), &table("is_string"));
    match r {
        Narrowing::Positive { var, target } => {
            assert_eq!(var, "y");
            assert_eq!((target.mode, target.length), (Mode::Character, Length::One));
        },
        other => panic!("expected a positive narrowing, got {:?}", other),
    }
}

#[test]
fn negated_stub_predicate_narrows_the_else_branch() {
    let c = checker();
    let cond = Expr::UnaryOp { op: UnaryOpKind::Not, expr: Box::new(call("is_string", vec![pos(ident("y"))])), span: S };
    let r = c.extract_type_narrowing(&cond, &Scope::new(), &table("is_string"));
    assert!(matches!(r, Narrowing::Negative { ref var, .. } if var == "y"));
}

#[test]
fn shadowed_or_unknown_predicates_do_not_narrow() {
    let c = checker();
    let mut scope = Scope::new();
    scope.insert("is_string", RType::scalar(Mode::Function));
    let r = c.extract_type_narrowing(&call("is_string", vec![pos(ident("y"))]), &scope, &table("is_string"));
    assert!(matches!(r, Narrowing::Unrefined));
    let r = c.extract_type_narrowing(&call("is_thing", vec![pos(ident("y"))]), &Scope::new(), &table("is_string"));
    assert!(matches!(r, Narrowing::Unrefined));
    let r = c.extract_type_narrowing(&call("is_string", vec![pos(Expr::Integer(1, S))]), &Scope::new(), &table("is_string"));
    assert!(matches!(r, Narrowing::Unrefined));
}

#[test]
fn qualified_predicate_is_resolved_despite_a_local_binding() {
    let c = checker();
    let mut scope = Scope::new();
    scope.insert("rlang::is_string", RType::scalar(Mode::Function));
    let r = c.extract_type_narrowing(&call("rlang::is_string", vec![pos(ident("y"))]), &scope, &table("rlang::is_string"));
    assert!(matches!(r, Narrowing::Positive { ref var, .. } if var == "y"));
}

#[test]
fn built_in_predicates_come_first() {
    let c = checker();
    let r = c.extract_type_narrowing(&call("is.character", vec![pos(ident("z"))]), &Scope::new(), &Vec::new());
    match r {
        Narrowing::Positive { var, target } => {
            assert_eq!(var, "z");
            assert_eq!(target.mode, Mode::Character);
        },
        other => panic!("expected a positive narrowing, got {:?}", other),
    }
}
