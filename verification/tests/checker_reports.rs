use ry_checker::ast::{Arg, Expr, Param, Span, Stmt};
use ry_checker::checker::{Checker, EnclosingFrame, Severity, UserFn, UserParam};
use ry_checker::reads::{formal_reads_for, index_formal_reads};
use ry_checker::typeshed::{FunctionSig, ParamSpec};

fn sp(start: usize, end: usize) -> Span {
    Span { start, end }
}

const S: Span = Span { start: 0, end: 0 };
const F: Span = Span { start: 5, end: 60 };

fn ident(name: &str) -> Expr {
    Expr::Ident { name: name.to_string(), span: S }
}

fn ident_at(name: &str, span: Span) -> Expr {
    Expr::Ident { name: name.to_string(), span }
}

fn arg(name: Option<&str>, value: Expr) -> Arg {
    Arg { name: name.map(str::to_string), value, span: S }
}

fn call(func: &str, args: Vec<Arg>) -> Expr {
    Expr::Call { func: Box::new(ident(func)), args, span: S }
}

fn param(name: &str, default: Option<Expr>) -> Param {
    Param { name: name.to_string(), default }
}

fn spec(name: &str) -> ParamSpec {
    ParamSpec { name: name.to_string(), type_: None, required: false, default: None, demand_only: false }
}

fn sig(names: &[&str]) -> FunctionSig {
    FunctionSig {
        params: names.iter().map(|n| spec(n)).collect(),
        scope_effect: None,
        conditional_scope_effect: None,
        eval: Vec::new(),
        data_mask_source: None,
        schema_effect: None,
        injection: Vec::new(),
        return_spec: None,
    }
}

fn user_fn(params: &[(&str, bool)]) -> UserFn {
    UserFn {
        params: params
            .iter()
            .map(|(n, required)| UserParam { name: n.to_string(), required: *required, quoting: false, defused: false })
            .collect(),
    }
}

fn checker() -> Checker {
    Checker {
        diagnostics: Vec::new(),
        discarding: false,
        source: String::new(),
        validate_user_call_arguments: false,
        fn_table: Vec::new(),
        enclosing_formals: Vec::new(),
        formal_reads: Vec::new(),
        loop_frames: Vec::new(),
        trusted_defusers: None,
        stubs: Default::default(),
    }
}

/// `f <- function(<formals>) <body>`, indexed, with the checker inside
/// `f`'s body.
fn inside(formals: &[&str], body: Vec<Stmt>) -> Checker {
    let params: Vec<Param> = formals.iter().map(|n| param(n, Some(Expr::Logical(false, S)))).collect();
    let file = vec![Stmt::Assign {
        target: ident("f"),
        value: Expr::Function { params, body, span: F },
        span: S,
    }];
    let mut c = checker();
    index_formal_reads(&file, &mut c.formal_reads);
    c.enclosing_formals.push(EnclosingFrame {
        function_span: F,
        names: formals.iter().map(|n| n.to_string()).collect(),
    });
    c
}

fn median_call(tag: &str, value: Expr) -> (Vec<Arg>, Expr) {
    let args = vec![arg(None, ident("x")), arg(Some(tag), value)];
    let e = call("median", vec![arg(None, ident("x")), arg(Some(tag), Expr::Logical(true, S))]);
    (args, e)
}

#[test]
fn constant_shadowing_the_enclosing_formal_fires_ry111() {
    let (args, body_call) = median_call("na.rm", Expr::Logical(true, sp(40, 44)));
    let mut c = inside(&["x", "na.rm"], vec![Stmt::Expr(body_call)]);
    assert_eq!(formal_reads_for(&c.formal_reads, F), Some(&vec!["x".to_string()]));
    let median = sig(&["x", "na.rm", "..."]);
    c.check_constant_shadowed_arguments("median", None, Some(&median), false, &args);
    assert_eq!(c.diagnostics.len(), 1);
    let d = &c.diagnostics[0];
    assert_eq!(d.code, "RY111");
    assert_eq!(d.severity, Severity::Warning);
    assert_eq!(d.span, sp(40, 44));
    assert!(d.message.contains("`median`"));
    assert!(d.message.contains("`na.rm = TRUE`"));
    assert!(d.message.contains("`na.rm = na.rm`"));
}

#[test]
fn a_read_of_the_formal_or_another_name_keeps_ry111_silent() {
    let median = sig(&["x", "na.rm", "..."]);
    // The body reads the formal.
    let (args, body_call) = median_call("na.rm", Expr::Logical(true, S));
    let guard = Stmt::If { cond: ident("na.rm"), then: vec![Stmt::Expr(ident("x"))], else_: None, span: S };
    let mut c = inside(&["x", "na.rm"], vec![guard, Stmt::Expr(body_call)]);
    c.check_constant_shadowed_arguments("median", None, Some(&median), false, &args);
    assert!(c.diagnostics.is_empty());
    // The enclosing formal has another name.
    let (args, body_call) = median_call("na.rm", Expr::Logical(true, S));
    let mut c = inside(&["x", "remove_na"], vec![Stmt::Expr(body_call)]);
    c.check_constant_shadowed_arguments("median", None, Some(&median), false, &args);
    assert!(c.diagnostics.is_empty());
    // A partial tag is not the exact spelling.
    let (args, body_call) = median_call("na.r", Expr::Logical(true, S));
    let mut c = inside(&["x", "na.rm"], vec![Stmt::Expr(body_call)]);
    c.check_constant_shadowed_arguments("median", None, Some(&median), false, &args);
    assert!(c.diagnostics.is_empty());
}

#[test]
fn only_reserved_logical_literals_fire_ry111() {
    let median = sig(&["x", "na.rm", "..."]);
    for value in [ident("na.rm"), ident("T"), Expr::Integer(1, S)] {
        let (args, body_call) = median_call("na.rm", value);
        let mut c = inside(&["x", "na.rm"], vec![Stmt::Expr(body_call)]);
        c.check_constant_shadowed_arguments("median", None, Some(&median), false, &args);
        assert!(c.diagnostics.is_empty());
    }
}

#[test]
fn callees_without_the_formal_keep_ry111_silent() {
    let (args, body_call) = median_call("na.rm", Expr::Logical(true, S));
    // A dots-only user callee forwards the literal into `...`.
    let variadic = user_fn(&[("x", true), ("...", false)]);
    let mut c = inside(&["x", "na.rm"], vec![Stmt::Expr(body_call)]);
    c.check_constant_shadowed_arguments("variadic", Some(&variadic), None, false, &args);
    assert!(c.diagnostics.is_empty());
    // An unknown callee, and a lexical callable, have no formals to match.
    let (args, body_call) = median_call("na.rm", Expr::Logical(true, S));
    let mut c = inside(&["x", "na.rm"], vec![Stmt::Expr(body_call)]);
    c.check_constant_shadowed_arguments("not_collected", None, None, false, &args);
    c.check_constant_shadowed_arguments("median", None, Some(&sig(&["x", "na.rm"])), true, &args);
    assert!(c.diagnostics.is_empty());
    // Outside every function there is no formal to shadow.
    let mut c = checker();
    c.check_constant_shadowed_arguments("median", None, Some(&sig(&["x", "na.rm"])), false, &args);
    assert!(c.diagnostics.is_empty());
}

#[test]
fn ry111_fires_once_per_site_and_never_while_discarding() {
    let median = sig(&["x", "na.rm", "..."]);
    let (args, body_call) = median_call("na.rm", Expr::Logical(true, S));
    let mut c = inside(&["x", "na.rm", "drop"], vec![Stmt::Expr(body_call)]);
    c.check_constant_shadowed_arguments("median", None, Some(&median), false, &args);
    c.check_constant_shadowed_arguments("median", None, Some(&median), false, &args);
    assert_eq!(c.diagnostics.iter().filter(|d| d.code == "RY111").count(), 2);
    let (args, body_call) = median_call("na.rm", Expr::Logical(true, S));
    let mut c = inside(&["x", "na.rm"], vec![Stmt::Expr(body_call)]);
    c.discarding = true;
    c.check_constant_shadowed_arguments("median", None, Some(&median), false, &args);
    assert!(c.diagnostics.is_empty());
}

#[test]
fn unknown_and_missing_arguments_fire_ry090_and_ry091() {
    let f = user_fn(&[("x", true), ("length", false)]);
    let mut c = checker();
    let call_span = sp(10, 30);
    let args = vec![Arg { name: Some("lenght".to_string()), value: Expr::Integer(3, S), span: sp(12, 22) }];
    c.check_user_call_arguments("f", &f, &args, call_span);
    assert_eq!(c.diagnostics.len(), 2);
    assert_eq!(c.diagnostics[0].code, "RY090");
    assert_eq!(c.diagnostics[0].span, sp(12, 22));
    assert_eq!(c.diagnostics[0].message, "unknown argument `lenght` to `f`; did you mean `length`?");
    assert_eq!(c.diagnostics[1].code, "RY091");
    assert_eq!(c.diagnostics[1].span, call_span);
    assert_eq!(c.diagnostics[1].message, "missing required argument `x` in call to `f`");
    // A matched call reports nothing.
    let mut c = checker();
    let args = vec![arg(None, Expr::Integer(1, S)), arg(Some("len"), Expr::Integer(3, S))];
    c.check_user_call_arguments("f", &f, &args, call_span);
    assert!(c.diagnostics.is_empty());
    // An unrelated tag gets no suggestion.
    let mut c = checker();
    let args = vec![arg(None, Expr::Integer(1, S)), arg(Some("colour"), Expr::Integer(3, S))];
    c.check_user_call_arguments("f", &f, &args, call_span);
    assert_eq!(c.diagnostics.len(), 1);
    assert_eq!(c.diagnostics[0].message, "unknown argument `colour` to `f`");
}

#[test]
fn self_referential_and_early_defaults_fire_ry098() {
    // function(x = x) { x }
    let params = vec![param("x", Some(ident_at("x", sp(13, 14))))];
    let body = vec![Stmt::Expr(ident_at("x", sp(20, 21)))];
    let mut c = checker();
    c.check_lazy_default_reachability(&params, &body, &Vec::new());
    assert_eq!(c.diagnostics.len(), 1);
    assert_eq!(c.diagnostics[0].code, "RY098");
    assert_eq!(c.diagnostics[0].span, sp(13, 14));
    assert_eq!(c.diagnostics[0].message, "parameter `x` has a self-referential default that recurses when forced");
    // function(n = len) { n; len <- 3 }
    let params = vec![param("n", Some(ident("len")))];
    let body = vec![
        Stmt::Expr(ident_at("n", sp(30, 31))),
        Stmt::Assign { target: ident("len"), value: Expr::Integer(3, S), span: S },
    ];
    let mut c = checker();
    c.check_lazy_default_reachability(&params, &body, &vec!["len".to_string()]);
    assert_eq!(c.diagnostics.len(), 1);
    assert_eq!(c.diagnostics[0].span, sp(30, 31));
    assert_eq!(c.diagnostics[0].message, "parameter `n` may force its default before body-local `len` is assigned");
    // function(n = len) { len <- 3; n } is fine.
    let body = vec![
        Stmt::Assign { target: ident("len"), value: Expr::Integer(3, S), span: S },
        Stmt::Expr(ident_at("n", sp(30, 31))),
    ];
    let mut c = checker();
    c.check_lazy_default_reachability(&params, &body, &vec!["len".to_string()]);
    assert!(c.diagnostics.is_empty());
}
