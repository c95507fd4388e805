//! RY111 over whole files, given as the syntax trees their source lowers
//! to. A small driver walks the tree the way the checker does: it enters
//! every function literal with its formals, indexes the formals each
//! function reads, collects the functions the file defines, and checks
//! every call against its callee.
use ry_checker::ast::{Arg, BinOpKind, Expr, IndexKind, Param, Span, Stmt};
use ry_checker::checker::{Checker, Diagnostic, EnclosingFrame, Severity, UserFn, UserParam};
use ry_checker::reads::index_formal_reads;
use ry_checker::subscript::bare_name;
use ry_checker::typeshed::{FunctionSig, ParamSpec};

fn sp(start: usize, end: usize) -> Span {
    Span { start, end }
}

const S: Span = Span { start: 0, end: 0 };

// ---- building trees -------------------------------------------------

fn id(name: &str) -> Expr {
    Expr::Ident { name: name.to_string(), span: S }
}

fn lgl(value: bool) -> Expr {
    Expr::Logical(value, S)
}

fn num(value: i64) -> Expr {
    Expr::Integer(value, S)
}

fn pos(value: Expr) -> Arg {
    Arg { name: None, value, span: S }
}

fn named(name: &str, value: Expr) -> Arg {
    Arg { name: Some(name.to_string()), value, span: S }
}

fn call(func: &str, args: Vec<Arg>) -> Expr {
    Expr::Call { func: Box::new(id(func)), args, span: S }
}

fn p(name: &str) -> Param {
    Param { name: name.to_string(), default: None }
}

fn pd(name: &str, default: Expr) -> Param {
    Param { name: name.to_string(), default: Some(default) }
}

/// A function literal; each gets its own span.
fn func(start: usize, params: Vec<Param>, body: Vec<Stmt>) -> Expr {
    Expr::Function { params, body, span: sp(start, start + 1) }
}

fn assign(name: &str, value: Expr) -> Stmt {
    Stmt::Assign { target: id(name), value, span: S }
}

fn ex(e: Expr) -> Stmt {
    Stmt::Expr(e)
}

fn if_stmt(cond: Expr, then: Vec<Stmt>) -> Stmt {
    Stmt::If { cond, then, else_: None, span: S }
}

fn if_expr(cond: Expr, then: Expr, else_: Expr) -> Expr {
    Expr::If { cond: Box::new(cond), then: Box::new(then), else_: Some(Box::new(else_)), span: S }
}

fn not(e: Expr) -> Expr {
    Expr::UnaryOp { op: ry_checker::ast::UnaryOpKind::Not, expr: Box::new(e), span: S }
}

// ---- the driver -----------------------------------------------------

fn stub(params: &[&str]) -> FunctionSig {
    FunctionSig {
        params: params
            .iter()
            .map(|n| ParamSpec { name: n.to_string(), type_: None, required: false, default: None, demand_only: false })
            .collect(),
        scope_effect: None,
        conditional_scope_effect: None,
        eval: Vec::new(),
        data_mask_source: None,
        schema_effect: None,
        injection: Vec::new(),
        return_spec: None,
    }
}

fn stubs() -> Vec<(String, FunctionSig)> {
    vec![
        ("median".to_string(), stub(&["x", "na.rm", "..."])),
        ("sum".to_string(), stub(&["...", "na.rm"])),
        ("rep".to_string(), stub(&["x", "..."])),
        ("paste0".to_string(), stub(&["...", "collapse", "recycle0"])),
        ("list".to_string(), stub(&["..."])),
        ("sapply".to_string(), stub(&["X", "FUN", "...", "simplify", "USE.NAMES"])),
        ("as.logical".to_string(), stub(&["x", "..."])),
        ("missing".to_string(), stub(&["x"])),
        ("return".to_string(), stub(&["value"])),
    ]
}

/// The functions a file defines at its top level.
fn defined_functions(file: &[Stmt]) -> Vec<(String, UserFn)> {
    let mut table = Vec::new();
    for s in file {
        if let Stmt::Assign { target: Expr::Ident { name, .. }, value: Expr::Function { params, .. }, .. } = s {
            let params = params
                .iter()
                .map(|p| UserParam { name: p.name.clone(), required: p.default.is_none(), quoting: false, defused: false })
                .collect();
            table.push((name.clone(), UserFn { params }));
        }
    }
    table
}

/// A copy of an argument value as far as the rule reads it.
fn literal_copy(e: &Expr) -> Expr {
    match e {
        Expr::Logical(b, s) => Expr::Logical(*b, *s),
        Expr::Integer(n, s) => Expr::Integer(*n, *s),
        Expr::String(v, s) => Expr::String(v.clone(), *s),
        Expr::Null(s) => Expr::Null(*s),
        Expr::Ident { name, span } => Expr::Ident { name: name.clone(), span: *span },
        _ => Expr::Unknown(S),
    }
}

fn arg_copy(a: &Arg) -> Arg {
    Arg { name: a.name.clone(), value: literal_copy(&a.value), span: a.span }
}

struct Driver {
    checker: Checker,
    stubs: Vec<(String, FunctionSig)>,
    table: Vec<(String, UserFn)>,
    /// Functions bound inside each enclosing function body.
    lexical: Vec<Vec<String>>,
}

impl Driver {
    fn check_call(&mut self, func: &Expr, args: &[Arg]) {
        let name = match func {
            Expr::Ident { name, .. } | Expr::String(name, _) => name.as_str(),
            _ => return,
        };
        let bare = bare_name(name);
        let lexical = self.lexical.iter().any(|frame| frame.iter().any(|n| n == name));
        let user = if lexical { None } else { self.table.iter().find(|(n, _)| n == name).map(|(_, f)| f) };
        let sig = self.stubs.iter().find(|(n, _)| *n == bare).map(|(_, s)| s);
        self.checker.check_constant_shadowed_arguments(name, user, sig, lexical, args);
    }

    fn enter(&mut self, params: &[Param], body: &[Stmt], span: Span) {
        self.checker.enclosing_formals.push(EnclosingFrame {
            function_span: span,
            names: params.iter().map(|p| p.name.clone()).collect(),
        });
        self.lexical.push(Vec::new());
        for p in params {
            if let Some(d) = &p.default {
                self.expr(d);
            }
        }
        self.stmts(body);
        self.lexical.pop();
        self.checker.enclosing_formals.pop();
    }

    fn stmts(&mut self, ss: &[Stmt]) {
        for s in ss {
            self.stmt(s);
        }
    }

    fn stmt(&mut self, s: &Stmt) {
        match s {
            Stmt::Assign { target, value, .. } => {
                if let (Expr::Ident { name, .. }, Expr::Function { .. }) = (target, value) {
                    if let Some(frame) = self.lexical.last_mut() {
                        frame.push(name.clone());
                    }
                }
                if let Expr::Index { base, args, .. } = target {
                    self.expr(base);
                    for a in args {
                        self.expr(&a.value);
                    }
                }
                self.expr(value);
            }
            Stmt::Expr(e) => self.expr(e),
            Stmt::If { cond, then, else_, .. } => {
                self.expr(cond);
                self.stmts(then);
                if let Some(b) = else_ {
                    self.stmts(b);
                }
            }
            Stmt::For { iter, body, .. } => {
                self.expr(iter);
                self.stmts(body);
            }
            Stmt::While { cond, body, .. } => {
                self.expr(cond);
                self.stmts(body);
            }
            Stmt::FunctionDef { params, body, span, .. } => self.enter(params, body, *span),
            Stmt::Return { value, .. } => {
                if let Some(v) = value {
                    self.expr(v);
                }
            }
        }
    }

    fn expr(&mut self, e: &Expr) {
        match e {
            Expr::Call { func, args, .. } => {
                self.check_call(func, args);
                self.expr(func);
                for a in args {
                    self.expr(&a.value);
                }
            }
            Expr::BinOp { op: BinOpKind::PipeNative | BinOpKind::PipeForward, lhs, rhs, .. } => {
                self.expr(lhs);
                if let Expr::Call { func, args, .. } = rhs.as_ref() {
                    let mut piped = vec![Arg { name: None, value: literal_copy(lhs), span: S }];
                    piped.extend(args.iter().map(arg_copy));
                    self.check_call(func, &piped);
                    for a in args {
                        self.expr(&a.value);
                    }
                } else {
                    self.expr(rhs);
                }
            }
            Expr::BinOp { lhs, rhs, .. } => {
                self.expr(lhs);
                self.expr(rhs);
            }
            Expr::UnaryOp { expr, .. } => self.expr(expr),
            Expr::Index { base, args, .. } => {
                self.expr(base);
                for a in args {
                    self.expr(&a.value);
                }
            }
            Expr::Function { params, body, span } => self.enter(params, body, *span),
            Expr::Block { body, .. } => self.stmts(body),
            Expr::If { cond, then, else_, .. } => {
                self.expr(cond);
                self.expr(then);
                if let Some(b) = else_ {
                    self.expr(b);
                }
            }
            _ => {}
        }
    }
}

fn check(file: Vec<Stmt>) -> Vec<Diagnostic> {
    let mut checker = Checker {
        diagnostics: Vec::new(),
        discarding: false,
        source: String::new(),
        validate_user_call_arguments: false,
        fn_table: defined_functions(&file),
        enclosing_formals: Vec::new(),
        formal_reads: Vec::new(),
        loop_frames: Vec::new(),
        trusted_defusers: None,
        stubs: Default::default(),
    };
    index_formal_reads(&file, &mut checker.formal_reads);
    let mut driver = Driver { checker, stubs: stubs(), table: defined_functions(&file), lexical: Vec::new() };
    driver.stmts(&file);
    driver.checker.diagnostics
}

fn fires(file: Vec<Stmt>) -> bool {
    check(file).iter().any(|d| d.code == "RY111")
}

/// `f <- function(<params>) <body>`
fn define(start: usize, name: &str, params: Vec<Param>, body: Vec<Stmt>) -> Stmt {
    assign(name, func(start, params, body))
}

fn median_of(x: &str, tag: &str, value: Expr) -> Expr {
    call("median", vec![pos(id(x)), named(tag, value)])
}

// ---- the scenarios --------------------------------------------------

#[test]
fn fires_on_the_haven_and_adjacent_shapes() {
    // vec_data <- function(x) x
    // median.labelled <- function(x, na.rm = FALSE, ...) {
    //   median(vec_data(x), na.rm = TRUE, ...)
    // }
    assert!(fires(vec![
        define(10, "vec_data", vec![p("x")], vec![ex(id("x"))]),
        define(20, "median.labelled", vec![p("x"), pd("na.rm", lgl(false)), p("...")], vec![ex(call(
            "median",
            vec![pos(call("vec_data", vec![pos(id("x"))])), named("na.rm", lgl(true)), pos(id("..."))],
        ))]),
    ]));
    // f <- function(x, na.rm) median(x, na.rm = FALSE)
    assert!(fires(vec![define(10, "f", vec![p("x"), p("na.rm")], vec![ex(median_of("x", "na.rm", lgl(false)))])]));
    // my_sum <- function(x, na.rm = FALSE) sum(x)
    // f <- function(x, na.rm = FALSE) my_sum(x, na.rm = TRUE)
    assert!(fires(vec![
        define(10, "my_sum", vec![p("x"), pd("na.rm", lgl(false))], vec![ex(call("sum", vec![pos(id("x"))]))]),
        define(20, "f", vec![p("x"), pd("na.rm", lgl(false))], vec![ex(call(
            "my_sum",
            vec![pos(id("x")), named("na.rm", lgl(true))],
        ))]),
    ]));
    // f <- function(x, na.rm = FALSE) sum(x, na.rm = TRUE)
    assert!(fires(vec![define(10, "f", vec![p("x"), pd("na.rm", lgl(false))], vec![ex(call(
        "sum",
        vec![pos(id("x")), named("na.rm", lgl(true))],
    ))])]));
    // f <- function(x, na.rm = TRUE) median(x, na.rm = FALSE)
    assert!(fires(vec![define(10, "f", vec![p("x"), pd("na.rm", lgl(true))], vec![ex(median_of(
        "x",
        "na.rm",
        lgl(false),
    ))])]));
    // f <- function(x, na.rm = FALSE) x |> median(na.rm = TRUE)
    let piped = Expr::BinOp {
        op: BinOpKind::PipeNative,
        lhs: Box::new(id("x")),
        rhs: Box::new(call("median", vec![named("na.rm", lgl(true))])),
        span: S,
    };
    assert!(fires(vec![define(10, "f", vec![p("x"), pd("na.rm", lgl(false))], vec![ex(piped)])]));
    // f <- function(x, na.rm = FALSE) stats::median(x, na.rm = TRUE)
    assert!(fires(vec![define(10, "f", vec![p("x"), pd("na.rm", lgl(false))], vec![ex(call(
        "stats::median",
        vec![pos(id("x")), named("na.rm", lgl(true))],
    ))])]));
}

#[test]
fn resolves_enclosing_frames_innermost_first() {
    // f <- function(x, na.rm = FALSE) {
    //   sapply(x, function(y) median(y, na.rm = TRUE))
    // }
    assert!(fires(vec![define(10, "f", vec![p("x"), pd("na.rm", lgl(false))], vec![ex(call(
        "sapply",
        vec![pos(id("x")), pos(func(20, vec![p("y")], vec![ex(median_of("y", "na.rm", lgl(true)))]))],
    ))])]));
    // f <- function(x, na.rm = FALSE) {
    //   g <- function(y, na.rm = TRUE) median(y, na.rm = TRUE)
    //   g(x)
    // }
    assert!(fires(vec![define(10, "f", vec![p("x"), pd("na.rm", lgl(false))], vec![
        assign("g", func(20, vec![p("y"), pd("na.rm", lgl(true))], vec![ex(median_of("y", "na.rm", lgl(true)))])),
        ex(call("g", vec![pos(id("x"))])),
    ])]));
    // The inner formal is forwarded, not shadowed.
    assert!(!fires(vec![define(10, "f", vec![p("x"), pd("na.rm", lgl(false))], vec![
        assign("g", func(20, vec![p("y"), pd("na.rm", lgl(true))], vec![ex(median_of("y", "na.rm", id("na.rm")))])),
        ex(call("g", vec![pos(id("x"))])),
    ])]));
}

#[test]
fn stays_silent_without_the_identical_enclosing_formal() {
    // f <- function(x, remove_na = FALSE) median(x, na.rm = TRUE)
    assert!(!fires(vec![define(10, "f", vec![p("x"), pd("remove_na", lgl(false))], vec![ex(median_of(
        "x",
        "na.rm",
        lgl(true),
    ))])]));
    // f <- function(x, na.rm = FALSE) median(x, na.r = TRUE)
    assert!(!fires(vec![define(10, "f", vec![p("x"), pd("na.rm", lgl(false))], vec![ex(median_of(
        "x",
        "na.r",
        lgl(true),
    ))])]));
    // median(1:3, na.rm = TRUE)
    let range = Expr::BinOp { op: BinOpKind::Colon, lhs: Box::new(num(1)), rhs: Box::new(num(3)), span: S };
    assert!(!fires(vec![ex(call("median", vec![pos(range), named("na.rm", lgl(true))]))]));
    // f <- function(x) median(x, na.rm = TRUE)
    assert!(!fires(vec![define(10, "f", vec![p("x")], vec![ex(median_of("x", "na.rm", lgl(true)))])]));
    // f <- function(...) median(list(...)[[1]], na.rm = TRUE)
    let first = Expr::Index {
        base: Box::new(call("list", vec![pos(id("..."))])),
        kind: IndexKind::Double,
        args: vec![pos(num(1))],
        span: S,
    };
    assert!(!fires(vec![define(10, "f", vec![p("...")], vec![ex(call(
        "median",
        vec![pos(first), named("na.rm", lgl(true))],
    ))])]));
}

#[test]
fn stays_silent_for_non_literal_values() {
    let with = |tag: &str, value: Expr| define(10, "f", vec![p("x"), pd(tag, lgl(false))], vec![ex(median_of("x", tag, value))]);
    // na.rm = na.rm
    assert!(!fires(vec![with("na.rm", id("na.rm"))]));
    // na.rm = as.logical(na.rm)
    assert!(!fires(vec![with("na.rm", call("as.logical", vec![pos(id("na.rm"))]))]));
    // na.rm = T
    assert!(!fires(vec![with("na.rm", id("T"))]));
    // na.rm = NA
    let na = Expr::Na(ry_checker::types::RType::new(ry_checker::types::Mode::Logical, ry_checker::types::Length::One), S);
    assert!(!fires(vec![with("na.rm", na)]));
    // f <- function(x, times = 3) rep(x, times = 3)
    assert!(!fires(vec![define(10, "f", vec![p("x"), pd("times", num(3))], vec![ex(call(
        "rep",
        vec![pos(id("x")), named("times", num(3))],
    ))])]));
    // f <- function(x, sep = ",") paste0(x, sep = "")
    assert!(!fires(vec![define(10, "f", vec![p("x"), pd("sep", Expr::String(",".to_string(), S))], vec![ex(call(
        "paste0",
        vec![pos(id("x")), named("sep", Expr::String(String::new(), S))],
    ))])]));
}

#[test]
fn stays_silent_without_a_resolvable_callee_formal() {
    // variadic <- function(x, ...) list(x, ...)
    // f <- function(x, na.rm = FALSE) variadic(x, na.rm = TRUE)
    assert!(!fires(vec![
        define(10, "variadic", vec![p("x"), p("...")], vec![ex(call("list", vec![pos(id("x")), pos(id("..."))]))]),
        define(20, "f", vec![p("x"), pd("na.rm", lgl(false))], vec![ex(call(
            "variadic",
            vec![pos(id("x")), named("na.rm", lgl(true))],
        ))]),
    ]));
    // f <- function(x, na.rm = FALSE) not_collected_anywhere(x, na.rm = TRUE)
    assert!(!fires(vec![define(10, "f", vec![p("x"), pd("na.rm", lgl(false))], vec![ex(call(
        "not_collected_anywhere",
        vec![pos(id("x")), named("na.rm", lgl(true))],
    ))])]));
    // f <- function(x, na.rm = FALSE) {
    //   inner <- function(y, na.rm) NULL
    //   inner(x, na.rm = TRUE)
    // }
    assert!(!fires(vec![define(10, "f", vec![p("x"), pd("na.rm", lgl(false))], vec![
        assign("inner", func(20, vec![p("y"), p("na.rm")], vec![ex(Expr::Null(S))])),
        ex(call("inner", vec![pos(id("x")), named("na.rm", lgl(true))])),
    ])]));
}

#[test]
fn stays_silent_when_the_body_reads_the_formal() {
    // f <- function(x, ignore_case = FALSE) {
    //   if (ignore_case) return(x)
    //   median(x, ignore_case = FALSE)
    // }
    assert!(!fires(vec![define(10, "f", vec![p("x"), pd("ignore_case", lgl(false))], vec![
        if_stmt(id("ignore_case"), vec![ex(call("return", vec![pos(id("x"))]))]),
        ex(median_of("x", "ignore_case", lgl(false))),
    ])]));
    // final <- function(x, quiet = FALSE) x
    // f <- function(x, quiet = FALSE) {
    //   a <- median(x, quiet = TRUE)
    //   final(a, quiet = quiet)
    // }
    assert!(!fires(vec![
        define(10, "final", vec![p("x"), pd("quiet", lgl(false))], vec![ex(id("x"))]),
        define(20, "f", vec![p("x"), pd("quiet", lgl(false))], vec![
            assign("a", median_of("x", "quiet", lgl(true))),
            ex(call("final", vec![pos(id("a")), named("quiet", id("quiet"))])),
        ]),
    ]));
    // f <- function(x, na.rm = FALSE) {
    //   check_bool(na.rm)
    //   median(x, na.rm = TRUE)
    // }
    // check_bool <- function(x) TRUE
    assert!(!fires(vec![
        define(10, "f", vec![p("x"), pd("na.rm", lgl(false))], vec![
            ex(call("check_bool", vec![pos(id("na.rm"))])),
            ex(median_of("x", "na.rm", lgl(true))),
        ]),
        define(20, "check_bool", vec![p("x")], vec![ex(lgl(true))]),
    ]));
    // f <- function(x, keep = FALSE) {
    //   if (!missing(keep)) warn("ignored")
    //   median(x, keep = TRUE)
    // }
    // warn <- function(...) NULL
    assert!(!fires(vec![
        define(10, "f", vec![p("x"), pd("keep", lgl(false))], vec![
            if_stmt(not(call("missing", vec![pos(id("keep"))])), vec![ex(call(
                "warn",
                vec![pos(Expr::String("ignored".to_string(), S))],
            ))]),
            ex(median_of("x", "keep", lgl(true))),
        ]),
        define(20, "warn", vec![p("...")], vec![ex(Expr::Null(S))]),
    ]));
    // f <- function(x, na.rm = FALSE) {
    //   g <- function(y) if (na.rm) y else y
    //   g(x)
    //   median(x, na.rm = TRUE)
    // }
    assert!(!fires(vec![define(10, "f", vec![p("x"), pd("na.rm", lgl(false))], vec![
        assign("g", func(20, vec![p("y")], vec![ex(if_expr(id("na.rm"), id("y"), id("y")))])),
        ex(call("g", vec![pos(id("x"))])),
        ex(median_of("x", "na.rm", lgl(true))),
    ])]));
    // f <- function(x, na.rm = FALSE) {
    //   a <- median(x, na.rm = TRUE)
    //   if (na.rm) x else a
    // }
    assert!(!fires(vec![define(10, "f", vec![p("x"), pd("na.rm", lgl(false))], vec![
        assign("a", median_of("x", "na.rm", lgl(true))),
        ex(if_expr(id("na.rm"), id("x"), id("a"))),
    ])]));
}

#[test]
fn dead_formal_index_respects_scoping_writes_and_defaults() {
    // f <- function(x, na.rm = FALSE) {
    //   g <- function(y, na.rm) median(y, na.rm = na.rm)
    //   g(x)
    //   median(x, na.rm = TRUE)
    // }
    assert!(fires(vec![define(10, "f", vec![p("x"), pd("na.rm", lgl(false))], vec![
        assign("g", func(20, vec![p("y"), p("na.rm")], vec![ex(median_of("y", "na.rm", id("na.rm")))])),
        ex(call("g", vec![pos(id("x"))])),
        ex(median_of("x", "na.rm", lgl(true))),
    ])]));
    // f <- function(x, na.rm = FALSE) {
    //   na.rm <- FALSE
    //   median(x, na.rm = TRUE)
    // }
    assert!(fires(vec![define(10, "f", vec![p("x"), pd("na.rm", lgl(false))], vec![
        assign("na.rm", lgl(false)),
        ex(median_of("x", "na.rm", lgl(true))),
    ])]));
    // f <- function(x, na.rm = FALSE) {
    //   na.rm[1] <- TRUE
    //   median(x, na.rm = TRUE)
    // }
    let subassigned = Expr::Index { base: Box::new(id("na.rm")), kind: IndexKind::Single, args: vec![pos(num(1))], span: S };
    assert!(fires(vec![define(10, "f", vec![p("x"), pd("na.rm", lgl(false))], vec![
        Stmt::Assign { target: subassigned, value: lgl(true), span: S },
        ex(median_of("x", "na.rm", lgl(true))),
    ])]));
    // f <- function(x, na.rm = FALSE) {
    //   return(if (na.rm) x else x)
    // }
    assert!(!fires(vec![define(10, "f", vec![p("x"), pd("na.rm", lgl(false))], vec![ex(call(
        "return",
        vec![pos(if_expr(id("na.rm"), id("x"), id("x")))],
    ))])]));
    // f <- function(x, na.rm = FALSE, force = na.rm) {
    //   median(x, na.rm = TRUE)
    // }
    assert!(!fires(vec![define(10, "f", vec![p("x"), pd("na.rm", lgl(false)), pd("force", id("na.rm"))], vec![
        ex(median_of("x", "na.rm", lgl(true))),
    ])]));
    // f <- function(x, na.rm = FALSE, k = 2 * na.rm) {
    //   median(x, na.rm = TRUE)
    // }
    let twice = Expr::BinOp { op: BinOpKind::Mul, lhs: Box::new(num(2)), rhs: Box::new(id("na.rm")), span: S };
    assert!(!fires(vec![define(10, "f", vec![p("x"), pd("na.rm", lgl(false)), pd("k", twice)], vec![ex(
        median_of("x", "na.rm", lgl(true)),
    )])]));
    // f <- function(x, na.rm = FALSE) {
    //   g <- function(y, keep = na.rm) NULL
    //   median(x, na.rm = TRUE)
    // }
    assert!(!fires(vec![define(10, "f", vec![p("x"), pd("na.rm", lgl(false))], vec![
        assign("g", func(20, vec![p("y"), pd("keep", id("na.rm"))], vec![ex(Expr::Null(S))])),
        ex(median_of("x", "na.rm", lgl(true))),
    ])]));
}

#[test]
fn message_names_the_constant_and_the_fix() {
    // f <- function(x, na.rm = FALSE) median(x, na.rm = TRUE)
    let diagnostics = check(vec![define(10, "f", vec![p("x"), pd("na.rm", lgl(false))], vec![ex(median_of(
        "x",
        "na.rm",
        lgl(true),
    ))])]);
    let hits: Vec<_> = diagnostics.iter().filter(|d| d.code == "RY111").collect();
    assert_eq!(hits.len(), 1, "diagnostics: {diagnostics:?}");
    assert_eq!(hits[0].severity, Severity::Warning);
    assert!(hits[0].message.contains("`median`"), "message must name the callee: {}", hits[0].message);
    assert!(hits[0].message.contains("`na.rm = TRUE`"), "message must name the constant: {}", hits[0].message);
    assert!(hits[0].message.contains("`na.rm = na.rm`"), "message must name the fix: {}", hits[0].message);
}

#[test]
fn fires_once_per_site() {
    // f <- function(x, na.rm = FALSE, drop = TRUE) {
    //   a <- median(x, na.rm = TRUE)
    //   b <- median(x, na.rm = TRUE)
    // }
    let diagnostics = check(vec![define(10, "f", vec![p("x"), pd("na.rm", lgl(false)), pd("drop", lgl(true))], vec![
        assign("a", median_of("x", "na.rm", lgl(true))),
        assign("b", median_of("x", "na.rm", lgl(true))),
    ])]);
    assert_eq!(diagnostics.iter().filter(|d| d.code == "RY111").count(), 2, "diagnostics: {diagnostics:?}");
}
