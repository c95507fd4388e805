//! The test-template stage of `ifelse` calls. Each scenario gives the call
//! as a syntax tree together with the types inference gives its arguments
//! and the enclosing scope, and the type the stub's ordinary rule gives
//! (the branch join at the test's length).
use ry_checker::ast::{Arg, BinOpKind, Expr, Span, UnaryOpKind};
use ry_checker::checker::{Checker, Diagnostic, Severity};
use ry_checker::scope::Scope;
use ry_checker::test_template::{TestTemplateRule, TestTemplateSite};
use ry_checker::types::{Length, Mode, RType};
use ry_checker::typeshed::ParamSpec;

const S: Span = Span { start: 0, end: 0 };

fn checker() -> Checker {
    Checker {
        diagnostics: Vec::new(),
        discarding: false,
        source: String::new(),
        validate_user_call_arguments: false,
        fn_table: Vec::new(),
        enclosing_formals: Vec::new(),
        formal_reads: Vec::new(),
        loop_frames: Vec::new(),
        trusted_defusers: None,
        stubs: Default::default(),
    }
}

fn id(name: &str) -> Expr {
    Expr::Ident { name: name.to_string(), span: S }
}

fn chr(s: &str) -> Expr {
    Expr::String(s.to_string(), S)
}

fn na(mode: Mode) -> Expr {
    Expr::Na(RType::new(mode, Length::One), S)
}

fn call(func: &str, args: Vec<Arg>) -> Expr {
    Expr::Call { func: Box::new(id(func)), args, span: S }
}

fn pos(value: Expr) -> Arg {
    Arg { name: None, value, span: S }
}

fn named(name: &str, value: Expr) -> Arg {
    Arg { name: Some(name.to_string()), value, span: S }
}

fn gt0(lhs: Expr) -> Expr {
    Expr::BinOp { op: BinOpKind::Gt, lhs: Box::new(lhs), rhs: Box::new(Expr::Integer(0, S)), span: S }
}

fn ty(mode: Mode, length: Length) -> RType {
    RType::new(mode, length)
}

fn scope_with_parameter(name: &str) -> Scope {
    let mut scope = Scope::new();
    scope.insert_parameter(name, RType::unknown());
    scope
}

/// Run the stage on `ifelse(test, yes, no)`; `names` writes the
/// arguments as `test = `, `yes = `, `no = `.
fn stage(
    test: (Expr, RType),
    yes: (Expr, RType),
    no: (Expr, RType),
    scope: &Scope,
    names: bool,
) -> (Vec<Diagnostic>, Option<RType>) {
    let params: Vec<ParamSpec> = ["test", "yes", "no"]
        .into_iter()
        .map(|n| ParamSpec { name: n.to_string(), type_: None, required: true, default: None, demand_only: false })
        .collect();
    let rule = TestTemplateRule { test: "test".to_string(), values: vec!["yes".to_string(), "no".to_string()] };
    let test_length = test.1.length;
    let plain = RType { length: test_length, ..yes.1.clone_shallow().join(no.1.clone_shallow()) };
    let args = if names {
        vec![named("test", test.0), named("yes", yes.0), named("no", no.0)]
    } else {
        vec![pos(test.0), pos(yes.0), pos(no.0)]
    };
    let types = vec![test.1, yes.1, no.1];
    let mut c = checker();
    let r = c.infer_test_template_call("ifelse", Some(&rule), &params, &args, &types, scope, S, plain, true);
    (c.diagnostics, r)
}

trait ShallowClone {
    fn clone_shallow(&self) -> RType;
}

impl ShallowClone for RType {
    fn clone_shallow(&self) -> RType {
        RType::new(self.mode, self.length)
    }
}

fn fires(result: &(Vec<Diagnostic>, Option<RType>)) -> bool {
    result.0.iter().any(|d| d.code == "RY106")
}

#[test]
fn fires_on_the_hms_shape_with_an_open_world_test() {
    // format_hms <- function(x) {
    //   ifelse(is.na(x), NA_character_, paste0('00:', x))
    // }
    let scope = scope_with_parameter("x");
    let r = stage(
        (call("is.na", vec![pos(id("x"))]), ty(Mode::Logical, Length::Unknown)),
        (na(Mode::Character), ty(Mode::Character, Length::One)),
        (call("paste0", vec![pos(chr("00:")), pos(id("x"))]), ty(Mode::Character, Length::Unknown)),
        &scope,
        false,
    );
    assert!(fires(&r));
}

#[test]
fn fires_on_literal_empty_and_na_tests() {
    let scope = Scope::new();
    // a <- ifelse(logical(0), NA_character_, 'a')
    let r = stage(
        (call("logical", vec![pos(Expr::Integer(0, S))]), ty(Mode::Logical, Length::Zero)),
        (na(Mode::Character), ty(Mode::Character, Length::One)),
        (chr("a"), ty(Mode::Character, Length::One)),
        &scope,
        false,
    );
    assert!(fires(&r));
    // b <- ifelse(NA, 'a', 'b')
    let r = stage(
        (na(Mode::Logical), ty(Mode::Logical, Length::One)),
        (chr("a"), ty(Mode::Character, Length::One)),
        (chr("b"), ty(Mode::Character, Length::One)),
        &scope,
        false,
    );
    assert!(fires(&r));
}

#[test]
fn fires_on_other_literal_empty_constructions() {
    let scope = Scope::new();
    // a <- ifelse(NULL, 'a', 'b')
    assert!(fires(&stage(
        (Expr::Null(S), ty(Mode::Null, Length::Zero)),
        (chr("a"), ty(Mode::Character, Length::One)),
        (chr("b"), ty(Mode::Character, Length::One)),
        &scope,
        false,
    )));
    // a <- ifelse(character(), 'a', 'b')
    assert!(fires(&stage(
        (call("character", vec![]), ty(Mode::Character, Length::Zero)),
        (chr("a"), ty(Mode::Character, Length::One)),
        (chr("b"), ty(Mode::Character, Length::One)),
        &scope,
        false,
    )));
    // a <- ifelse(integer(length = 0), 1L, 2L)
    assert!(fires(&stage(
        (call("integer", vec![named("length", Expr::Integer(0, S))]), ty(Mode::Integer, Length::Zero)),
        (Expr::Integer(1, S), ty(Mode::Integer, Length::One)),
        (Expr::Integer(2, S), ty(Mode::Integer, Length::One)),
        &scope,
        false,
    )));
}

#[test]
fn inferred_zero_length_is_not_a_definite_empty_proof() {
    // v <- c()[1]
    // a <- ifelse(v > 0, 'pos', 'neg')
    let mut scope = Scope::new();
    scope.insert("v", ty(Mode::Logical, Length::Zero));
    let r = stage(
        (gt0(id("v")), ty(Mode::Logical, Length::Zero)),
        (chr("pos"), ty(Mode::Character, Length::One)),
        (chr("neg"), ty(Mode::Character, Length::One)),
        &scope,
        false,
    );
    assert!(!fires(&r));
    assert_eq!(r.1.expect("a result").mode, Mode::Character, "inferred-Zero keeps the branch join");
    // a <- ifelse(v > 0, 'pos', NA_character_)
    let r = stage(
        (gt0(id("v")), ty(Mode::Logical, Length::Zero)),
        (chr("pos"), ty(Mode::Character, Length::One)),
        (na(Mode::Character), ty(Mode::Character, Length::One)),
        &scope,
        false,
    );
    assert!(fires(&r));
}

#[test]
fn fires_on_a_parameter_test_with_a_typed_na_branch() {
    let scope = scope_with_parameter("x");
    // f <- function(x) ifelse(x > 0, 'pos', NA_character_)
    assert!(fires(&stage(
        (gt0(id("x")), ty(Mode::Logical, Length::Unknown)),
        (chr("pos"), ty(Mode::Character, Length::One)),
        (na(Mode::Character), ty(Mode::Character, Length::One)),
        &scope,
        false,
    )));
    // f <- function(x) ifelse(is.na(x), NA_real_, 1)
    assert!(fires(&stage(
        (call("is.na", vec![pos(id("x"))]), ty(Mode::Logical, Length::Unknown)),
        (na(Mode::Double), ty(Mode::Double, Length::One)),
        (Expr::Integer(1, S), ty(Mode::Double, Length::One)),
        &scope,
        false,
    )));
}

#[test]
fn fires_for_named_and_qualified_calls() {
    // f <- function(x) base::ifelse(test = x, yes = NA_character_, no = 'b')
    let scope = scope_with_parameter("x");
    let r = stage(
        (id("x"), RType::unknown()),
        (na(Mode::Character), ty(Mode::Character, Length::One)),
        (chr("b"), ty(Mode::Character, Length::One)),
        &scope,
        true,
    );
    assert!(fires(&r));
    let d = &r.0[0];
    assert_eq!(d.severity, Severity::Warning);
    assert_eq!(
        d.message,
        "`ifelse()` builds its result from `test`, so an empty test leaves a logical result even though the branches are both character; use a typed alternative such as `dplyr::if_else()` when the result must be character"
    );
}

#[test]
fn fires_when_only_the_default_pins_a_nonempty_test() {
    // f <- function(flag = c(TRUE, FALSE)) ifelse(flag, NA_character_, 'b')
    let mut scope = Scope::new();
    scope.insert_parameter_default("flag", ty(Mode::Logical, Length::Known(2)));
    assert!(fires(&stage(
        (id("flag"), ty(Mode::Logical, Length::Known(2))),
        (na(Mode::Character), ty(Mode::Character, Length::One)),
        (chr("b"), ty(Mode::Character, Length::One)),
        &scope,
        false,
    )));
}

#[test]
fn stays_silent_for_open_world_tests_without_mode_intent() {
    let scope = scope_with_parameter("x");
    // f <- function(x) ifelse(x > 0, 'pos', 'neg')
    assert!(!fires(&stage(
        (gt0(id("x")), ty(Mode::Logical, Length::Unknown)),
        (chr("pos"), ty(Mode::Character, Length::One)),
        (chr("neg"), ty(Mode::Character, Length::One)),
        &scope,
        false,
    )));
    // f <- function(x) ifelse(x, 1L, 2L)
    assert!(!fires(&stage(
        (id("x"), RType::unknown()),
        (Expr::Integer(1, S), ty(Mode::Integer, Length::One)),
        (Expr::Integer(2, S), ty(Mode::Integer, Length::One)),
        &scope,
        false,
    )));
    // f <- function(x) ifelse(!is.na(x), 1, 0)
    let test = Expr::UnaryOp { op: UnaryOpKind::Not, expr: Box::new(call("is.na", vec![pos(id("x"))])), span: S };
    assert!(!fires(&stage(
        (test, ty(Mode::Logical, Length::Unknown)),
        (Expr::Integer(1, S), ty(Mode::Double, Length::One)),
        (Expr::Integer(0, S), ty(Mode::Double, Length::One)),
        &scope,
        false,
    )));
}

#[test]
fn stays_silent_for_local_nafree_tests_of_known_length() {
    // v <- c(-1, 0, 1)
    let mut scope = Scope::new();
    scope.insert("v", ty(Mode::Double, Length::Known(3)));
    // a <- ifelse(v > 0, 'pos', 'neg')
    assert!(!fires(&stage(
        (gt0(id("v")), ty(Mode::Logical, Length::Known(3))),
        (chr("pos"), ty(Mode::Character, Length::One)),
        (chr("neg"), ty(Mode::Character, Length::One)),
        &scope,
        false,
    )));
    // b <- ifelse(is.na(v), NA_character_, 'x')
    assert!(!fires(&stage(
        (call("is.na", vec![pos(id("v"))]), ty(Mode::Logical, Length::Known(3))),
        (na(Mode::Character), ty(Mode::Character, Length::One)),
        (chr("x"), ty(Mode::Character, Length::One)),
        &scope,
        false,
    )));
    // a <- ifelse(TRUE, 'a', 'b')
    assert!(!fires(&stage(
        (Expr::Logical(true, S), ty(Mode::Logical, Length::One)),
        (chr("a"), ty(Mode::Character, Length::One)),
        (chr("b"), ty(Mode::Character, Length::One)),
        &scope,
        false,
    )));
    // a <- ifelse(c(TRUE, NA), 'a', 'b')
    assert!(!fires(&stage(
        (call("c", vec![pos(Expr::Logical(true, S)), pos(na(Mode::Logical))]), ty(Mode::Logical, Length::Known(2))),
        (chr("a"), ty(Mode::Character, Length::One)),
        (chr("b"), ty(Mode::Character, Length::One)),
        &scope,
        false,
    )));
}

#[test]
fn stays_silent_for_logical_or_disagreeing_branches() {
    let scope = scope_with_parameter("x");
    // f <- function(x) ifelse(x, TRUE, FALSE)
    assert!(!fires(&stage(
        (id("x"), RType::unknown()),
        (Expr::Logical(true, S), ty(Mode::Logical, Length::One)),
        (Expr::Logical(false, S), ty(Mode::Logical, Length::One)),
        &scope,
        false,
    )));
    // f <- function(x) ifelse(x, 1L, 'a')
    assert!(!fires(&stage(
        (id("x"), RType::unknown()),
        (Expr::Integer(1, S), ty(Mode::Integer, Length::One)),
        (chr("a"), ty(Mode::Character, Length::One)),
        &scope,
        false,
    )));
}

#[test]
fn stays_silent_when_the_project_defines_ifelse() {
    // ifelse <- function(test, yes, no) test
    // a <- ifelse(logical(0), 'a', 'b')
    // The project's own `ifelse` shadows the stub, so no stub rule applies.
    let mut c = checker();
    let params: Vec<ParamSpec> = Vec::new();
    let args = vec![pos(call("logical", vec![pos(Expr::Integer(0, S))])), pos(chr("a")), pos(chr("b"))];
    let types = vec![ty(Mode::Logical, Length::Zero), ty(Mode::Character, Length::One), ty(Mode::Character, Length::One)];
    let r = c.infer_test_template_call("ifelse", None, &params, &args, &types, &Scope::new(), S, RType::unknown(), true);
    assert!(r.is_none());
    assert!(c.diagnostics.iter().all(|d| d.code != "RY106"));
}

#[test]
fn empty_test_infers_a_definite_logical_result() {
    // a <- ifelse(logical(0), NA_character_, 'a')
    let r = stage(
        (call("logical", vec![pos(Expr::Integer(0, S))]), ty(Mode::Logical, Length::Zero)),
        (na(Mode::Character), ty(Mode::Character, Length::One)),
        (chr("a"), ty(Mode::Character, Length::One)),
        &Scope::new(),
        false,
    );
    let t = r.1.expect("a result");
    assert_eq!(t.mode, Mode::Logical);
    assert_eq!(t.length, Length::Zero);
}

#[test]
fn na_test_infers_a_definite_logical_result() {
    // b <- ifelse(NA, 'a', 'b')
    let r = stage(
        (na(Mode::Logical), ty(Mode::Logical, Length::One)),
        (chr("a"), ty(Mode::Character, Length::One)),
        (chr("b"), ty(Mode::Character, Length::One)),
        &Scope::new(),
        false,
    );
    let t = r.1.expect("a result");
    assert_eq!(t.mode, Mode::Logical);
    assert_eq!(t.length, Length::One);
}

#[test]
fn maybe_empty_test_infers_the_logical_union() {
    // g <- function(x) ifelse(x > 0, 'pos', 'neg')
    let scope = scope_with_parameter("x");
    let r = stage(
        (gt0(id("x")), ty(Mode::Logical, Length::Unknown)),
        (chr("pos"), ty(Mode::Character, Length::One)),
        (chr("neg"), ty(Mode::Character, Length::One)),
        &scope,
        false,
    );
    let t = r.1.expect("a result");
    assert_eq!(t.mode, Mode::Union);
    let members = t.members.expect("union carries members");
    assert_eq!(members.len(), 2);
    assert!(members.iter().any(|m| m.mode == Mode::Logical));
    assert!(members.iter().any(|m| m.mode == Mode::Character));
}

#[test]
fn provably_nonempty_test_keeps_the_branch_join() {
    // v <- c(-1, 0, 1)
    // a <- ifelse(v > 0, 'pos', 'neg')
    let mut scope = Scope::new();
    scope.insert("v", ty(Mode::Double, Length::Known(3)));
    let r = stage(
        (gt0(id("v")), ty(Mode::Logical, Length::Known(3))),
        (chr("pos"), ty(Mode::Character, Length::One)),
        (chr("neg"), ty(Mode::Character, Length::One)),
        &scope,
        false,
    );
    let t = r.1.expect("a result");
    assert_eq!(t.mode, Mode::Character);
    assert_eq!(t.length, Length::Known(3));
}

#[test]
fn collapse_report_needs_a_shared_mode_and_a_premise() {
    let site = |definite: bool, may: bool, typed: bool, mode: Option<Mode>| TestTemplateSite {
        lookup_name: "ifelse".to_string(),
        definite_collapse: definite,
        definitely_na: false,
        may_be_empty: may,
        typed_na_branch: typed,
        branch_mode: mode,
    };
    let mut c = checker();
    c.check_test_template_mode_collapse(&site(true, false, false, None), S);
    c.check_test_template_mode_collapse(&site(false, true, false, Some(Mode::Double)), S);
    c.check_test_template_mode_collapse(&site(false, false, true, Some(Mode::Double)), S);
    assert!(c.diagnostics.is_empty());
    c.check_test_template_mode_collapse(&site(false, true, true, Some(Mode::Double)), S);
    c.check_test_template_mode_collapse(&site(true, false, false, Some(Mode::Integer)), S);
    assert_eq!(c.diagnostics.len(), 2);
    let mut all_na = site(true, false, false, Some(Mode::Raw));
    all_na.definitely_na = true;
    c.check_test_template_mode_collapse(&all_na, S);
    assert!(c.diagnostics[2].message.contains("an all-`NA` test"));
}
