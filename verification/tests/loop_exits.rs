use std::collections::HashSet;

use ry_checker::ast::{Expr, Span, Stmt};
use ry_checker::checker::{Checker, LoopExitFrame};
use ry_checker::loops::TransferShadowing;
use ry_checker::scope::Scope;
use ry_checker::types::{Length, Mode, RType};

fn checker() -> Checker {
    Checker {
        diagnostics: Vec::new(),
        discarding: false,
        source: String::new(),
        validate_user_call_arguments: false,
        fn_table: Vec::new(),
        enclosing_formals: Vec::new(),
        formal_reads: Vec::new(),
        loop_frames: Vec::new(),
        trusted_defusers: None,
        stubs: Default::default(),
    }
}

fn scope_with(bindings: &[(&str, Mode)]) -> Scope {
    let mut scope = Scope::new();
    for (name, mode) in bindings {
        scope.insert(name, RType::new(*mode, Length::One));
    }
    scope
}

fn mode_of(scope: &Scope, name: &str) -> Option<Mode> {
    scope.get(name).map(|t| t.mode)
}

#[test]
fn loop_without_transfer_exits_with_the_body_scope() {
    let mut c = checker();
    let mut outer = scope_with(&[("x", Mode::Integer)]);
    let mut inner = scope_with(&[("x", Mode::Integer)]);
    c.begin_loop(&mut inner);
    inner.insert("y", RType::new(Mode::Character, Length::One));
    c.finish_loop(&mut outer, inner, false, false);
    assert!(c.loop_frames.is_empty());
    assert_eq!(mode_of(&outer, "y"), Some(Mode::Character));
    assert_eq!(mode_of(&outer, "x"), Some(Mode::Integer));
    assert!(!outer.unreachable);
}

#[test]
fn break_path_joins_with_body_end() {
    let mut c = checker();
    let mut outer = scope_with(&[("x", Mode::Integer)]);
    let mut inner = scope_with(&[("x", Mode::Integer)]);
    c.begin_loop(&mut inner);
    let at_break = scope_with(&[("x", Mode::Integer)]);
    c.loop_frames[0] = LoopExitFrame { breaks: Some(Box::new(at_break)), nexts: None };
    inner.insert("x", RType::new(Mode::Character, Length::One));
    c.finish_loop(&mut outer, inner, false, true);
    // Integer at the break, character at the end of the body.
    assert_eq!(mode_of(&outer, "x"), Some(Mode::Union));
    assert!(!outer.unreachable);
}

#[test]
fn literal_true_loop_leaves_only_through_break() {
    let mut c = checker();
    let mut outer = scope_with(&[("x", Mode::Integer)]);
    let mut inner = scope_with(&[("x", Mode::Integer)]);
    c.begin_loop(&mut inner);
    let at_break = scope_with(&[("x", Mode::Double)]);
    c.loop_frames[0] = LoopExitFrame { breaks: Some(Box::new(at_break)), nexts: None };
    inner.insert("x", RType::new(Mode::Character, Length::One));
    c.finish_loop(&mut outer, inner, true, false);
    assert_eq!(mode_of(&outer, "x"), Some(Mode::Double));
    assert!(!outer.unreachable);
}

#[test]
fn literal_true_loop_with_only_next_never_exits() {
    let mut c = checker();
    let mut outer = scope_with(&[]);
    let mut inner = scope_with(&[]);
    c.begin_loop(&mut inner);
    let at_next = scope_with(&[("z", Mode::Logical)]);
    c.loop_frames[0] = LoopExitFrame { breaks: None, nexts: Some(Box::new(at_next)) };
    c.finish_loop(&mut outer, inner, true, false);
    assert!(outer.unreachable);
    assert_eq!(mode_of(&outer, "z"), None);
}

#[test]
fn unentered_finite_loop_keeps_the_entry_path() {
    let mut c = checker();
    let mut outer = scope_with(&[("x", Mode::Integer)]);
    let mut inner = scope_with(&[("x", Mode::Integer)]);
    c.begin_loop(&mut inner);
    let at_next = scope_with(&[("x", Mode::Integer)]);
    c.loop_frames[0] = LoopExitFrame { breaks: None, nexts: Some(Box::new(at_next)) };
    inner.insert("w", RType::new(Mode::Double, Length::One));
    c.finish_loop(&mut outer, inner, false, false);
    // `w` is bound only on the body path, so the join leaves it opaque.
    assert_eq!(mode_of(&outer, "w"), Some(Mode::Opaque));
    assert_eq!(mode_of(&outer, "x"), Some(Mode::Integer));
}

#[test]
fn unknown_body_effects_reach_the_scope_after_the_loop() {
    let mut c = checker();
    let mut outer = scope_with(&[]);
    let mut inner = scope_with(&[]);
    c.begin_loop(&mut inner);
    inner.invalidate_unknown_effects();
    c.finish_loop(&mut outer, inner, false, true);
    assert!(outer.effects_unknown);
}

const S: Span = Span { start: 0, end: 0 };

const NONE_SHADOWED: TransferShadowing = TransferShadowing { break_shadowed: false, next_shadowed: false };

fn word(name: &str) -> Stmt {
    Stmt::Expr(Expr::Ident { name: name.to_string(), span: S })
}

fn assign(name: &str) -> Stmt {
    Stmt::Assign { target: Expr::Ident { name: name.to_string(), span: S }, value: Expr::Integer(1, S), span: S }
}

fn names(v: Vec<String>) -> HashSet<String> {
    v.into_iter().collect()
}

fn expected(list: &[&str]) -> HashSet<String> {
    list.iter().map(|n| n.to_string()).collect()
}

#[test]
fn break_and_next_are_followable_transfers() {
    let c = checker();
    let scope = Scope::new();
    assert!(c.unmasked_loop_transfer("break", &scope, NONE_SHADOWED));
    assert!(c.unmasked_loop_transfer("next", &scope, NONE_SHADOWED));
    assert!(!c.unmasked_loop_transfer("return", &scope, NONE_SHADOWED));
}

#[test]
fn rebound_or_unknown_effects_mask_a_transfer() {
    let c = checker();
    let scope = Scope::new();
    let shadowed = TransferShadowing { break_shadowed: true, next_shadowed: false };
    assert!(!c.unmasked_loop_transfer("break", &scope, shadowed));
    assert!(c.unmasked_loop_transfer("next", &scope, shadowed));
    let mut unknown = Scope::new();
    unknown.effects_unknown = true;
    assert!(!c.unmasked_loop_transfer("next", &unknown, NONE_SHADOWED));
}

#[test]
fn iteration_ends_only_when_every_branch_transfers() {
    let c = checker();
    let scope = Scope::new();
    let both = Stmt::If { cond: Expr::Ident { name: "c".to_string(), span: S }, then: vec![word("break")], else_: Some(vec![word("next")]), span: S };
    assert!(c.ends_loop_iteration(&both, &scope, NONE_SHADOWED));
    let one = Stmt::If { cond: Expr::Ident { name: "c".to_string(), span: S }, then: vec![word("break")], else_: None, span: S };
    assert!(!c.ends_loop_iteration(&one, &scope, NONE_SHADOWED));
    let block = Stmt::Expr(Expr::Block { body: vec![assign("a"), word("next")], span: S });
    assert!(c.ends_loop_iteration(&block, &scope, NONE_SHADOWED));
}

#[test]
fn assignments_after_a_transfer_are_unreachable() {
    // { a <- 1; break; b <- 1 }
    let c = checker();
    let scope = Scope::new();
    let body = vec![assign("a"), word("break"), assign("b")];
    assert_eq!(names(c.reachable_loop_assignments(&body, &scope, NONE_SHADOWED)), expected(&["a"]));
    // Without a followable transfer, every assignment counts.
    let shadowed = TransferShadowing { break_shadowed: true, next_shadowed: true };
    assert_eq!(names(c.reachable_loop_assignments(&body, &scope, shadowed)), expected(&["a", "b"]));
}

#[test]
fn reachable_assignments_look_inside_the_ending_block() {
    // { a <- 1; { b <- 1; next; d <- 1 }; e <- 1 }
    let c = checker();
    let scope = Scope::new();
    let inner = Stmt::Expr(Expr::Block { body: vec![assign("b"), word("next"), assign("d")], span: S });
    let body = vec![assign("a"), inner, assign("e")];
    assert_eq!(names(c.reachable_loop_assignments(&body, &scope, NONE_SHADOWED)), expected(&["a", "b"]));
}

#[test]
fn recorded_break_reaches_the_loop_exit() {
    let mut c = checker();
    let mut outer = scope_with(&[("x", Mode::Integer)]);
    let mut inner = scope_with(&[("x", Mode::Integer)]);
    c.begin_loop(&mut inner);
    let mut at_break = inner.clone();
    at_break.insert("x", RType::new(Mode::Double, Length::One));
    assert!(c.record_loop_transfer("break", &mut at_break, NONE_SHADOWED));
    assert!(at_break.unreachable);
    assert!(c.loop_frames[0].breaks.is_some());
    assert!(c.loop_frames[0].nexts.is_none());
    c.finish_loop(&mut outer, inner, true, false);
    assert_eq!(mode_of(&outer, "x"), Some(Mode::Double));
    assert!(!outer.unreachable);
}

#[test]
fn transfer_outside_a_loop_is_not_recorded() {
    let mut c = checker();
    let mut scope = Scope::new();
    assert!(!c.record_loop_transfer("break", &mut scope, NONE_SHADOWED));
    assert!(!scope.unreachable);
    let mut inner = Scope::new();
    c.begin_loop(&mut inner);
    assert!(!c.record_loop_transfer("next", &mut inner, TransferShadowing { break_shadowed: false, next_shadowed: true }));
    assert!(c.loop_frames[0].nexts.is_none());
}
