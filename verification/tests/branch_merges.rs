use ry_checker::checker::Checker;
use ry_checker::merge::join_path;
use ry_checker::scope::Scope;
use ry_checker::types::{Length, Mode, RType};

fn checker() -> Checker {
    Checker {
        diagnostics: Vec::new(),
        discarding: false,
        source: String::new(),
        validate_user_call_arguments: false,
        fn_table: Vec::new(),
        enclosing_formals: Vec::new(),
        formal_reads: Vec::new(),
        loop_frames: Vec::new(),
        trusted_defusers: None,
        stubs: Default::default(),
    }
}

fn scope_with(bindings: &[(&str, Mode)]) -> Scope {
    let mut scope = Scope::new();
    for (name, mode) in bindings {
        scope.insert(name, RType::new(*mode, Length::One));
    }
    scope
}

fn mode_of(scope: &Scope, name: &str) -> Option<Mode> {
    scope.get(name).map(|t| t.mode)
}

#[test]
fn a_change_in_both_branches_joins_with_the_parent() {
    let c = checker();
    let mut parent = scope_with(&[("x", Mode::Integer), ("keep", Mode::Logical)]);
    let then_scope = scope_with(&[("x", Mode::Character), ("keep", Mode::Logical)]);
    let else_scope = scope_with(&[("x", Mode::Character), ("keep", Mode::Logical)]);
    c.merge_branch_bindings(&mut parent, then_scope, else_scope, true, &Vec::new());
    assert_eq!(mode_of(&parent, "x"), Some(Mode::Union));
    assert_eq!(mode_of(&parent, "keep"), Some(Mode::Logical));
}

#[test]
fn a_change_in_one_branch_becomes_opaque() {
    let c = checker();
    let mut parent = scope_with(&[("x", Mode::Integer)]);
    let then_scope = scope_with(&[("x", Mode::Character), ("y", Mode::Double)]);
    let else_scope = scope_with(&[("x", Mode::Integer)]);
    c.merge_branch_bindings(&mut parent, then_scope, else_scope, true, &Vec::new());
    assert_eq!(mode_of(&parent, "x"), Some(Mode::Opaque));
    assert_eq!(mode_of(&parent, "y"), Some(Mode::Opaque));
}

#[test]
fn names_bound_alike_in_both_branches_keep_their_type() {
    let c = checker();
    let mut parent = scope_with(&[]);
    let then_scope = scope_with(&[("z", Mode::Logical)]);
    let else_scope = scope_with(&[("z", Mode::Logical)]);
    c.merge_branch_bindings(&mut parent, then_scope, else_scope, true, &Vec::new());
    assert_eq!(mode_of(&parent, "z"), Some(Mode::Logical));
}

#[test]
fn a_branch_narrowing_is_not_folded_back() {
    let c = checker();
    let mut parent = scope_with(&[("x", Mode::Opaque)]);
    let mut then_scope = scope_with(&[("x", Mode::Opaque)]);
    then_scope.insert_narrowed("x", RType::new(Mode::Character, Length::One));
    let else_scope = scope_with(&[("x", Mode::Opaque)]);
    c.merge_branch_bindings(&mut parent, then_scope, else_scope, true, &vec!["x".to_string()]);
    assert_eq!(mode_of(&parent, "x"), Some(Mode::Opaque));
    assert!(parent.get("x").is_some());
}

#[test]
fn joined_paths_join_bindings_and_keep_common_list_origins() {
    let mut paths: Option<Box<Scope>> = None;
    let mut first = scope_with(&[("a", Mode::Integer), ("b", Mode::List)]);
    first.mark_list_origin("b");
    join_path(&mut paths, &first);
    assert_eq!(paths.as_ref().and_then(|s| mode_of(s, "a")), Some(Mode::Integer));
    let mut second = scope_with(&[("a", Mode::Integer), ("b", Mode::List), ("c", Mode::Double)]);
    second.mark_list_origin("b");
    second.invalidate_unknown_effects();
    join_path(&mut paths, &second);
    let joined = paths.expect("a path");
    assert_eq!(mode_of(&joined, "a"), Some(Mode::Integer));
    assert_eq!(mode_of(&joined, "c"), Some(Mode::Opaque));
    assert!(joined.has_list_origin("b"));
    assert!(joined.effects_unknown);
    let mut third = scope_with(&[("b", Mode::List)]);
    third.unreachable = false;
    let mut paths = Some(joined);
    join_path(&mut paths, &third);
    let joined = paths.unwrap();
    assert!(!joined.has_list_origin("b"));
    assert_eq!(mode_of(&joined, "a"), Some(Mode::Opaque));
}
